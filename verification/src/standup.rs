//! The session's view of where the agents are, joined to git's view of the disk,
//! grouped by repository.
//!
//! A digest is built in steps, each with a reason to be there:
//!
//! 1. **Candidate directories** are collected: those of the panes, then those
//!    named by hand. Git is the authority on what is a checkout.
//! 2. **Each is identified.** Two workspaces in one directory collapse to one
//!    checkout that carries both.
//! 3. **Siblings are added**: other worktrees of the same repository, which no
//!    workspace is sitting in. An agent that finished and had its workspace
//!    closed still produced commits today.
//! 4. **The window is resolved**, in a real repository.
//! 5. **Each checkout is reported**, and the reports are rolled up by repository.
//!
//! [`Build`] decides what comes next. Who holds it runs the commands.

use vstd::prelude::*;

use crate::config;
use crate::config::{Config, Ignored};
use crate::git::identify::{CheckoutId, Identity, Worktrees, WorktreesView};
use crate::model;
use crate::model::{
    Activity, AgentRef, CheckoutDigest, CheckoutReport, Churn, Digest, Note, RepoDigest, RepoKey,
    Severity, Stamp, Text, Window, WorkspaceRef, SCHEMA_VERSION,
};
use crate::order;
use crate::paths;
use crate::paths::Place;
use crate::placing;
use crate::placing::Placement;
use crate::render;
use crate::rollup;
use crate::strings;

verus! {

// ---------------------------------------------------------------------------
// Workspaces
// ---------------------------------------------------------------------------

/// Whether the session has to be asked for its workspaces; an error where there
/// would be nothing to report on.
pub fn asks_session(config: &Config) -> (out: Result<bool, String>)
    ensures
        match out {
            Ok(asks) => asks == !config@.offline && (config@.offline
                ==> config@.extra_paths.len() > 0),
            Err(reason) => config@.offline && config@.extra_paths.len() == 0 && reason@
                == "--offline needs at least one --path to report on"@,
        },
{
    assert(config@.extra_paths.len() == config.extra_paths@.len());
    if config.offline {
        if config.extra_paths.len() == 0 {
            return Err("--offline needs at least one --path to report on".to_string());
        }
        return Ok(false);
    }
    Ok(true)
}

pub open spec fn unreachable_text(error: Text) -> Text {
    "herdr is not reachable ("@ + error + "); reporting only the paths given with --path"@
}

/// The workspaces to report on, from what the session answered. A session that
/// cannot be reached is fatal unless paths were named by hand, in which case the
/// digest degrades to those with a warning.
pub open spec fn workspaces_of(
    config: config::ConfigView,
    answer: Result<Seq<model::WorkspaceView>, Text>,
) -> Result<(Seq<model::WorkspaceView>, Seq<Note<Text>>), Text> {
    match answer {
        Ok(workspaces) => Ok((workspaces, Seq::empty())),
        Err(error) => if config.extra_paths.len() > 0 {
            Ok(
                (
                    Seq::empty(),
                    seq![
                        Note { severity: Severity::Warning, message: unreachable_text(error) },
                    ],
                ),
            )
        } else {
            Err(error)
        },
    }
}

/// The workspaces of the session, or a clearly-explained empty list.
pub fn collect_workspaces(
    config: &Config,
    answer: Result<Vec<WorkspaceRef>, String>,
) -> (out: Result<(Vec<WorkspaceRef>, Vec<Note>), String>)
    ensures
        ({
            let asked = match answer {
                Ok(workspaces) => Ok(strings::views(workspaces@)),
                Err(error) => Err(error@),
            };
            match out {
                Ok((workspaces, notes)) => workspaces_of(config@, asked) == Ok::<
                    (Seq<model::WorkspaceView>, Seq<Note<Text>>),
                    Text,
                >((strings::views(workspaces@), strings::views(notes@))),
                Err(reason) => workspaces_of(config@, asked) == Err::<
                    (Seq<model::WorkspaceView>, Seq<Note<Text>>),
                    Text,
                >(reason@),
            }
        }),
{
    assert(config@.extra_paths.len() == config.extra_paths@.len());
    let mut notes: Vec<Note> = Vec::new();
    assert(strings::views(notes@) =~= Seq::empty());
    match answer {
        Ok(workspaces) => Ok((workspaces, notes)),
        Err(error) => {
            if config.extra_paths.len() == 0 {
                return Err(error);
            }
            notes.push(
                Note::warning(
                    strings::cat3(
                        "herdr is not reachable (",
                        error.as_str(),
                        "); reporting only the paths given with --path",
                    ),
                ),
            );
            assert(strings::views(notes@) =~= seq![
                Note { severity: Severity::Warning, message: unreachable_text(error@) },
            ]);
            let none: Vec<WorkspaceRef> = Vec::new();
            assert(strings::views(none@) =~= Seq::empty());
            Ok((none, notes))
        },
    }
}

// ---------------------------------------------------------------------------
// Candidate directories
// ---------------------------------------------------------------------------

/// A list with further places, each once.
pub open spec fn push_places(list: Seq<Text>, places: Seq<Text>) -> Seq<Text>
    decreases places.len(),
{
    if places.len() == 0 {
        list
    } else {
        paths::with_place(push_places(list, places.drop_last()), places.last())
    }
}

pub open spec fn occupied(workspaces: Seq<model::WorkspaceView>) -> Seq<Text>
    decreases workspaces.len(),
{
    if workspaces.len() == 0 {
        Seq::empty()
    } else {
        push_places(occupied(workspaces.drop_last()), workspaces.last().paths)
    }
}

/// The directories to look at, each once: those of the workspaces first, so the
/// digest reads in sidebar order, then the one the plugin was invoked from, then
/// those named by hand.
pub open spec fn candidates_of(
    config: config::ConfigView,
    workspaces: Seq<model::WorkspaceView>,
) -> Seq<Text> {
    let here = match config.scope.invocation_cwd {
        Some(dir) => if config.offline {
            occupied(workspaces)
        } else {
            paths::with_place(occupied(workspaces), dir)
        },
        None => occupied(workspaces),
    };
    push_places(here, config.extra_paths)
}

fn push_all(list: &mut Vec<String>, places: &Vec<String>)
    ensures
        strings::views(final(list)@) == push_places(
            strings::views(old(list)@),
            strings::views(places@),
        ),
{
    broadcast use strings::group_lists;

    let ghost start = strings::views(list@);
    let ghost all = strings::views(places@);
    for i in 0..places.len()
        invariant
            all == strings::views(places@),
            strings::views(list@) == push_places(start, all.take(i as int)),
    {
        broadcast use strings::group_lists;

        assert(all.take(i + 1).drop_last() =~= all.take(i as int));
        assert(all[i as int] == places@[i as int]@);
        paths::push_unique(list, places[i].as_str());
    }
    assert(all.take(all.len() as int) =~= all);
}

/// The directories to look at.
pub fn candidates(config: &Config, workspaces: &Vec<WorkspaceRef>) -> (out: Vec<String>)
    ensures
        strings::views(out@) == candidates_of(config@, strings::views(workspaces@)),
{
    broadcast use strings::group_lists;

    let ghost all = strings::views(workspaces@);
    let mut out: Vec<String> = Vec::new();
    for i in 0..workspaces.len()
        invariant
            all == strings::views(workspaces@),
            strings::views(out@) == occupied(all.take(i as int)),
    {
        broadcast use strings::group_lists;

        assert(all.take(i + 1).drop_last() =~= all.take(i as int));
        assert(all[i as int] == workspaces@[i as int]@);
        push_all(&mut out, &workspaces[i].paths);
    }
    assert(all.take(all.len() as int) =~= all);
    if !config.offline {
        if let Some(dir) = &config.scope.invocation_cwd {
            paths::push_unique(&mut out, dir.as_str());
        }
    }
    push_all(&mut out, &config.extra_paths);
    out
}

// ---------------------------------------------------------------------------
// Checkouts
// ---------------------------------------------------------------------------

/// A checkout and the workspaces that are sitting in it.
#[derive(Debug, PartialEq, Eq)]
pub struct Site {
    pub id: CheckoutId,
    pub workspaces: Vec<WorkspaceRef>,
}

#[verifier::ext_equal]
pub struct SiteView {
    pub id: CheckoutId<Text>,
    pub workspaces: Seq<model::WorkspaceView>,
}

impl View for Site {
    type V = SiteView;

    open spec fn view(&self) -> SiteView {
        SiteView { id: self.id@, workspaces: strings::views(self.workspaces@) }
    }
}

/// What has been found so far: the checkouts, which of them each directory is
/// part of, and what to say.
#[derive(Debug, PartialEq, Eq)]
pub struct Found {
    pub sites: Vec<Site>,
    pub resolved: Vec<(String, String)>,
    pub notes: Vec<Note>,
}

#[verifier::ext_equal]
pub struct FoundView {
    pub sites: Seq<SiteView>,
    pub resolved: Seq<(Text, Text)>,
    pub notes: Seq<Note<Text>>,
}

impl View for Found {
    type V = FoundView;

    open spec fn view(&self) -> FoundView {
        FoundView {
            sites: strings::views(self.sites@),
            resolved: strings::views(self.resolved@),
            notes: strings::views(self.notes@),
        }
    }
}

pub open spec fn has_workspace(workspaces: Seq<model::WorkspaceView>, id: Text) -> bool {
    exists|i: int| 0 <= i < workspaces.len() && (#[trigger] workspaces[i]).workspace_id == id
}

/// A list of workspaces with further ones, each once.
pub open spec fn with_workspaces(
    list: Seq<model::WorkspaceView>,
    more: Seq<model::WorkspaceView>,
) -> Seq<model::WorkspaceView>
    decreases more.len(),
{
    if more.len() == 0 {
        list
    } else {
        let before = with_workspaces(list, more.drop_last());
        if has_workspace(before, more.last().workspace_id) {
            before
        } else {
            before.push(more.last())
        }
    }
}

/// Those of the workspaces that have a directory, each once.
pub open spec fn sitting_in(
    workspaces: Seq<model::WorkspaceView>,
    dir: Text,
) -> Seq<model::WorkspaceView>
    decreases workspaces.len(),
{
    if workspaces.len() == 0 {
        Seq::empty()
    } else {
        let before = sitting_in(workspaces.drop_last(), dir);
        let last = workspaces.last();
        if paths::has_place(last.paths, dir) && !has_workspace(before, last.workspace_id) {
            before.push(last)
        } else {
            before
        }
    }
}

/// The position of a checkout among the sites; their number where it is not
/// there.
pub open spec fn site_at(sites: Seq<SiteView>, path: Text) -> nat
    decreases sites.len(),
{
    if sites.len() == 0 {
        0
    } else if paths::same_place(sites[0].id.path, path) {
        0
    } else {
        1 + site_at(sites.drop_first(), path)
    }
}

/// The sites with one more checkout: a checkout that is there already takes over
/// the workspaces.
pub open spec fn merged(
    sites: Seq<SiteView>,
    id: CheckoutId<Text>,
    workspaces: Seq<model::WorkspaceView>,
) -> Seq<SiteView> {
    let at = site_at(sites, id.path) as int;
    if at >= sites.len() {
        sites.push(SiteView { id, workspaces })
    } else {
        sites.update(
            at,
            SiteView {
                workspaces: with_workspaces(sites[at].workspaces, workspaces),
                ..sites[at]
            },
        )
    }
}

/// `workspace "notes": `, so that a skipped directory can be traced back to the
/// workspace it belongs to.
pub open spec fn label_text(workspaces: Seq<model::WorkspaceView>, dir: Text) -> Text
    decreases workspaces.len(),
{
    if workspaces.len() == 0 {
        Seq::empty()
    } else if paths::has_place(workspaces[0].paths, dir) {
        "workspace "@ + strings::quoted_text(workspaces[0].label) + ": "@
    } else {
        label_text(workspaces.drop_first(), dir)
    }
}

/// What has been found, with a candidate directory identified.
pub open spec fn identified(
    found: FoundView,
    workspaces: Seq<model::WorkspaceView>,
    candidate: Text,
    identity: Identity<Text>,
) -> FoundView {
    match identity {
        Identity::Checkout(id) => FoundView {
            sites: merged(found.sites, id, sitting_in(workspaces, candidate)),
            resolved: found.resolved.push((candidate, id.path)),
            ..found
        },
        Identity::Nothing => FoundView {
            notes: found.notes.push(
                Note {
                    severity: Severity::Info,
                    message: label_text(workspaces, candidate) + candidate
                        + " is not a git checkout — skipped"@,
                },
            ),
            ..found
        },
        Identity::Failed(error) => FoundView {
            notes: found.notes.push(
                Note {
                    severity: Severity::Warning,
                    message: "could not inspect "@ + candidate + ": "@ + error,
                },
            ),
            ..found
        },
    }
}

/// What has been found, with another worktree of a repository identified. One
/// that is gone is not worth a note; it is not where any agent worked.
pub open spec fn sibling_identified(
    found: FoundView,
    place: Place<Text, Seq<u8>>,
    identity: Identity<Text>,
) -> FoundView {
    match identity {
        Identity::Checkout(id) => FoundView {
            sites: merged(found.sites, id, Seq::empty()),
            ..found
        },
        Identity::Nothing => found,
        Identity::Failed(error) => FoundView {
            notes: found.notes.push(
                Note {
                    severity: Severity::Warning,
                    message: "could not inspect worktree "@ + place.shown() + ": "@ + error,
                },
            ),
            ..found
        },
    }
}

/// One checkout of each repository, in the order in which they were found.
pub open spec fn seeds_of(sites: Seq<SiteView>) -> Seq<CheckoutId<Text>>
    decreases sites.len(),
{
    if sites.len() == 0 {
        Seq::empty()
    } else {
        let before = seeds_of(sites.drop_last());
        let last = sites.last().id;
        if has_key(before, last.repo_key) {
            before
        } else {
            before.push(last)
        }
    }
}

pub open spec fn has_key(ids: Seq<CheckoutId<Text>>, key: RepoKey<Text>) -> bool {
    exists|i: int| 0 <= i < ids.len() && (#[trigger] ids[i]).repo_key == key
}

/// Whether a place is the root of a checkout that has been found.
pub open spec fn is_site(sites: Seq<SiteView>, place: Place<Text, Seq<u8>>) -> bool {
    match place {
        Place::Named(path) => site_at(sites, path) < sites.len(),
        Place::Raw(_) => false,
    }
}

/// The siblings from the first one on that has not been found already.
pub open spec fn unknown_from(
    siblings: Seq<Place<Text, Seq<u8>>>,
    sites: Seq<SiteView>,
) -> Seq<Place<Text, Seq<u8>>>
    decreases siblings.len(),
{
    if siblings.len() > 0 && is_site(sites, siblings[0]) {
        unknown_from(siblings.drop_first(), sites)
    } else {
        siblings
    }
}

fn knows_workspace(workspaces: &Vec<WorkspaceRef>, id: &str) -> (answer: bool)
    ensures
        answer == has_workspace(strings::views(workspaces@), id@),
{
    let ghost all = strings::views(workspaces@);
    for i in 0..workspaces.len()
        invariant
            all == strings::views(workspaces@),
            forall|k: int| 0 <= k < i ==> (#[trigger] all[k]).workspace_id != id@,
    {
        assert(all[i as int] == workspaces@[i as int]@);
        if strings::same(workspaces[i].workspace_id.as_str(), id) {
            return true;
        }
    }
    false
}

fn add_workspaces(list: &mut Vec<WorkspaceRef>, more: &Vec<WorkspaceRef>)
    ensures
        strings::views(final(list)@) == with_workspaces(
            strings::views(old(list)@),
            strings::views(more@),
        ),
{
    broadcast use strings::group_lists;

    let ghost start = strings::views(list@);
    let ghost all = strings::views(more@);
    for i in 0..more.len()
        invariant
            all == strings::views(more@),
            strings::views(list@) == with_workspaces(start, all.take(i as int)),
    {
        broadcast use strings::group_lists;

        assert(all.take(i + 1).drop_last() =~= all.take(i as int));
        assert(all[i as int] == more@[i as int]@);
        if !knows_workspace(list, more[i].workspace_id.as_str()) {
            list.push(more[i].clone());
        }
    }
    assert(all.take(all.len() as int) =~= all);
}

fn occupants(workspaces: &Vec<WorkspaceRef>, dir: &str) -> (out: Vec<WorkspaceRef>)
    ensures
        strings::views(out@) == sitting_in(strings::views(workspaces@), dir@),
{
    broadcast use strings::group_lists;

    let ghost all = strings::views(workspaces@);
    let mut out: Vec<WorkspaceRef> = Vec::new();
    for i in 0..workspaces.len()
        invariant
            all == strings::views(workspaces@),
            strings::views(out@) == sitting_in(all.take(i as int), dir@),
    {
        broadcast use strings::group_lists;

        let workspace = &workspaces[i];
        assert(all.take(i + 1).drop_last() =~= all.take(i as int));
        assert(all[i as int] == workspace@);
        if paths::holds_place(&workspace.paths, dir) && !knows_workspace(
            &out,
            workspace.workspace_id.as_str(),
        ) {
            out.push(workspace.clone());
        }
    }
    assert(all.take(all.len() as int) =~= all);
    out
}

fn label_for(workspaces: &Vec<WorkspaceRef>, dir: &str) -> (out: String)
    ensures
        out@ == label_text(strings::views(workspaces@), dir@),
{
    let ghost all = strings::views(workspaces@);
    assert(all.skip(0) =~= all);
    for i in 0..workspaces.len()
        invariant
            all == strings::views(workspaces@),
            label_text(all.skip(i as int), dir@) == label_text(all, dir@),
    {
        let ghost rest = all.skip(i as int);
        assert(rest[0] == workspaces@[i as int]@);
        assert(rest.drop_first() =~= all.skip(i + 1));
        if paths::holds_place(&workspaces[i].paths, dir) {
            return strings::cat3(
                "workspace ",
                strings::quoted(workspaces[i].label.as_str()).as_str(),
                ": ",
            );
        }
    }
    String::new()
}

fn find_site(sites: &Vec<Site>, path: &str) -> (at: usize)
    ensures
        at == site_at(strings::views(sites@), path@),
        at <= sites@.len(),
{
    let ghost all = strings::views(sites@);
    assert(all.skip(0) =~= all);
    for i in 0..sites.len()
        invariant
            all == strings::views(sites@),
            site_at(all, path@) == i + site_at(all.skip(i as int), path@),
    {
        let ghost rest = all.skip(i as int);
        assert(rest[0] == sites@[i as int]@);
        assert(rest.drop_first() =~= all.skip(i + 1));
        if paths::is_same_place(sites[i].id.path.as_str(), path) {
            return i;
        }
    }
    sites.len()
}

fn merge_checkout(sites: &mut Vec<Site>, id: CheckoutId, workspaces: Vec<WorkspaceRef>)
    ensures
        strings::views(final(sites)@) == merged(
            strings::views(old(sites)@),
            id@,
            strings::views(workspaces@),
        ),
{
    broadcast use strings::group_lists;

    let ghost before = strings::views(sites@);
    let at = find_site(sites, id.path.as_str());
    if at >= sites.len() {
        sites.push(Site { id, workspaces });
        return ;
    }
    assert(before[at as int] == sites@[at as int]@);
    add_workspaces(&mut sites[at].workspaces, &workspaces);
    assert(strings::views(sites@) =~= merged(before, id@, strings::views(workspaces@)));
}

impl Found {
    fn add_candidate(
        &mut self,
        workspaces: &Vec<WorkspaceRef>,
        candidate: &str,
        identity: Identity,
    )
        ensures
            final(self)@ == identified(
                old(self)@,
                strings::views(workspaces@),
                candidate@,
                identity@,
            ),
    {
        broadcast use strings::group_lists;

        match identity {
            Identity::Checkout(id) => {
                let here = occupants(workspaces, candidate);
                self.resolved.push((candidate.to_string(), id.path.clone()));
                merge_checkout(&mut self.sites, id, here);
            },
            Identity::Nothing => {
                let label = label_for(workspaces, candidate);
                self.notes.push(
                    Note::info(
                        strings::cat3(
                            label.as_str(),
                            candidate,
                            " is not a git checkout — skipped",
                        ),
                    ),
                );
            },
            Identity::Failed(error) => {
                self.notes.push(
                    Note::warning(
                        strings::cat4("could not inspect ", candidate, ": ", error.as_str()),
                    ),
                );
            },
        }
    }

    fn add_sibling(&mut self, place: &Place, identity: Identity)
        ensures
            final(self)@ == sibling_identified(old(self)@, place@, identity@),
    {
        broadcast use strings::group_lists;

        match identity {
            Identity::Checkout(id) => {
                let none: Vec<WorkspaceRef> = Vec::new();
                assert(strings::views(none@) =~= Seq::empty());
                merge_checkout(&mut self.sites, id, none);
            },
            Identity::Nothing => {},
            Identity::Failed(error) => {
                self.notes.push(
                    Note::warning(
                        strings::cat4(
                            "could not inspect worktree ",
                            place.display().as_str(),
                            ": ",
                            error.as_str(),
                        ),
                    ),
                );
            },
        }
    }
}

fn knows_key(ids: &Vec<CheckoutId>, key: &RepoKey) -> (answer: bool)
    ensures
        answer == has_key(strings::views(ids@), key@),
{
    let ghost all = strings::views(ids@);
    for i in 0..ids.len()
        invariant
            all == strings::views(ids@),
            forall|k: int| 0 <= k < i ==> (#[trigger] all[k]).repo_key != key@,
    {
        assert(all[i as int] == ids@[i as int]@);
        if strings::same(ids[i].repo_key.0.as_str(), key.0.as_str()) {
            return true;
        }
    }
    false
}

fn find_seeds(sites: &Vec<Site>) -> (out: Vec<CheckoutId>)
    ensures
        strings::views(out@) == seeds_of(strings::views(sites@)),
{
    broadcast use strings::group_lists;

    let ghost all = strings::views(sites@);
    let mut out: Vec<CheckoutId> = Vec::new();
    for i in 0..sites.len()
        invariant
            all == strings::views(sites@),
            strings::views(out@) == seeds_of(all.take(i as int)),
    {
        broadcast use strings::group_lists;

        assert(all.take(i + 1).drop_last() =~= all.take(i as int));
        assert(all[i as int] == sites@[i as int]@);
        if !knows_key(&out, &sites[i].id.repo_key) {
            out.push(sites[i].id.clone());
        }
    }
    assert(all.take(all.len() as int) =~= all);
    out
}

fn knows_site(sites: &Vec<Site>, place: &Place) -> (answer: bool)
    ensures
        answer == is_site(strings::views(sites@), place@),
{
    assert(strings::views(sites@).len() == sites@.len());
    match place {
        Place::Named(path) => find_site(sites, path.as_str()) < sites.len(),
        Place::Raw(_) => false,
    }
}

fn skip_known(siblings: Vec<Place>, sites: &Vec<Site>) -> (out: Vec<Place>)
    ensures
        strings::views(out@) == unknown_from(strings::views(siblings@), strings::views(sites@)),
{
    let mut rest = siblings;
    while rest.len() > 0
        invariant
            unknown_from(strings::views(rest@), strings::views(sites@)) == unknown_from(
                strings::views(siblings@),
                strings::views(sites@),
            ),
        decreases rest@.len(),
    {
        let ghost before = strings::views(rest@);
        assert(before[0] == rest@[0]@);
        if !knows_site(sites, &rest[0]) {
            return rest;
        }
        let known = rest.remove(0);
        assert(strings::views(rest@) =~= before.drop_first());
    }
    rest
}

// ---------------------------------------------------------------------------
// Putting the digest together
// ---------------------------------------------------------------------------

pub open spec fn display_text(id: CheckoutId<Text>) -> Text {
    match paths::last_name(id.repo_root) {
        Some(name) => name,
        None => id.repo_root,
    }
}

fn display_name(id: &CheckoutId) -> (out: String)
    ensures
        out@ == display_text(id@),
{
    match paths::file_name(id.repo_root.as_str()) {
        Some(name) => name,
        None => id.repo_root.clone(),
    }
}

/// The agents credited to a checkout.
pub open spec fn agents_at(
    placed: Seq<placing::PlacementView>,
    path: Text,
) -> Seq<AgentRef<Text>> {
    let at = placing::position(placed, path) as int;
    if at < placed.len() {
        placed[at].agents
    } else {
        Seq::empty()
    }
}

fn agents_of(placed: &Vec<Placement>, path: &str) -> (out: Vec<AgentRef>)
    ensures
        strings::views(out@) == agents_at(strings::views(placed@), path@),
{
    let at = placing::find_placement(placed, path);
    if at < placed.len() {
        assert(strings::views(placed@)[at as int] == placed@[at as int]@);
        strings::clone_list(&placed[at].agents)
    } else {
        let none: Vec<AgentRef> = Vec::new();
        assert(strings::views(none@) =~= Seq::empty());
        none
    }
}

/// The position of a repository among those seen so far; their number where it
/// is not there.
pub open spec fn repo_at(repos: Seq<model::RepoView>, key: RepoKey<Text>) -> nat
    decreases repos.len(),
{
    if repos.len() == 0 {
        0
    } else if repos[0].repo_key == key {
        0
    } else {
        1 + repo_at(repos.drop_first(), key)
    }
}

/// The repositories with one more checkout. A repository is named after the
/// first of its checkouts.
pub open spec fn filed(
    repos: Seq<model::RepoView>,
    id: CheckoutId<Text>,
    checkout: model::CheckoutView,
) -> Seq<model::RepoView> {
    let at = repo_at(repos, id.repo_key) as int;
    if at < repos.len() {
        repos.update(
            at,
            model::RepoView { checkouts: repos[at].checkouts.push(checkout), ..repos[at] },
        )
    } else {
        repos.push(
            model::RepoView {
                repo_key: id.repo_key,
                name: display_text(id),
                repo_root: id.repo_root,
                checkouts: seq![checkout],
                commits: 0,
                churn: Churn::nothing(),
                active_days: 0,
            },
        )
    }
}

/// The checkouts, grouped by repository.
pub open spec fn grouped(
    sites: Seq<SiteView>,
    reports: Seq<model::ReportView>,
    placed: Seq<placing::PlacementView>,
) -> Seq<model::RepoView>
    decreases sites.len(),
{
    if sites.len() == 0 {
        Seq::empty()
    } else {
        let last = sites.last();
        filed(
            grouped(sites.drop_last(), reports, placed),
            last.id,
            model::CheckoutView {
                report: reports[sites.len() - 1],
                workspaces: last.workspaces,
                agents: agents_at(placed, last.id.path),
            },
        )
    }
}

/// Busiest first, then the most recent commit, then the path.
pub open spec fn checkout_leads(a: model::CheckoutView, b: model::CheckoutView) -> bool {
    if a.report.activity() != b.report.activity() {
        a.report.activity().rank() > b.report.activity().rank()
    } else if render::latest(a.report.commits) != render::latest(b.report.commits) {
        render::latest(a.report.commits) > render::latest(b.report.commits)
    } else {
        paths::path_precedes(a.report.path, b.report.path)
    }
}

/// Busiest first, then the most commits, then the name.
pub open spec fn repo_leads(a: model::RepoView, b: model::RepoView) -> bool {
    if a.activity() != b.activity() {
        a.activity().rank() > b.activity().rank()
    } else if a.commits != b.commits {
        a.commits > b.commits
    } else {
        strings::precedes(a.name, b.name)
    }
}

pub open spec fn key_leads(a: model::RepoView, b: model::RepoView) -> bool {
    strings::precedes(a.repo_key.0, b.repo_key.0)
}

/// A repository with its totals worked out and its checkouts in order.
pub open spec fn totalled(repo: model::RepoView, patterns: Seq<Text>) -> model::RepoView {
    let rolled = rollup::rolled(repo, patterns);
    model::RepoView {
        checkouts: order::arranged(
            rolled.checkouts,
            |a: model::CheckoutView, b: model::CheckoutView| checkout_leads(a, b),
        ),
        ..rolled
    }
}

pub open spec fn all_totalled(
    repos: Seq<model::RepoView>,
    patterns: Seq<Text>,
) -> Seq<model::RepoView> {
    Seq::new(repos.len(), |i: int| totalled(repos[i], patterns))
}

/// The repositories of a digest: grouped, totalled, in order, and without the
/// quiet ones where those are not wanted.
pub open spec fn digested(
    grouped: Seq<model::RepoView>,
    patterns: Seq<Text>,
    include_quiet: bool,
) -> Seq<model::RepoView> {
    let by_key = order::arranged(
        grouped,
        |a: model::RepoView, b: model::RepoView| key_leads(a, b),
    );
    let repos = order::arranged(
        all_totalled(by_key, patterns),
        |a: model::RepoView, b: model::RepoView| repo_leads(a, b),
    );
    if include_quiet {
        repos
    } else {
        model::busy_among(repos)
    }
}

fn find_repo(repos: &Vec<RepoDigest>, key: &RepoKey) -> (at: usize)
    ensures
        at == repo_at(strings::views(repos@), key@),
        at <= repos@.len(),
{
    let ghost all = strings::views(repos@);
    assert(all.skip(0) =~= all);
    for i in 0..repos.len()
        invariant
            all == strings::views(repos@),
            repo_at(all, key@) == i + repo_at(all.skip(i as int), key@),
    {
        let ghost rest = all.skip(i as int);
        assert(rest[0] == repos@[i as int]@);
        assert(rest.drop_first() =~= all.skip(i + 1));
        if strings::same(repos[i].repo_key.0.as_str(), key.0.as_str()) {
            return i;
        }
    }
    repos.len()
}

fn file(repos: &mut Vec<RepoDigest>, id: &CheckoutId, checkout: CheckoutDigest)
    ensures
        strings::views(final(repos)@) == filed(strings::views(old(repos)@), id@, checkout@),
{
    broadcast use strings::group_lists;

    let ghost before = strings::views(repos@);
    let at = find_repo(repos, &id.repo_key);
    if at < repos.len() {
        assert(before[at as int] == repos@[at as int]@);
        repos[at].checkouts.push(checkout);
        assert(strings::views(repos@) =~= filed(before, id@, checkout@));
    } else {
        let mut checkouts: Vec<CheckoutDigest> = Vec::new();
        checkouts.push(checkout);
        assert(strings::views(checkouts@) =~= seq![checkout@]);
        repos.push(
            RepoDigest {
                repo_key: id.repo_key.clone(),
                name: display_name(id),
                repo_root: id.repo_root.clone(),
                checkouts,
                commits: 0,
                churn: Churn::default(),
                active_days: 0,
            },
        );
    }
}

fn group(
    sites: &Vec<Site>,
    reports: &Vec<CheckoutReport>,
    placed: &Vec<Placement>,
) -> (out: Vec<RepoDigest>)
    requires
        reports@.len() == sites@.len(),
    ensures
        strings::views(out@) == grouped(
            strings::views(sites@),
            strings::views(reports@),
            strings::views(placed@),
        ),
{
    broadcast use strings::group_lists;

    let ghost all = strings::views(sites@);
    let mut out: Vec<RepoDigest> = Vec::new();
    for i in 0..sites.len()
        invariant
            all == strings::views(sites@),
            reports@.len() == sites@.len(),
            strings::views(out@) == grouped(
                all.take(i as int),
                strings::views(reports@),
                strings::views(placed@),
            ),
    {
        broadcast use strings::group_lists;

        let site = &sites[i];
        assert(all.take(i + 1).drop_last() =~= all.take(i as int));
        assert(all[i as int] == site@);
        assert(strings::views(reports@)[i as int] == reports@[i as int]@);
        let checkout = CheckoutDigest {
            report: reports[i].clone(),
            workspaces: strings::clone_list(&site.workspaces),
            agents: agents_of(placed, site.id.path.as_str()),
        };
        file(&mut out, &site.id, checkout);
    }
    assert(all.take(all.len() as int) =~= all);
    out
}

fn checkout_goes_first(a: &CheckoutDigest, b: &CheckoutDigest) -> (answer: bool)
    ensures
        answer == checkout_leads(a@, b@),
{
    let left = a.report.activity();
    let right = b.report.activity();
    if left != right {
        left.level() > right.level()
    } else {
        let mine = render::latest_of(&a.report.commits);
        let theirs = render::latest_of(&b.report.commits);
        if mine != theirs {
            mine > theirs
        } else {
            paths::comes_first(a.report.path.as_str(), b.report.path.as_str())
        }
    }
}

fn repo_goes_first(a: &RepoDigest, b: &RepoDigest) -> (answer: bool)
    ensures
        answer == repo_leads(a@, b@),
{
    let left = a.activity();
    let right = b.activity();
    if left != right {
        left.level() > right.level()
    } else if a.commits != b.commits {
        a.commits > b.commits
    } else {
        strings::comes_first(a.name.as_str(), b.name.as_str())
    }
}

fn key_goes_first(a: &RepoDigest, b: &RepoDigest) -> (answer: bool)
    ensures
        answer == key_leads(a@, b@),
{
    strings::comes_first(a.repo_key.0.as_str(), b.repo_key.0.as_str())
}

fn total(repo: RepoDigest, ignored: &Ignored) -> (out: RepoDigest)
    ensures
        out@ == totalled(repo@, ignored@),
{
    let mut repo = repo;
    rollup::rollup(&mut repo, ignored);
    let checkouts = order::arrange(
        repo.checkouts,
        checkout_goes_first,
        Ghost(|a: model::CheckoutView, b: model::CheckoutView| checkout_leads(a, b)),
    );
    RepoDigest {
        repo_key: repo.repo_key,
        name: repo.name,
        repo_root: repo.repo_root,
        checkouts,
        commits: repo.commits,
        churn: repo.churn,
        active_days: repo.active_days,
    }
}

fn total_all(repos: Vec<RepoDigest>, ignored: &Ignored) -> (out: Vec<RepoDigest>)
    ensures
        strings::views(out@) == all_totalled(strings::views(repos@), ignored@),
{
    broadcast use strings::group_lists;

    let ghost all = strings::views(repos@);
    let ghost done = all_totalled(all, ignored@);
    let mut rest = repos;
    let mut out: Vec<RepoDigest> = Vec::new();
    while rest.len() > 0
        invariant
            done == all_totalled(all, ignored@),
            rest@.len() + out@.len() == all.len(),
            strings::views(rest@) == all.skip(out@.len() as int),
            strings::views(out@) == done.take(out@.len() as int),
        decreases rest@.len(),
    {
        broadcast use strings::group_lists;

        let ghost n = out@.len() as int;
        assert(all.skip(n)[0] == rest@[0]@);
        let ghost ahead = strings::views(rest@);
        let repo = rest.remove(0);
        assert(strings::views(rest@) =~= ahead.drop_first());
        assert(all.skip(n).drop_first() =~= all.skip(n + 1));
        out.push(total(repo, ignored));
        assert(done.take(n).push(done[n]) =~= done.take(n + 1));
    }
    assert(done.take(done.len() as int) =~= done);
    out
}

fn drop_quiet(repos: Vec<RepoDigest>) -> (out: Vec<RepoDigest>)
    ensures
        strings::views(out@) == model::busy_among(strings::views(repos@)),
{
    broadcast use strings::group_lists;

    let ghost all = strings::views(repos@);
    let total = repos.len();
    let mut rest = repos;
    let mut out: Vec<RepoDigest> = Vec::new();
    let mut taken: usize = 0;
    proof {
        reveal(Seq::filter);
    }
    assert(all.skip(0) =~= all);
    while rest.len() > 0
        invariant
            total == all.len(),
            rest@.len() + taken == all.len(),
            strings::views(rest@) == all.skip(taken as int),
            strings::views(out@) == model::busy_among(all.take(taken as int)),
        decreases rest@.len(),
    {
        broadcast use strings::group_lists;

        proof {
            reveal(Seq::filter);
        }
        let ghost n = taken as int;
        assert(all.skip(n)[0] == rest@[0]@);
        assert(all.take(n + 1).drop_last() =~= all.take(n));
        let ghost ahead = strings::views(rest@);
        let repo = rest.remove(0);
        assert(strings::views(rest@) =~= ahead.drop_first());
        assert(all.skip(n).drop_first() =~= all.skip(n + 1));
        if repo.activity() != Activity::Quiet {
            out.push(repo);
        }
        taken = taken + 1;
    }
    assert(all.take(all.len() as int) =~= all);
    out
}

/// The repositories of a digest, from the checkouts and their reports.
pub fn assemble(
    sites: &Vec<Site>,
    reports: &Vec<CheckoutReport>,
    placed: &Vec<Placement>,
    ignored: &Ignored,
    include_quiet: bool,
) -> (out: Vec<RepoDigest>)
    requires
        reports@.len() == sites@.len(),
    ensures
        strings::views(out@) == digested(
            grouped(
                strings::views(sites@),
                strings::views(reports@),
                strings::views(placed@),
            ),
            ignored@,
            include_quiet,
        ),
{
    let groups = group(sites, reports, placed);
    let by_key = order::arrange(
        groups,
        key_goes_first,
        Ghost(|a: model::RepoView, b: model::RepoView| key_leads(a, b)),
    );
    let totalled = total_all(by_key, ignored);
    let repos = order::arrange(
        totalled,
        repo_goes_first,
        Ghost(|a: model::RepoView, b: model::RepoView| repo_leads(a, b)),
    );
    if include_quiet {
        repos
    } else {
        drop_quiet(repos)
    }
}

// ---------------------------------------------------------------------------
// The build
// ---------------------------------------------------------------------------

/// What is needed to go on.
#[derive(Debug, PartialEq, Eq)]
pub enum Need {
    /// The identity of a directory.
    Identify(Place),
    /// The checkouts of the repository of this one.
    Worktrees(CheckoutId),
    /// The window, resolved in one of these places.
    Window(Vec<String>),
    /// A report on a checkout over the window.
    Report(CheckoutId),
    /// Nothing more.
    Nothing,
}

#[verifier::ext_equal]
pub enum NeedView {
    Identify(Place<Text, Seq<u8>>),
    Worktrees(CheckoutId<Text>),
    Window(Seq<Text>),
    Report(CheckoutId<Text>),
    Nothing,
}

impl View for Need {
    type V = NeedView;

    open spec fn view(&self) -> NeedView {
        match self {
            Need::Identify(place) => NeedView::Identify(place@),
            Need::Worktrees(id) => NeedView::Worktrees(id@),
            Need::Window(anchors) => NeedView::Window(strings::views(anchors@)),
            Need::Report(id) => NeedView::Report(id@),
            Need::Nothing => NeedView::Nothing,
        }
    }
}

/// A digest in the making.
#[derive(Debug, PartialEq, Eq)]
pub struct Build {
    workspaces: Vec<WorkspaceRef>,
    candidates: Vec<String>,
    include_siblings: bool,
    include_quiet: bool,
    ignored: Ignored,
    found: Found,
    /// How many of the candidates have been identified.
    identified: usize,
    seeds: Vec<CheckoutId>,
    /// How many of the seeds have had their worktrees listed.
    listed: usize,
    /// The worktrees of a repository that are still to be identified.
    siblings: Vec<Place>,
    window: Option<Window>,
    reports: Vec<CheckoutReport>,
}

#[verifier::ext_equal]
pub struct BuildView {
    pub workspaces: Seq<model::WorkspaceView>,
    pub candidates: Seq<Text>,
    pub include_siblings: bool,
    pub include_quiet: bool,
    pub ignored: Seq<Text>,
    pub found: FoundView,
    pub identified: nat,
    pub seeds: Seq<CheckoutId<Text>>,
    pub listed: nat,
    pub siblings: Seq<Place<Text, Seq<u8>>>,
    pub window: Option<Window<Text>>,
    pub reports: Seq<model::ReportView>,
}

impl View for Build {
    type V = BuildView;

    closed spec fn view(&self) -> BuildView {
        BuildView {
            workspaces: strings::views(self.workspaces@),
            candidates: strings::views(self.candidates@),
            include_siblings: self.include_siblings,
            include_quiet: self.include_quiet,
            ignored: self.ignored@,
            found: self.found@,
            identified: self.identified as nat,
            seeds: strings::views(self.seeds@),
            listed: self.listed as nat,
            siblings: strings::views(self.siblings@),
            window: strings::view_of(self.window),
            reports: strings::views(self.reports@),
        }
    }
}

impl BuildView {
    pub open spec fn start(
        config: config::ConfigView,
        workspaces: Seq<model::WorkspaceView>,
        notes: Seq<Note<Text>>,
    ) -> BuildView {
        BuildView {
            workspaces,
            candidates: candidates_of(config, workspaces),
            include_siblings: config.include_siblings,
            include_quiet: config.include_quiet,
            ignored: config::tidied(config.ignore),
            found: FoundView { sites: Seq::empty(), resolved: Seq::empty(), notes },
            identified: 0,
            seeds: Seq::empty(),
            listed: 0,
            siblings: Seq::empty(),
            window: None,
            reports: Seq::empty(),
        }
    }

    /// The next thing needed: first the candidates, then the siblings, then the
    /// window, then a report on each checkout.
    pub open spec fn need(self) -> NeedView {
        if self.identified < self.candidates.len() {
            NeedView::Identify(Place::Named(self.candidates[self.identified as int]))
        } else if self.siblings.len() > 0 {
            NeedView::Identify(self.siblings[0])
        } else if self.listed < self.seeds.len() {
            NeedView::Worktrees(self.seeds[self.listed as int])
        } else if self.window is None {
            NeedView::Window(
                Seq::new(self.found.sites.len(), |i: int| self.found.sites[i].id.path),
            )
        } else if self.reports.len() < self.found.sites.len() {
            NeedView::Report(self.found.sites[self.reports.len() as int].id)
        } else {
            NeedView::Nothing
        }
    }

    pub open spec fn with_identity(self, identity: Identity<Text>) -> BuildView {
        if self.identified < self.candidates.len() {
            let found = identified(
                self.found,
                self.workspaces,
                self.candidates[self.identified as int],
                identity,
            );
            BuildView {
                found,
                identified: self.identified + 1,
                seeds: if self.include_siblings && self.identified + 1 == self.candidates.len() {
                    seeds_of(found.sites)
                } else {
                    self.seeds
                },
                ..self
            }
        } else {
            let found = sibling_identified(self.found, self.siblings[0], identity);
            BuildView {
                found,
                siblings: unknown_from(self.siblings.drop_first(), found.sites),
                ..self
            }
        }
    }

    pub open spec fn with_worktrees(self, worktrees: WorktreesView) -> BuildView {
        match worktrees.found {
            Ok(places) => BuildView {
                siblings: unknown_from(places, self.found.sites),
                listed: self.listed + 1,
                ..self
            },
            Err(error) => BuildView {
                found: FoundView {
                    notes: self.found.notes.push(
                        Note {
                            severity: Severity::Warning,
                            message: "could not list worktrees of "@
                                + self.seeds[self.listed as int].repo_root + ": "@ + error,
                        },
                    ),
                    ..self.found
                },
                listed: self.listed + 1,
                ..self
            },
        }
    }

    pub open spec fn with_window(self, window: Window<Text>, notes: Seq<Note<Text>>) -> BuildView {
        BuildView {
            window: Some(window),
            found: FoundView {
                notes: self.found.notes + notes + placing::placement_notes(
                    self.workspaces,
                    self.found.resolved,
                ),
                ..self.found
            },
            ..self
        }
    }

    pub open spec fn with_report(self, report: model::ReportView) -> BuildView {
        BuildView { reports: self.reports.push(report), ..self }
    }

    /// The digest that this comes to.
    pub open spec fn digest(self, generated_at: Stamp<Text>) -> model::DigestView {
        model::DigestView {
            schema: SCHEMA_VERSION,
            generated_at,
            window: self.window->0,
            repos: digested(
                grouped(
                    self.found.sites,
                    self.reports,
                    placing::placements(self.workspaces, self.found.resolved),
                ),
                self.ignored,
                self.include_quiet,
            ),
            notes: self.found.notes,
        }
    }
}

/// Starts a digest of some workspaces, with what is to be said about them.
pub fn build(config: &Config, workspaces: Vec<WorkspaceRef>, notes: Vec<Note>) -> (out: Build)
    ensures
        out@ == BuildView::start(
            config@,
            strings::views(workspaces@),
            strings::views(notes@),
        ),
{
    let candidates = candidates(config, &workspaces);
    let ignored = Ignored::new(strings::clone_list(&config.ignore));
    let sites: Vec<Site> = Vec::new();
    let resolved: Vec<(String, String)> = Vec::new();
    let seeds: Vec<CheckoutId> = Vec::new();
    let siblings: Vec<Place> = Vec::new();
    let reports: Vec<CheckoutReport> = Vec::new();
    assert(strings::views(sites@) =~= Seq::empty());
    assert(strings::views(resolved@) =~= Seq::empty());
    assert(strings::views(seeds@) =~= Seq::empty());
    assert(strings::views(siblings@) =~= Seq::empty());
    assert(strings::views(reports@) =~= Seq::empty());
    Build {
        workspaces,
        candidates,
        include_siblings: config.include_siblings,
        include_quiet: config.include_quiet,
        ignored,
        found: Found { sites, resolved, notes },
        identified: 0,
        seeds,
        listed: 0,
        siblings,
        window: None,
        reports,
    }
}

impl Build {
    fn anchors(&self) -> (out: Vec<String>)
        ensures
            strings::views(out@) == Seq::new(
                self@.found.sites.len(),
                |i: int| self@.found.sites[i].id.path,
            ),
    {
        broadcast use strings::group_lists;

        let ghost sites = strings::views(self.found.sites@);
        let ghost all = Seq::new(sites.len(), |i: int| sites[i].id.path);
        let mut out: Vec<String> = Vec::new();
        for i in 0..self.found.sites.len()
            invariant
                sites == strings::views(self.found.sites@),
                all == Seq::new(sites.len(), |i: int| sites[i].id.path),
                strings::views(out@) == all.take(i as int),
        {
            broadcast use strings::group_lists;

            assert(sites[i as int] == self.found.sites@[i as int]@);
            out.push(self.found.sites[i].id.path.clone());
            assert(all.take(i as int).push(all[i as int]) =~= all.take(i + 1));
        }
        assert(all.take(all.len() as int) =~= all);
        out
    }

    /// What is needed next.
    pub fn need(&self) -> (out: Need)
        ensures
            out@ == self@.need(),
    {
        if self.identified < self.candidates.len() {
            assert(self@.candidates[self.identified as int]
                == self.candidates@[self.identified as int]@);
            return Need::Identify(Place::Named(self.candidates[self.identified].clone()));
        }
        if self.siblings.len() > 0 {
            assert(self@.siblings[0] == self.siblings@[0]@);
            return Need::Identify(self.siblings[0].clone());
        }
        if self.listed < self.seeds.len() {
            assert(self@.seeds[self.listed as int] == self.seeds@[self.listed as int]@);
            return Need::Worktrees(self.seeds[self.listed].clone());
        }
        if self.window.is_none() {
            return Need::Window(self.anchors());
        }
        let done = self.reports.len();
        assert(self@.found.sites.len() == self.found.sites@.len());
        if done < self.found.sites.len() {
            assert(self@.found.sites[done as int] == self.found.sites@[done as int]@);
            return Need::Report(self.found.sites[done].id.clone());
        }
        Need::Nothing
    }

    /// Takes the identity of the directory that was asked about.
    pub fn hear_identity(&mut self, identity: Identity)
        requires
            old(self)@.need() is Identify,
        ensures
            final(self)@ == old(self)@.with_identity(identity@),
    {
        if self.identified < self.candidates.len() {
            let candidate = self.candidates[self.identified].clone();
            assert(self@.candidates[self.identified as int] == candidate@);
            self.found.add_candidate(&self.workspaces, candidate.as_str(), identity);
            self.identified = self.identified + 1;
            if self.include_siblings && self.identified == self.candidates.len() {
                self.seeds = find_seeds(&self.found.sites);
            }
        } else {
            let ghost before = strings::views(self.siblings@);
            let mut siblings: Vec<Place> = Vec::new();
            std::mem::swap(&mut siblings, &mut self.siblings);
            assert(before[0] == siblings@[0]@);
            let place = siblings.remove(0);
            assert(strings::views(siblings@) =~= before.drop_first());
            self.found.add_sibling(&place, identity);
            self.siblings = skip_known(siblings, &self.found.sites);
        }
    }

    /// Takes the checkouts of the repository that was asked about.
    pub fn hear_worktrees(&mut self, worktrees: Worktrees)
        requires
            old(self)@.need() is Worktrees,
        ensures
            final(self)@ == old(self)@.with_worktrees(worktrees@),
    {
        broadcast use strings::group_lists;

        assert(self.listed < self.seeds.len());
        match worktrees.found {
            Ok(places) => {
                self.siblings = skip_known(places, &self.found.sites);
            },
            Err(error) => {
                assert(self@.seeds[self.listed as int] == self.seeds@[self.listed as int]@);
                let message = strings::cat4(
                    "could not list worktrees of ",
                    self.seeds[self.listed].repo_root.as_str(),
                    ": ",
                    error.as_str(),
                );
                self.found.notes.push(Note::warning(message));
            },
        }
        self.listed = self.listed + 1;
    }

    /// Takes the window that was asked for, and what to say about it.
    pub fn hear_window(&mut self, window: Window, notes: Vec<Note>)
        ensures
            final(self)@ == old(self)@.with_window(window@, strings::views(notes@)),
    {
        broadcast use strings::group_lists;

        let (_, placement) = placing::place_agents(&self.workspaces, &self.found.resolved);
        let mut notes = notes;
        let mut placement = placement;
        self.found.notes.append(&mut notes);
        self.found.notes.append(&mut placement);
        self.window = Some(window);
    }

    /// The window, once it is known.
    pub fn window(&self) -> (out: Option<&Window>)
        ensures
            strings::view_of(out) == self@.window,
    {
        self.window.as_ref()
    }

    /// Takes the report on the checkout that was asked about.
    pub fn hear_report(&mut self, report: CheckoutReport)
        ensures
            final(self)@ == old(self)@.with_report(report@),
    {
        broadcast use strings::group_lists;

        self.reports.push(report);
    }

    /// The digest.
    pub fn finish(self, generated_at: Stamp) -> (out: Digest)
        requires
            self@.window is Some,
            self@.reports.len() == self@.found.sites.len(),
        ensures
            out@ == self@.digest(generated_at@),
    {
        let (placed, _) = placing::place_agents(&self.workspaces, &self.found.resolved);
        assert(self@.reports.len() == self.reports@.len());
        assert(self@.found.sites.len() == self.found.sites@.len());
        let repos = assemble(
            &self.found.sites,
            &self.reports,
            &placed,
            &self.ignored,
            self.include_quiet,
        );
        Digest {
            schema: SCHEMA_VERSION,
            generated_at,
            window: self.window.unwrap(),
            repos,
            notes: self.found.notes,
        }
    }
}

// ---------------------------------------------------------------------------
// Laws
// ---------------------------------------------------------------------------

/// Whether some checkout of some repository carries a report.
pub open spec fn carries(repos: Seq<model::RepoView>, report: model::ReportView) -> bool {
    exists|r: int| 0 <= r < repos.len() && #[trigger] repo_carries(repos[r], report)
}

pub open spec fn repo_carries(repo: model::RepoView, report: model::ReportView) -> bool {
    exists|c: int| 0 <= c < repo.checkouts.len() && (#[trigger] repo.checkouts[c]).report == report
}

proof fn lemma_filed(
    repos: Seq<model::RepoView>,
    id: CheckoutId<Text>,
    checkout: model::CheckoutView,
    report: model::ReportView,
)
    ensures
        carries(repos, report) || checkout.report == report ==> carries(
            filed(repos, id, checkout),
            report,
        ),
{
    let after = filed(repos, id, checkout);
    let at = repo_at(repos, id.repo_key) as int;
    if carries(repos, report) {
        let r = choose|r: int| 0 <= r < repos.len() && #[trigger] repo_carries(repos[r], report);
        let c = choose|c: int|
            0 <= c < repos[r].checkouts.len() && (#[trigger] repos[r].checkouts[c]).report
                == report;
        assert(after[r].checkouts[c] == repos[r].checkouts[c]);
        assert(repo_carries(after[r], report));
    }
    if checkout.report == report {
        if at < repos.len() {
            let n = repos[at].checkouts.len() as int;
            assert(after[at].checkouts[n] == checkout);
            assert(repo_carries(after[at], report));
        } else {
            let n = repos.len() as int;
            assert(after[n].checkouts[0] == checkout);
            assert(repo_carries(after[n], report));
        }
    }
}

proof fn lemma_grouped(
    sites: Seq<SiteView>,
    reports: Seq<model::ReportView>,
    placed: Seq<placing::PlacementView>,
    j: int,
)
    requires
        0 <= j < sites.len(),
    ensures
        carries(grouped(sites, reports, placed), reports[j]),
    decreases sites.len(),
{
    let last = sites.last();
    let checkout = model::CheckoutView {
        report: reports[sites.len() - 1],
        workspaces: last.workspaces,
        agents: agents_at(placed, last.id.path),
    };
    let before = grouped(sites.drop_last(), reports, placed);
    lemma_filed(before, last.id, checkout, reports[j]);
    if j < sites.len() - 1 {
        lemma_grouped(sites.drop_last(), reports, placed, j);
    }
}

proof fn lemma_arranged_has<V>(items: Seq<V>, before: spec_fn(V, V) -> bool, i: int) -> (k: int)
    requires
        0 <= i < items.len(),
    ensures
        0 <= k < order::arranged(items, before).len(),
        order::arranged(items, before)[k] == items[i],
{
    broadcast use vstd::seq_lib::group_to_multiset_ensures;

    order::law_arranged_keeps_items(items, before);
    let sorted = order::arranged(items, before);
    assert(items.to_multiset().count(items[i]) > 0) by {
        assert(items.contains(items[i]));
    }
    assert(sorted.to_multiset().count(items[i]) > 0);
    assert(sorted.contains(items[i]));
    choose|k: int| 0 <= k < sorted.len() && sorted[k] == items[i]
}

proof fn lemma_sorted_carries(
    repos: Seq<model::RepoView>,
    before: spec_fn(model::RepoView, model::RepoView) -> bool,
    report: model::ReportView,
)
    requires
        carries(repos, report),
    ensures
        carries(order::arranged(repos, before), report),
{
    let r = choose|r: int| 0 <= r < repos.len() && #[trigger] repo_carries(repos[r], report);
    let k = lemma_arranged_has(repos, before, r);
    assert(repo_carries(order::arranged(repos, before)[k], report));
}

proof fn lemma_totalled_carries(
    repos: Seq<model::RepoView>,
    patterns: Seq<Text>,
    report: model::ReportView,
)
    requires
        carries(repos, report),
    ensures
        carries(all_totalled(repos, patterns), report),
{
    let r = choose|r: int| 0 <= r < repos.len() && #[trigger] repo_carries(repos[r], report);
    let c = choose|c: int|
        0 <= c < repos[r].checkouts.len() && (#[trigger] repos[r].checkouts[c]).report == report;
    let after = all_totalled(repos, patterns);
    let k = lemma_arranged_has(
        repos[r].checkouts,
        |a: model::CheckoutView, b: model::CheckoutView| checkout_leads(a, b),
        c,
    );
    assert(after[r].checkouts[k].report == report);
    assert(repo_carries(after[r], report));
}

/// No checkout is ever dropped: the report on each of them is in the digest,
/// unless quiet repositories were asked to be left out.
pub proof fn law_no_checkout_is_dropped(build: BuildView, generated_at: Stamp<Text>, j: int)
    requires
        build.include_quiet,
        build.reports.len() == build.found.sites.len(),
        0 <= j < build.reports.len(),
    ensures
        carries(build.digest(generated_at).repos, build.reports[j]),
{
    let placed = placing::placements(build.workspaces, build.found.resolved);
    let groups = grouped(build.found.sites, build.reports, placed);
    lemma_grouped(build.found.sites, build.reports, placed, j);
    let by_key = |a: model::RepoView, b: model::RepoView| key_leads(a, b);
    lemma_sorted_carries(groups, by_key, build.reports[j]);
    lemma_totalled_carries(order::arranged(groups, by_key), build.ignored, build.reports[j]);
    lemma_sorted_carries(
        all_totalled(order::arranged(groups, by_key), build.ignored),
        |a: model::RepoView, b: model::RepoView| repo_leads(a, b),
        build.reports[j],
    );
}

/// What has been said is never unsaid: each step of a build keeps the notes
/// there are.
pub proof fn law_notes_are_never_dropped(
    build: BuildView,
    identity: Identity<Text>,
    worktrees: WorktreesView,
    window: Window<Text>,
    notes: Seq<Note<Text>>,
)
    ensures
        build.found.notes.is_prefix_of(build.with_identity(identity).found.notes),
        build.found.notes.is_prefix_of(build.with_worktrees(worktrees).found.notes),
        build.found.notes.is_prefix_of(build.with_window(window, notes).found.notes),
{
}

/// A directory that could not be used is accounted for: identifying it leaves a
/// checkout or a note.
pub proof fn law_every_candidate_is_accounted_for(
    found: FoundView,
    workspaces: Seq<model::WorkspaceView>,
    candidate: Text,
    identity: Identity<Text>,
)
    ensures
        ({
            let after = identified(found, workspaces, candidate, identity);
            if identity is Checkout {
                after.resolved.len() == found.resolved.len() + 1
            } else {
                after.notes.len() == found.notes.len() + 1
            }
        }),
{
}

/// No other worktree of a repository is passed over: one that has not been
/// found already is still to be identified, whatever its path is.
pub proof fn law_no_other_worktree_is_passed_over(
    siblings: Seq<Place<Text, Seq<u8>>>,
    sites: Seq<SiteView>,
    i: int,
)
    requires
        0 <= i < siblings.len(),
        !is_site(sites, siblings[i]),
    ensures
        unknown_from(siblings, sites).contains(siblings[i]),
    decreases siblings.len(),
{
    if is_site(sites, siblings[0]) {
        assert(siblings.drop_first()[i - 1] == siblings[i]);
        law_no_other_worktree_is_passed_over(siblings.drop_first(), sites, i - 1);
    }
}

proof fn lemma_site_at(sites: Seq<SiteView>, path: Text)
    ensures
        site_at(sites, path) <= sites.len(),
        forall|i: int|
            0 <= i < site_at(sites, path) ==> !paths::same_place((#[trigger] sites[i]).id.path, path),
    decreases sites.len(),
{
    if sites.len() > 0 && !paths::same_place(sites[0].id.path, path) {
        let rest = sites.drop_first();
        lemma_site_at(rest, path);
        assert forall|i: int| 0 <= i < site_at(sites, path) implies !paths::same_place(
            (#[trigger] sites[i]).id.path,
            path,
        ) by {
            if i > 0 {
                assert(rest[i - 1] == sites[i]);
            }
        }
    }
}

/// Whether no two sites are one checkout.
pub open spec fn sites_differ(sites: Seq<SiteView>) -> bool {
    forall|i: int, j: int|
        0 <= i < j < sites.len() ==> !paths::same_place(
            (#[trigger] sites[i]).id.path,
            (#[trigger] sites[j]).id.path,
        )
}

/// A checkout that is reached in several ways is reported once.
pub proof fn law_a_checkout_is_listed_once(
    sites: Seq<SiteView>,
    id: CheckoutId<Text>,
    workspaces: Seq<model::WorkspaceView>,
)
    requires
        sites_differ(sites),
    ensures
        sites_differ(merged(sites, id, workspaces)),
{
    lemma_site_at(sites, id.path);
    let after = merged(sites, id, workspaces);
    assert forall|i: int, j: int| 0 <= i < j < after.len() implies !paths::same_place(
        (#[trigger] after[i]).id.path,
        (#[trigger] after[j]).id.path,
    ) by {
        if j < sites.len() {
            assert(!paths::same_place(sites[i].id.path, sites[j].id.path));
        } else {
            assert(!paths::same_place(sites[i].id.path, id.path));
        }
    }
}

// ---------------------------------------------------------------------------
// Where a digest looks, and what it says of what it finds
// ---------------------------------------------------------------------------

/// A host that cannot be reached ends the run unless there are paths to report
/// on; then it is a warning that tells why.
pub proof fn law_a_host_that_is_away_is_said_out_loud(
    config: config::ConfigView,
    answer: Result<Seq<model::WorkspaceView>, Text>,
)
    ensures
        match workspaces_of(config, answer) {
            Ok((workspaces, notes)) => if answer is Ok {
                workspaces == answer->Ok_0 && notes.len() == 0
            } else {
                &&& config.extra_paths.len() > 0
                &&& workspaces.len() == 0
                &&& notes.len() == 1
                &&& notes[0].severity is Warning
                &&& strings::holds(notes[0].message, answer->Err_0)
            },
            Err(error) => answer == Err::<Seq<model::WorkspaceView>, Text>(error)
                && config.extra_paths.len() == 0,
        },
{
    broadcast use strings::lemma_holds_together;

    if answer is Err {
        strings::lemma_holds_itself(answer->Err_0);
    }
}

proof fn lemma_places_pushed(list: Seq<Text>, places: Seq<Text>, place: Text)
    ensures
        paths::has_place(push_places(list, places), place) <==> paths::has_place(list, place)
            || paths::has_place(places, place),
        list.is_prefix_of(push_places(list, places)),
    decreases places.len(),
{
    if places.len() > 0 {
        let rest = places.drop_last();
        let before = push_places(list, rest);
        lemma_places_pushed(list, rest, place);
        lemma_one_more_place(before, places.last(), place);
        lemma_one_more_place(rest, places.last(), place);
        assert(rest.push(places.last()) =~= places);
    }
}

proof fn lemma_one_more_place(list: Seq<Text>, one: Text, place: Text)
    ensures
        paths::has_place(paths::with_place(list, one), place) <==> paths::has_place(list, place)
            || paths::same_place(one, place),
        paths::has_place(list.push(one), place) <==> paths::has_place(list, place)
            || paths::same_place(one, place),
{
    let more = list.push(one);
    if paths::has_place(list, place) {
        let i = choose|i: int| 0 <= i < list.len() && paths::same_place(#[trigger] list[i], place);
        assert(more[i] == list[i]);
    }
    if paths::same_place(one, place) {
        assert(more[list.len() as int] == one);
        if paths::has_place(list, one) {
            let i = choose|i: int|
                0 <= i < list.len() && paths::same_place(#[trigger] list[i], one);
            assert(paths::same_place(list[i], place));
        }
    }
    if paths::has_place(more, place) {
        let i = choose|i: int| 0 <= i < more.len() && paths::same_place(#[trigger] more[i], place);
        if i < list.len() {
            assert(list[i] == more[i]);
        }
    }
}

proof fn lemma_occupied(workspaces: Seq<model::WorkspaceView>, place: Text)
    ensures
        paths::has_place(occupied(workspaces), place) <==> exists|w: int|
            0 <= w < workspaces.len() && paths::has_place(
                (#[trigger] workspaces[w]).paths,
                place,
            ),
    decreases workspaces.len(),
{
    if workspaces.len() > 0 {
        let rest = workspaces.drop_last();
        lemma_occupied(rest, place);
        lemma_places_pushed(occupied(rest), workspaces.last().paths, place);
        assert(workspaces[workspaces.len() - 1] == workspaces.last());
        assert(forall|w: int| 0 <= w < rest.len() ==> #[trigger] workspaces[w] == rest[w]);
        if paths::has_place(occupied(rest), place) {
            let w = choose|w: int|
                0 <= w < rest.len() && paths::has_place((#[trigger] rest[w]).paths, place);
            assert(paths::has_place(workspaces[w].paths, place));
        }
    }
}

/// A digest looks at every directory of every workspace, at the directory it was
/// asked from unless it is offline, and at every path it was given; nowhere else.
pub proof fn law_every_directory_is_looked_at(
    config: config::ConfigView,
    workspaces: Seq<model::WorkspaceView>,
    place: Text,
)
    ensures
        paths::has_place(candidates_of(config, workspaces), place) <==> {
            ||| exists|w: int|
                0 <= w < workspaces.len() && paths::has_place(
                    (#[trigger] workspaces[w]).paths,
                    place,
                )
            ||| !config.offline && config.scope.invocation_cwd is Some && paths::same_place(
                config.scope.invocation_cwd->0,
                place,
            )
            ||| paths::has_place(config.extra_paths, place)
        },
{
    lemma_occupied(workspaces, place);
    let here = match config.scope.invocation_cwd {
        Some(dir) => if config.offline {
            occupied(workspaces)
        } else {
            paths::with_place(occupied(workspaces), dir)
        },
        None => occupied(workspaces),
    };
    lemma_places_pushed(here, config.extra_paths, place);
    if let Some(dir) = config.scope.invocation_cwd {
        lemma_one_more_place(occupied(workspaces), dir, place);
    }
}

/// A workspace sits in a directory exactly where the directory is one of its own;
/// it is counted once, by its id.
pub proof fn law_a_workspace_sits_in_its_directories(
    workspaces: Seq<model::WorkspaceView>,
    dir: Text,
    id: Text,
)
    ensures
        has_workspace(sitting_in(workspaces, dir), id) <==> exists|w: int|
            0 <= w < workspaces.len() && (#[trigger] workspaces[w]).workspace_id == id
                && paths::has_place(workspaces[w].paths, dir),
        forall|k: int|
            0 <= k < sitting_in(workspaces, dir).len() ==> workspaces.contains(
                #[trigger] sitting_in(workspaces, dir)[k],
            ),
    decreases workspaces.len(),
{
    if workspaces.len() > 0 {
        let rest = workspaces.drop_last();
        let last = workspaces.last();
        let before = sitting_in(rest, dir);
        let after = sitting_in(workspaces, dir);
        law_a_workspace_sits_in_its_directories(rest, dir, id);
        assert(workspaces[workspaces.len() - 1] == last);
        assert(forall|w: int| 0 <= w < rest.len() ==> #[trigger] workspaces[w] == rest[w]);
        if has_workspace(before, id) {
            let k = choose|k: int|
                0 <= k < before.len() && (#[trigger] before[k]).workspace_id == id;
            assert(after[k] == before[k]);
            let w = choose|w: int|
                0 <= w < rest.len() && (#[trigger] rest[w]).workspace_id == id && paths::has_place(
                    rest[w].paths,
                    dir,
                );
            assert(workspaces[w].workspace_id == id);
        }
        if has_workspace(after, id) && !has_workspace(before, id) {
            let k = choose|k: int| 0 <= k < after.len() && (#[trigger] after[k]).workspace_id == id;
            if k < before.len() {
                assert(before[k].workspace_id == id);
            }
        }
        if last.workspace_id == id && paths::has_place(last.paths, dir) && !has_workspace(
            before,
            id,
        ) {
            assert(after[before.len() as int].workspace_id == id);
        }
        assert forall|k: int| 0 <= k < after.len() implies workspaces.contains(
            #[trigger] after[k],
        ) by {
            if k < before.len() {
                assert(rest.contains(before[k]));
                let w = choose|w: int| 0 <= w < rest.len() && rest[w] == before[k];
                assert(workspaces[w] == after[k]);
            }
        }
    }
}

proof fn lemma_workspaces_joined(
    list: Seq<model::WorkspaceView>,
    more: Seq<model::WorkspaceView>,
    id: Text,
)
    ensures
        has_workspace(with_workspaces(list, more), id) <==> has_workspace(list, id)
            || has_workspace(more, id),
        list.is_prefix_of(with_workspaces(list, more)),
    decreases more.len(),
{
    if more.len() > 0 {
        let rest = more.drop_last();
        let before = with_workspaces(list, rest);
        let after = with_workspaces(list, more);
        lemma_workspaces_joined(list, rest, id);
        assert(more[more.len() - 1] == more.last());
        if has_workspace(before, id) {
            let k = choose|k: int|
                0 <= k < before.len() && (#[trigger] before[k]).workspace_id == id;
            assert(after[k] == before[k]);
        }
        if has_workspace(rest, id) {
            let k = choose|k: int| 0 <= k < rest.len() && (#[trigger] rest[k]).workspace_id == id;
            assert(more[k] == rest[k]);
        }
        if has_workspace(more, id) && !has_workspace(rest, id) {
            let k = choose|k: int| 0 <= k < more.len() && (#[trigger] more[k]).workspace_id == id;
            if k < rest.len() {
                assert(rest[k] == more[k]);
            }
            if !has_workspace(before, more.last().workspace_id) {
                assert(after[before.len() as int].workspace_id == id);
            }
        }
        if has_workspace(after, id) && !has_workspace(before, id) {
            let k = choose|k: int| 0 <= k < after.len() && (#[trigger] after[k]).workspace_id == id;
            if k < before.len() {
                assert(before[k].workspace_id == id);
            }
        }
    }
}

/// A checkout that was found is there, at its place, with every workspace that was
/// already known to sit there and every one that led to it; and what was found
/// before stays as it is.
pub proof fn law_a_found_checkout_keeps_its_workspaces(
    sites: Seq<SiteView>,
    id: CheckoutId<Text>,
    workspaces: Seq<model::WorkspaceView>,
    workspace: Text,
)
    ensures
        ({
            let after = merged(sites, id, workspaces);
            let at = site_at(sites, id.path) as int;
            &&& at < after.len()
            &&& paths::same_place(after[at].id.path, id.path)
            &&& at == sites.len() ==> after[at].id == id
            &&& at < sites.len() ==> after[at].id == sites[at].id
            &&& has_workspace(after[at].workspaces, workspace) <==> has_workspace(
                workspaces,
                workspace,
            ) || at < sites.len() && has_workspace(sites[at].workspaces, workspace)
            &&& after.len() == (if at < sites.len() {
                sites.len()
            } else {
                sites.len() + 1
            })
            &&& forall|i: int|
                0 <= i < sites.len() && i != at ==> #[trigger] after[i] == sites[i]
        }),
{
    lemma_site_at(sites, id.path);
    lemma_site_is_there(sites, id.path);
    let at = site_at(sites, id.path) as int;
    if at < sites.len() {
        lemma_workspaces_joined(sites[at].workspaces, workspaces, workspace);
    }
}

proof fn lemma_site_is_there(sites: Seq<SiteView>, path: Text)
    ensures
        site_at(sites, path) < sites.len() ==> paths::same_place(
            sites[site_at(sites, path) as int].id.path,
            path,
        ),
    decreases sites.len(),
{
    if sites.len() > 0 && !paths::same_place(sites[0].id.path, path) {
        lemma_site_is_there(sites.drop_first(), path);
    }
}

/// What became of a directory is told: the checkout it is in is recorded under
/// it, one that is none is mentioned by name, and a failure is a warning with the
/// name and the reason.
pub proof fn law_what_a_directory_is_is_recorded(
    found: FoundView,
    workspaces: Seq<model::WorkspaceView>,
    candidate: Text,
    identity: Identity<Text>,
)
    ensures
        ({
            let after = identified(found, workspaces, candidate, identity);
            match identity {
                Identity::Checkout(id) => {
                    &&& after.resolved == found.resolved.push((candidate, id.path))
                    &&& site_at(after.sites, id.path) < after.sites.len()
                    &&& after.notes == found.notes
                },
                Identity::Nothing => {
                    &&& after.sites == found.sites && after.resolved == found.resolved
                    &&& after.notes.drop_last() == found.notes
                    &&& after.notes.last().severity is Info
                    &&& strings::holds(after.notes.last().message, candidate)
                },
                Identity::Failed(error) => {
                    &&& after.sites == found.sites && after.resolved == found.resolved
                    &&& after.notes.drop_last() == found.notes
                    &&& after.notes.last().severity is Warning
                    &&& strings::holds(after.notes.last().message, candidate)
                    &&& strings::holds(after.notes.last().message, error)
                },
            }
        }),
{
    broadcast use strings::lemma_holds_together;

    strings::lemma_holds_itself(candidate);
    let after = identified(found, workspaces, candidate, identity);
    match identity {
        Identity::Checkout(id) => {
            law_a_found_checkout_keeps_its_workspaces(
                found.sites,
                id,
                sitting_in(workspaces, candidate),
                candidate,
            );
            lemma_site_found(after.sites, id.path, site_at(found.sites, id.path) as int);
        },
        Identity::Nothing => {
            assert(after.notes.drop_last() =~= found.notes);
        },
        Identity::Failed(error) => {
            strings::lemma_holds_itself(error);
            assert(after.notes.drop_last() =~= found.notes);
        },
    }
}

proof fn lemma_site_found(sites: Seq<SiteView>, path: Text, k: int)
    requires
        0 <= k < sites.len(),
        paths::same_place(sites[k].id.path, path),
    ensures
        site_at(sites, path) <= k,
    decreases sites.len(),
{
    if !paths::same_place(sites[0].id.path, path) {
        assert(sites.drop_first()[k - 1] == sites[k]);
        lemma_site_found(sites.drop_first(), path, k - 1);
    }
}

/// A worktree that was only listed is a checkout like any other, but no workspace
/// sits in it on that account; a failure is a warning with the reason.
pub proof fn law_what_a_listed_worktree_is_is_recorded(
    found: FoundView,
    place: Place<Text, Seq<u8>>,
    identity: Identity<Text>,
)
    ensures
        ({
            let after = sibling_identified(found, place, identity);
            &&& after.resolved == found.resolved
            &&& match identity {
                Identity::Checkout(id) => {
                    &&& site_at(after.sites, id.path) < after.sites.len()
                    &&& after.notes == found.notes
                    &&& site_at(found.sites, id.path) >= found.sites.len() ==> after.sites
                        == found.sites.push(SiteView { id, workspaces: Seq::empty() })
                },
                Identity::Nothing => after == found,
                Identity::Failed(error) => {
                    &&& after.sites == found.sites
                    &&& after.notes.drop_last() == found.notes
                    &&& after.notes.last().severity is Warning
                    &&& strings::holds(after.notes.last().message, place.shown())
                    &&& strings::holds(after.notes.last().message, error)
                },
            }
        }),
{
    broadcast use strings::lemma_holds_together;

    strings::lemma_holds_itself(place.shown());
    let after = sibling_identified(found, place, identity);
    match identity {
        Identity::Checkout(id) => {
            law_a_found_checkout_keeps_its_workspaces(
                found.sites,
                id,
                Seq::empty(),
                id.path,
            );
            lemma_site_found(after.sites, id.path, site_at(found.sites, id.path) as int);
        },
        Identity::Nothing => {},
        Identity::Failed(error) => {
            strings::lemma_holds_itself(error);
            assert(after.notes.drop_last() =~= found.notes);
        },
    }
}

/// Each repository is asked for its worktrees once: there is one seed for every
/// key among the checkouts, and it is the first checkout of that key.
pub proof fn law_each_repository_is_asked_once(sites: Seq<SiteView>, key: RepoKey<Text>)
    ensures
        has_key(seeds_of(sites), key) <==> exists|i: int|
            0 <= i < sites.len() && (#[trigger] sites[i]).id.repo_key == key,
        forall|j: int, k: int|
            0 <= j < k < seeds_of(sites).len() ==> (#[trigger] seeds_of(sites)[j]).repo_key != (
            #[trigger] seeds_of(sites)[k]).repo_key,
    decreases sites.len(),
{
    if sites.len() > 0 {
        let rest = sites.drop_last();
        let last = sites.last().id;
        let before = seeds_of(rest);
        let after = seeds_of(sites);
        law_each_repository_is_asked_once(rest, key);
        assert(sites[sites.len() - 1].id == last);
        assert(forall|i: int| 0 <= i < rest.len() ==> #[trigger] sites[i] == rest[i]);
        if has_key(before, key) {
            let k = choose|k: int| 0 <= k < before.len() && (#[trigger] before[k]).repo_key == key;
            assert(after[k] == before[k]);
            let i = choose|i: int| 0 <= i < rest.len() && (#[trigger] rest[i]).id.repo_key == key;
            assert(sites[i].id.repo_key == key);
        }
        if has_key(after, key) && !has_key(before, key) {
            let k = choose|k: int| 0 <= k < after.len() && (#[trigger] after[k]).repo_key == key;
            if k < before.len() {
                assert(before[k].repo_key == key);
            }
        }
        if last.repo_key == key && !has_key(before, key) {
            assert(after[before.len() as int].repo_key == key);
        }
        assert forall|j: int, k: int| 0 <= j < k < after.len() implies (
        #[trigger] after[j]).repo_key != (#[trigger] after[k]).repo_key by {
            assert(before[j] == after[j]);
            if k < before.len() {
                assert(before[k] == after[k]);
            }
        }
    }
}

/// Whether a checkout of a digest stands in the repository of a key.
pub open spec fn files(
    repos: Seq<model::RepoView>,
    key: RepoKey<Text>,
    checkout: model::CheckoutView,
) -> bool {
    exists|r: int|
        0 <= r < repos.len() && (#[trigger] repos[r]).repo_key == key
            && repos[r].checkouts.contains(checkout)
}

proof fn lemma_filing_keeps(
    repos: Seq<model::RepoView>,
    id: CheckoutId<Text>,
    checkout: model::CheckoutView,
    key: RepoKey<Text>,
    other: model::CheckoutView,
)
    requires
        files(repos, key, other),
    ensures
        files(filed(repos, id, checkout), key, other),
{
    let after = filed(repos, id, checkout);
    let r = choose|r: int|
        0 <= r < repos.len() && (#[trigger] repos[r]).repo_key == key
            && repos[r].checkouts.contains(other);
    let at = repo_at(repos, id.repo_key) as int;
    if r == at {
        let c = choose|c: int|
            0 <= c < repos[r].checkouts.len() && repos[r].checkouts[c] == other;
        assert(after[r].checkouts[c] == other);
    }
    assert(after[r].repo_key == key && after[r].checkouts.contains(other));
}

proof fn lemma_filing_adds(
    repos: Seq<model::RepoView>,
    id: CheckoutId<Text>,
    checkout: model::CheckoutView,
)
    ensures
        files(filed(repos, id, checkout), id.repo_key, checkout),
{
    let after = filed(repos, id, checkout);
    let at = repo_at(repos, id.repo_key) as int;
    lemma_repo_is_there(repos, id.repo_key);
    if at < repos.len() {
        let c = repos[at].checkouts.len() as int;
        assert(after[at].checkouts[c] == checkout);
        assert(after[at].repo_key == id.repo_key);
    } else {
        assert(after[repos.len() as int].checkouts[0] == checkout);
        assert(after[repos.len() as int].repo_key == id.repo_key);
    }
}

proof fn lemma_repo_is_there(repos: Seq<model::RepoView>, key: RepoKey<Text>)
    ensures
        repo_at(repos, key) <= repos.len(),
        repo_at(repos, key) < repos.len() ==> repos[repo_at(repos, key) as int].repo_key == key,
    decreases repos.len(),
{
    if repos.len() > 0 && repos[0].repo_key != key {
        lemma_repo_is_there(repos.drop_first(), key);
    }
}

/// Each checkout stands in its own repository, with the report on it, the
/// workspaces that sit in it and the agents that were placed in it.
pub proof fn law_a_checkout_is_filed_under_its_repository(
    sites: Seq<SiteView>,
    reports: Seq<model::ReportView>,
    placed: Seq<placing::PlacementView>,
    j: int,
)
    requires
        0 <= j < sites.len(),
    ensures
        files(
            grouped(sites, reports, placed),
            sites[j].id.repo_key,
            model::CheckoutView {
                report: reports[j],
                workspaces: sites[j].workspaces,
                agents: agents_at(placed, sites[j].id.path),
            },
        ),
    decreases sites.len(),
{
    let rest = sites.drop_last();
    let last = sites.last();
    let before = grouped(rest, reports, placed);
    let checkout = model::CheckoutView {
        report: reports[sites.len() - 1],
        workspaces: last.workspaces,
        agents: agents_at(placed, last.id.path),
    };
    if j < rest.len() {
        assert(rest[j] == sites[j]);
        law_a_checkout_is_filed_under_its_repository(rest, reports, placed, j);
        lemma_filing_keeps(
            before,
            last.id,
            checkout,
            sites[j].id.repo_key,
            model::CheckoutView {
                report: reports[j],
                workspaces: sites[j].workspaces,
                agents: agents_at(placed, sites[j].id.path),
            },
        );
    } else {
        lemma_filing_adds(before, last.id, checkout);
    }
}

/// The agents of a checkout are those credited to its place, and none where
/// nobody is.
pub proof fn law_the_agents_of_a_checkout_are_those_placed_there(
    placed: Seq<placing::PlacementView>,
    path: Text,
    k: int,
)
    ensures
        0 <= k < placed.len() && paths::same_place(placed[k].root, path) && (forall|j: int|
            0 <= j < k ==> !paths::same_place((#[trigger] placed[j]).root, path)) ==> agents_at(
            placed,
            path,
        ) == placed[k].agents,
        (forall|j: int|
            0 <= j < placed.len() ==> !paths::same_place((#[trigger] placed[j]).root, path))
            ==> agents_at(placed, path).len() == 0,
    decreases placed.len(),
{
    if placed.len() > 0 {
        let rest = placed.drop_first();
        law_the_agents_of_a_checkout_are_those_placed_there(rest, path, k - 1);
        assert(forall|j: int| 0 <= j < rest.len() ==> #[trigger] rest[j] == placed[j + 1]);
        if !paths::same_place(placed[0].root, path) {
            assert(placing::position(placed, path) == 1 + placing::position(rest, path));
            if placing::position(rest, path) < rest.len() {
                assert(rest[placing::position(rest, path) as int] == placed[placing::position(
                    placed,
                    path,
                ) as int]);
            }
        }
        if forall|j: int| 0 <= j < k ==> !paths::same_place((#[trigger] placed[j]).root, path) {
            assert forall|j: int| 0 <= j < k - 1 && j < rest.len() implies !paths::same_place(
                (#[trigger] rest[j]).root,
                path,
            ) by {
                assert(rest[j] == placed[j + 1]);
            }
        }
        if forall|j: int|
            0 <= j < placed.len() ==> !paths::same_place((#[trigger] placed[j]).root, path) {
            assert forall|j: int| 0 <= j < rest.len() implies !paths::same_place(
                (#[trigger] rest[j]).root,
                path,
            ) by {
                assert(rest[j] == placed[j + 1]);
            }
            assert(!paths::same_place(placed[0].root, path));
        }
    }
}

/// A repository goes by the name of its directory.
pub proof fn law_a_repository_goes_by_its_directory(id: CheckoutId<Text>)
    ensures
        paths::last_name(id.repo_root) is Some ==> display_text(id) == paths::last_name(
            id.repo_root,
        )->0,
        paths::last_name(id.repo_root) is None ==> display_text(id) == id.repo_root,
{
}

proof fn lemma_repo_order(a: model::RepoView, b: model::RepoView, c: model::RepoView)
    ensures
        !repo_leads(a, a),
        repo_leads(a, b) && repo_leads(b, c) ==> repo_leads(a, c),
        !repo_leads(a, b) && !repo_leads(b, c) ==> !repo_leads(a, c),
{
    strings::law_precedes_is_a_strict_total_order(a.name, b.name, c.name);
    strings::law_precedes_is_a_strict_total_order(b.name, a.name, c.name);
}

proof fn lemma_checkout_order(
    a: model::CheckoutView,
    b: model::CheckoutView,
    c: model::CheckoutView,
)
    ensures
        !checkout_leads(a, a),
        checkout_leads(a, b) && checkout_leads(b, c) ==> checkout_leads(a, c),
        !checkout_leads(a, b) && !checkout_leads(b, c) ==> !checkout_leads(a, c),
{
    paths::law_path_order_is_an_ordering(a.report.path, b.report.path, c.report.path);
    paths::law_path_order_is_an_ordering(a.report.path, a.report.path, a.report.path);
}

/// The repositories come in the order of what they are about, what went wrong
/// first and what is quiet last; among equals the most commits first, and among
/// those by name.
pub proof fn law_a_digest_leads_with_what_matters(
    grouped: Seq<model::RepoView>,
    patterns: Seq<Text>,
    i: int,
    j: int,
)
    requires
        0 <= i < j < digested(grouped, patterns, true).len(),
    ensures
        ({
            let above = digested(grouped, patterns, true)[i];
            let below = digested(grouped, patterns, true)[j];
            &&& above.activity().rank() >= below.activity().rank()
            &&& above.activity() == below.activity() ==> above.commits >= below.commits
            &&& above.activity() == below.activity() && above.commits == below.commits
                ==> !strings::precedes(below.name, above.name)
        }),
{
    let leads = |a: model::RepoView, b: model::RepoView| repo_leads(a, b);
    assert(order::is_ordering(leads)) by {
        assert forall|a: model::RepoView| !#[trigger] leads(a, a) by {
            lemma_repo_order(a, a, a);
        }
        assert forall|a: model::RepoView, b: model::RepoView, c: model::RepoView| #[trigger]
            leads(a, b) && #[trigger] leads(b, c) implies leads(a, c) by {
            lemma_repo_order(a, b, c);
        }
        assert forall|a: model::RepoView, b: model::RepoView, c: model::RepoView| !#[trigger]
            leads(a, b) && !#[trigger] leads(b, c) implies !leads(a, c) by {
            lemma_repo_order(a, b, c);
        }
    }
    let by_key = order::arranged(
        grouped,
        |a: model::RepoView, b: model::RepoView| key_leads(a, b),
    );
    order::law_arranged_is_in_order(all_totalled(by_key, patterns), leads);
    let repos = digested(grouped, patterns, true);
    assert(!leads(repos[j], repos[i]));
}

/// So do the checkouts of a repository: the one whose last commit is the latest
/// first among equals, and then by path.
pub proof fn law_a_repository_leads_with_what_matters(
    repo: model::RepoView,
    patterns: Seq<Text>,
    i: int,
    j: int,
)
    requires
        0 <= i < j < totalled(repo, patterns).checkouts.len(),
    ensures
        ({
            let above = totalled(repo, patterns).checkouts[i].report;
            let below = totalled(repo, patterns).checkouts[j].report;
            let same = above.activity() == below.activity();
            &&& above.activity().rank() >= below.activity().rank()
            &&& same ==> render::latest(above.commits) >= render::latest(below.commits)
            &&& same && render::latest(above.commits) == render::latest(below.commits)
                ==> !paths::path_precedes(below.path, above.path)
        }),
{
    let leads = |a: model::CheckoutView, b: model::CheckoutView| checkout_leads(a, b);
    assert(order::is_ordering(leads)) by {
        assert forall|a: model::CheckoutView| !#[trigger] leads(a, a) by {
            lemma_checkout_order(a, a, a);
        }
        assert forall|a: model::CheckoutView, b: model::CheckoutView, c: model::CheckoutView|
         #[trigger] leads(a, b) && #[trigger] leads(b, c) implies leads(a, c) by {
            lemma_checkout_order(a, b, c);
        }
        assert forall|a: model::CheckoutView, b: model::CheckoutView, c: model::CheckoutView|
         !#[trigger] leads(a, b) && !#[trigger] leads(b, c) implies !leads(a, c) by {
            lemma_checkout_order(a, b, c);
        }
    }
    order::law_arranged_is_in_order(rollup::rolled(repo, patterns).checkouts, leads);
    let checkouts = totalled(repo, patterns).checkouts;
    assert(!leads(checkouts[j], checkouts[i]));
}

/// Nothing but quiet repositories is left out, and those only where they were not
/// asked for.
pub proof fn law_only_quiet_repositories_are_left_out(
    grouped: Seq<model::RepoView>,
    patterns: Seq<Text>,
)
    ensures
        digested(grouped, patterns, true).len() == grouped.len(),
        digested(grouped, patterns, false) == digested(grouped, patterns, true).filter(
            |repo: model::RepoView| repo.activity() != Activity::Quiet,
        ),
{
    let by_key = order::arranged(
        grouped,
        |a: model::RepoView, b: model::RepoView| key_leads(a, b),
    );
    order::law_arranged_keeps_items(
        grouped,
        |a: model::RepoView, b: model::RepoView| key_leads(a, b),
    );
    order::law_arranged_keeps_items(
        all_totalled(by_key, patterns),
        |a: model::RepoView, b: model::RepoView| repo_leads(a, b),
    );
    assert(digested(grouped, patterns, false) =~= digested(grouped, patterns, true).filter(
        |repo: model::RepoView| repo.activity() != Activity::Quiet,
    ));
}

/// A build asks for one thing at a time, and for nothing twice: for what each
/// directory is, then for the worktrees of each repository and what each of them
/// is, then for the window, then for the report on each checkout.
pub proof fn law_a_build_asks_for_what_is_missing(build: BuildView)
    ensures
        match build.need() {
            NeedView::Identify(place) => if build.identified < build.candidates.len() {
                place == Place::<Text, Seq<u8>>::Named(build.candidates[build.identified as int])
            } else {
                build.siblings.len() > 0 && place == build.siblings[0]
            },
            NeedView::Worktrees(id) => build.identified >= build.candidates.len()
                && build.siblings.len() == 0 && build.listed < build.seeds.len() && id
                == build.seeds[build.listed as int],
            NeedView::Window(anchors) => build.identified >= build.candidates.len()
                && build.siblings.len() == 0 && build.listed >= build.seeds.len()
                && build.window is None && anchors.len() == build.found.sites.len() && forall|
                i: int,
            |
                0 <= i < anchors.len() ==> #[trigger] anchors[i] == build.found.sites[i].id.path,
            NeedView::Report(id) => build.window is Some && build.reports.len()
                < build.found.sites.len() && id == build.found.sites[build.reports.len() as int].id,
            NeedView::Nothing => build.identified >= build.candidates.len()
                && build.siblings.len() == 0 && build.listed >= build.seeds.len()
                && build.window is Some && build.reports.len() >= build.found.sites.len(),
        },
{
}

/// What is answered is taken over: one directory more is identified, one
/// repository more listed, the window is the one that was found, and a report
/// stands behind those before it. Nothing else changes.
pub proof fn law_an_answer_is_taken_over(
    build: BuildView,
    identity: Identity<Text>,
    worktrees: WorktreesView,
    window: Window<Text>,
    notes: Seq<Note<Text>>,
    report: model::ReportView,
)
    ensures
        build.identified < build.candidates.len() ==> build.with_identity(identity).identified
            == build.identified + 1,
        build.with_worktrees(worktrees).listed == build.listed + 1,
        build.with_worktrees(worktrees).found.sites == build.found.sites,
        worktrees.found is Err ==> build.with_worktrees(worktrees).found.notes.len()
            == build.found.notes.len() + 1 && strings::holds(
            build.with_worktrees(worktrees).found.notes.last().message,
            worktrees.found->Err_0,
        ),
        build.with_window(window, notes).window == Some(window),
        build.with_window(window, notes).found.sites == build.found.sites,
        forall|i: int|
            0 <= i < notes.len() ==> build.with_window(window, notes).found.notes.contains(
                #[trigger] notes[i],
            ),
        build.with_report(report).reports == build.reports.push(report),
        build.with_report(report).found == build.found,
        build.with_report(report).window == build.window,
{
    broadcast use strings::lemma_holds_together;

    if worktrees.found is Err {
        strings::lemma_holds_itself(worktrees.found->Err_0);
    }
    let all = build.with_window(window, notes).found.notes;
    assert forall|i: int| 0 <= i < notes.len() implies all.contains(#[trigger] notes[i]) by {
        assert(all[build.found.notes.len() + i] == notes[i]);
    }
}

/// With worktrees asked for, every repository that was found is asked, as soon as
/// the last directory is identified; otherwise none is.
pub proof fn law_worktrees_are_listed_only_when_asked_for(
    build: BuildView,
    identity: Identity<Text>,
)
    requires
        build.identified < build.candidates.len(),
    ensures
        !build.include_siblings ==> build.with_identity(identity).seeds == build.seeds,
        build.include_siblings && build.identified + 1 == build.candidates.len()
            ==> build.with_identity(identity).seeds == seeds_of(
            build.with_identity(identity).found.sites,
        ),
{
}

/// A digest is of its window and its notes, dated when it was made.
pub proof fn law_a_digest_carries_its_window_and_notes(build: BuildView, generated_at: Stamp<Text>)
    requires
        build.window is Some,
    ensures
        build.digest(generated_at).window == build.window->0,
        build.digest(generated_at).notes == build.found.notes,
        build.digest(generated_at).generated_at == generated_at,
        build.digest(generated_at).schema == SCHEMA_VERSION,
{
}

} // verus!
