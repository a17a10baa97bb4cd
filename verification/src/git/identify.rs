//! Which checkout a directory belongs to, and which other checkouts its
//! repository has.

use vstd::prelude::*;

use crate::git;
use crate::git::ask;
use crate::git::ask::{Ask, Reply, Step};
use crate::git::Git;
use crate::model::{RepoKey, Text};
use crate::paths;
use crate::paths::Place;
use crate::strings;

verus! {

/// A directory that git has confirmed is a checkout, with its repository
/// identity resolved.
#[derive(Debug, PartialEq, Eq)]
pub struct CheckoutId<T = String> {
    /// The checkout root, absolute and canonical.
    pub path: T,
    /// The common git directory, absolute and canonical. Shared by every linked
    /// worktree of one repository.
    pub repo_key: RepoKey<T>,
    /// The main checkout of the repository, where it can be determined.
    pub repo_root: T,
    pub is_linked_worktree: bool,
}

impl View for CheckoutId {
    type V = CheckoutId<Text>;

    open spec fn view(&self) -> CheckoutId<Text> {
        CheckoutId {
            path: self.path@,
            repo_key: self.repo_key@,
            repo_root: self.repo_root@,
            is_linked_worktree: self.is_linked_worktree,
        }
    }
}

impl Clone for CheckoutId {
    fn clone(&self) -> (out: Self)
        ensures
            out@ == self@,
    {
        CheckoutId {
            path: self.path.clone(),
            repo_key: self.repo_key.clone(),
            repo_root: self.repo_root.clone(),
            is_linked_worktree: self.is_linked_worktree,
        }
    }
}

/// What became of asking about a directory.
#[derive(Debug, PartialEq, Eq)]
pub enum Identity<T = String> {
    Checkout(CheckoutId<T>),
    /// Not a checkout, which is ordinary data: most sessions have at least one
    /// workspace in a plain directory.
    Nothing,
    /// Git itself could not be run.
    Failed(T),
}

impl View for Identity {
    type V = Identity<Text>;

    open spec fn view(&self) -> Identity<Text> {
        match self {
            Identity::Checkout(id) => Identity::Checkout(id@),
            Identity::Nothing => Identity::Nothing,
            Identity::Failed(reason) => Identity::Failed(reason@),
        }
    }
}

// ---------------------------------------------------------------------------
// Identifying
// ---------------------------------------------------------------------------

pub open spec fn identify_args() -> Seq<Text> {
    seq!["rev-parse"@, "--path-format=absolute"@, "--show-toplevel"@, "--git-common-dir"@]
}

/// Why a command could not be run.
pub open spec fn not_run(git: git::GitView, dir: Text, name: Text, reply: ask::ReplyView) -> Text {
    match reply {
        ask::ReplyView::NotAwaited(error) => "waiting for git "@ + name + " in "@ + dir + ": "@
            + error,
        ask::ReplyView::NotStarted(error) => "could not run "@ + git.program + " in "@ + dir
            + ": "@ + error,
        _ => "could not run "@ + git.program + " in "@ + dir,
    }
}

pub fn explain_not_run(git: &Git, dir: &str, name: &str, reply: &Reply) -> (out: String)
    ensures
        out@ == not_run(git@, dir@, name@, reply@),
{
    match reply {
        Reply::NotAwaited(error) => {
            let start = strings::cat4("waiting for git ", name, " in ", dir);
            strings::cat3(start.as_str(), ": ", error.as_str())
        },
        Reply::NotStarted(error) => {
            let start = strings::cat4("could not run ", git.program(), " in ", dir);
            strings::cat3(start.as_str(), ": ", error.as_str())
        },
        _ => strings::cat4("could not run ", git.program(), " in ", dir),
    }
}

/// The canonical form of a path: what was answered, or the path itself.
pub open spec fn canonical_of(reply: ask::ReplyView, path: Text) -> Text {
    match reply {
        ask::ReplyView::Canonical(canonical) => canonical,
        _ => path,
    }
}

pub fn canonical(reply: &Reply, path: &str) -> (out: String)
    ensures
        out@ == canonical_of(reply@, path@),
{
    match reply {
        Reply::Canonical(canonical) => canonical.clone(),
        _ => path.to_string(),
    }
}

pub open spec fn canonicalize<V>(path: Text) -> ask::StepView<V> {
    ask::StepView::Ask(ask::AskView::Canonicalize { path })
}

pub open spec fn identity(top: Text, common: Text, root: Text) -> Identity<Text> {
    Identity::Checkout(
        CheckoutId {
            path: top,
            repo_key: RepoKey(common),
            repo_root: root,
            is_linked_worktree: !paths::same_place(top, root),
        },
    )
}

/// The checkout that two lines of an answer describe: its root and the common
/// git directory, each made canonical first, because a checkout reached through
/// a link would otherwise have two identities. `<root>/.git` is the ordinary
/// layout; any other has no main checkout that could be derived, and the root at
/// hand is the best answer.
pub open spec fn located(
    top: Text,
    common: Text,
    heard: Seq<ask::ReplyView>,
) -> ask::StepView<Identity<Text>> {
    if heard.len() == 0 {
        canonicalize(top)
    } else if heard.len() == 1 {
        canonicalize(common)
    } else {
        let top = canonical_of(heard[0], top);
        let common = canonical_of(heard[1], common);
        if paths::last_name(common) != Some(".git"@) {
            ask::done(identity(top, common, top), Seq::empty())
        } else {
            match paths::above(common) {
                None => ask::done(identity(top, common, top), Seq::empty()),
                Some(parent) => if heard.len() == 2 {
                    canonicalize(parent)
                } else {
                    ask::done(
                        identity(top, common, canonical_of(heard[2], parent)),
                        Seq::empty(),
                    )
                },
            }
        }
    }
}

/// Resolves a directory to a checkout. Anything git itself rejected is a "no",
/// not a failure.
pub open spec fn identify_step(
    git: git::GitView,
    place: Place<Text, Seq<u8>>,
    heard: Seq<ask::ReplyView>,
) -> ask::StepView<Identity<Text>> {
    if heard.len() == 0 {
        ask::StepView::Ask(ask::run_at(place, identify_args()))
    } else {
        match heard[0] {
            ask::ReplyView::TimedOut => ask::done(
                Identity::Failed(
                    git.program + " rev-parse timed out after "@ + ask::span_text(
                        git.timeout as nat,
                    ) + " in "@ + place.shown(),
                ),
                Seq::empty(),
            ),
            ask::ReplyView::Ran(out) => {
                let lines = strings::lines(out.said());
                if !out.succeeded() || lines.len() < 2 || lines[0].len() == 0 || lines[1].len()
                    == 0 {
                    ask::done(Identity::Nothing, Seq::empty())
                } else {
                    located(lines[0], lines[1], heard.skip(1))
                }
            },
            reply => ask::done(
                Identity::Failed(not_run(git, place.shown(), "rev-parse"@, reply)),
                Seq::empty(),
            ),
        }
    }
}

fn settled(value: Identity) -> (out: Step<Identity>)
    ensures
        out@ == ask::done(value@, Seq::empty()),
{
    let problems: Vec<String> = Vec::new();
    assert(strings::views(problems@) =~= Seq::empty());
    Step::Done { value, problems }
}

fn checkout(top: String, common: String, root: String) -> (out: Step<Identity>)
    ensures
        out@ == ask::done(identity(top@, common@, root@), Seq::empty()),
{
    let linked = !paths::is_same_place(top.as_str(), root.as_str());
    settled(
        Identity::Checkout(
            CheckoutId {
                path: top,
                repo_key: RepoKey(common),
                repo_root: root,
                is_linked_worktree: linked,
            },
        ),
    )
}

fn is_git_dir(common: &str) -> (answer: bool)
    ensures
        answer == (paths::last_name(common@) == Some(".git"@)),
{
    match paths::file_name(common) {
        Some(name) => strings::same(name.as_str(), ".git"),
        None => false,
    }
}

fn locate(top: String, common: String, heard: &Vec<Reply>) -> (out: Step<Identity>)
    requires
        heard@.len() >= 1,
    ensures
        out@ == located(top@, common@, strings::views(heard@).skip(1)),
{
    let ghost rest = strings::views(heard@).skip(1);
    if heard.len() == 1 {
        return Step::Ask(Ask::Canonicalize { path: top });
    }
    if heard.len() == 2 {
        return Step::Ask(Ask::Canonicalize { path: common });
    }
    assert(rest[0] == heard@[1]@);
    assert(rest[1] == heard@[2]@);
    let top = canonical(&heard[1], top.as_str());
    let common = canonical(&heard[2], common.as_str());
    if !is_git_dir(common.as_str()) {
        let root = top.clone();
        return checkout(top, common, root);
    }
    match paths::parent(common.as_str()) {
        None => {
            let root = top.clone();
            checkout(top, common, root)
        },
        Some(parent) => {
            if heard.len() == 3 {
                return Step::Ask(Ask::Canonicalize { path: parent });
            }
            assert(rest[2] == heard@[3]@);
            let root = canonical(&heard[3], parent.as_str());
            checkout(top, common, root)
        },
    }
}

impl Git {
    /// Resolves a candidate directory to a checkout.
    pub fn identify(&self, path: &Place, heard: &Vec<Reply>) -> (out: Step<Identity>)
        ensures
            out@ == identify_step(self@, path@, strings::views(heard@)),
    {
        let ghost all = strings::views(heard@);
        if heard.len() == 0 {
            let args = ["rev-parse", "--path-format=absolute", "--show-toplevel", "--git-common-dir"];
            assert(strings::views(args@) =~= identify_args());
            return ask::ask_run_at(path, args.as_slice());
        }
        assert(all[0] == heard@[0]@);
        match &heard[0] {
            Reply::TimedOut => {
                let start = strings::cat3(
                    self.program(),
                    " rev-parse timed out after ",
                    ask::span(self.timeout()).as_str(),
                );
                settled(
                    Identity::Failed(
                        strings::cat3(start.as_str(), " in ", path.display().as_str()),
                    ),
                )
            },
            Reply::Ran(out) => {
                if !out.ok() {
                    return settled(Identity::Nothing);
                }
                let lines = strings::split_lines(out.stdout_text().as_str());
                assert(strings::views(lines@).len() == lines@.len());
                if lines.len() < 2 {
                    return settled(Identity::Nothing);
                }
                assert(strings::views(lines@)[0] == lines@[0]@);
                assert(strings::views(lines@)[1] == lines@[1]@);
                if strings::is_empty(lines[0].as_str()) || strings::is_empty(lines[1].as_str()) {
                    return settled(Identity::Nothing);
                }
                locate(lines[0].clone(), lines[1].clone(), heard)
            },
            _ => settled(
                Identity::Failed(
                    explain_not_run(self, path.display().as_str(), "rev-parse", &heard[0]),
                ),
            ),
        }
    }
}

// ---------------------------------------------------------------------------
// Commands that must succeed
// ---------------------------------------------------------------------------

/// Why a command that is expected to succeed did not.
pub open spec fn run_fault(
    git: git::GitView,
    dir: Text,
    args: Seq<Text>,
    reply: ask::ReplyView,
) -> Option<Text> {
    match reply {
        ask::ReplyView::Ran(out) => if out.succeeded() {
            None
        } else {
            Some(
                "git "@ + strings::joined(args, " "@) + " failed in "@ + dir + ": "@
                    + out.complaint(),
            )
        },
        ask::ReplyView::TimedOut => Some(
            "git "@ + strings::joined(args, " "@) + " timed out after "@ + ask::span_text(
                git.timeout as nat,
            ) + " in "@ + dir,
        ),
        _ => Some(not_run(git, dir, args[0], reply)),
    }
}

pub fn explain_run(git: &Git, dir: &str, args: &Vec<String>, reply: &Reply) -> (out: Option<String>)
    requires
        args@.len() > 0,
    ensures
        strings::view_of(out) == run_fault(git@, dir@, strings::views(args@), reply@),
{
    assert(strings::views(args@)[0] == args@[0]@);
    match reply {
        Reply::Ran(out) => if out.ok() {
            None
        } else {
            let start = strings::cat4("git ", strings::join(args, " ").as_str(), " failed in ", dir);
            Some(strings::cat3(start.as_str(), ": ", out.stderr_text().as_str()))
        },
        Reply::TimedOut => {
            let start = strings::cat4(
                "git ",
                strings::join(args, " ").as_str(),
                " timed out after ",
                ask::span(git.timeout()).as_str(),
            );
            Some(strings::cat3(start.as_str(), " in ", dir))
        },
        _ => Some(explain_not_run(git, dir, args[0].as_str(), reply)),
    }
}

// ---------------------------------------------------------------------------
// Other worktrees
// ---------------------------------------------------------------------------

pub open spec fn worktree_args() -> Seq<Text> {
    seq!["worktree"@, "list"@, "--porcelain"@, "-z"@]
}

/// Whether a text in ASCII stands at the beginning of some bytes.
pub open spec fn bytes_begin(bytes: Seq<u8>, prefix: Text) -> bool {
    strings::begins(strings::latin(bytes), prefix)
}

/// Whether a record is about a bare repository, or about a worktree that is
/// gone.
pub open spec fn passed_over(record: Seq<Seq<u8>>) -> bool {
    exists|i: int|
        0 <= i < record.len() && (strings::latin(#[trigger] record[i]) == "bare"@ || bytes_begin(
            record[i],
            "prunable"@,
        ))
}

/// The path a record names, where it names one, in bytes. Its first field does.
pub open spec fn record_name(record: Seq<Seq<u8>>) -> Option<Seq<u8>> {
    if record.len() == 0 || passed_over(record) || !bytes_begin(record[0], "worktree "@) {
        None
    } else {
        Some(record[0].skip(9))
    }
}

/// The records of a porcelain listing: runs of fields with an empty field
/// between them. The last of them is still open.
pub open spec fn records(fields: Seq<Seq<u8>>) -> Seq<Seq<Seq<u8>>>
    decreases fields.len(),
{
    if fields.len() == 0 {
        seq![Seq::empty()]
    } else {
        let before = records(fields.drop_last());
        if fields.last().len() == 0 {
            before.push(Seq::empty())
        } else {
            before.drop_last().push(before.last().push(fields.last()))
        }
    }
}

/// The records of a listing that say something.
pub open spec fn entries(bytes: Seq<u8>) -> Seq<Seq<Seq<u8>>> {
    records(strings::pieces(bytes, 0)).filter(|record: Seq<Seq<u8>>| record.len() > 0)
}

/// The paths that the records name, in bytes.
pub open spec fn record_paths(records: Seq<Seq<Seq<u8>>>) -> Seq<Seq<u8>>
    decreases records.len(),
{
    if records.len() == 0 {
        Seq::empty()
    } else {
        let before = record_paths(records.drop_last());
        match record_name(records.last()) {
            Some(raw) => before.push(raw),
            None => before,
        }
    }
}

/// Whether a listing holds no linked worktree: the main checkout is always the
/// first, and here it is all there is.
pub open spec fn unlinked(bytes: Seq<u8>) -> bool {
    entries(bytes).len() <= 1
}

/// The checkouts a listing names, in bytes. A repository with no linked
/// worktrees has none to name.
pub open spec fn listed(bytes: Seq<u8>) -> Seq<Seq<u8>> {
    if unlinked(bytes) {
        Seq::empty()
    } else {
        record_paths(entries(bytes))
    }
}

/// The checkouts of a repository, or why they could not be listed.
#[derive(Debug, PartialEq, Eq)]
pub struct Worktrees {
    pub found: Result<Vec<Place>, String>,
}

#[verifier::ext_equal]
pub struct WorktreesView {
    pub found: Result<Seq<Place<Text, Seq<u8>>>, Text>,
}

impl View for Worktrees {
    type V = WorktreesView;

    open spec fn view(&self) -> WorktreesView {
        WorktreesView {
            found: match self.found {
                Ok(found) => Ok(strings::views(found@)),
                Err(reason) => Err(reason@),
            },
        }
    }
}

/// The canonical form of a listed path: what was answered, or the path itself.
pub open spec fn canonical_place(reply: ask::ReplyView, path: Seq<u8>) -> Place<Text, Seq<u8>> {
    match reply {
        ask::ReplyView::CanonicalAt(canonical) => paths::place_of(canonical),
        _ => paths::place_of(path),
    }
}

/// Every checkout of the same repository, including ones no workspace is
/// sitting in, each under its canonical path; none for a repository with no
/// linked worktrees.
pub open spec fn worktrees_step(
    git: git::GitView,
    path: Text,
    heard: Seq<ask::ReplyView>,
) -> ask::StepView<WorktreesView> {
    if heard.len() == 0 {
        ask::run(path, worktree_args())
    } else {
        match run_fault(git, path, worktree_args(), heard[0]) {
            Some(reason) => ask::done(WorktreesView { found: Err(reason) }, Seq::empty()),
            None => {
                let found = listed(heard[0]->Ran_0.stdout);
                if heard.len() - 1 < found.len() {
                    ask::StepView::Ask(
                        ask::AskView::CanonicalizeAt { bytes: found[heard.len() - 1] },
                    )
                } else {
                    ask::done(
                        WorktreesView {
                            found: Ok(
                                Seq::new(
                                    found.len(),
                                    |i: int| canonical_place(heard[i + 1], found[i]),
                                ),
                            ),
                        },
                        Seq::empty(),
                    )
                }
            },
        }
    }
}

struct Record {
    fields: Vec<Vec<u8>>,
}

impl View for Record {
    type V = Seq<Seq<u8>>;

    closed spec fn view(&self) -> Seq<Seq<u8>> {
        strings::views(self.fields@)
    }
}

fn read_name(record: &Vec<Vec<u8>>) -> (out: Option<Vec<u8>>)
    ensures
        strings::view_of(out) == record_name(strings::views(record@)),
{
    let ghost all = strings::views(record@);
    if record.len() == 0 {
        return None;
    }
    for i in 0..record.len()
        invariant
            all == strings::views(record@),
            forall|k: int|
                0 <= k < i ==> strings::latin(#[trigger] all[k]) != "bare"@ && !bytes_begin(
                    all[k],
                    "prunable"@,
                ),
    {
        assert(all[i as int] == record@[i as int]@);
        let text = strings::latin_of(record[i].as_slice());
        if strings::same(text.as_str(), "bare") || strings::starts_with(text.as_str(), "prunable") {
            assert(passed_over(all));
            return None;
        }
    }
    assert(!passed_over(all));
    assert(all[0] == record@[0]@);
    let first = &record[0];
    let text = strings::latin_of(first.as_slice());
    if !strings::starts_with(text.as_str(), "worktree ") {
        return None;
    }
    proof {
        reveal_strlit("worktree ");
    }
    let raw = vstd::slice::slice_subrange(first.as_slice(), 9, first.len());
    assert(raw@ =~= all[0].skip(9));
    let raw = vstd::slice::slice_to_vec(raw);
    assert(raw@ =~= all[0].skip(9));
    Some(raw)
}

fn split_records(bytes: &[u8]) -> (out: Vec<Record>)
    ensures
        strings::views(out@) == entries(bytes@),
{
    broadcast use strings::group_lists;

    let fields = strings::split_bytes(bytes, 0);
    let ghost all = strings::views(fields@);
    let ghost filled = |record: Seq<Seq<u8>>| record.len() > 0;
    let mut out: Vec<Record> = Vec::new();
    let mut record: Vec<Vec<u8>> = Vec::new();
    assert(strings::views(record@) =~= Seq::empty());
    assert(records(all.take(0)).drop_last() =~= Seq::empty());
    assert(Seq::<Seq<Seq<u8>>>::empty().filter(filled) =~= Seq::empty()) by {
        reveal(Seq::filter);
    }
    for i in 0..fields.len()
        invariant
            all == strings::views(fields@),
            filled == (|record: Seq<Seq<u8>>| record.len() > 0),
            records(all.take(i as int)).len() > 0,
            strings::views(record@) == records(all.take(i as int)).last(),
            strings::views(out@) == records(all.take(i as int)).drop_last().filter(filled),
    {
        broadcast use strings::group_lists;

        let ghost before = records(all.take(i as int));
        assert(all.take(i + 1).drop_last() =~= all.take(i as int));
        assert(all[i as int] == fields@[i as int]@);
        if fields[i].len() == 0 {
            proof {
                reveal(Seq::filter);
                assert(before.push(Seq::empty()).drop_last() =~= before);
                assert(strings::views(record@).len() == record@.len());
            }
            if record.len() > 0 {
                out.push(Record { fields: record });
            }
            record = Vec::new();
            assert(strings::views(record@) =~= Seq::empty());
        } else {
            let field = vstd::slice::slice_to_vec(fields[i].as_slice());
            assert(field@ =~= fields@[i as int]@);
            record.push(field);
            assert(before.drop_last().push(before.last().push(field@)).drop_last()
                =~= before.drop_last());
        }
    }
    assert(all.take(all.len() as int) =~= all);
    proof {
        reveal(Seq::filter);
        assert(strings::views(record@).len() == record@.len());
    }
    if record.len() > 0 {
        out.push(Record { fields: record });
    }
    out
}

/// Reads a `worktree list --porcelain -z` stream: the checkouts it names, in
/// bytes.
pub fn parse_worktrees(bytes: &[u8]) -> (out: Vec<Vec<u8>>)
    ensures
        strings::views(out@) == listed(bytes@),
{
    broadcast use strings::group_lists;

    let found = split_records(bytes);
    let ghost all = strings::views(found@);
    assert(all.len() == found@.len());
    let mut out: Vec<Vec<u8>> = Vec::new();
    if found.len() <= 1 {
        return out;
    }
    for i in 0..found.len()
        invariant
            all == strings::views(found@),
            strings::views(out@) == record_paths(all.take(i as int)),
    {
        broadcast use strings::group_lists;

        assert(all.take(i + 1).drop_last() =~= all.take(i as int));
        assert(all[i as int] == found@[i as int]@);
        if let Some(raw) = read_name(&found[i].fields) {
            out.push(raw);
        }
    }
    assert(all.take(all.len() as int) =~= all);
    out
}

fn place_in(reply: &Reply, path: &[u8]) -> (out: Place)
    ensures
        out@ == canonical_place(reply@, path@),
{
    match reply {
        Reply::CanonicalAt(canonical) => paths::place(canonical.as_slice()),
        _ => paths::place(path),
    }
}

fn all_canonical(found: &Vec<Vec<u8>>, heard: &Vec<Reply>) -> (out: Vec<Place>)
    requires
        heard@.len() > found@.len(),
    ensures
        strings::views(out@) == Seq::new(
            found@.len(),
            |i: int| canonical_place(strings::views(heard@)[i + 1], strings::views(found@)[i]),
        ),
{
    broadcast use strings::group_lists;

    let ghost all = Seq::new(
        found@.len(),
        |i: int| canonical_place(strings::views(heard@)[i + 1], strings::views(found@)[i]),
    );
    let mut out: Vec<Place> = Vec::new();
    for i in 0..found.len()
        invariant
            heard@.len() > found@.len(),
            all == Seq::new(
                found@.len(),
                |i: int| canonical_place(strings::views(heard@)[i + 1], strings::views(found@)[i]),
            ),
            strings::views(out@) == all.take(i as int),
    {
        broadcast use strings::group_lists;

        assert(strings::views(heard@)[i + 1] == heard@[i + 1]@);
        assert(strings::views(found@)[i as int] == found@[i as int]@);
        out.push(place_in(&heard[i + 1], found[i].as_slice()));
        assert(all.take(i as int).push(all[i as int]) =~= all.take(i + 1));
    }
    assert(all.take(all.len() as int) =~= all);
    out
}

impl Git {
    /// Every checkout of the same repository.
    pub fn worktrees(&self, id: &CheckoutId, heard: &Vec<Reply>) -> (out: Step<Worktrees>)
        ensures
            out@ == worktrees_step(self@, id@.path, strings::views(heard@)),
    {
        broadcast use strings::group_lists;

        let ghost all = strings::views(heard@);
        let path = id.path.as_str();
        let problems: Vec<String> = Vec::new();
        assert(strings::views(problems@) =~= Seq::empty());
        let names = ["worktree", "list", "--porcelain", "-z"];
        assert(strings::views(names@) =~= worktree_args());
        if heard.len() == 0 {
            return ask::ask_run(path, names.as_slice());
        }
        assert(all[0] == heard@[0]@);
        let args = strings::strings_of(names.as_slice());
        assert(strings::views(args@).len() == args@.len());
        let reason = explain_run(self, path, &args, &heard[0]);
        if let Some(reason) = reason {
            return Step::Done { value: Worktrees { found: Err(reason) }, problems };
        }
        let found = match &heard[0] {
            Reply::Ran(out) => parse_worktrees(out.stdout.as_slice()),
            _ => Vec::new(),
        };
        assert(strings::views(found@) == listed(all[0]->Ran_0.stdout));
        assert(strings::views(found@).len() == found@.len());
        let asked = heard.len() - 1;
        if asked < found.len() {
            assert(strings::views(found@)[asked as int] == found@[asked as int]@);
            let bytes = vstd::slice::slice_to_vec(found[asked].as_slice());
            assert(bytes@ =~= found@[asked as int]@);
            return Step::Ask(Ask::CanonicalizeAt { bytes });
        }
        Step::Done { value: Worktrees { found: Ok(all_canonical(&found, heard)) }, problems }
    }
}

/// A repository with no linked worktrees has none: where the listing holds
/// nothing but the main checkout, the answer is an empty list.
pub proof fn law_no_linked_worktrees_is_an_empty_list(
    git: git::GitView,
    path: Text,
    reply: ask::ReplyView,
)
    requires
        reply is Ran,
        run_fault(git, path, worktree_args(), reply) is None,
        unlinked(reply->Ran_0.stdout),
    ensures
        worktrees_step(git, path, seq![reply]) == ask::done::<WorktreesView>(
            WorktreesView { found: Ok(Seq::empty()) },
            Seq::empty(),
        ),
{
    let found = listed(reply->Ran_0.stdout);
    assert(Seq::new(0nat, |i: int| canonical_place(seq![reply][i + 1], found[i])) =~= Seq::empty());
}

/// Finding out what a directory is, and which checkouts its repository has,
/// takes no more than two commands that read.
pub proof fn law_identifying_only_reads(
    git: git::GitView,
    place: Place<Text, Seq<u8>>,
    path: Text,
    heard: Seq<ask::ReplyView>,
)
    ensures
        identify_step(git, place, heard) matches ask::StepView::Ask(ask) ==> (ask == ask::run_at(
            place,
            identify_args(),
        ) || ask is Canonicalize),
        worktrees_step(git, path, heard) matches ask::StepView::Ask(ask) ==> (ask
            == ask::AskView::Run { dir: path, args: worktree_args() } || ask is CanonicalizeAt),
{
}

/// A checkout is named by what git answers: its own directory, the directory that
/// all checkouts of the repository share as its key, and the directory above that
/// as its root where it is called `.git`. It is a linked worktree exactly where it
/// is not that root.
pub proof fn law_a_checkout_is_named_by_what_git_answers(
    top: Text,
    common: Text,
    heard: Seq<ask::ReplyView>,
)
    requires
        located(top, common, heard) is Done,
    ensures
        ({
            let here = if heard[0] is Canonical {
                heard[0]->Canonical_0
            } else {
                top
            };
            let shared = if heard[1] is Canonical {
                heard[1]->Canonical_0
            } else {
                common
            };
            let found = located(top, common, heard)->value;
            &&& found is Checkout
            &&& found->Checkout_0.path == here
            &&& found->Checkout_0.repo_key == RepoKey(shared)
            &&& found->Checkout_0.is_linked_worktree <==> !paths::same_place(
                here,
                found->Checkout_0.repo_root,
            )
            &&& paths::last_name(shared) != Some(".git"@) ==> found->Checkout_0.repo_root == here
            &&& paths::last_name(shared) == Some(".git"@) && paths::above(shared) is Some
                ==> found->Checkout_0.repo_root == (if heard[2] is Canonical {
                heard[2]->Canonical_0
            } else {
                paths::above(shared)->0
            })
        }),
{
}

/// In a repository with the usual layout the checkout that holds the git
/// directory is no linked worktree, and every other one is.
pub proof fn law_only_other_worktrees_are_linked(root: Text, top: Text)
    ensures
        ({
            let common = paths::below(root, ".git"@);
            let heard = seq![
                ask::ReplyView::Canonical(top),
                ask::ReplyView::Canonical(common),
                ask::ReplyView::Canonical(root),
            ];
            let found = located(top, common, heard);
            &&& found is Done
            &&& found->value is Checkout
            &&& found->value->Checkout_0.repo_root == root
            &&& found->value->Checkout_0.is_linked_worktree <==> !paths::same_place(top, root)
        }),
{
    reveal_strlit(".git");
    reveal_strlit(".");
    reveal_strlit("..");
    assert(".git"@.len() == 4);
    assert(paths::is_name(".git"@)) by {
        assert forall|i: int| 0 <= i < 4 implies ".git"@[i] != '/' by {}
    }
    paths::law_below_is_one_step_further(root, ".git"@, ".git"@);
    paths::law_above_undoes_below(root, ".git"@);
}

/// A directory is no checkout exactly where git ran and did not answer with two
/// lines; it is a failure where git did not run to its end, and that names the
/// directory and the reason.
pub proof fn law_a_failure_to_look_is_not_nothing(
    git: git::GitView,
    place: Place<Text, Seq<u8>>,
    heard: Seq<ask::ReplyView>,
)
    requires
        heard.len() > 0,
    ensures
        ({
            let step = identify_step(git, place, heard);
            let lines = strings::lines(heard[0]->Ran_0.said());
            if heard[0] is Ran {
                if heard[0]->Ran_0.code == Some(0i32) && lines.len() >= 2 && lines[0].len() > 0
                    && lines[1].len() > 0 {
                    step == located(lines[0], lines[1], heard.skip(1))
                } else {
                    step is Done && step->value is Nothing
                }
            } else {
                &&& step is Done
                &&& step->value is Failed
                &&& strings::holds(step->value->Failed_0, place.shown())
                &&& heard[0] is NotStarted ==> strings::holds(
                    step->value->Failed_0,
                    heard[0]->NotStarted_0,
                )
                &&& heard[0] is NotAwaited ==> strings::holds(
                    step->value->Failed_0,
                    heard[0]->NotAwaited_0,
                )
            }
        }),
{
    broadcast use strings::lemma_holds_together;

    strings::lemma_holds_itself(place.shown());
    if heard[0] is NotStarted {
        strings::lemma_holds_itself(heard[0]->NotStarted_0);
    }
    if heard[0] is NotAwaited {
        strings::lemma_holds_itself(heard[0]->NotAwaited_0);
    }
}

/// A command is at fault exactly where it did not run to its end with success,
/// and the fault names where it was, and what git complained of.
pub proof fn law_a_fault_is_told_in_full(
    git: git::GitView,
    dir: Text,
    args: Seq<Text>,
    reply: ask::ReplyView,
)
    ensures
        run_fault(git, dir, args, reply) is None <==> reply is Ran && reply->Ran_0.code == Some(
            0i32,
        ),
        run_fault(git, dir, args, reply) is Some ==> strings::holds(
            run_fault(git, dir, args, reply)->0,
            dir,
        ),
        reply is Ran && run_fault(git, dir, args, reply) is Some ==> strings::holds(
            run_fault(git, dir, args, reply)->0,
            reply->Ran_0.complaint(),
        ),
        reply is NotStarted ==> strings::holds(
            run_fault(git, dir, args, reply)->0,
            reply->NotStarted_0,
        ),
{
    broadcast use strings::lemma_holds_together;

    strings::lemma_holds_itself(dir);
    if reply is Ran {
        strings::lemma_holds_itself(reply->Ran_0.complaint());
    }
    if reply is NotStarted {
        strings::lemma_holds_itself(reply->NotStarted_0);
    }
}

/// A record of the list is the fields up to an empty one.
pub proof fn law_an_empty_field_ends_a_record(fields: Seq<Seq<u8>>, field: Seq<u8>)
    ensures
        records(Seq::empty()) == seq![Seq::<Seq<u8>>::empty()],
        records(fields).len() > 0,
        field.len() == 0 ==> records(fields.push(field)) == records(fields).push(Seq::empty()),
        field.len() > 0 ==> ({
            let (before, after) = (records(fields), records(fields.push(field)));
            &&& after.len() == before.len()
            &&& after.last() == before.last().push(field)
            &&& after.drop_last() == before.drop_last()
        }),
    decreases fields.len(),
{
    assert(fields.push(field).drop_last() =~= fields);
    if fields.len() > 0 {
        law_an_empty_field_ends_a_record(fields.drop_last(), fields.last());
        assert(fields.drop_last().push(fields.last()) =~= fields);
    }
    let before = records(fields);
    if field.len() > 0 {
        assert(records(fields.push(field)).drop_last() =~= before.drop_last());
    }
}

/// A worktree is listed under the bytes behind the word that starts its record,
/// unless the repository has none there or the worktree is to be pruned.
pub proof fn law_a_record_names_its_worktree(
    records: Seq<Seq<Seq<u8>>>,
    record: Seq<Seq<u8>>,
    i: int,
)
    requires
        record.len() > 0,
    ensures
        strings::latin(record[0].take(9)) == "worktree "@ && record[0].len() >= 9 && (forall|k: int|
            0 <= k < record.len() ==> strings::latin(#[trigger] record[k]) != "bare"@
                && !strings::begins(strings::latin(record[k]), "prunable"@)) ==> record_paths(
            records.push(record),
        ) == record_paths(records).push(record[0].skip(9)),
        0 <= i < record.len() && (strings::latin(record[i]) == "bare"@ || strings::begins(
            strings::latin(record[i]),
            "prunable"@,
        )) ==> record_paths(records.push(record)) == record_paths(records),
        record_paths(Seq::empty()) == Seq::<Seq<u8>>::empty(),
{
    reveal_strlit("worktree ");
    assert(records.push(record).drop_last() =~= records);
    if record[0].len() >= 9 {
        assert(strings::latin(record[0]).take(9) =~= strings::latin(record[0].take(9)));
    }
    if 0 <= i < record.len() && (strings::latin(record[i]) == "bare"@ || strings::begins(
        strings::latin(record[i]),
        "prunable"@,
    )) {
        assert(passed_over(record));
    }
}

/// The worktrees of a repository are those of the list, each at its place; a
/// repository with one record or none has no others.
pub proof fn law_every_listed_worktree_is_given(
    git: git::GitView,
    path: Text,
    heard: Seq<ask::ReplyView>,
    i: int,
)
    requires
        worktrees_step(git, path, heard) is Done,
        heard[0] is Ran,
        heard[0]->Ran_0.code == Some(0i32),
    ensures
        ({
            let found = worktrees_step(git, path, heard)->value.found;
            let fields = strings::pieces(heard[0]->Ran_0.stdout, 0);
            let entries = records(fields).filter(|record: Seq<Seq<u8>>| record.len() > 0);
            &&& found is Ok
            &&& entries.len() <= 1 ==> found->Ok_0.len() == 0
            &&& entries.len() > 1 ==> found->Ok_0.len() == record_paths(entries).len()
            &&& entries.len() > 1 && 0 <= i < found->Ok_0.len() ==> found->Ok_0[i]
                == paths::place_of(
                if heard[i + 1] is CanonicalAt {
                    heard[i + 1]->CanonicalAt_0
                } else {
                    record_paths(entries)[i]
                },
            )
        }),
{
}

} // verus!
