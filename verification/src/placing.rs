//! Which checkout each agent worked in.
//!
//! Agents are reported per workspace, and a workspace is not a place: its panes
//! can sit in different checkouts. So each agent is placed by its own directory.
//! One without a directory is placed where its workspace touches exactly one
//! checkout, since there is nowhere else it could have been. Where the workspace
//! spans several, the answer is unknowable, and the agent is credited nowhere
//! and counted in a note.

use vstd::prelude::*;

use crate::model;
use crate::model::{AgentRef, Note, Severity, Text, WorkspaceRef};
use crate::paths;
use crate::render;
use crate::strings;

verus! {

/// The agents that worked in one checkout.
#[derive(Debug, PartialEq, Eq)]
pub struct Placement {
    pub root: String,
    pub agents: Vec<AgentRef>,
}

#[verifier::ext_equal]
pub struct PlacementView {
    pub root: Text,
    pub agents: Seq<AgentRef<Text>>,
}

impl View for Placement {
    type V = PlacementView;

    open spec fn view(&self) -> PlacementView {
        PlacementView { root: self.root@, agents: strings::views(self.agents@) }
    }
}

// ---------------------------------------------------------------------------
// Places
// ---------------------------------------------------------------------------

/// The checkout a directory turned out to be part of. `resolved` pairs each
/// directory that was asked about with a checkout root.
pub open spec fn checkout_of(resolved: Seq<(Text, Text)>, dir: Text) -> Option<Text>
    decreases resolved.len(),
{
    if resolved.len() == 0 {
        None
    } else if paths::same_place(resolved[0].0, dir) {
        Some(resolved[0].1)
    } else {
        checkout_of(resolved.drop_first(), dir)
    }
}

/// The checkouts that some directories lie in, each once, in path order.
pub open spec fn spans(dirs: Seq<Text>, resolved: Seq<(Text, Text)>) -> Seq<Text>
    decreases dirs.len(),
{
    if dirs.len() == 0 {
        Seq::empty()
    } else {
        let before = spans(dirs.drop_last(), resolved);
        match checkout_of(resolved, dirs.last()) {
            Some(root) => if paths::has_place(before, root) {
                before
            } else {
                before.push(root)
            },
            None => before,
        }
    }
}

fn find_checkout(resolved: &Vec<(String, String)>, dir: &str) -> (out: Option<String>)
    ensures
        strings::view_of(out) == checkout_of(strings::views(resolved@), dir@),
{
    let ghost all = strings::views(resolved@);
    assert(all.skip(0) =~= all);
    for i in 0..resolved.len()
        invariant
            all == strings::views(resolved@),
            checkout_of(all.skip(i as int), dir@) == checkout_of(all, dir@),
    {
        let ghost rest = all.skip(i as int);
        assert(rest[0] == resolved@[i as int]@);
        assert(rest.drop_first() =~= all.skip(i + 1));
        if paths::is_same_place(resolved[i].0.as_str(), dir) {
            return Some(resolved[i].1.clone());
        }
    }
    None
}

fn find_spans(dirs: &Vec<String>, resolved: &Vec<(String, String)>) -> (out: Vec<String>)
    ensures
        strings::views(out@) == spans(strings::views(dirs@), strings::views(resolved@)),
{
    broadcast use strings::group_lists;

    let ghost all = strings::views(dirs@);
    let mut out: Vec<String> = Vec::new();
    for i in 0..dirs.len()
        invariant
            all == strings::views(dirs@),
            strings::views(out@) == spans(all.take(i as int), strings::views(resolved@)),
    {
        broadcast use strings::group_lists;

        assert(all.take(i + 1).drop_last() =~= all.take(i as int));
        assert(all[i as int] == dirs@[i as int]@);
        if let Some(root) = find_checkout(resolved, dirs[i].as_str()) {
            if !paths::holds_place(&out, root.as_str()) {
                out.push(root);
            }
        }
    }
    assert(all.take(all.len() as int) =~= all);
    out
}

// ---------------------------------------------------------------------------
// One agent
// ---------------------------------------------------------------------------

/// Where an agent worked.
pub enum Whereabouts<T = String> {
    At(T),
    /// In no checkout at all.
    Nowhere,
    /// In one of several, and nothing says in which.
    Unknown,
}

/// Where an agent worked: in the checkout of its own directory, and nowhere
/// where that directory is in none. Only an agent without a directory is placed
/// by its workspace, and only where there is nowhere else it could have been.
pub open spec fn worked_in(
    agent: AgentRef<Text>,
    resolved: Seq<(Text, Text)>,
    spanned: Seq<Text>,
) -> Whereabouts<Text> {
    match agent.cwd {
        Some(dir) => match checkout_of(resolved, dir) {
            Some(root) => Whereabouts::At(root),
            None => Whereabouts::Nowhere,
        },
        None => if spanned.len() == 1 {
            Whereabouts::At(spanned[0])
        } else if spanned.len() == 0 {
            Whereabouts::Nowhere
        } else {
            Whereabouts::Unknown
        },
    }
}

impl View for Whereabouts {
    type V = Whereabouts<Text>;

    open spec fn view(&self) -> Whereabouts<Text> {
        match self {
            Whereabouts::At(root) => Whereabouts::At(root@),
            Whereabouts::Nowhere => Whereabouts::Nowhere,
            Whereabouts::Unknown => Whereabouts::Unknown,
        }
    }
}

fn locate(
    agent: &AgentRef,
    resolved: &Vec<(String, String)>,
    spanned: &Vec<String>,
) -> (out: Whereabouts)
    ensures
        out@ == worked_in(agent@, strings::views(resolved@), strings::views(spanned@)),
{
    if let Some(dir) = &agent.cwd {
        return match find_checkout(resolved, dir.as_str()) {
            Some(root) => Whereabouts::At(root),
            None => Whereabouts::Nowhere,
        };
    }
    assert(strings::views(spanned@).len() == spanned@.len());
    if spanned.len() == 1 {
        assert(strings::views(spanned@)[0] == spanned@[0]@);
        Whereabouts::At(spanned[0].clone())
    } else if spanned.len() == 0 {
        Whereabouts::Nowhere
    } else {
        Whereabouts::Unknown
    }
}

pub open spec fn has_pane(agents: Seq<AgentRef<Text>>, pane: Text) -> bool {
    exists|i: int| 0 <= i < agents.len() && (#[trigger] agents[i]).pane_id == pane
}

/// The position of a checkout among the placements; their number where it is not
/// there.
pub open spec fn position(placed: Seq<PlacementView>, root: Text) -> nat
    decreases placed.len(),
{
    if placed.len() == 0 {
        0
    } else if paths::same_place(placed[0].root, root) {
        0
    } else {
        1 + position(placed.drop_first(), root)
    }
}

/// The placements with an agent credited to a checkout. One entry per pane: two
/// agents that share a display name are two agents, and the same pane reached
/// twice is one.
pub open spec fn credited(
    placed: Seq<PlacementView>,
    root: Text,
    agent: AgentRef<Text>,
) -> Seq<PlacementView> {
    let at = position(placed, root) as int;
    if at >= placed.len() {
        placed.push(PlacementView { root, agents: seq![agent] })
    } else if has_pane(placed[at].agents, agent.pane_id) {
        placed
    } else {
        placed.update(
            at,
            PlacementView { agents: placed[at].agents.push(agent), ..placed[at] },
        )
    }
}

fn has_agent(agents: &Vec<AgentRef>, pane: &str) -> (answer: bool)
    ensures
        answer == has_pane(strings::views(agents@), pane@),
{
    let ghost all = strings::views(agents@);
    for i in 0..agents.len()
        invariant
            all == strings::views(agents@),
            forall|k: int| 0 <= k < i ==> (#[trigger] all[k]).pane_id != pane@,
    {
        assert(all[i as int] == agents@[i as int]@);
        if strings::same(agents[i].pane_id.as_str(), pane) {
            return true;
        }
    }
    false
}

pub fn find_placement(placed: &Vec<Placement>, root: &str) -> (at: usize)
    ensures
        at == position(strings::views(placed@), root@),
        at <= placed@.len(),
{
    let ghost all = strings::views(placed@);
    assert(all.skip(0) =~= all);
    for i in 0..placed.len()
        invariant
            all == strings::views(placed@),
            position(all, root@) == i + position(all.skip(i as int), root@),
    {
        let ghost rest = all.skip(i as int);
        assert(rest[0] == placed@[i as int]@);
        assert(rest.drop_first() =~= all.skip(i + 1));
        if paths::is_same_place(placed[i].root.as_str(), root) {
            return i;
        }
    }
    placed.len()
}

fn credit(placed: &mut Vec<Placement>, root: String, agent: &AgentRef)
    ensures
        strings::views(final(placed)@) == credited(
            strings::views(old(placed)@),
            root@,
            agent@,
        ),
{
    broadcast use strings::group_lists;

    let ghost before = strings::views(placed@);
    let at = find_placement(placed, root.as_str());
    if at >= placed.len() {
        let mut agents: Vec<AgentRef> = Vec::new();
        agents.push(agent.clone());
        assert(strings::views(agents@) =~= seq![agent@]);
        placed.push(Placement { root, agents });
        return ;
    }
    assert(before[at as int] == placed@[at as int]@);
    if has_agent(&placed[at].agents, agent.pane_id.as_str()) {
        return ;
    }
    let ghost here = placed@[at as int];
    placed[at].agents.push(agent.clone());
    assert(strings::views(placed@) =~= credited(before, root@, agent@));
}

// ---------------------------------------------------------------------------
// All agents
// ---------------------------------------------------------------------------

/// The placements with the agents of one workspace credited where they worked.
pub open spec fn crew_placed(
    placed: Seq<PlacementView>,
    agents: Seq<AgentRef<Text>>,
    resolved: Seq<(Text, Text)>,
    spanned: Seq<Text>,
) -> Seq<PlacementView>
    decreases agents.len(),
{
    if agents.len() == 0 {
        placed
    } else {
        let before = crew_placed(placed, agents.drop_last(), resolved, spanned);
        match worked_in(agents.last(), resolved, spanned) {
            Whereabouts::At(root) => credited(before, root, agents.last()),
            _ => before,
        }
    }
}

/// How many of the agents cannot be placed.
pub open spec fn unplaceable(
    agents: Seq<AgentRef<Text>>,
    resolved: Seq<(Text, Text)>,
    spanned: Seq<Text>,
) -> nat
    decreases agents.len(),
{
    if agents.len() == 0 {
        0
    } else {
        unplaceable(agents.drop_last(), resolved, spanned) + if worked_in(
            agents.last(),
            resolved,
            spanned,
        ) is Unknown {
            1nat
        } else {
            0nat
        }
    }
}

pub open spec fn unknown_text(label: Text, checkouts: nat, agents: nat) -> Text {
    "workspace "@ + strings::quoted_text(label) + " spans "@ + strings::decimal(checkouts)
        + " checkouts and herdr did not say which of them "@ + render::counted(
        agents,
        "agent"@,
        "agents"@,
    ) + " worked in, so that work is credited to none of them"@
}

/// Every agent that can be placed, in the order of the workspaces.
pub open spec fn placements(
    workspaces: Seq<model::WorkspaceView>,
    resolved: Seq<(Text, Text)>,
) -> Seq<PlacementView>
    decreases workspaces.len(),
{
    if workspaces.len() == 0 {
        Seq::empty()
    } else {
        let last = workspaces.last();
        crew_placed(
            placements(workspaces.drop_last(), resolved),
            last.agents,
            resolved,
            spans(last.paths, resolved),
        )
    }
}

/// A note for each workspace with agents that cannot be placed.
pub open spec fn placement_notes(
    workspaces: Seq<model::WorkspaceView>,
    resolved: Seq<(Text, Text)>,
) -> Seq<Note<Text>>
    decreases workspaces.len(),
{
    if workspaces.len() == 0 {
        Seq::empty()
    } else {
        let last = workspaces.last();
        let before = placement_notes(workspaces.drop_last(), resolved);
        let spanned = spans(last.paths, resolved);
        let lost = unplaceable(last.agents, resolved, spanned);
        if lost > 0 {
            before.push(
                Note {
                    severity: Severity::Warning,
                    message: unknown_text(last.label, spanned.len(), lost),
                },
            )
        } else {
            before
        }
    }
}

/// Places the agents of one workspace, and counts those that cannot be placed.
fn place_crew(
    placed: &mut Vec<Placement>,
    agents: &Vec<AgentRef>,
    resolved: &Vec<(String, String)>,
    spanned: &Vec<String>,
) -> (lost: usize)
    ensures
        strings::views(final(placed)@) == crew_placed(
            strings::views(old(placed)@),
            strings::views(agents@),
            strings::views(resolved@),
            strings::views(spanned@),
        ),
        lost == unplaceable(
            strings::views(agents@),
            strings::views(resolved@),
            strings::views(spanned@),
        ),
{
    broadcast use strings::group_lists;

    let ghost start = strings::views(placed@);
    let ghost all = strings::views(agents@);
    let ghost places = strings::views(resolved@);
    let ghost roots = strings::views(spanned@);
    let mut lost: usize = 0;
    for i in 0..agents.len()
        invariant
            all == strings::views(agents@),
            places == strings::views(resolved@),
            roots == strings::views(spanned@),
            lost <= i,
            strings::views(placed@) == crew_placed(start, all.take(i as int), places, roots),
            lost == unplaceable(all.take(i as int), places, roots),
    {
        broadcast use strings::group_lists;

        assert(all.take(i + 1).drop_last() =~= all.take(i as int));
        assert(all[i as int] == agents@[i as int]@);
        match locate(&agents[i], resolved, spanned) {
            Whereabouts::At(root) => {
                credit(placed, root, &agents[i]);
            },
            Whereabouts::Nowhere => {},
            Whereabouts::Unknown => {
                lost = lost + 1;
            },
        }
    }
    assert(all.take(all.len() as int) =~= all);
    lost
}

fn explain_unknown(label: &str, checkouts: usize, agents: usize) -> (out: String)
    ensures
        out@ == unknown_text(label@, checkouts as nat, agents as nat),
{
    let start = strings::cat5(
        "workspace ",
        strings::quoted(label).as_str(),
        " spans ",
        strings::number(checkouts as u64).as_str(),
        " checkouts and herdr did not say which of them ",
    );
    strings::cat3(
        start.as_str(),
        render::quantity(agents, "agent", "agents").as_str(),
        " worked in, so that work is credited to none of them",
    )
}

/// Decides which checkout each agent worked in.
pub fn place_agents(
    workspaces: &Vec<WorkspaceRef>,
    resolved: &Vec<(String, String)>,
) -> (out: (Vec<Placement>, Vec<Note>))
    ensures
        strings::views(out.0@) == placements(
            strings::views(workspaces@),
            strings::views(resolved@),
        ),
        strings::views(out.1@) == placement_notes(
            strings::views(workspaces@),
            strings::views(resolved@),
        ),
{
    broadcast use strings::group_lists;

    let ghost all = strings::views(workspaces@);
    let ghost places = strings::views(resolved@);
    let mut placed: Vec<Placement> = Vec::new();
    let mut notes: Vec<Note> = Vec::new();
    for i in 0..workspaces.len()
        invariant
            all == strings::views(workspaces@),
            places == strings::views(resolved@),
            strings::views(placed@) == placements(all.take(i as int), places),
            strings::views(notes@) == placement_notes(all.take(i as int), places),
    {
        broadcast use strings::group_lists;

        let workspace = &workspaces[i];
        assert(all.take(i + 1).drop_last() =~= all.take(i as int));
        assert(all[i as int] == workspace@);
        let spanned = find_spans(&workspace.paths, resolved);
        let lost = place_crew(&mut placed, &workspace.agents, resolved, &spanned);
        assert(strings::views(spanned@).len() == spanned@.len());
        if lost > 0 {
            notes.push(
                Note::warning(explain_unknown(workspace.label.as_str(), spanned.len(), lost)),
            );
        }
    }
    assert(all.take(all.len() as int) =~= all);
    (placed, notes)
}

// ---------------------------------------------------------------------------
// Laws
// ---------------------------------------------------------------------------

/// Whether each checkout has one placement, and each pane one entry in it.
pub open spec fn each_once(placed: Seq<PlacementView>) -> bool {
    &&& forall|i: int, j: int|
        0 <= i < j < placed.len() ==> !paths::same_place(
            (#[trigger] placed[i]).root,
            (#[trigger] placed[j]).root,
        )
    &&& forall|i: int, j: int, k: int|
        0 <= i < placed.len() && 0 <= j < k < placed[i].agents.len() ==> (
        #[trigger] placed[i].agents[j]).pane_id != (#[trigger] placed[i].agents[k]).pane_id
}

proof fn lemma_position(placed: Seq<PlacementView>, root: Text)
    ensures
        position(placed, root) <= placed.len(),
        position(placed, root) < placed.len() ==> paths::same_place(
            placed[position(placed, root) as int].root,
            root,
        ),
        forall|i: int|
            0 <= i < position(placed, root) ==> !paths::same_place(
                (#[trigger] placed[i]).root,
                root,
            ),
    decreases placed.len(),
{
    if placed.len() > 0 && !paths::same_place(placed[0].root, root) {
        let rest = placed.drop_first();
        lemma_position(rest, root);
        assert forall|i: int| 0 <= i < position(placed, root) implies !paths::same_place(
            (#[trigger] placed[i]).root,
            root,
        ) by {
            if i > 0 {
                assert(rest[i - 1] == placed[i]);
            }
        }
    }
}

proof fn lemma_credited_once(placed: Seq<PlacementView>, root: Text, agent: AgentRef<Text>)
    requires
        each_once(placed),
    ensures
        each_once(credited(placed, root, agent)),
{
    lemma_position(placed, root);
    let at = position(placed, root) as int;
    let after = credited(placed, root, agent);
    if at < placed.len() && !has_pane(placed[at].agents, agent.pane_id) {
        assert forall|i: int, j: int, k: int|
            0 <= i < after.len() && 0 <= j < k < after[i].agents.len() implies (
        #[trigger] after[i].agents[j]).pane_id != (#[trigger] after[i].agents[k]).pane_id by {
            if i == at {
                let old_agents = placed[at].agents;
                if k == old_agents.len() {
                    assert(old_agents[j].pane_id != agent.pane_id);
                } else {
                    assert(placed[at].agents[j].pane_id != placed[at].agents[k].pane_id);
                }
            } else {
                assert(placed[i].agents[j].pane_id != placed[i].agents[k].pane_id);
            }
        }
        assert forall|i: int, j: int| 0 <= i < j < after.len() implies !paths::same_place(
            (#[trigger] after[i]).root,
            (#[trigger] after[j]).root,
        ) by {
            assert(!paths::same_place(placed[i].root, placed[j].root));
        }
    }
}

proof fn lemma_crew_once(
    placed: Seq<PlacementView>,
    agents: Seq<AgentRef<Text>>,
    resolved: Seq<(Text, Text)>,
    spanned: Seq<Text>,
)
    requires
        each_once(placed),
    ensures
        each_once(crew_placed(placed, agents, resolved, spanned)),
    decreases agents.len(),
{
    if agents.len() > 0 {
        lemma_crew_once(placed, agents.drop_last(), resolved, spanned);
        if let Whereabouts::At(root) = worked_in(agents.last(), resolved, spanned) {
            lemma_credited_once(
                crew_placed(placed, agents.drop_last(), resolved, spanned),
                root,
                agents.last(),
            );
        }
    }
}

/// Each checkout is credited in one place, and a pane at most once in it.
pub proof fn law_a_pane_is_credited_once(
    workspaces: Seq<model::WorkspaceView>,
    resolved: Seq<(Text, Text)>,
)
    ensures
        each_once(placements(workspaces, resolved)),
    decreases workspaces.len(),
{
    if workspaces.len() > 0 {
        law_a_pane_is_credited_once(workspaces.drop_last(), resolved);
        let last = workspaces.last();
        lemma_crew_once(
            placements(workspaces.drop_last(), resolved),
            last.agents,
            resolved,
            spans(last.paths, resolved),
        );
    }
}

/// Whether an agent of one of the workspaces worked in a checkout.
pub open spec fn is_known_there(
    workspaces: Seq<model::WorkspaceView>,
    resolved: Seq<(Text, Text)>,
    agent: AgentRef<Text>,
    root: Text,
) -> bool {
    exists|w: int| #[trigger] is_known_in(workspaces, w, resolved, agent, root)
}

pub open spec fn is_known_in(
    workspaces: Seq<model::WorkspaceView>,
    w: int,
    resolved: Seq<(Text, Text)>,
    agent: AgentRef<Text>,
    root: Text,
) -> bool {
    &&& 0 <= w < workspaces.len()
    &&& workspaces[w].agents.contains(agent)
    &&& worked_in(agent, resolved, spans(workspaces[w].paths, resolved)) matches Whereabouts::At(
        place,
    ) && paths::same_place(place, root)
}

/// Whether every credit is for work that is known to have been done there.
pub open spec fn all_known(
    placed: Seq<PlacementView>,
    workspaces: Seq<model::WorkspaceView>,
    resolved: Seq<(Text, Text)>,
) -> bool {
    forall|i: int, k: int|
        0 <= i < placed.len() && 0 <= k < placed[i].agents.len() ==> is_known_there(
            workspaces,
            resolved,
            #[trigger] placed[i].agents[k],
            placed[i].root,
        )
}

proof fn lemma_crew_known(
    placed: Seq<PlacementView>,
    agents: Seq<AgentRef<Text>>,
    workspaces: Seq<model::WorkspaceView>,
    w: int,
    resolved: Seq<(Text, Text)>,
)
    requires
        0 <= w < workspaces.len(),
        forall|k: int|
            0 <= k < agents.len() ==> workspaces[w].agents.contains(#[trigger] agents[k]),
        all_known(placed, workspaces, resolved),
    ensures
        all_known(
            crew_placed(placed, agents, resolved, spans(workspaces[w].paths, resolved)),
            workspaces,
            resolved,
        ),
    decreases agents.len(),
{
    if agents.len() > 0 {
        let spanned = spans(workspaces[w].paths, resolved);
        let rest = agents.drop_last();
        assert forall|k: int| 0 <= k < rest.len() implies workspaces[w].agents.contains(
            #[trigger] rest[k],
        ) by {
            assert(rest[k] == agents[k]);
        }
        lemma_crew_known(placed, rest, workspaces, w, resolved);
        let before = crew_placed(placed, rest, resolved, spanned);
        let agent = agents.last();
        assert(workspaces[w].agents.contains(agents[agents.len() - 1]));
        if let Whereabouts::At(root) = worked_in(agent, resolved, spanned) {
            lemma_position(before, root);
            let after = credited(before, root, agent);
            let at = position(before, root) as int;
            assert forall|i: int, k: int|
                0 <= i < after.len() && 0 <= k < after[i].agents.len() implies is_known_there(
                workspaces,
                resolved,
                #[trigger] after[i].agents[k],
                after[i].root,
            ) by {
                let added = after != before && i == at && k == after[at].agents.len() - 1;
                if added {
                    assert(after[i].agents[k] == agent);
                    assert(paths::same_place(root, after[i].root));
                    assert(is_known_in(workspaces, w, resolved, agent, after[i].root));
                } else {
                    assert(before[i].agents[k] == after[i].agents[k]);
                }
            }
        }
    }
}

/// A credit is a fact, never a guess: whoever is credited to a checkout belongs
/// to a workspace and is known to have worked there.
pub proof fn law_a_credit_is_a_fact(
    workspaces: Seq<model::WorkspaceView>,
    resolved: Seq<(Text, Text)>,
)
    ensures
        all_known(placements(workspaces, resolved), workspaces, resolved),
    decreases workspaces.len(),
{
    if workspaces.len() > 0 {
        let rest = workspaces.drop_last();
        law_a_credit_is_a_fact(rest, resolved);
        let before = placements(rest, resolved);
        assert forall|i: int, k: int|
            0 <= i < before.len() && 0 <= k < before[i].agents.len() implies is_known_there(
            workspaces,
            resolved,
            #[trigger] before[i].agents[k],
            before[i].root,
        ) by {
            let agent = before[i].agents[k];
            assert(is_known_there(rest, resolved, agent, before[i].root));
            let w = choose|w: int| #[trigger]
                is_known_in(rest, w, resolved, agent, before[i].root);
            assert(rest[w] == workspaces[w]);
            assert(is_known_in(workspaces, w, resolved, agent, before[i].root));
        }
        let w = workspaces.len() - 1;
        assert forall|k: int|
            0 <= k < workspaces[w].agents.len() implies workspaces[w].agents.contains(
            #[trigger] workspaces[w].agents[k],
        ) by {}
        lemma_crew_known(before, workspaces[w].agents, workspaces, w, resolved);
    }
}

/// An agent in a directory that is no checkout is no evidence about any: it is
/// placed nowhere and counted in no note, whatever its workspace touches.
pub proof fn law_a_directory_outside_every_checkout_is_no_evidence(
    agent: AgentRef<Text>,
    resolved: Seq<(Text, Text)>,
    spanned: Seq<Text>,
    placed: Seq<PlacementView>,
)
    requires
        agent.cwd is Some,
        checkout_of(resolved, agent.cwd->0) is None,
    ensures
        crew_placed(placed, seq![agent], resolved, spanned) == placed,
        unplaceable(seq![agent], resolved, spanned) == 0,
{
    reveal_with_fuel(crew_placed, 2);
    reveal_with_fuel(unplaceable, 2);
    assert(seq![agent].drop_last() =~= Seq::empty());
}

/// Work whose place is unknowable is never passed over in silence: each
/// workspace with such an agent has a note.
pub proof fn law_unplaceable_agents_are_said_out_loud(
    workspaces: Seq<model::WorkspaceView>,
    resolved: Seq<(Text, Text)>,
    w: int,
)
    requires
        0 <= w < workspaces.len(),
        unplaceable(
            workspaces[w].agents,
            resolved,
            spans(workspaces[w].paths, resolved),
        ) > 0,
    ensures
        ({
            let spanned = spans(workspaces[w].paths, resolved);
            placement_notes(workspaces, resolved).contains(
                Note {
                    severity: Severity::Warning,
                    message: unknown_text(
                        workspaces[w].label,
                        spanned.len(),
                        unplaceable(workspaces[w].agents, resolved, spanned),
                    ),
                },
            )
        }),
    decreases workspaces.len(),
{
    let notes = placement_notes(workspaces, resolved);
    let before = placement_notes(workspaces.drop_last(), resolved);
    if w < workspaces.len() - 1 {
        let rest = workspaces.drop_last();
        assert(rest[w] == workspaces[w]);
        law_unplaceable_agents_are_said_out_loud(rest, resolved, w);
        let spanned = spans(workspaces[w].paths, resolved);
        let note = Note {
            severity: Severity::Warning,
            message: unknown_text(
                workspaces[w].label,
                spanned.len(),
                unplaceable(workspaces[w].agents, resolved, spanned),
            ),
        };
        let k = choose|k: int| 0 <= k < before.len() && before[k] == note;
        assert(notes[k] == note);
    } else {
        assert(notes[before.len() as int] == notes.last());
    }
}

/// A directory is in the checkout that the first answer about it gives, and in
/// none where there is no answer about it.
pub proof fn law_the_first_answer_about_a_directory_counts(
    resolved: Seq<(Text, Text)>,
    dir: Text,
    k: int,
)
    ensures
        0 <= k < resolved.len() && paths::same_place(resolved[k].0, dir) && (forall|j: int|
            0 <= j < k ==> !paths::same_place((#[trigger] resolved[j]).0, dir)) ==> checkout_of(
            resolved,
            dir,
        ) == Some(resolved[k].1),
        (forall|j: int|
            0 <= j < resolved.len() ==> !paths::same_place((#[trigger] resolved[j]).0, dir))
            ==> checkout_of(resolved, dir) is None,
    decreases resolved.len(),
{
    if resolved.len() > 0 {
        let rest = resolved.drop_first();
        law_the_first_answer_about_a_directory_counts(rest, dir, k - 1);
        assert(forall|j: int| 0 <= j < rest.len() ==> #[trigger] rest[j] == resolved[j + 1]);
        assert(resolved[0] == resolved.first());
        if 0 < k < resolved.len() {
            assert(rest[k - 1] == resolved[k]);
        }
        if forall|j: int| 0 <= j < k ==> !paths::same_place((#[trigger] resolved[j]).0, dir) {
            assert forall|j: int| 0 <= j < k - 1 && j < rest.len() implies !paths::same_place(
                (#[trigger] rest[j]).0,
                dir,
            ) by {
                assert(rest[j] == resolved[j + 1]);
            }
        }
    }
}

/// A workspace spans the checkouts that its directories are in: each of them, no
/// other, and none twice.
pub proof fn law_a_workspace_spans_its_checkouts(
    dirs: Seq<Text>,
    resolved: Seq<(Text, Text)>,
    root: Text,
)
    ensures
        (exists|i: int|
            0 <= i < dirs.len() && checkout_of(resolved, #[trigger] dirs[i]) == Some(root))
            ==> paths::has_place(spans(dirs, resolved), root),
        forall|k: int|
            0 <= k < spans(dirs, resolved).len() ==> exists|i: int|
                0 <= i < dirs.len() && checkout_of(resolved, #[trigger] dirs[i]) == Some(
                    #[trigger] spans(dirs, resolved)[k],
                ),
        forall|j: int, k: int|
            0 <= j < k < spans(dirs, resolved).len() ==> !paths::same_place(
                #[trigger] spans(dirs, resolved)[j],
                #[trigger] spans(dirs, resolved)[k],
            ),
    decreases dirs.len(),
{
    if dirs.len() > 0 {
        let rest = dirs.drop_last();
        let before = spans(rest, resolved);
        let after = spans(dirs, resolved);
        law_a_workspace_spans_its_checkouts(rest, resolved, root);
        assert(forall|i: int| 0 <= i < rest.len() ==> #[trigger] dirs[i] == rest[i]);
        assert(dirs[dirs.len() - 1] == dirs.last());
        if paths::has_place(before, root) {
            let k = choose|k: int|
                0 <= k < before.len() && paths::same_place(#[trigger] before[k], root);
            assert(after[k] == before[k]);
        }
        if exists|i: int|
            0 <= i < dirs.len() && checkout_of(resolved, #[trigger] dirs[i]) == Some(root) {
            let i = choose|i: int|
                0 <= i < dirs.len() && checkout_of(resolved, #[trigger] dirs[i]) == Some(root);
            if i < rest.len() {
                assert(checkout_of(resolved, rest[i]) == Some(root));
            } else if !paths::has_place(before, root) {
                assert(after[before.len() as int] == root);
                assert(paths::same_place(after[before.len() as int], root));
            }
        }
        assert forall|k: int| 0 <= k < after.len() implies exists|i: int|
            0 <= i < dirs.len() && checkout_of(resolved, #[trigger] dirs[i]) == Some(
                #[trigger] after[k],
            ) by {
            if k < before.len() {
                assert(after[k] == before[k]);
                let i = choose|i: int|
                    0 <= i < rest.len() && checkout_of(resolved, #[trigger] rest[i]) == Some(
                        before[k],
                    );
                assert(checkout_of(resolved, dirs[i]) == Some(after[k]));
            } else {
                assert(checkout_of(resolved, dirs[dirs.len() - 1]) == Some(after[k]));
            }
        }
        assert forall|j: int, k: int| 0 <= j < k < after.len() implies !paths::same_place(
            #[trigger] after[j],
            #[trigger] after[k],
        ) by {
            assert(after[j] == before[j]);
            if k < before.len() {
                assert(after[k] == before[k]);
            } else {
                assert(!paths::has_place(before, after[k]));
            }
        }
    }
}

/// An agent is where its own directory is, wherever its workspace has others; one
/// without a directory is in the only checkout of its workspace. Where there are
/// several its place is unknown, and it is counted as such.
pub proof fn law_an_agents_own_directory_decides(
    agents: Seq<AgentRef<Text>>,
    agent: AgentRef<Text>,
    resolved: Seq<(Text, Text)>,
    spanned: Seq<Text>,
)
    ensures
        agent.cwd is Some ==> match worked_in(agent, resolved, spanned) {
            Whereabouts::At(root) => checkout_of(resolved, agent.cwd->0) == Some(root),
            Whereabouts::Nowhere => checkout_of(resolved, agent.cwd->0) is None,
            Whereabouts::Unknown => false,
        },
        agent.cwd is None ==> match worked_in(agent, resolved, spanned) {
            Whereabouts::At(root) => spanned == seq![root],
            Whereabouts::Nowhere => spanned.len() == 0,
            Whereabouts::Unknown => spanned.len() >= 2,
        },
        unplaceable(agents.push(agent), resolved, spanned) == unplaceable(agents, resolved, spanned)
            + (if agent.cwd is None && spanned.len() >= 2 {
            1nat
        } else {
            0nat
        }),
        unplaceable(Seq::empty(), resolved, spanned) == 0,
{
    assert(agents.push(agent).drop_last() =~= agents);
}

/// No credit is lost: an agent of a workspace whose place is known is among the
/// agents of that checkout.
pub proof fn law_every_known_agent_is_credited(
    workspaces: Seq<model::WorkspaceView>,
    resolved: Seq<(Text, Text)>,
    w: int,
    a: int,
    root: Text,
)
    requires
        0 <= w < workspaces.len(),
        0 <= a < workspaces[w].agents.len(),
        worked_in(
            workspaces[w].agents[a],
            resolved,
            spans(workspaces[w].paths, resolved),
        ) == Whereabouts::At(root),
    ensures
        is_credited(placements(workspaces, resolved), root, workspaces[w].agents[a].pane_id),
    decreases workspaces.len(),
{
    let rest = workspaces.drop_last();
    let last = workspaces.last();
    let before = placements(rest, resolved);
    let pane = workspaces[w].agents[a].pane_id;
    if w < rest.len() {
        assert(rest[w] == workspaces[w]);
        law_every_known_agent_is_credited(rest, resolved, w, a, root);
        lemma_crew_keeps(before, last.agents, resolved, spans(last.paths, resolved), root, pane);
    } else {
        lemma_crew_credits(before, last.agents, resolved, spans(last.paths, resolved), a, root);
    }
}

/// Whether a pane is among the agents of a checkout.
pub open spec fn is_credited(placed: Seq<PlacementView>, root: Text, pane: Text) -> bool {
    exists|i: int, k: int|
        0 <= i < placed.len() && 0 <= k < placed[i].agents.len() && paths::same_place(
            placed[i].root,
            root,
        ) && (#[trigger] placed[i].agents[k]).pane_id == pane
}

proof fn lemma_credited_keeps(
    placed: Seq<PlacementView>,
    root: Text,
    agent: AgentRef<Text>,
    at: Text,
    pane: Text,
)
    requires
        is_credited(placed, at, pane),
    ensures
        is_credited(credited(placed, root, agent), at, pane),
{
    let (i, k) = choose|i: int, k: int|
        0 <= i < placed.len() && 0 <= k < placed[i].agents.len() && paths::same_place(
            placed[i].root,
            at,
        ) && (#[trigger] placed[i].agents[k]).pane_id == pane;
    let after = credited(placed, root, agent);
    assert(after[i].agents[k] == placed[i].agents[k]);
}

proof fn lemma_credited_adds(placed: Seq<PlacementView>, root: Text, agent: AgentRef<Text>)
    ensures
        is_credited(credited(placed, root, agent), root, agent.pane_id),
{
    let after = credited(placed, root, agent);
    let at = position(placed, root) as int;
    lemma_position(placed, root);
    if at >= placed.len() {
        assert(after[placed.len() as int].agents[0] == agent);
        assert(paths::same_place(after[placed.len() as int].root, root));
    } else if has_pane(placed[at].agents, agent.pane_id) {
        let k = choose|k: int|
            0 <= k < placed[at].agents.len() && (#[trigger] placed[at].agents[k]).pane_id
                == agent.pane_id;
        assert(after[at].agents[k].pane_id == agent.pane_id);
    } else {
        let k = placed[at].agents.len() as int;
        assert(after[at].agents[k] == agent);
    }
}

proof fn lemma_crew_keeps(
    placed: Seq<PlacementView>,
    agents: Seq<AgentRef<Text>>,
    resolved: Seq<(Text, Text)>,
    spanned: Seq<Text>,
    at: Text,
    pane: Text,
)
    requires
        is_credited(placed, at, pane),
    ensures
        is_credited(crew_placed(placed, agents, resolved, spanned), at, pane),
    decreases agents.len(),
{
    if agents.len() > 0 {
        let rest = agents.drop_last();
        lemma_crew_keeps(placed, rest, resolved, spanned, at, pane);
        if let Whereabouts::At(root) = worked_in(agents.last(), resolved, spanned) {
            lemma_credited_keeps(
                crew_placed(placed, rest, resolved, spanned),
                root,
                agents.last(),
                at,
                pane,
            );
        }
    }
}

proof fn lemma_crew_credits(
    placed: Seq<PlacementView>,
    agents: Seq<AgentRef<Text>>,
    resolved: Seq<(Text, Text)>,
    spanned: Seq<Text>,
    a: int,
    root: Text,
)
    requires
        0 <= a < agents.len(),
        worked_in(agents[a], resolved, spanned) == Whereabouts::At(root),
    ensures
        is_credited(crew_placed(placed, agents, resolved, spanned), root, agents[a].pane_id),
    decreases agents.len(),
{
    let rest = agents.drop_last();
    let before = crew_placed(placed, rest, resolved, spanned);
    if a < rest.len() {
        assert(rest[a] == agents[a]);
        lemma_crew_credits(placed, rest, resolved, spanned, a, root);
        if let Whereabouts::At(other) = worked_in(agents.last(), resolved, spanned) {
            lemma_credited_keeps(before, other, agents.last(), root, agents[a].pane_id);
        }
    } else {
        lemma_credited_adds(before, root, agents[a]);
    }
}

} // verus!
