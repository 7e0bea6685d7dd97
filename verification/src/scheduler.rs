//! The decisions of a build over the build graph: which artefacts to start,
//! which to give up because something they depend on failed, and what each
//! finished job does to the state of the build. Running the jobs and
//! waiting for their results is left to the caller, which hands each result
//! back with `receive`.
use vstd::prelude::*;
use crate::graph::{graph_incoming, graph_node, graph_node_count, graph_nodes, graph_edges, incoming_spec, Artefact, ArtefactV, EArtefact, Route};
use petgraph::Graph;

verus! {

/// The outcome of building one artefact.
#[derive(Clone, Debug, PartialEq, Eq)]
pub enum BuildType {
    /// The artefact was made again; the path of the file made.
    Rebuilt(String),
    /// The artefact was up to date; the path of the file.
    NotTouched(String),
    /// Making the artefact failed.
    Failed,
    /// Something the artefact depends on failed.
    AncestorFailed,
}

/// Where an artefact stands in a build.
#[derive(Clone, Copy, Debug, PartialEq, Eq)]
pub enum NodeState {
    /// Waiting to be started.
    Pending,
    /// Started, its result not received yet.
    Running,
    /// Made again.
    Rebuilt,
    /// Up to date.
    Skipped,
    /// Failed.
    Failed,
    /// Given up because something it depends on failed.
    AncestorFailed,
    /// Given up, and that was announced, but the announcement has not come
    /// back yet.
    Announced,
}

/// What the caller has to do after a scheduling pass.
#[derive(Clone, Debug, PartialEq, Eq)]
pub enum Action {
    /// Build this node, from the files made for its dependencies, in order.
    Start(usize, Vec<String>),
    /// Report this node as given up (as a `BuildType::AncestorFailed` result).
    AnnounceAncestorFailed(usize),
}

/// The abstract value of an action.
pub enum ActionV {
    Start(int, Seq<Seq<char>>),
    AnnounceAncestorFailed(int),
}

impl View for Action {
    type V = ActionV;

    open spec fn view(&self) -> ActionV {
        match self {
            Action::Start(n, deps) => ActionV::Start(*n as int, deps@.map_values(|d: String| d@)),
            Action::AnnounceAncestorFailed(n) => ActionV::AnnounceAncestorFailed(*n as int),
        }
    }
}

/// The state of a build: for each node of the graph, the nodes it depends
/// on (most recently added edge first), where it stands, and the file made
/// for it once it is built.
pub struct Scheduler {
    pub preds: Vec<Vec<usize>>,
    pub state: Vec<NodeState>,
    pub targets: Vec<Option<String>>,
    pub running: usize,
    pub nb_workers: u32,
}

// ------------------------------------------------------------ specification

/// The number of running nodes.
pub open spec fn count_running(st: Seq<NodeState>) -> nat
    decreases st.len(),
{
    if st.len() == 0 {
        0
    } else {
        count_running(st.drop_last()) + if st.last() is Running {
            1nat
        } else {
            0nat
        }
    }
}

/// A node that is built, made again or up to date.
pub open spec fn is_done(st: Seq<NodeState>, p: int) -> bool {
    0 <= p < st.len() && (st[p] is Rebuilt || st[p] is Skipped)
}

/// A node that failed or was given up.
pub open spec fn is_broken(st: Seq<NodeState>, p: int) -> bool {
    0 <= p < st.len() && (st[p] is Failed || st[p] is AncestorFailed)
}

/// A node in a final state.
pub open spec fn is_final(s: NodeState) -> bool {
    s is Rebuilt || s is Skipped || s is Failed || s is AncestorFailed
}

/// All the dependencies are built.
pub open spec fn all_done(st: Seq<NodeState>, ps: Seq<usize>) -> bool {
    forall|i: int| 0 <= i < ps.len() ==> is_done(st, #[trigger] ps[i] as int)
}

/// Some dependency failed or was given up.
pub open spec fn some_broken(st: Seq<NodeState>, ps: Seq<usize>) -> bool {
    exists|i: int| 0 <= i < ps.len() && is_broken(st, #[trigger] ps[i] as int)
}

/// What a scheduling pass does with a node.
pub enum Decision {
    Announce,
    Start,
    Wait,
}

/// What a scheduling pass does with node `n`, if it gets there: a pending
/// node with a failed dependency is given up; one whose dependencies are all
/// built is started; anything else waits.
pub open spec fn decision(st: Seq<NodeState>, preds: Seq<Vec<usize>>, n: int) -> Decision {
    if !(st[n] is Pending) {
        Decision::Wait
    } else if some_broken(st, preds[n]@) {
        Decision::Announce
    } else if all_done(st, preds[n]@) {
        Decision::Start
    } else {
        Decision::Wait
    }
}

/// The number of nodes below `k` that a pass starts, if it gets that far.
pub open spec fn starts_before(st: Seq<NodeState>, preds: Seq<Vec<usize>>, k: int) -> nat
    decreases k,
{
    if k <= 0 {
        0
    } else {
        starts_before(st, preds, k - 1) + if decision(st, preds, k - 1) is Start {
            1nat
        } else {
            0nat
        }
    }
}

/// A pass goes over the nodes in order and stops at the first node it
/// reaches with as many jobs running as there are workers.
pub open spec fn reached(st: Seq<NodeState>, preds: Seq<Vec<usize>>, running: int, cap: int, k: int) -> bool {
    running + starts_before(st, preds, k) < cap
}

/// The states after a pass.
pub open spec fn state_after_pass(st: Seq<NodeState>, preds: Seq<Vec<usize>>, running: int, cap: int) -> Seq<NodeState> {
    Seq::new(
        st.len(),
        |k: int|
            if reached(st, preds, running, cap, k) && decision(st, preds, k) is Start {
                NodeState::Running
            } else if reached(st, preds, running, cap, k) && decision(st, preds, k) is Announce {
                NodeState::Announced
            } else {
                st[k]
            },
    )
}

/// The files made for the dependencies of a node.
pub open spec fn deps_of(targets: Seq<Option<String>>, ps: Seq<usize>) -> Seq<Seq<char>> {
    ps.map_values(|p: usize| targets[p as int].unwrap()@)
}

/// The actions of a pass over the nodes below `k`.
pub open spec fn actions_of_pass(
    st: Seq<NodeState>,
    preds: Seq<Vec<usize>>,
    targets: Seq<Option<String>>,
    running: int,
    cap: int,
    k: int,
) -> Seq<ActionV>
    decreases k,
{
    if k <= 0 {
        Seq::empty()
    } else {
        let before = actions_of_pass(st, preds, targets, running, cap, k - 1);
        let n = k - 1;
        if reached(st, preds, running, cap, n) && decision(st, preds, n) is Start {
            before.push(ActionV::Start(n, deps_of(targets, preds[n]@)))
        } else if reached(st, preds, running, cap, n) && decision(st, preds, n) is Announce {
            before.push(ActionV::AnnounceAncestorFailed(n))
        } else {
            before
        }
    }
}

/// Where a node stands once its result is received.
pub open spec fn state_of_result(bt: BuildType) -> NodeState {
    match bt {
        BuildType::Rebuilt(_) => NodeState::Rebuilt,
        BuildType::NotTouched(_) => NodeState::Skipped,
        BuildType::Failed => NodeState::Failed,
        BuildType::AncestorFailed => NodeState::AncestorFailed,
    }
}

/// The file a result names, if any.
pub open spec fn target_of_result(bt: BuildType) -> Option<String> {
    match bt {
        BuildType::Rebuilt(t) => Some(t),
        BuildType::NotTouched(t) => Some(t),
        _ => None,
    }
}

impl Scheduler {
    /// The state of a build is consistent: one state, one list of
    /// dependencies and one file slot per node; every built node has its
    /// file; the running count is right and within the number of workers.
    pub open spec fn wf(&self) -> bool {
        &&& self.state@.len() == self.preds@.len()
        &&& self.targets@.len() == self.state@.len()
        &&& forall|p: int| #[trigger] is_done(self.state@, p) ==> self.targets@[p] is Some
        &&& self.running == count_running(self.state@)
        &&& self.running <= self.nb_workers
    }
}

// ------------------------------------------------------------ lemmas

/// Changing one state changes the running count by what left and came in.
pub proof fn lemma_count_running_update(st: Seq<NodeState>, k: int, x: NodeState)
    requires
        0 <= k < st.len(),
    ensures
        count_running(st.update(k, x)) + (if st[k] is Running { 1int } else { 0int }) == count_running(st)
            + (if x is Running { 1int } else { 0int }),
    decreases st.len(),
{
    if k == st.len() - 1 {
        assert(st.update(k, x).drop_last() =~= st.drop_last());
    } else {
        lemma_count_running_update(st.drop_last(), k, x);
        assert(st.update(k, x).drop_last() =~= st.drop_last().update(k, x));
    }
}

/// No node is running in a build where nothing started.
pub proof fn lemma_count_running_none(st: Seq<NodeState>)
    requires
        forall|k: int| 0 <= k < st.len() ==> !(#[trigger] st[k] is Running),
    ensures
        count_running(st) == 0,
    decreases st.len(),
{
    if st.len() > 0 {
        lemma_count_running_none(st.drop_last());
    }
}

/// A pass starts no more nodes further on.
pub proof fn lemma_starts_before_mono(st: Seq<NodeState>, preds: Seq<Vec<usize>>, j: int, k: int)
    requires
        0 <= j <= k,
    ensures
        starts_before(st, preds, j) <= starts_before(st, preds, k),
    decreases k - j,
{
    if j < k {
        lemma_starts_before_mono(st, preds, j, k - 1);
    }
}

/// Past the point where a pass stops, it adds no action.
pub proof fn lemma_actions_unreached(
    st: Seq<NodeState>,
    preds: Seq<Vec<usize>>,
    targets: Seq<Option<String>>,
    running: int,
    cap: int,
    k: int,
    m: int,
)
    requires
        0 <= k <= m,
        forall|j: int| k <= j < m ==> !reached(st, preds, running, cap, j),
    ensures
        actions_of_pass(st, preds, targets, running, cap, m) == actions_of_pass(st, preds, targets, running, cap, k),
    decreases m - k,
{
    if k < m {
        lemma_actions_unreached(st, preds, targets, running, cap, k, m - 1);
    }
}

// ------------------------------------------------------------ the build

impl Scheduler {
    /// The state of a build over the graph `g` with `nb_workers` workers:
    /// the broken songs have failed, everything else is pending.
    pub fn new(g: &Graph<Artefact, Route>, nb_workers: u32) -> (r: Scheduler)
        requires
            graph_nodes(*g).len() <= u32::MAX,
        ensures
            r.wf(),
            r.nb_workers == nb_workers,
            r.state@.len() == graph_nodes(*g).len(),
            forall|n: int|
                0 <= n < graph_nodes(*g).len() ==> #[trigger] r.state@[n] == (if graph_nodes(*g)[n] is Broken {
                    NodeState::Failed
                } else {
                    NodeState::Pending
                }),
            forall|n: int|
                0 <= n < graph_nodes(*g).len() ==> (#[trigger] r.preds@[n])@.map_values(|p: usize| p as int)
                    == incoming_spec(graph_edges(*g), n),
            forall|n: int| 0 <= n < graph_nodes(*g).len() ==> #[trigger] r.targets@[n] is None,
    {
        let count = graph_node_count(g);
        let mut preds: Vec<Vec<usize>> = Vec::new();
        let mut state: Vec<NodeState> = Vec::new();
        let mut targets: Vec<Option<String>> = Vec::new();
        let mut n: usize = 0;
        while n < count
            invariant
                count == graph_nodes(*g).len(),
                count <= u32::MAX,
                n <= count,
                preds@.len() == n,
                state@.len() == n,
                targets@.len() == n,
                forall|k: int|
                    0 <= k < n ==> #[trigger] state@[k] == (if graph_nodes(*g)[k] is Broken {
                        NodeState::Failed
                    } else {
                        NodeState::Pending
                    }),
                forall|k: int|
                    0 <= k < n ==> (#[trigger] preds@[k])@.map_values(|p: usize| p as int) == incoming_spec(
                        graph_edges(*g),
                        k,
                    ),
                forall|k: int| 0 <= k < n ==> #[trigger] targets@[k] is None,
            decreases count - n,
        {
            let a = graph_node(g, n);
            let s = match a.kind {
                EArtefact::Broken(_) => NodeState::Failed,
                _ => NodeState::Pending,
            };
            state.push(s);
            preds.push(graph_incoming(g, n));
            targets.push(None);
            n = n + 1;
        }
        proof {
            lemma_count_running_none(state@);
        }
        Scheduler { preds, state, targets, running: 0, nb_workers }
    }

    /// Whether some dependency of node `k` failed, and whether all are built.
    fn pred_flags(&self, k: usize) -> (r: (bool, bool))
        requires
            self.wf(),
            k < self.state@.len(),
        ensures
            r.0 == some_broken(self.state@, self.preds@[k as int]@),
            r.1 == all_done(self.state@, self.preds@[k as int]@),
    {
        let ps = &self.preds[k];
        let ghost st = self.state@;
        let mut broken = false;
        let mut done = true;
        let mut i: usize = 0;
        while i < ps.len()
            invariant
                st == self.state@,
                i <= ps@.len(),
                broken == (exists|j: int| 0 <= j < i && is_broken(st, #[trigger] ps@[j] as int)),
                done == (forall|j: int| 0 <= j < i ==> is_done(st, #[trigger] ps@[j] as int)),
            decreases ps@.len() - i,
        {
            let p = ps[i];
            if p < self.state.len() {
                match self.state[p] {
                    NodeState::Rebuilt | NodeState::Skipped => {},
                    NodeState::Failed | NodeState::AncestorFailed => {
                        done = false;
                        broken = true;
                    },
                    _ => {
                        done = false;
                    },
                }
            } else {
                done = false;
            }
            proof {
                assert(ps@[i as int] == p);
            }
            i = i + 1;
        }
        (broken, done)
    }

    /// The files made for the dependencies of node `k`, all built.
    fn deps_of_node(&self, k: usize) -> (r: Vec<String>)
        requires
            self.wf(),
            k < self.state@.len(),
            all_done(self.state@, self.preds@[k as int]@),
        ensures
            r@.map_values(|d: String| d@) == deps_of(self.targets@, self.preds@[k as int]@),
    {
        let ps = &self.preds[k];
        let mut deps: Vec<String> = Vec::new();
        let mut i: usize = 0;
        while i < ps.len()
            invariant
                self.wf(),
                ps == self.preds@[k as int],
                all_done(self.state@, ps@),
                i <= ps@.len(),
                deps@.map_values(|d: String| d@) == deps_of(self.targets@, ps@.take(i as int)),
            decreases ps@.len() - i,
        {
            let p = ps[i];
            proof {
                assert(is_done(self.state@, ps@[i as int] as int));
            }
            let t = match &self.targets[p] {
                Some(t) => t.clone(),
                None => String::new(),
            };
            let ghost before = deps@;
            deps.push(t);
            proof {
                assert(ps@.take(i + 1) =~= ps@.take(i as int).push(p));
                assert(deps@.map_values(|d: String| d@) =~= before.map_values(|d: String| d@).push(t@));
                assert(deps_of(self.targets@, ps@.take(i + 1)) =~= deps_of(self.targets@, ps@.take(i as int)).push(
                    self.targets@[p as int].unwrap()@,
                ));
            }
            i = i + 1;
        }
        proof {
            assert(ps@.take(i as int) =~= ps@);
        }
        deps
    }

    /// One scheduling pass: going over the nodes in order, and stopping at
    /// the first node reached with as many jobs running as there are
    /// workers, each pending node with a failed dependency is given up (to
    /// be announced), and each pending node whose dependencies are all built
    /// is started. Gives what the caller has to do, in order.
    pub fn schedule(&mut self) -> (r: Vec<Action>)
        requires
            old(self).wf(),
        ensures
            final(self).wf(),
            final(self).preds == old(self).preds,
            final(self).targets == old(self).targets,
            final(self).nb_workers == old(self).nb_workers,
            final(self).state@ == state_after_pass(
                old(self).state@,
                old(self).preds@,
                old(self).running as int,
                old(self).nb_workers as int,
            ),
            r@.map_values(|a: Action| a@) == actions_of_pass(
                old(self).state@,
                old(self).preds@,
                old(self).targets@,
                old(self).running as int,
                old(self).nb_workers as int,
                old(self).state@.len() as int,
            ),
    {
        let ghost st0 = self.state@;
        let ghost p0 = self.preds@;
        let ghost t0 = self.targets@;
        let ghost r0: int = self.running as int;
        let ghost cap: int = self.nb_workers as int;
        let mut actions: Vec<Action> = Vec::new();
        let n = self.state.len();
        let mut k: usize = 0;
        while k < n && self.running < self.nb_workers as usize
            invariant
                self.wf(),
                self.preds@ == p0,
                self.preds == old(self).preds,
                self.targets == old(self).targets,
                self.targets@ == t0,
                self.nb_workers == old(self).nb_workers,
                cap == self.nb_workers,
                n == st0.len(),
                self.state@.len() == n,
                k <= n,
                self.running == r0 + starts_before(st0, p0, k as int),
                forall|j: int|
                    0 <= j < k ==> #[trigger] self.state@[j] == state_after_pass(st0, p0, r0, cap)[j],
                forall|j: int| k <= j < n ==> #[trigger] self.state@[j] == st0[j],
                forall|p: int| #[trigger] is_done(self.state@, p) == is_done(st0, p),
                forall|p: int| #[trigger] is_broken(self.state@, p) == is_broken(st0, p),
                forall|p: int| #[trigger] is_done(st0, p) ==> t0[p] is Some,
                actions@.map_values(|a: Action| a@) == actions_of_pass(st0, p0, t0, r0, cap, k as int),
            decreases n - k,
        {
            let ghost before = actions@;
            proof {
                assert(reached(st0, p0, r0, cap, k as int));
            }
            if matches!(self.state[k], NodeState::Pending) {
                let (broken, done) = self.pred_flags(k);
                proof {
                    assert(some_broken(self.state@, p0[k as int]@) == some_broken(st0, p0[k as int]@));
                    assert(all_done(self.state@, p0[k as int]@) == all_done(st0, p0[k as int]@));
                }
                if broken {
                    proof {
                        lemma_count_running_update(self.state@, k as int, NodeState::Announced);
                    }
                    self.state.set(k, NodeState::Announced);
                    actions.push(Action::AnnounceAncestorFailed(k));
                    proof {
                        assert(actions@.map_values(|a: Action| a@) =~= before.map_values(|a: Action| a@).push(
                            ActionV::AnnounceAncestorFailed(k as int),
                        ));
                    }
                } else if done {
                    let deps = self.deps_of_node(k);
                    proof {
                        lemma_count_running_update(self.state@, k as int, NodeState::Running);
                    }
                    self.state.set(k, NodeState::Running);
                    self.running = self.running + 1;
                    let ghost dv = deps@.map_values(|d: String| d@);
                    actions.push(Action::Start(k, deps));
                    proof {
                        assert(actions@.map_values(|a: Action| a@) =~= before.map_values(|a: Action| a@).push(
                            ActionV::Start(k as int, dv),
                        ));
                    }
                }
            }
            proof {
                assert forall|p: int| #[trigger] is_done(self.state@, p) implies self.targets@[p] is Some by {
                    assert(is_done(st0, p));
                }
                assert(self.running == count_running(self.state@));
                assert(self.running <= self.nb_workers);
            }
            k = k + 1;
        }
        proof {
            lemma_starts_before_mono(st0, p0, k as int, n as int);
            assert forall|j: int| k <= j < n implies !reached(st0, p0, r0, cap, j) by {
                lemma_starts_before_mono(st0, p0, k as int, j);
            }
            lemma_actions_unreached(st0, p0, t0, r0, cap, k as int, n as int);
            assert(self.state@ =~= state_after_pass(st0, p0, r0, cap));
        }
        actions
    }

    /// Takes in the result of node `n`, which was started or announced: the
    /// node is no longer running, and stands where its result puts it, with
    /// its file if it has one.
    pub fn receive(&mut self, n: usize, bt: BuildType)
        requires
            old(self).wf(),
            n < old(self).state@.len(),
            old(self).state@[n as int] is Running || old(self).state@[n as int] is Announced,
        ensures
            final(self).wf(),
            final(self).preds == old(self).preds,
            final(self).nb_workers == old(self).nb_workers,
            final(self).state@ == old(self).state@.update(n as int, state_of_result(bt)),
            final(self).targets@ == (match target_of_result(bt) {
                Some(t) => old(self).targets@.update(n as int, Some(t)),
                None => old(self).targets@,
            }),
    {
        let ghost x = state_of_result(bt);
        let ghost s0 = self.state@;
        let ghost t0 = self.targets@;
        proof {
            lemma_count_running_update(self.state@, n as int, x);
        }
        if matches!(self.state[n], NodeState::Running) {
            self.running = self.running - 1;
        }
        match bt {
            BuildType::Rebuilt(t) => {
                self.state.set(n, NodeState::Rebuilt);
                self.targets.set(n, Some(t));
            },
            BuildType::NotTouched(t) => {
                self.state.set(n, NodeState::Skipped);
                self.targets.set(n, Some(t));
            },
            BuildType::Failed => {
                self.state.set(n, NodeState::Failed);
            },
            BuildType::AncestorFailed => {
                self.state.set(n, NodeState::AncestorFailed);
            },
        }
        proof {
            assert forall|p: int| #[trigger] is_done(self.state@, p) implies self.targets@[p] is Some by {
                if p != n {
                    assert(is_done(s0, p));
                }
            }
        }
    }

    /// Every node is built, up to date, failed or given up (and announced
    /// nodes have come back).
    pub fn finished(&self) -> (r: bool)
        ensures
            r == (forall|k: int| 0 <= k < self.state@.len() ==> is_final(#[trigger] self.state@[k])),
    {
        let mut k: usize = 0;
        while k < self.state.len()
            invariant
                k <= self.state@.len(),
                forall|j: int| 0 <= j < k ==> is_final(#[trigger] self.state@[j]),
            decreases self.state@.len() - k,
        {
            match self.state[k] {
                NodeState::Rebuilt | NodeState::Skipped | NodeState::Failed | NodeState::AncestorFailed => {},
                _ => {
                    return false;
                },
            }
            k = k + 1;
        }
        true
    }

    /// Every node stands in exactly one of the sets of a build (pending,
    /// running, rebuilt, failed, given up, up to date): none was announced
    /// without its announcement having come back.
    pub fn counts_agree(&self) -> (r: bool)
        ensures
            r == (forall|k: int| 0 <= k < self.state@.len() ==> !(#[trigger] self.state@[k] is Announced)),
    {
        let mut k: usize = 0;
        while k < self.state.len()
            invariant
                k <= self.state@.len(),
                forall|j: int| 0 <= j < k ==> !(#[trigger] self.state@[j] is Announced),
            decreases self.state@.len() - k,
        {
            if matches!(self.state[k], NodeState::Announced) {
                return false;
            }
            k = k + 1;
        }
        true
    }

    /// The number of nodes.
    pub fn nb_nodes(&self) -> (r: usize)
        ensures
            r == self.state@.len(),
    {
        self.state.len()
    }

    /// Where node `n` stands.
    pub fn state_of(&self, n: usize) -> (r: NodeState)
        requires
            n < self.state@.len(),
        ensures
            r == self.state@[n as int],
    {
        self.state[n]
    }
}

// ------------------------------------------------------------ laws

/// A pass starts a node only if it was pending and all its dependencies
/// are built (none failed), handing over their files in order; it gives a
/// node up only if it was pending and some dependency failed or was given
/// up. Each node gets at most one action, and actions come in node order.
pub proof fn lemma_pass_actions(
    st: Seq<NodeState>,
    preds: Seq<Vec<usize>>,
    targets: Seq<Option<String>>,
    running: int,
    cap: int,
    k: int,
)
    requires
        0 <= k <= st.len(),
        preds.len() == st.len(),
    ensures
        forall|i: int|
            0 <= i < actions_of_pass(st, preds, targets, running, cap, k).len() ==> match #[trigger] actions_of_pass(
                st,
                preds,
                targets,
                running,
                cap,
                k,
            )[i] {
                ActionV::Start(n, deps) => {
                    &&& 0 <= n < k
                    &&& st[n] is Pending
                    &&& all_done(st, preds[n]@)
                    &&& !some_broken(st, preds[n]@)
                    &&& deps == deps_of(targets, preds[n]@)
                },
                ActionV::AnnounceAncestorFailed(n) => {
                    &&& 0 <= n < k
                    &&& st[n] is Pending
                    &&& some_broken(st, preds[n]@)
                },
            },
    decreases k,
{
    if k > 0 {
        lemma_pass_actions(st, preds, targets, running, cap, k - 1);
    }
}

/// A pass leaves alone every node that is built, up to date, failed or
/// given up, and every node that is running or announced.
pub proof fn lemma_pass_keeps_settled(st: Seq<NodeState>, preds: Seq<Vec<usize>>, running: int, cap: int)
    ensures
        state_after_pass(st, preds, running, cap).len() == st.len(),
        forall|k: int|
            0 <= k < st.len() && !(st[k] is Pending) ==> #[trigger] state_after_pass(st, preds, running, cap)[k]
                == st[k],
        forall|k: int|
            0 <= k < st.len() && (#[trigger] state_after_pass(st, preds, running, cap)[k]) != st[k] ==> {
                &&& st[k] is Pending
                &&& reached(st, preds, running, cap, k)
            },
{
}

} // verus!
