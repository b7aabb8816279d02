//! The orchestrator: the slots that verdicts are gathered in, the report made
//! of them, and the order of the phases of a run.

use crate::error::{Error, ErrorView};
use crate::mutant::{
    Mutation, MutationResult, MutationResultView, MutationType, MutationView, Verdict,
};
use crate::text::{decimal, lemma_decimal_is_injective, to_decimal};
use vstd::string::*;
use vstd::prelude::*;

verus! {

/// `n` slots, none of them filled.
pub open spec fn empty_slots(n: nat) -> Seq<Option<Verdict>> {
    Seq::new(n, |i: int| None)
}

/// Whether slot `index` exists and is still empty.
pub open spec fn accepts(slots: Seq<Option<Verdict>>, index: int) -> bool {
    0 <= index < slots.len() && slots[index] is None
}

/// The slots after `verdict` was handed in for `index`: an empty slot takes
/// it; a slot that is filled keeps what it has, and an index that names no
/// slot changes nothing.
pub open spec fn recorded(slots: Seq<Option<Verdict>>, index: int, verdict: Verdict) -> Seq<
    Option<Verdict>,
> {
    if accepts(slots, index) {
        slots.update(index, Some(verdict))
    } else {
        slots
    }
}

/// Whether every slot is filled.
pub open spec fn complete(slots: Seq<Option<Verdict>>) -> bool {
    forall|i: int| 0 <= i < slots.len() ==> (#[trigger] slots[i]) is Some
}

/// The report: each candidate with the verdict of its own slot, in the order
/// of the candidates.
pub open spec fn report(candidates: Seq<MutationView>, slots: Seq<Option<Verdict>>) -> Seq<
    MutationResultView,
> {
    Seq::new(
        candidates.len(),
        |i: int| MutationResultView { verdict: slots[i]->0, mutation: candidates[i] },
    )
}

/// A candidate and the place for its verdict.
struct Slot {
    mutation: Mutation,
    verdict: Option<Verdict>,
}

/// The candidates of a run and one slot for the verdict of each.
///
/// Verdicts may arrive in any order. Each is stored in the slot of its
/// candidate, so the report follows the order of the candidates, not the
/// order of arrival.
pub struct VerdictBoard {
    entries: Vec<Slot>,
}

/// What a `VerdictBoard` stands for: two sequences of one length.
pub struct VerdictBoardView {
    pub candidates: Seq<MutationView>,
    pub slots: Seq<Option<Verdict>>,
}

impl View for VerdictBoard {
    type V = VerdictBoardView;

    closed spec fn view(&self) -> VerdictBoardView {
        VerdictBoardView {
            candidates: Seq::new(self.entries@.len(), |i: int| self.entries@[i].mutation@),
            slots: Seq::new(self.entries@.len(), |i: int| self.entries@[i].verdict),
        }
    }
}

impl VerdictBoard {
    /// A board for `candidates`, with every slot empty.
    pub fn new(candidates: Vec<Mutation>) -> (board: VerdictBoard)
        ensures
            board@.candidates == candidates.deep_view(),
            board@.slots == empty_slots(candidates@.len()),
    {
        let mut entries: Vec<Slot> = Vec::new();
        let mut i: usize = 0;
        while i < candidates.len()
            invariant
                i <= candidates.len(),
                entries@.len() == i,
                forall|j: int|
                    0 <= j < i ==> (#[trigger] entries@[j]).mutation@ == candidates@[j]@
                        && entries@[j].verdict is None,
            decreases candidates.len() - i,
        {
            entries.push(Slot { mutation: candidates[i].clone(), verdict: None });
            i += 1;
        }
        let board = VerdictBoard { entries };
        assert(board@.candidates =~= candidates.deep_view());
        assert(board@.slots =~= empty_slots(candidates@.len()));
        board
    }

    /// The number of candidates, which is the number of slots.
    pub fn len(&self) -> (n: usize)
        ensures
            n == self@.candidates.len(),
            n == self@.slots.len(),
    {
        self.entries.len()
    }

    /// The candidate at position `index`, where there is one.
    pub fn candidate(&self, index: usize) -> (r: Option<&Mutation>)
        ensures
            match r {
                Some(m) => index < self@.candidates.len() && m@ == self@.candidates[index as int],
                None => index >= self@.candidates.len(),
            },
    {
        if index < self.entries.len() {
            Some(&self.entries[index].mutation)
        } else {
            None
        }
    }

    /// The verdict in the slot of candidate `index`, where it is filled.
    pub fn verdict(&self, index: usize) -> (r: Option<Verdict>)
        ensures
            r == (if index < self@.slots.len() {
                self@.slots[index as int]
            } else {
                None
            }),
    {
        if index < self.entries.len() {
            self.entries[index].verdict
        } else {
            None
        }
    }

    /// Stores `verdict` in the slot of candidate `index`, where that slot
    /// exists and is empty; tells whether it did.
    pub fn record(&mut self, index: usize, verdict: Verdict) -> (accepted: bool)
        ensures
            accepted == accepts(old(self)@.slots, index as int),
            final(self)@.slots == recorded(old(self)@.slots, index as int, verdict),
            final(self)@.candidates == old(self)@.candidates,
    {
        if index < self.entries.len() && self.entries[index].verdict.is_none() {
            self.entries[index].verdict = Some(verdict);
            assert(self@.slots =~= recorded(old(self)@.slots, index as int, verdict));
            assert(self@.candidates =~= old(self)@.candidates);
            true
        } else {
            false
        }
    }

    /// Whether every candidate has its verdict.
    pub fn is_complete(&self) -> (r: bool)
        ensures
            r == complete(self@.slots),
    {
        let mut i: usize = 0;
        while i < self.entries.len()
            invariant
                i <= self.entries.len(),
                forall|j: int| 0 <= j < i ==> (#[trigger] self@.slots[j]) is Some,
            decreases self.entries.len() - i,
        {
            if self.entries[i].verdict.is_none() {
                assert(self@.slots[i as int] is None);
                return false;
            }
            assert(self@.slots[i as int] is Some);
            i += 1;
        }
        true
    }

    /// The results when every slot is filled: the candidates in their own
    /// order, each with the verdict of its slot. `None` while a slot is empty.
    pub fn results(&self) -> (r: Option<Vec<MutationResult>>)
        ensures
            r is Some <==> complete(self@.slots),
            r matches Some(list) ==> list.deep_view() == report(self@.candidates, self@.slots),
    {
        let mut list: Vec<MutationResult> = Vec::new();
        let mut i: usize = 0;
        while i < self.entries.len()
            invariant
                i <= self.entries.len(),
                list@.len() == i,
                forall|j: int| 0 <= j < i ==> (#[trigger] self@.slots[j]) is Some,
                forall|j: int|
                    0 <= j < i ==> (#[trigger] list@[j])@ == (MutationResultView {
                        verdict: self@.slots[j]->0,
                        mutation: self@.candidates[j],
                    }),
            decreases self.entries.len() - i,
        {
            match self.entries[i].verdict {
                None => {
                    assert(self@.slots[i as int] is None);
                    return None;
                },
                Some(verdict) => {
                    assert(self@.slots[i as int] == Some(verdict));
                    list.push(MutationResult::new(self.entries[i].mutation.clone(), verdict));
                },
            }
            i += 1;
        }
        assert(list.deep_view() =~= report(self@.candidates, self@.slots));
        Some(list)
    }
}

/// The slots after the verdicts of `arrivals` were handed in one after the
/// other, each for the index it comes with.
pub open spec fn replay(slots: Seq<Option<Verdict>>, arrivals: Seq<(int, Verdict)>) -> Seq<
    Option<Verdict>,
>
    decreases arrivals.len(),
{
    if arrivals.len() == 0 {
        slots
    } else {
        recorded(replay(slots, arrivals.drop_last()), arrivals.last().0, arrivals.last().1)
    }
}

/// Whether no index comes twice among `arrivals`.
pub open spec fn each_index_once(arrivals: Seq<(int, Verdict)>) -> bool {
    forall|a: int, b: int|
        0 <= a < b < arrivals.len() ==> (#[trigger] arrivals[a]).0 != (#[trigger] arrivals[b]).0
}

/// Whether every arrival of `first` is among `second`.
pub open spec fn all_among(first: Seq<(int, Verdict)>, second: Seq<(int, Verdict)>) -> bool {
    forall|a: int| 0 <= a < first.len() ==> second.contains(#[trigger] first[a])
}

/// Handing in verdicts changes no slot count.
pub proof fn lemma_replay_len(slots: Seq<Option<Verdict>>, arrivals: Seq<(int, Verdict)>)
    ensures
        replay(slots, arrivals).len() == slots.len(),
    decreases arrivals.len(),
{
    if arrivals.len() > 0 {
        lemma_replay_len(slots, arrivals.drop_last());
    }
}

/// A slot holds the verdict of the first arrival that named it, and stays
/// empty where none did.
pub proof fn lemma_replay_slot(n: nat, arrivals: Seq<(int, Verdict)>, i: int)
    requires
        0 <= i < n,
    ensures
        match replay(empty_slots(n), arrivals)[i] {
            Some(v) => exists|k: int|
                0 <= k < arrivals.len() && #[trigger] arrivals[k] == (i, v) && forall|j: int|
                    0 <= j < k ==> (#[trigger] arrivals[j]).0 != i,
            None => forall|k: int| 0 <= k < arrivals.len() ==> (#[trigger] arrivals[k]).0 != i,
        },
    decreases arrivals.len(),
{
    if arrivals.len() > 0 {
        let earlier = arrivals.drop_last();
        let last = arrivals.last();
        lemma_replay_slot(n, earlier, i);
        lemma_replay_len(empty_slots(n), earlier);
        let before = replay(empty_slots(n), earlier);
        match before[i] {
            Some(v) => {
                let k = choose|k: int|
                    0 <= k < earlier.len() && #[trigger] earlier[k] == (i, v) && forall|j: int|
                        0 <= j < k ==> (#[trigger] earlier[j]).0 != i;
                assert(arrivals[k] == (i, v));
                assert forall|j: int| 0 <= j < k implies (#[trigger] arrivals[j]).0 != i by {
                    assert(earlier[j] == arrivals[j]);
                }
            },
            None => {
                assert forall|j: int| 0 <= j < earlier.len() implies (#[trigger] arrivals[j]).0
                    != i by {
                    assert(earlier[j] == arrivals[j]);
                }
                if last.0 == i {
                    assert(arrivals[arrivals.len() - 1] == (i, last.1));
                }
            },
        }
    }
}

/// The order in which verdicts arrive does not matter: two orders that hold
/// the same arrivals, each index once, fill the slots alike.
pub proof fn lemma_arrival_order_is_irrelevant(
    n: nat,
    first: Seq<(int, Verdict)>,
    second: Seq<(int, Verdict)>,
)
    requires
        each_index_once(first),
        each_index_once(second),
        all_among(first, second),
        all_among(second, first),
    ensures
        replay(empty_slots(n), first) == replay(empty_slots(n), second),
{
    let one = replay(empty_slots(n), first);
    let two = replay(empty_slots(n), second);
    lemma_replay_len(empty_slots(n), first);
    lemma_replay_len(empty_slots(n), second);
    assert forall|i: int| 0 <= i < n implies one[i] == two[i] by {
        lemma_replay_slot(n, first, i);
        lemma_replay_slot(n, second, i);
        match one[i] {
            Some(v) => {
                let k = choose|k: int| 0 <= k < first.len() && #[trigger] first[k] == (i, v);
                assert(second.contains(first[k]));
                let l = choose|l: int| 0 <= l < second.len() && second[l] == (i, v);
                match two[i] {
                    Some(w) => {
                        let m = choose|m: int| 0 <= m < second.len() && #[trigger] second[m] == (i, w);
                        if m != l {
                            assert(second[m].0 == second[l].0);
                        }
                    },
                    None => {
                        assert(second[l].0 == i);
                    },
                }
            },
            None => {
                if let Some(w) = two[i] {
                    let m = choose|m: int| 0 <= m < second.len() && #[trigger] second[m] == (i, w);
                    assert(first.contains(second[m]));
                    let k = choose|k: int| 0 <= k < first.len() && first[k] == (i, w);
                    assert(first[k].0 == i);
                }
            },
        }
    }
    assert(one =~= two);
}

/// The report follows the candidates: entry `i` holds candidate `i` and the
/// verdict of slot `i`, whatever the order in which the verdicts arrived.
pub proof fn lemma_report_in_candidate_order(
    candidates: Seq<MutationView>,
    first: Seq<(int, Verdict)>,
    second: Seq<(int, Verdict)>,
)
    requires
        each_index_once(first),
        each_index_once(second),
        all_among(first, second),
        all_among(second, first),
    ensures
        report(candidates, replay(empty_slots(candidates.len()), first)) == report(
            candidates,
            replay(empty_slots(candidates.len()), second),
        ),
        report(candidates, replay(empty_slots(candidates.len()), first)).len()
            == candidates.len(),
        forall|i: int|
            0 <= i < candidates.len() ==> (#[trigger] report(
                candidates,
                replay(empty_slots(candidates.len()), first),
            )[i]).mutation == candidates[i],
{
    lemma_arrival_order_is_irrelevant(candidates.len(), first, second);
}

/// The operators that a run looks for, in the order in which each line is
/// tried against them.
pub open spec fn catalog_operators() -> Seq<MutationType> {
    seq![
        MutationType::Equal,
        MutationType::NotEqual,
        MutationType::GreaterThan,
        MutationType::GreaterThanOrEqual,
        MutationType::LessThan,
        MutationType::LessThanOrEqual,
        MutationType::Assert,
        MutationType::IsZero,
        MutationType::IsNonZero,
        MutationType::And,
        MutationType::Or,
    ]
}

/// The operators that a run looks for.
pub fn catalog() -> (ops: Vec<MutationType>)
    ensures
        ops@ == catalog_operators(),
{
    let mut ops: Vec<MutationType> = Vec::new();
    ops.push(MutationType::Equal);
    ops.push(MutationType::NotEqual);
    ops.push(MutationType::GreaterThan);
    ops.push(MutationType::GreaterThanOrEqual);
    ops.push(MutationType::LessThan);
    ops.push(MutationType::LessThanOrEqual);
    ops.push(MutationType::Assert);
    ops.push(MutationType::IsZero);
    ops.push(MutationType::IsNonZero);
    ops.push(MutationType::And);
    ops.push(MutationType::Or);
    assert(ops@ =~= catalog_operators());
    ops
}

/// The path of the sandbox of candidate `index`, below the batch root.
pub open spec fn sandbox_path_of(batch_root: Seq<char>, index: nat) -> Seq<char> {
    batch_root + seq!['/'] + decimal(index)
}

/// The path of the sandbox of candidate `index`: a folder of its own below
/// the batch root, named by the index.
pub fn sandbox_path(batch_root: &str, index: usize) -> (path: String)
    ensures
        path@ == sandbox_path_of(batch_root@, index as nat),
{
    proof {
        reveal_strlit("/");
    }
    let mut path = String::from_str(batch_root);
    path.append("/");
    path.append(to_decimal(index as u128).as_str());
    assert(path@ =~= sandbox_path_of(batch_root@, index as nat));
    path
}

/// No two candidates of a run share a sandbox.
pub proof fn lemma_sandboxes_are_distinct(batch_root: Seq<char>, i: nat, j: nat)
    requires
        sandbox_path_of(batch_root, i) == sandbox_path_of(batch_root, j),
    ensures
        i == j,
{
    let head = batch_root + seq!['/'];
    assert(sandbox_path_of(batch_root, i).skip(head.len() as int) =~= decimal(i));
    assert(sandbox_path_of(batch_root, j).skip(head.len() as int) =~= decimal(j));
    lemma_decimal_is_injective(i, j);
}

/// The phases of a run.
#[derive(Debug, Clone, Copy, PartialEq, Eq, Structural)]
pub enum Phase {
    /// Nothing has happened yet.
    Idle,
    /// The project layout and the unmodified project's tests are being checked.
    PreconditionCheck,
    /// The source files are being scanned for candidates.
    Scanning,
    /// The candidates are being handed to the workers.
    Dispatching,
    /// Verdicts are coming in.
    Aggregating,
    /// Every candidate has its verdict; the batch root is being removed.
    Reporting,
    /// The run is over and has its report, or had nothing to mutate.
    Done,
    /// The run was stopped by an error.
    Aborted,
}

/// What the caller reports to the orchestrator.
#[derive(Debug)]
pub enum Event {
    /// The run is asked for.
    Start,
    /// The layout is right and the unmodified project passes its tests.
    PreconditionsMet,
    /// The scan is over; these are its candidates, in order.
    Scanned(Vec<Mutation>),
    /// Every candidate has been handed to a worker.
    Dispatched,
    /// The candidate at this position has this verdict.
    VerdictReady(usize, Verdict),
    /// The batch root and all sandboxes below it are gone.
    BatchRootRemoved,
    /// Something failed that no verdict can stand for: a precondition, the
    /// file system, or the launch of a tool.
    Failed(Error),
}

/// What an `Event` stands for.
pub enum EventView {
    Start,
    PreconditionsMet,
    Scanned(Seq<MutationView>),
    Dispatched,
    VerdictReady(int, Verdict),
    BatchRootRemoved,
    Failed(ErrorView),
}

impl View for Event {
    type V = EventView;

    open spec fn view(&self) -> EventView {
        match *self {
            Event::Start => EventView::Start,
            Event::PreconditionsMet => EventView::PreconditionsMet,
            Event::Scanned(c) => EventView::Scanned(c.deep_view()),
            Event::Dispatched => EventView::Dispatched,
            Event::VerdictReady(i, v) => EventView::VerdictReady(i as int, v),
            Event::BatchRootRemoved => EventView::BatchRootRemoved,
            Event::Failed(e) => EventView::Failed(e@),
        }
    }
}

/// What the orchestrator asks its caller to do next.
#[derive(Debug)]
pub enum Action {
    /// Check the project layout and run the unmodified project's tests.
    CheckPreconditions,
    /// Read the source files and collect the candidates.
    Scan,
    /// Create the batch root and hand every candidate to a worker.
    Dispatch,
    /// Wait for the next verdict.
    Collect,
    /// Remove the batch root: no sandbox is in use any more.
    RemoveBatchRoot,
    /// Show the report: every candidate with its verdict, in candidate order.
    Report(Vec<MutationResult>),
    /// Tell the user that the scan found nothing to mutate.
    NothingToMutate,
    /// Stop with this error, after removing the batch root where one may
    /// have been created.
    Abort { error: Error, remove_batch_root: bool },
    /// The event does not belong to the phase; nothing is to be done.
    Ignore,
}

/// What an `Action` stands for.
pub enum ActionView {
    CheckPreconditions,
    Scan,
    Dispatch,
    Collect,
    RemoveBatchRoot,
    Report(Seq<MutationResultView>),
    NothingToMutate,
    Abort { error: ErrorView, remove_batch_root: bool },
    Ignore,
}

impl View for Action {
    type V = ActionView;

    open spec fn view(&self) -> ActionView {
        match *self {
            Action::CheckPreconditions => ActionView::CheckPreconditions,
            Action::Scan => ActionView::Scan,
            Action::Dispatch => ActionView::Dispatch,
            Action::Collect => ActionView::Collect,
            Action::RemoveBatchRoot => ActionView::RemoveBatchRoot,
            Action::Report(r) => ActionView::Report(r.deep_view()),
            Action::NothingToMutate => ActionView::NothingToMutate,
            Action::Abort { error, remove_batch_root } => ActionView::Abort {
                error: error@,
                remove_batch_root,
            },
            Action::Ignore => ActionView::Ignore,
        }
    }
}

/// The state of a run: its phase, its candidates, and the verdicts so far.
pub struct Orchestrator {
    phase: Phase,
    board: VerdictBoard,
}

/// What an `Orchestrator` stands for.
pub struct OrchestratorView {
    pub phase: Phase,
    pub candidates: Seq<MutationView>,
    pub slots: Seq<Option<Verdict>>,
}

impl View for Orchestrator {
    type V = OrchestratorView;

    closed spec fn view(&self) -> OrchestratorView {
        OrchestratorView {
            phase: self.phase,
            candidates: self.board@.candidates,
            slots: self.board@.slots,
        }
    }
}

/// Whether a batch root may exist in this phase.
pub open spec fn batch_root_may_exist(phase: Phase) -> bool {
    phase == Phase::Dispatching || phase == Phase::Aggregating || phase == Phase::Reporting
}

/// Whether the phase is one in which the run has ended.
pub open spec fn is_final(phase: Phase) -> bool {
    phase == Phase::Done || phase == Phase::Aborted
}

/// The state that follows `state` on `event`, and the action that goes with it.
///
/// The phases follow one another: the preconditions are checked, then the
/// sources are scanned, then the candidates are dispatched, then verdicts
/// are gathered until every slot is filled, then the batch root is removed,
/// then the report is shown. A scan that finds nothing ends the run at once.
/// A failure ends the run from every phase in which it has not ended, and
/// asks for the batch root to be removed where one may exist. An event that
/// the phase does not wait for changes nothing.
pub open spec fn next(state: OrchestratorView, event: EventView) -> (OrchestratorView, ActionView) {
    match event {
        EventView::Failed(error) => if is_final(state.phase) {
            (state, ActionView::Ignore)
        } else {
            (
                OrchestratorView { phase: Phase::Aborted, ..state },
                ActionView::Abort { error, remove_batch_root: batch_root_may_exist(state.phase) },
            )
        },
        EventView::Start => if state.phase == Phase::Idle {
            (
                OrchestratorView { phase: Phase::PreconditionCheck, ..state },
                ActionView::CheckPreconditions,
            )
        } else {
            (state, ActionView::Ignore)
        },
        EventView::PreconditionsMet => if state.phase == Phase::PreconditionCheck {
            (OrchestratorView { phase: Phase::Scanning, ..state }, ActionView::Scan)
        } else {
            (state, ActionView::Ignore)
        },
        EventView::Scanned(candidates) => if state.phase != Phase::Scanning {
            (state, ActionView::Ignore)
        } else if candidates.len() == 0 {
            (OrchestratorView { phase: Phase::Done, ..state }, ActionView::NothingToMutate)
        } else {
            (
                OrchestratorView {
                    phase: Phase::Dispatching,
                    candidates,
                    slots: empty_slots(candidates.len()),
                },
                ActionView::Dispatch,
            )
        },
        EventView::Dispatched => if state.phase == Phase::Dispatching {
            (OrchestratorView { phase: Phase::Aggregating, ..state }, ActionView::Collect)
        } else {
            (state, ActionView::Ignore)
        },
        EventView::VerdictReady(index, verdict) => if state.phase != Phase::Aggregating || !accepts(
            state.slots,
            index,
        ) {
            (state, ActionView::Ignore)
        } else if complete(recorded(state.slots, index, verdict)) {
            (
                OrchestratorView {
                    phase: Phase::Reporting,
                    slots: recorded(state.slots, index, verdict),
                    ..state
                },
                ActionView::RemoveBatchRoot,
            )
        } else {
            (
                OrchestratorView { slots: recorded(state.slots, index, verdict), ..state },
                ActionView::Collect,
            )
        },
        EventView::BatchRootRemoved => if state.phase == Phase::Reporting && complete(state.slots) {
            (
                OrchestratorView { phase: Phase::Done, ..state },
                ActionView::Report(report(state.candidates, state.slots)),
            )
        } else {
            (state, ActionView::Ignore)
        },
    }
}

impl Orchestrator {
    /// A run that has not started: no candidates, no verdicts.
    pub fn new() -> (o: Orchestrator)
        ensures
            o@ == (OrchestratorView {
                phase: Phase::Idle,
                candidates: Seq::<MutationView>::empty(),
                slots: Seq::<Option<Verdict>>::empty(),
            }),
    {
        let o = Orchestrator { phase: Phase::Idle, board: VerdictBoard::new(Vec::new()) };
        assert(o@.candidates =~= Seq::<MutationView>::empty());
        assert(o@.slots =~= Seq::<Option<Verdict>>::empty());
        o
    }

    /// The phase of the run.
    pub fn phase(&self) -> (p: Phase)
        ensures
            p == self@.phase,
    {
        self.phase
    }

    /// The candidates of the run and the verdicts so far.
    pub fn board(&self) -> (b: &VerdictBoard)
        ensures
            b@.candidates == self@.candidates,
            b@.slots == self@.slots,
    {
        &self.board
    }

    /// Takes `event` in and tells what to do next.
    pub fn step(&mut self, event: Event) -> (action: Action)
        ensures
            (final(self)@, action@) == next(old(self)@, event@),
    {
        match event {
            Event::Failed(error) => {
                match self.phase {
                    Phase::Done | Phase::Aborted => Action::Ignore,
                    Phase::Dispatching | Phase::Aggregating | Phase::Reporting => {
                        self.phase = Phase::Aborted;
                        Action::Abort { error, remove_batch_root: true }
                    },
                    _ => {
                        self.phase = Phase::Aborted;
                        Action::Abort { error, remove_batch_root: false }
                    },
                }
            },
            Event::Start => {
                match self.phase {
                    Phase::Idle => {
                        self.phase = Phase::PreconditionCheck;
                        Action::CheckPreconditions
                    },
                    _ => Action::Ignore,
                }
            },
            Event::PreconditionsMet => {
                match self.phase {
                    Phase::PreconditionCheck => {
                        self.phase = Phase::Scanning;
                        Action::Scan
                    },
                    _ => Action::Ignore,
                }
            },
            Event::Scanned(candidates) => {
                match self.phase {
                    Phase::Scanning => {
                        if candidates.len() == 0 {
                            self.phase = Phase::Done;
                            Action::NothingToMutate
                        } else {
                            self.board = VerdictBoard::new(candidates);
                            self.phase = Phase::Dispatching;
                            Action::Dispatch
                        }
                    },
                    _ => Action::Ignore,
                }
            },
            Event::Dispatched => {
                match self.phase {
                    Phase::Dispatching => {
                        self.phase = Phase::Aggregating;
                        Action::Collect
                    },
                    _ => Action::Ignore,
                }
            },
            Event::VerdictReady(index, verdict) => {
                match self.phase {
                    Phase::Aggregating => {
                        if !self.board.record(index, verdict) {
                            Action::Ignore
                        } else if self.board.is_complete() {
                            self.phase = Phase::Reporting;
                            Action::RemoveBatchRoot
                        } else {
                            Action::Collect
                        }
                    },
                    _ => Action::Ignore,
                }
            },
            Event::BatchRootRemoved => {
                match self.phase {
                    Phase::Reporting => {
                        match self.board.results() {
                            Some(list) => {
                                self.phase = Phase::Done;
                                Action::Report(list)
                            },
                            None => Action::Ignore,
                        }
                    },
                    _ => Action::Ignore,
                }
            },
        }
    }
}

/// What holds of every state that a run can reach: there is one slot for
/// each candidate; before the scan is over there are no candidates; while
/// candidates are dispatched and verdicts gathered some slot is still empty;
/// and the report is due only once every slot is filled.
pub open spec fn consistent(state: OrchestratorView) -> bool {
    &&& state.slots.len() == state.candidates.len()
    &&& (state.phase == Phase::Idle || state.phase == Phase::PreconditionCheck || state.phase
        == Phase::Scanning) ==> state.candidates.len() == 0
    &&& (state.phase == Phase::Dispatching || state.phase == Phase::Aggregating) ==> !complete(
        state.slots,
    )
    &&& state.phase == Phase::Reporting ==> complete(state.slots) && state.candidates.len() > 0
}

/// The state in which every run starts.
pub open spec fn initial() -> OrchestratorView {
    OrchestratorView {
        phase: Phase::Idle,
        candidates: Seq::<MutationView>::empty(),
        slots: Seq::<Option<Verdict>>::empty(),
    }
}

/// The state after the events of `events` were taken in one after the other.
pub open spec fn run(state: OrchestratorView, events: Seq<EventView>) -> OrchestratorView
    decreases events.len(),
{
    if events.len() == 0 {
        state
    } else {
        next(run(state, events.drop_last()), events.last()).0
    }
}

/// No event leads out of a consistent state into one that is not.
pub proof fn lemma_step_keeps_consistent(state: OrchestratorView, event: EventView)
    requires
        consistent(state),
    ensures
        consistent(next(state, event).0),
{
    match event {
        EventView::Scanned(candidates) => {
            if state.phase == Phase::Scanning && candidates.len() > 0 {
                assert(empty_slots(candidates.len())[0] is None);
            }
        },
        EventView::VerdictReady(index, verdict) => {},
        _ => {},
    }
}

/// Every state that a run reaches from its start is consistent.
pub proof fn lemma_reachable_is_consistent(events: Seq<EventView>)
    ensures
        consistent(run(initial(), events)),
    decreases events.len(),
{
    if events.len() > 0 {
        lemma_reachable_is_consistent(events.drop_last());
        lemma_step_keeps_consistent(run(initial(), events.drop_last()), events.last());
    }
}

/// A failure while the preconditions are checked aborts the run with that
/// failure, before any candidate exists; nothing is to be removed, and
/// whatever is reported afterwards is ignored.
pub proof fn lemma_failed_precondition_aborts(
    state: OrchestratorView,
    error: ErrorView,
    later: EventView,
)
    requires
        consistent(state),
        state.phase == Phase::PreconditionCheck,
    ensures
        next(state, EventView::Failed(error)).1 == (ActionView::Abort {
            error,
            remove_batch_root: false,
        }),
        next(state, EventView::Failed(error)).0.phase == Phase::Aborted,
        next(state, EventView::Failed(error)).0.candidates.len() == 0,
        next(next(state, EventView::Failed(error)).0, later) == (
            next(state, EventView::Failed(error)).0,
            ActionView::Ignore,
        ),
{
}

/// A run that has ended stays as it is.
pub proof fn lemma_final_phases_are_final(state: OrchestratorView, event: EventView)
    requires
        is_final(state.phase),
    ensures
        next(state, event) == (state, ActionView::Ignore),
{
}

/// A failure ends every run that has not ended, and asks for the batch root
/// to be removed exactly where one may have been created.
pub proof fn lemma_failure_always_aborts(state: OrchestratorView, error: ErrorView)
    requires
        !is_final(state.phase),
    ensures
        next(state, EventView::Failed(error)).0.phase == Phase::Aborted,
        next(state, EventView::Failed(error)).1 == (ActionView::Abort {
            error,
            remove_batch_root: batch_root_may_exist(state.phase),
        }),
{
}

/// The batch root is removed, and the report shown, only once every
/// candidate has its verdict; and the report holds the candidates in their
/// order, each with the verdict of its own slot.
pub proof fn lemma_report_needs_every_verdict(state: OrchestratorView, event: EventView)
    requires
        consistent(state),
    ensures
        next(state, event).1 == ActionView::RemoveBatchRoot ==> complete(next(state, event).0.slots),
        next(state, event).1 matches ActionView::Report(list) ==> {
            &&& complete(state.slots)
            &&& list.len() == state.candidates.len()
            &&& forall|i: int|
                0 <= i < list.len() ==> (#[trigger] list[i]).mutation == state.candidates[i]
                    && Some(list[i].verdict) == state.slots[i]
        },
{
}

/// A verdict changes the slot of its own candidate and no other, and never
/// the candidates.
pub proof fn lemma_verdict_fills_its_own_slot(
    state: OrchestratorView,
    index: int,
    verdict: Verdict,
)
    requires
        consistent(state),
    ensures
        ({
            let after = next(state, EventView::VerdictReady(index, verdict)).0;
            &&& after.candidates == state.candidates
            &&& after.slots.len() == state.slots.len()
            &&& forall|i: int|
                0 <= i < state.slots.len() && i != index ==> after.slots[i] == state.slots[i]
            &&& forall|i: int|
                0 <= i < state.slots.len() && state.slots[i] is Some ==> after.slots[i]
                    == state.slots[i]
        }),
{
}

/// The events that hand in the verdicts of `arrivals`, in their order.
pub open spec fn verdict_events(arrivals: Seq<(int, Verdict)>) -> Seq<EventView> {
    Seq::new(arrivals.len(), |k: int| EventView::VerdictReady(arrivals[k].0, arrivals[k].1))
}

/// While verdicts are gathered the slots take each verdict as `recorded`
/// says, the candidates stay, and the run waits for the batch root to be
/// removed exactly from the moment at which every slot is filled.
pub proof fn lemma_gathering_fills_the_slots(
    state: OrchestratorView,
    arrivals: Seq<(int, Verdict)>,
)
    requires
        consistent(state),
        state.phase == Phase::Aggregating || state.phase == Phase::Reporting,
    ensures
        ({
            let after = run(state, verdict_events(arrivals));
            &&& after.slots == replay(state.slots, arrivals)
            &&& after.candidates == state.candidates
            &&& after.phase == (if complete(after.slots) {
                Phase::Reporting
            } else {
                Phase::Aggregating
            })
            &&& consistent(after)
        }),
    decreases arrivals.len(),
{
    if arrivals.len() > 0 {
        let earlier = arrivals.drop_last();
        assert(verdict_events(arrivals).drop_last() =~= verdict_events(earlier));
        lemma_gathering_fills_the_slots(state, earlier);
        lemma_step_keeps_consistent(
            run(state, verdict_events(earlier)),
            verdict_events(arrivals).last(),
        );
    }
}

/// The report of a run does not depend on the order in which the workers
/// finish: two orders that hold the same verdicts, each candidate once,
/// lead to the same state, and so to the same report.
pub proof fn lemma_run_is_deterministic(
    state: OrchestratorView,
    first: Seq<(int, Verdict)>,
    second: Seq<(int, Verdict)>,
)
    requires
        consistent(state),
        state.phase == Phase::Aggregating,
        state.slots == empty_slots(state.candidates.len()),
        each_index_once(first),
        each_index_once(second),
        all_among(first, second),
        all_among(second, first),
    ensures
        run(state, verdict_events(first)) == run(state, verdict_events(second)),
        next(run(state, verdict_events(first)), EventView::BatchRootRemoved) == next(
            run(state, verdict_events(second)),
            EventView::BatchRootRemoved,
        ),
{
    lemma_gathering_fills_the_slots(state, first);
    lemma_gathering_fills_the_slots(state, second);
    lemma_arrival_order_is_irrelevant(state.candidates.len(), first, second);
}

} // verus!
