//! Fixed-capacity stackless cooperative task scheduling.
//!
//! A task runs one bounded step and yields or completes. What it has to remember
//! between steps stands in its state; tasks have no stacks of their own.
use vstd::prelude::*;

verus! {

/// Words of a task's state.
pub const TASK_STATE_WORDS: usize = 8;

/// How a step of a task ended.
#[derive(Clone, Copy, Debug, PartialEq, Eq, Structural)]
pub enum TaskPoll {
    Pending,
    Complete,
}

/// What a task remembers between steps.
#[derive(Clone, Copy, Debug, PartialEq, Eq)]
pub struct TaskState {
    words: [usize; 8],
}

impl View for TaskState {
    type V = Seq<usize>;

    closed spec fn view(&self) -> Seq<usize> {
        self.words@
    }
}

/// Every state has its full number of words.
pub proof fn law_state_has_its_words(state: TaskState)
    ensures
        state@.len() == TASK_STATE_WORDS,
{
}

impl TaskState {
    /// A state of zeros.
    pub fn new() -> (state: Self)
        ensures
            state@ == Seq::new(8, |i: int| 0usize),
    {
        let state = TaskState { words: [0, 0, 0, 0, 0, 0, 0, 0] };
        assert(state@ =~= Seq::new(8, |i: int| 0usize));
        state
    }

    /// A state of these words.
    pub fn from_words(words: [usize; 8]) -> (state: Self)
        ensures
            state@ == words@,
    {
        TaskState { words }
    }

    /// A word, if there is one at `index`.
    pub fn get(&self, index: usize) -> (word: Option<usize>)
        ensures
            word == (if index < 8 {
                Some(self@[index as int])
            } else {
                None
            }),
    {
        if index < 8 {
            Some(self.words[index])
        } else {
            None
        }
    }

    /// Sets a word; `false` if there is none at `index`.
    pub fn set(&mut self, index: usize, value: usize) -> (stored: bool)
        ensures
            stored == (index < 8),
            final(self)@ == (if index < 8 {
                old(self)@.update(index as int, value)
            } else {
                old(self)@
            }),
    {
        if index < 8 {
            self.words[index] = value;
            true
        } else {
            false
        }
    }

    /// All words.
    pub fn words(&self) -> (words: &[usize; 8])
        ensures
            words@ == self@,
    {
        &self.words
    }

    /// All words, to change.
    pub fn words_mut(&mut self) -> (words: &mut [usize; 8])
        ensures
            words@ == old(self)@,
            final(self)@ == final(words)@,
    {
        &mut self.words
    }
}

impl Default for TaskState {
    fn default() -> (state: Self)
        ensures
            state@ == Seq::new(8, |i: int| 0usize),
    {
        TaskState::new()
    }
}

/// A kind of task: what one step does to the context and to the task's state.
pub trait TaskBody<C>: Copy {
    /// A step from these words may end with those, and with this answer. A kind of task that
    /// does not say may end in any way.
    open spec fn steps(
        self,
        before: C,
        words: Seq<usize>,
        after: C,
        left: Seq<usize>,
        poll: TaskPoll,
    ) -> bool {
        true
    }

    /// Runs one step.
    fn run(self, context: &mut C, state: &mut TaskState) -> (poll: TaskPoll)
        ensures
            self.steps(*old(context), old(state)@, *final(context), final(state)@, poll),
    ;
}

/// Why a task was not taken.
#[derive(Clone, Copy, Debug, PartialEq, Eq, Structural)]
pub enum SpawnError {
    Full,
}

/// What a run did.
#[derive(Clone, Copy, Debug, PartialEq, Eq, Structural)]
pub enum RunOutcome {
    Idle,
    Pending,
    Completed,
}

/// A live task.
#[derive(Clone, Copy)]
pub struct TaskSlot<B> {
    pub body: B,
    pub state: TaskState,
}

/// Up to `TASKS` tasks, run in turn.
pub struct Scheduler<B, const TASKS: usize> {
    slots: Vec<Option<TaskSlot<B>>>,
    cursor: usize,
    live: usize,
}

/// The place `offset` places after `start` in a ring of `size`.
pub open spec fn around(start: int, offset: int, size: int) -> int {
    if start + offset < size {
        start + offset
    } else {
        start + offset - size
    }
}

/// Live tasks among the places from `from` to `to`.
pub open spec fn live_between<B>(slots: Seq<Option<TaskSlot<B>>>, from: int, to: int) -> nat
    decreases to - from,
{
    if from >= to {
        0
    } else {
        live_between(slots, from, to - 1) + if slots[to - 1] is Some {
            1nat
        } else {
            0
        }
    }
}

/// The live tasks from `offset` places after `cursor` on, once around the ring.
pub open spec fn turn<B>(slots: Seq<Option<TaskSlot<B>>>, cursor: int, offset: int) -> Seq<int>
    decreases slots.len() - offset,
{
    if offset >= slots.len() {
        Seq::empty()
    } else {
        let place = around(cursor, offset, slots.len() as int);
        let rest = turn(slots, cursor, offset + 1);
        if slots[place] is Some {
            seq![place] + rest
        } else {
            rest
        }
    }
}

/// Steps that completed their task.
pub open spec fn completed(outcomes: Seq<RunOutcome>) -> nat
    decreases outcomes.len(),
{
    if outcomes.len() == 0 {
        0
    } else {
        completed(outcomes.drop_last()) + if outcomes.last() == RunOutcome::Completed {
            1nat
        } else {
            0
        }
    }
}

/// Splitting a range splits its live tasks.
proof fn lemma_live_splits<B>(slots: Seq<Option<TaskSlot<B>>>, from: int, middle: int, to: int)
    requires
        from <= middle <= to,
    ensures
        live_between(slots, from, to) == live_between(slots, from, middle) + live_between(
            slots,
            middle,
            to,
        ),
    decreases to - middle,
{
    if middle < to {
        lemma_live_splits(slots, from, middle, to - 1);
    }
}

/// Replacing one slot changes the live tasks of a range accordingly.
proof fn lemma_live_update<B>(
    slots: Seq<Option<TaskSlot<B>>>,
    from: int,
    to: int,
    at: int,
    slot: Option<TaskSlot<B>>,
)
    requires
        0 <= from,
        to <= slots.len(),
        0 <= at < slots.len(),
    ensures
        live_between(slots.update(at, slot), from, to) == live_between(slots, from, to) + (if from
            <= at < to && slot is Some {
            1int
        } else {
            0
        }) - (if from <= at < to && slots[at] is Some {
            1int
        } else {
            0
        }),
    decreases to - from,
{
    if from < to {
        lemma_live_update(slots, from, to - 1, at, slot);
    }
}

/// Where nothing is live, no slot is taken; a range with fewer live tasks than places has a gap.
proof fn lemma_live_bounds<B>(slots: Seq<Option<TaskSlot<B>>>, from: int, to: int)
    requires
        0 <= from <= to <= slots.len(),
    ensures
        live_between(slots, from, to) <= to - from,
        live_between(slots, from, to) > 0 <==> exists|i: int|
            from <= i < to && #[trigger] slots[i] is Some,
        live_between(slots, from, to) < to - from <==> exists|i: int|
            from <= i < to && #[trigger] slots[i] is None,
    decreases to - from,
{
    if from < to {
        lemma_live_bounds(slots, from, to - 1);
    }
}

/// A turn visits every live task of the places that it covers.
proof fn lemma_turn_length<B>(slots: Seq<Option<TaskSlot<B>>>, cursor: int, offset: int)
    requires
        0 <= cursor < slots.len(),
        0 <= offset <= slots.len(),
    ensures
        turn(slots, cursor, offset).len() == (if cursor + offset < slots.len() {
            live_between(slots, cursor + offset, slots.len() as int) + live_between(
                slots,
                0,
                cursor,
            )
        } else {
            live_between(slots, cursor + offset - slots.len(), cursor)
        }),
    decreases slots.len() - offset,
{
    let size = slots.len() as int;
    if offset < size {
        lemma_turn_length(slots, cursor, offset + 1);
        let place = around(cursor, offset, size);
        if cursor + offset < size {
            lemma_live_splits(slots, place, place + 1, size);
        } else {
            lemma_live_splits(slots, place, place + 1, cursor);
        }
        assert(live_between(slots, place, place + 1) == if slots[place] is Some {
            1nat
        } else {
            0
        }) by {
            assert(live_between(slots, place, place) == 0);
        }
    }
}

/// A turn skips places without a task.
proof fn lemma_turn_skips<B>(
    slots: Seq<Option<TaskSlot<B>>>,
    cursor: int,
    offset: int,
    next: int,
)
    requires
        0 <= offset <= next <= slots.len(),
        forall|o: int|
            offset <= o < next ==> slots[#[trigger] around(
                cursor,
                o,
                slots.len() as int,
            )] is None,
    ensures
        turn(slots, cursor, offset) == turn(slots, cursor, next),
    decreases next - offset,
{
    if offset < next {
        assert(slots[around(cursor, offset, slots.len() as int)] is None);
        lemma_turn_skips(slots, cursor, offset + 1, next);
    }
}

/// A turn visits a task at most once, and only live ones.
pub proof fn law_turn_visits_each_live_task_once<B>(
    slots: Seq<Option<TaskSlot<B>>>,
    cursor: int,
    offset: int,
)
    requires
        0 <= cursor < slots.len(),
        0 <= offset <= slots.len(),
    ensures
        turn(slots, cursor, offset).no_duplicates(),
        forall|place: int| #[trigger]
            turn(slots, cursor, offset).contains(place) <==> exists|o: int|
                offset <= o < slots.len() && place == #[trigger] around(
                    cursor,
                    o,
                    slots.len() as int,
                ) && slots[place] is Some,
    decreases slots.len() - offset,
{
    let size = slots.len() as int;
    let all = turn(slots, cursor, offset);
    if offset < size {
        law_turn_visits_each_live_task_once(slots, cursor, offset + 1);
        let first = around(cursor, offset, size);
        let rest = turn(slots, cursor, offset + 1);
        assert(!rest.contains(first));
        assert forall|place: int| #[trigger] all.contains(place) <==> exists|o: int|
            offset <= o < size && place == #[trigger] around(cursor, o, size)
                && slots[place] is Some by {
            if all.contains(place) {
                let k = choose|k: int| 0 <= k < all.len() && all[k] == place;
                if slots[first] is Some && k == 0 {
                    assert(place == around(cursor, offset, size));
                } else {
                    if slots[first] is Some {
                        assert(rest[k - 1] == place);
                    }
                    assert(rest.contains(place));
                }
            }
            if exists|o: int|
                offset <= o < size && place == #[trigger] around(cursor, o, size)
                    && slots[place] is Some {
                let o = choose|o: int|
                    offset <= o < size && place == #[trigger] around(cursor, o, size)
                        && slots[place] is Some;
                if o == offset {
                    assert(all[0] == place);
                } else {
                    assert(rest.contains(place));
                    let k = choose|k: int| 0 <= k < rest.len() && rest[k] == place;
                    if slots[first] is Some {
                        assert(all[k + 1] == place);
                    }
                }
            }
        }
        assert(all.no_duplicates()) by {
            if slots[first] is Some {
                assert forall|i: int, j: int| 0 <= i < all.len() && 0 <= j < all.len() && i
                    != j implies all[i] != all[j] by {
                    if i > 0 {
                        assert(rest.contains(rest[i - 1]));
                    }
                    if j > 0 {
                        assert(rest.contains(rest[j - 1]));
                    }
                }
            }
        }
    }
}

impl<B, const TASKS: usize> Scheduler<B, TASKS> {
    /// The slots.
    pub closed spec fn slots(&self) -> Seq<Option<TaskSlot<B>>> {
        self.slots@
    }

    /// Where the next search begins.
    pub closed spec fn cursor(&self) -> int {
        self.cursor as int
    }

    /// There is a slot for every task, and `live` counts the taken ones.
    pub closed spec fn wf(&self) -> bool {
        &&& self.slots@.len() == TASKS
        &&& self.live == live_between(self.slots@, 0, TASKS as int)
        &&& TASKS > 0 ==> self.cursor < TASKS
    }

    /// Number of live tasks.
    pub open spec fn live_tasks(&self) -> nat {
        live_between(self.slots(), 0, TASKS as int)
    }

    /// What a well-formed scheduler holds.
    pub proof fn lemma_wf(&self)
        requires
            self.wf(),
        ensures
            self.slots().len() == TASKS,
            TASKS > 0 ==> 0 <= self.cursor() < TASKS,
            self.live_tasks() <= TASKS,
    {
        lemma_live_bounds(self.slots@, 0, TASKS as int);
    }

    /// A scheduler without tasks.
    pub fn new() -> (scheduler: Self)
        ensures
            scheduler.wf(),
            scheduler.live_tasks() == 0,
            scheduler.cursor() == 0,
    {
        let mut slots: Vec<Option<TaskSlot<B>>> = Vec::new();
        let mut index: usize = 0;
        while index < TASKS
            invariant
                index <= TASKS,
                slots@.len() == index,
                forall|i: int| 0 <= i < index ==> #[trigger] slots@[i] is None,
            decreases TASKS - index,
        {
            slots.push(None);
            index += 1;
        }
        proof {
            lemma_live_bounds(slots@, 0, TASKS as int);
        }
        Scheduler { slots, cursor: 0, live: 0 }
    }

    /// Number of slots.
    pub fn capacity(&self) -> (capacity: usize)
        ensures
            capacity == TASKS,
    {
        TASKS
    }

    /// Number of live tasks.
    pub fn len(&self) -> (count: usize)
        requires
            self.wf(),
        ensures
            count == self.live_tasks(),
    {
        self.live
    }

    /// Whether no task is live.
    pub fn is_empty(&self) -> (empty: bool)
        requires
            self.wf(),
        ensures
            empty == (self.live_tasks() == 0),
    {
        self.live == 0
    }

    /// Whether every slot is taken.
    pub fn is_full(&self) -> (full: bool)
        requires
            self.wf(),
        ensures
            full == (self.live_tasks() == TASKS),
    {
        self.live == TASKS
    }

    /// The task went into the first free slot, or there was none.
    pub open spec fn spawns(
        &self,
        after: Scheduler<B, TASKS>,
        result: Result<(), SpawnError>,
        body: B,
        state: Seq<usize>,
    ) -> bool {
        if self.live_tasks() == TASKS {
            result == Err::<(), SpawnError>(SpawnError::Full) && after == *self
        } else {
            &&& result == Ok::<(), SpawnError>(())
            &&& after.cursor() == self.cursor()
            &&& after.live_tasks() == self.live_tasks() + 1
            &&& exists|at: int|
                0 <= at < TASKS && #[trigger] self.slots()[at] is None && (forall|i: int|
                    0 <= i < at ==> #[trigger] self.slots()[i] is Some) && after.slots()
                    == self.slots().update(at, after.slots()[at]) && (
                after.slots()[at] matches Some(slot) && slot.body == body && slot.state@ == state)
        }
    }

    /// Adds a task whose state is zero.
    pub fn spawn(&mut self, body: B) -> (result: Result<(), SpawnError>)
        requires
            old(self).wf(),
        ensures
            final(self).wf(),
            old(self).spawns(*final(self), result, body, Seq::new(8, |i: int| 0usize)),
    {
        self.spawn_with_state(body, TaskState::new())
    }

    /// Adds a task.
    pub fn spawn_with_state(&mut self, body: B, state: TaskState) -> (result: Result<
        (),
        SpawnError,
    >)
        requires
            old(self).wf(),
        ensures
            final(self).wf(),
            old(self).spawns(*final(self), result, body, state@),
    {
        proof {
            lemma_live_bounds(self.slots@, 0, TASKS as int);
        }
        let mut index: usize = 0;
        while index < TASKS
            invariant
                index <= TASKS,
                *self == *old(self),
                self.wf(),
                forall|i: int| 0 <= i < index ==> #[trigger] self.slots@[i] is Some,
            decreases TASKS - index,
        {
            if self.slots[index].is_none() {
                let ghost before = self.slots@;
                proof {
                    lemma_live_bounds(before, 0, TASKS as int);
                }
                self.slots[index] = Some(TaskSlot { body, state });
                self.live = self.live + 1;
                proof {
                    lemma_live_update(
                        before,
                        0,
                        TASKS as int,
                        index as int,
                        self.slots@[index as int],
                    );
                    assert(self.slots@ =~= before.update(index as int, self.slots@[index as int]));
                    assert(old(self).slots()[index as int] is None);
                }
                return Ok(());
            }
            index += 1;
        }
        Err(SpawnError::Full)
    }

    /// The next live task is `offset` places after the cursor.
    pub open spec fn next_at(&self, offset: int) -> bool {
        &&& 0 <= offset < TASKS
        &&& self.slots()[around(self.cursor(), offset, TASKS as int)] is Some
        &&& forall|o: int|
            0 <= o < offset ==> self.slots()[#[trigger] around(
                self.cursor(),
                o,
                TASKS as int,
            )] is None
    }

    /// Finds the next live task and moves the cursor behind it.
    fn select(&mut self) -> (place: Option<usize>)
        requires
            old(self).wf(),
        ensures
            final(self).wf(),
            final(self).slots() == old(self).slots(),
            match place {
                None => old(self).live_tasks() == 0 && *final(self) == *old(self),
                Some(place) => exists|offset: int| #[trigger]
                    old(self).next_at(offset) && place == around(
                        old(self).cursor(),
                        offset,
                        TASKS as int,
                    ) && final(self).cursor() == around(place as int, 1, TASKS as int),
            },
    {
        if self.live == 0 {
            return None;
        }
        proof {
            lemma_live_bounds(self.slots@, 0, TASKS as int);
        }
        let start: usize = self.cursor;
        let mut offset: usize = 0;
        while offset < TASKS
            invariant
                offset <= TASKS,
                self.wf(),
                *self == *old(self),
                self.live > 0,
                TASKS > 0,
                start == self.cursor,
                start < TASKS,
                forall|o: int|
                    0 <= o < offset ==> self.slots@[#[trigger] around(
                        start as int,
                        o,
                        TASKS as int,
                    )] is None,
            decreases TASKS - offset,
        {
            let room: usize = TASKS - start;
            let place: usize = if offset < room {
                start + offset
            } else {
                offset - room
            };
            if self.slots[place].is_some() {
                self.cursor = if place + 1 < TASKS {
                    place + 1
                } else {
                    0
                };
                assert(old(self).next_at(offset as int));
                return Some(place);
            }
            offset += 1;
        }
        proof {
            lemma_live_bounds(self.slots@, 0, TASKS as int);
            let i = choose|i: int| 0 <= i < TASKS && #[trigger] self.slots@[i] is Some;
            let o = if i >= start {
                i - start
            } else {
                i - start + TASKS
            };
            assert(around(start as int, o, TASKS as int) == i);
            assert(false);
        }
        None
    }

    /// Takes the outcome of a step of the task at `place`: its new state, or its end.
    pub fn settle(&mut self, place: usize, state: TaskState, poll: TaskPoll) -> (outcome: RunOutcome)
        requires
            old(self).wf(),
            place < TASKS,
            old(self).slots()[place as int] is Some,
        ensures
            final(self).wf(),
            final(self).cursor() == old(self).cursor(),
            final(self).slots() == old(self).slots().update(
                place as int,
                final(self).slots()[place as int],
            ),
            match poll {
                TaskPoll::Pending => {
                    &&& outcome == RunOutcome::Pending
                    &&& final(self).slots()[place as int] == Some(
                        TaskSlot { body: old(self).slots()[place as int]->Some_0.body, state },
                    )
                    &&& final(self).live_tasks() == old(self).live_tasks()
                },
                TaskPoll::Complete => {
                    &&& outcome == RunOutcome::Completed
                    &&& final(self).slots()[place as int] is None
                    &&& final(self).live_tasks() == old(self).live_tasks() - 1
                },
            },
    {
        let ghost before = self.slots@;
        proof {
            lemma_live_bounds(before, 0, TASKS as int);
            assert(before[place as int] is Some);
        }
        let taken: Option<TaskSlot<B>> = self.slots[place].take();
        let outcome: RunOutcome = match poll {
            TaskPoll::Pending => {
                if let Some(slot) = taken {
                    self.slots[place] = Some(TaskSlot { body: slot.body, state });
                }
                RunOutcome::Pending
            },
            TaskPoll::Complete => {
                self.live = self.live - 1;
                RunOutcome::Completed
            },
        };
        proof {
            lemma_live_update(before, 0, TASKS as int, place as int, self.slots@[place as int]);
            assert(self.slots@ =~= before.update(place as int, self.slots@[place as int]));
        }
        outcome
    }

    /// Runs at most one task: the first live one from the cursor on, with the context and the
    /// state that it has.
    pub fn run_one<C>(&mut self, context: &mut C) -> (outcome: RunOutcome) where B: TaskBody<C>
        requires
            old(self).wf(),
        ensures
            final(self).wf(),
            if old(self).live_tasks() == 0 {
                outcome == RunOutcome::Idle && *final(self) == *old(self) && *final(context) == *old(
                    context,
                )
            } else {
                exists|offset: int| #[trigger]
                    old(self).next_at(offset) && old(self).runs(
                        *old(context),
                        *final(self),
                        *final(context),
                        outcome,
                        around(old(self).cursor(), offset, TASKS as int),
                    )
            },
    {
        let ghost start = *self;
        let ghost given = *context;
        let place: usize = match self.select() {
            None => {
                return RunOutcome::Idle;
            },
            Some(place) => place,
        };
        proof {
            self.lemma_wf();
            lemma_live_bounds(self.slots@, 0, TASKS as int);
            assert(self.slots@[place as int] is Some);
        }
        match &self.slots[place] {
            None => RunOutcome::Idle,
            Some(slot) => {
                let body: B = slot.body;
                let mut state: TaskState = slot.state;
                let ghost words = state@;
                let poll: TaskPoll = body.run(context, &mut state);
                let ghost left = state@;
                let outcome: RunOutcome = self.settle(place, state, poll);
                assert(body.steps(given, words, *context, left, poll));
                assert(start.runs(given, *self, *context, outcome, place as int));
                outcome
            },
        }
    }

    /// The task at `place` made one step from its own state: it keeps its slot with the state
    /// that the step left, or it is gone.
    pub open spec fn runs<C>(
        &self,
        given: C,
        after: Scheduler<B, TASKS>,
        context: C,
        outcome: RunOutcome,
        place: int,
    ) -> bool where B: TaskBody<C> {
        &&& after.cursor() == around(place, 1, TASKS as int)
        &&& after.slots() == self.slots().update(place, after.slots()[place])
        &&& self.slots()[place] matches Some(slot)
        &&& exists|left: Seq<usize>, poll: TaskPoll| #[trigger]
            slot.body.steps(given, slot.state@, context, left, poll) && match poll {
                TaskPoll::Pending => {
                    &&& outcome == RunOutcome::Pending
                    &&& after.slots()[place] matches Some(kept)
                    &&& kept.body == slot.body
                    &&& kept.state@ == left
                    &&& after.live_tasks() == self.live_tasks()
                },
                TaskPoll::Complete => {
                    &&& outcome == RunOutcome::Completed
                    &&& after.slots()[place] is None
                    &&& after.live_tasks() == self.live_tasks() - 1
                },
            }
    }

    /// The tasks of `order` made one step each, one after the other, from what stood in
    /// `start`; `moments` are the schedulers and contexts before, between and after the steps.
    pub open spec fn rounds<C>(
        start: Seq<Option<TaskSlot<B>>>,
        order: Seq<int>,
        moments: Seq<(Scheduler<B, TASKS>, C)>,
        outcomes: Seq<RunOutcome>,
    ) -> bool where B: TaskBody<C> {
        &&& moments.len() == order.len() + 1
        &&& outcomes.len() == order.len()
        &&& forall|i: int|
            0 <= i < outcomes.len() ==> {
                &&& moments[i].0.runs(
                    moments[i].1,
                    moments[i + 1].0,
                    moments[i + 1].1,
                    #[trigger] outcomes[i],
                    order[i],
                )
                &&& moments[i].0.slots()[order[i]] == start[order[i]]
            }
        &&& moments.last().0.live_tasks() == moments[0].0.live_tasks() - completed(outcomes)
    }

    /// Runs every task that is live now exactly once, in the order of the ring.
    pub fn run_round<C>(&mut self, context: &mut C) -> (count: usize) where B: TaskBody<C>
        requires
            old(self).wf(),
        ensures
            final(self).wf(),
            count == old(self).live_tasks(),
            count == 0 ==> *final(self) == *old(self) && *final(context) == *old(context),
            count > 0 ==> exists|
                moments: Seq<(Scheduler<B, TASKS>, C)>,
                outcomes: Seq<RunOutcome>,
            | #[trigger]
                Self::rounds(
                    old(self).slots(),
                    turn(old(self).slots(), old(self).cursor(), 0),
                    moments,
                    outcomes,
                ) && moments[0] == (*old(self), *old(context)) && moments.last() == (
                    *final(self),
                    *final(context),
                ),
            forall|i: int|
                0 <= i < TASKS && old(self).slots()[i] is None ==> #[trigger] final(self).slots()[i] is None,
    {
        let scheduled: usize = self.live;
        if scheduled == 0 {
            return 0;
        }
        proof {
            self.lemma_wf();
        }
        let ghost start = *self;
        let ghost first = self.cursor();
        let ghost size = TASKS as int;
        let ghost mut covered: int = 0;
        let ghost order = turn(start.slots(), first, 0);
        let ghost mut moments: Seq<(Scheduler<B, TASKS>, C)> = seq![(*self, *context)];
        let ghost mut outcomes: Seq<RunOutcome> = Seq::empty();
        proof {
            lemma_turn_length(start.slots(), first, 0);
            lemma_live_splits(start.slots(), 0, first, size);
        }
        let mut step: usize = 0;
        while step < scheduled
            invariant
                start == *old(self),
                start.wf(),
                self.wf(),
                size == TASKS,
                TASKS > 0,
                scheduled > 0,
                scheduled == start.live_tasks(),
                step <= scheduled,
                start.slots().len() == TASKS,
                first == start.cursor(),
                0 <= first < TASKS,
                0 <= covered <= size,
                covered < size ==> self.cursor() == around(first, covered, size),
                turn(start.slots(), first, covered).len() == scheduled - step,
                order == turn(start.slots(), first, 0),
                order.len() == scheduled,
                order.skip(step as int) == turn(start.slots(), first, covered),
                moments[0] == (start, *old(context)),
                moments.last() == (*self, *context),
                Self::rounds(start.slots(), order.take(step as int), moments, outcomes),
                forall|o: int|
                    covered <= o < size ==> self.slots()[#[trigger] around(first, o, size)]
                        == start.slots()[around(first, o, size)],
                forall|i: int|
                    0 <= i < TASKS && start.slots()[i] is None ==> #[trigger] self.slots()[i] is None,
            decreases scheduled - step,
        {
            let ghost before = *self;
            let ghost given = *context;
            proof {
                before.lemma_wf();
                assert(turn(start.slots(), first, covered).len() > 0);
                assert(covered < size);
                lemma_turn_has_live(start.slots(), first, covered);
                let o = choose|o: int|
                    covered <= o < size && start.slots()[#[trigger] around(first, o, size)] is Some;
                assert(before.slots()[around(first, o, size)] is Some);
                lemma_live_bounds(before.slots(), 0, size);
            }
            let outcome: RunOutcome = self.run_one(context);
            proof {
                let offset = choose|offset: int| #[trigger]
                    before.next_at(offset) && before.runs(
                        given,
                        *self,
                        *context,
                        outcome,
                        around(before.cursor(), offset, size),
                    );
                lemma_round_step(
                    start.slots(),
                    before,
                    given,
                    *self,
                    *context,
                    outcome,
                    first,
                    covered,
                    offset,
                );
                let place = around(before.cursor(), offset, size);
                assert(place == around(first, covered + offset, size));
                assert(before.slots()[place] == start.slots()[place]);
                assert(order[step as int] == order.skip(step as int)[0]);
                assert(order[step as int] == place);
                lemma_round_grows(
                    start.slots(),
                    order.take(step as int),
                    moments,
                    outcomes,
                    (*self, *context),
                    outcome,
                    place,
                );
                assert(order.take(step + 1) =~= order.take(step as int).push(place));
                moments = moments.push((*self, *context));
                outcomes = outcomes.push(outcome);
                covered = covered + offset + 1;
                assert(order.skip(step + 1) =~= order.skip(step as int).skip(1));
                assert(order.skip(step as int).skip(1) =~= turn(start.slots(), first, covered));
            }
            step += 1;
        }
        assert(order.take(scheduled as int) =~= order);
        scheduled
    }
}

/// One more step of a round.
proof fn lemma_round_grows<B: TaskBody<C>, C, const TASKS: usize>(
    start: Seq<Option<TaskSlot<B>>>,
    order: Seq<int>,
    moments: Seq<(Scheduler<B, TASKS>, C)>,
    outcomes: Seq<RunOutcome>,
    next: (Scheduler<B, TASKS>, C),
    outcome: RunOutcome,
    place: int,
)
    requires
        Scheduler::<B, TASKS>::rounds(start, order, moments, outcomes),
        moments.last().0.runs(moments.last().1, next.0, next.1, outcome, place),
        moments.last().0.slots()[place] == start[place],
    ensures
        Scheduler::<B, TASKS>::rounds(
            start,
            order.push(place),
            moments.push(next),
            outcomes.push(outcome),
        ),
{
    let longer = moments.push(next);
    let all = outcomes.push(outcome);
    let places = order.push(place);
    assert(all.drop_last() =~= outcomes);
    assert forall|i: int| 0 <= i < all.len() implies {
        &&& longer[i].0.runs(
            longer[i].1,
            longer[i + 1].0,
            longer[i + 1].1,
            #[trigger] all[i],
            places[i],
        )
        &&& longer[i].0.slots()[places[i]] == start[places[i]]
    } by {
        if i < outcomes.len() {
            assert(outcomes[i] == all[i]);
        }
    }
}

/// A turn with something to visit covers a live task.
proof fn lemma_turn_has_live<B>(slots: Seq<Option<TaskSlot<B>>>, cursor: int, offset: int)
    requires
        0 <= offset,
        turn(slots, cursor, offset).len() > 0,
    ensures
        exists|o: int|
            offset <= o < slots.len() && slots[#[trigger] around(
                cursor,
                o,
                slots.len() as int,
            )] is Some,
    decreases slots.len() - offset,
{
    if offset < slots.len() {
        if slots[around(cursor, offset, slots.len() as int)] is None {
            lemma_turn_has_live(slots, cursor, offset + 1);
        }
    }
}

/// One step of a round visits the next task of the turn and leaves the rest as it was.
proof fn lemma_round_step<B: TaskBody<C>, C, const TASKS: usize>(
    start: Seq<Option<TaskSlot<B>>>,
    before: Scheduler<B, TASKS>,
    given: C,
    after: Scheduler<B, TASKS>,
    context: C,
    outcome: RunOutcome,
    first: int,
    covered: int,
    offset: int,
)
    requires
        before.wf(),
        after.wf(),
        start.len() == TASKS,
        0 <= first < TASKS,
        0 <= covered < TASKS,
        before.cursor() == around(first, covered, TASKS as int),
        turn(start, first, covered).len() > 0,
        forall|o: int|
            covered <= o < TASKS ==> before.slots()[#[trigger] around(first, o, TASKS as int)]
                == start[around(first, o, TASKS as int)],
        before.next_at(offset),
        before.runs(given, after, context, outcome, around(before.cursor(), offset, TASKS as int)),
        forall|i: int|
            0 <= i < TASKS && start[i] is None ==> #[trigger] before.slots()[i] is None,
    ensures
        covered + offset + 1 <= TASKS,
        covered + offset + 1 < TASKS ==> after.cursor() == around(
            first,
            covered + offset + 1,
            TASKS as int,
        ),
        turn(start, first, covered) == seq![around(first, covered + offset, TASKS as int)] + turn(
            start,
            first,
            covered + offset + 1,
        ),
        forall|o: int|
            covered + offset + 1 <= o < TASKS ==> after.slots()[#[trigger] around(
                first,
                o,
                TASKS as int,
            )] == start[around(first, o, TASKS as int)],
        forall|i: int|
            0 <= i < TASKS && start[i] is None ==> #[trigger] after.slots()[i] is None,
{
    let size = TASKS as int;
    before.lemma_wf();
    after.lemma_wf();
    lemma_turn_has_live(start, first, covered);
    let live = choose|o: int|
        covered <= o < size && start[#[trigger] around(first, o, size)] is Some;
    if covered + offset > live {
        assert(around(before.cursor(), live - covered, size) == around(first, live, size));
        assert(before.slots()[around(before.cursor(), live - covered, size)] is None);
    }
    let place = around(first, covered + offset, size);
    assert(around(before.cursor(), offset, size) == place);
    assert forall|o: int| covered <= o < covered + offset implies start[#[trigger] around(
        first,
        o,
        size,
    )] is None by {
        assert(around(before.cursor(), o - covered, size) == around(first, o, size));
        assert(before.slots()[around(before.cursor(), o - covered, size)] is None);
    }
    lemma_turn_skips(start, first, covered, covered + offset);
    assert(before.slots()[place] == start[place]);
}

/// From one moment to the next a task was spawned, or a task other than the one at `place`
/// made a step.
pub open spec fn passes_by<B: TaskBody<C>, C, const TASKS: usize>(
    before: (Scheduler<B, TASKS>, C),
    after: (Scheduler<B, TASKS>, C),
    place: int,
) -> bool {
    &&& before.0.wf()
    &&& {
        ||| exists|other: int, outcome: RunOutcome|
            0 <= other < TASKS && other != place && #[trigger] before.0.runs(
                before.1,
                after.0,
                after.1,
                outcome,
                other,
            )
        ||| exists|result: Result<(), SpawnError>, body: B, state: Seq<usize>| #[trigger]
            before.0.spawns(after.0, result, body, state)
    }
}

/// A task's step begins with what it was spawned with or what its own last step left, whatever
/// other tasks were spawned, ran or completed in between.
pub proof fn law_tasks_keep_their_state<B: TaskBody<C>, C, const TASKS: usize>(
    moments: Seq<(Scheduler<B, TASKS>, C)>,
    place: int,
)
    requires
        moments.len() > 0,
        0 <= place < TASKS,
        moments[0].0.slots()[place] is Some,
        forall|i: int|
            0 <= i < moments.len() - 1 ==> passes_by(#[trigger] moments[i], moments[i + 1], place),
    ensures
        moments.last().0.slots()[place] == moments[0].0.slots()[place],
    decreases moments.len(),
{
    if moments.len() > 1 {
        let earlier = moments.drop_last();
        assert forall|i: int| 0 <= i < earlier.len() - 1 implies passes_by(
            #[trigger] earlier[i],
            earlier[i + 1],
            place,
        ) by {
            assert(earlier[i] == moments[i]);
            assert(earlier[i + 1] == moments[i + 1]);
        }
        law_tasks_keep_their_state(earlier, place);
        let before = moments[moments.len() - 2];
        assert(passes_by(before, moments[moments.len() - 1], place));
        assert(earlier.last() == before);
        before.0.lemma_wf();
    }
}

impl<B, const TASKS: usize> Default for Scheduler<B, TASKS> {
    fn default() -> (scheduler: Self)
        ensures
            scheduler.wf(),
            scheduler.live_tasks() == 0,
            scheduler.cursor() == 0,
    {
        Scheduler::new()
    }
}

/// A new task takes the lowest free place with the body and the words it was given, and every
/// other place stays; only a full scheduler refuses.
pub proof fn law_spawned_tasks_take_the_lowest_place<B, const TASKS: usize>(
    before: Scheduler<B, TASKS>,
    after: Scheduler<B, TASKS>,
    result: Result<(), SpawnError>,
    body: B,
    state: Seq<usize>,
    place: int,
)
    requires
        before.wf(),
        before.spawns(after, result, body, state),
        0 <= place < TASKS,
        before.slots()[place] is None,
        forall|i: int| 0 <= i < place ==> #[trigger] before.slots()[i] is Some,
    ensures
        result is Ok,
        after.slots()[place] is Some,
        after.slots()[place]->Some_0.body == body,
        after.slots()[place]->Some_0.state@ == state,
        after.slots().len() == before.slots().len(),
        forall|i: int|
            0 <= i < TASKS && i != place ==> #[trigger] after.slots()[i] == before.slots()[i],
        after.cursor() == before.cursor(),
        after.live_tasks() == before.live_tasks() + 1,
{
    lemma_live_bounds(before.slots(), 0, TASKS as int);
    let at = choose|at: int|
        0 <= at < TASKS && #[trigger] before.slots()[at] is None && (forall|i: int|
            0 <= i < at ==> #[trigger] before.slots()[i] is Some) && after.slots()
            == before.slots().update(at, after.slots()[at]) && (
        after.slots()[at] matches Some(slot) && slot.body == body && slot.state@ == state);
    if at < place {
        assert(before.slots()[at] is Some);
    }
    if place < at {
        assert(before.slots()[place] is Some);
    }
}

/// The task that runs next is the first one found from the cursor on, going round; the cursor
/// then stands on the place behind it.
pub proof fn law_turns_go_round<B: TaskBody<C>, C, const TASKS: usize>(
    before: Scheduler<B, TASKS>,
    given: C,
    after: Scheduler<B, TASKS>,
    context: C,
    outcome: RunOutcome,
    offset: int,
)
    requires
        before.wf(),
        before.next_at(offset),
        before.runs(given, after, context, outcome, around(before.cursor(), offset, TASKS as int)),
    ensures
        ({
            let size = TASKS as int;
            let place = (before.cursor() + offset) % size;
            &&& 0 <= offset < size
            &&& before.slots()[place] is Some
            &&& forall|skipped: int|
                0 <= skipped < offset ==> before.slots()[#[trigger] ((before.cursor() + skipped)
                    % size)] is None
            &&& after.cursor() == (place + 1) % size
            &&& forall|i: int|
                0 <= i < size && i != place ==> #[trigger] after.slots()[i] == before.slots()[i]
            &&& outcome == RunOutcome::Pending ==> after.slots()[place] is Some
                && after.slots()[place]->Some_0.body == before.slots()[place]->Some_0.body
                && after.live_tasks() == before.live_tasks()
            &&& outcome == RunOutcome::Completed ==> after.slots()[place] is None
                && after.live_tasks() == before.live_tasks() - 1
            &&& outcome != RunOutcome::Idle
        }),
{
    let size = TASKS as int;
    let cursor = before.cursor();
    assert(0 <= cursor < size);
    lemma_around(cursor, offset, size);
    let place = around(cursor, offset, size);
    lemma_around(place, 1, size);
    assert forall|skipped: int| 0 <= skipped < offset implies before.slots()[#[trigger] ((cursor
        + skipped) % size)] is None by {
        lemma_around(cursor, skipped, size);
        assert(before.slots()[around(cursor, skipped, size)] is None);
    }
}

/// Going round is counting modulo the size.
proof fn lemma_around(start: int, offset: int, size: int)
    requires
        0 <= start < size,
        0 <= offset <= size,
    ensures
        around(start, offset, size) == (start + offset) % size,
{
    if start + offset < size {
        vstd::arithmetic::div_mod::lemma_small_mod((start + offset) as nat, size as nat);
    } else {
        vstd::arithmetic::div_mod::lemma_small_mod((start + offset - size) as nat, size as nat);
        vstd::arithmetic::div_mod::lemma_mod_sub_multiples_vanish(start + offset, size);
    }
}

} // verus!
