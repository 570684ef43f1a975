use ginkgo_kernel::task::{RunOutcome, Scheduler, SpawnError, TaskBody, TaskPoll, TaskState};

struct Context {
    log: [u8; 8],
    len: usize,
}

impl Context {
    fn new() -> Self {
        Context {
            log: [0; 8],
            len: 0,
        }
    }

    fn push(&mut self, value: u8) {
        self.log[self.len] = value;
        self.len += 1;
    }
}

#[derive(Clone, Copy)]
struct Task(fn(&mut Context, &mut TaskState) -> TaskPoll);

impl TaskBody<Context> for Task {
    fn run(self, context: &mut Context, state: &mut TaskState) -> TaskPoll {
        (self.0)(context, state)
    }
}

fn task_one(context: &mut Context, state: &mut TaskState) -> TaskPoll {
    context.push(1);
    let calls = state.get(0).unwrap();
    state.set(0, calls + 1);
    if calls == 0 {
        TaskPoll::Pending
    } else {
        TaskPoll::Complete
    }
}

fn task_two(context: &mut Context, state: &mut TaskState) -> TaskPoll {
    context.push(2);
    let calls = state.get(0).unwrap();
    state.set(0, calls + 1);
    if calls == 0 {
        TaskPoll::Pending
    } else {
        TaskPoll::Complete
    }
}

#[test]
fn runs_tasks_round_robin_until_complete() {
    let mut scheduler = Scheduler::<Task, 2>::new();
    let mut context = Context::new();
    scheduler.spawn(Task(task_one)).unwrap();
    scheduler.spawn(Task(task_two)).unwrap();

    assert_eq!(scheduler.run_one(&mut context), RunOutcome::Pending);
    assert_eq!(scheduler.run_one(&mut context), RunOutcome::Pending);
    assert_eq!(scheduler.run_one(&mut context), RunOutcome::Completed);
    assert_eq!(scheduler.run_one(&mut context), RunOutcome::Completed);
    assert_eq!(scheduler.run_one(&mut context), RunOutcome::Idle);
    assert_eq!(&context.log[..context.len], &[1, 2, 1, 2]);
    assert!(scheduler.is_empty());
}

#[test]
fn enforces_capacity_and_reuses_completed_slots() {
    let mut scheduler = Scheduler::<Task, 1>::new();
    let mut context = Context::new();
    scheduler
        .spawn_with_state(Task(task_one), TaskState::from_words([1, 0, 0, 0, 0, 0, 0, 0]))
        .unwrap();
    assert_eq!(scheduler.spawn(Task(task_two)), Err(SpawnError::Full));

    assert_eq!(scheduler.run_one(&mut context), RunOutcome::Completed);
    assert!(scheduler.spawn(Task(task_two)).is_ok());
}

#[test]
fn run_round_invokes_each_live_task_once() {
    let mut scheduler = Scheduler::<Task, 2>::new();
    let mut context = Context::new();
    scheduler.spawn(Task(task_one)).unwrap();
    scheduler.spawn(Task(task_two)).unwrap();

    assert_eq!(scheduler.run_round(&mut context), 2);
    assert_eq!(&context.log[..context.len], &[1, 2]);
    assert_eq!(scheduler.len(), 2);
}

#[test]
fn zero_capacity_scheduler_stays_idle() {
    let mut scheduler = Scheduler::<Task, 0>::new();
    let mut context = Context::new();

    assert_eq!(scheduler.spawn(Task(task_one)), Err(SpawnError::Full));
    assert_eq!(scheduler.run_one(&mut context), RunOutcome::Idle);
}

#[test]
fn the_words_of_a_task_are_bounded() {
    let mut state = TaskState::new();
    assert_eq!(state.get(7), Some(0));
    assert_eq!(state.get(8), None);
    assert!(state.set(7, 5));
    assert!(!state.set(8, 5));
    state.words_mut()[0] = 9;
    assert_eq!(state.words(), &[9, 0, 0, 0, 0, 0, 0, 5]);
}

#[test]
fn a_full_scheduler_knows_it() {
    let mut scheduler = Scheduler::<Task, 1>::new();
    assert_eq!(scheduler.capacity(), 1);
    assert!(scheduler.is_empty() && !scheduler.is_full());
    scheduler.spawn(Task(task_one)).unwrap();
    assert!(!scheduler.is_empty() && scheduler.is_full());
}
