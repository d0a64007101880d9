//! Tasks that take turns on a lane.
use vstd::prelude::*;

use std::collections::VecDeque;

use crate::abi::InvokePacket;
use crate::hash::CapHash;
use crate::kernel::call_loop::{
    polled, stack_landed, task_made, EntryExit, KernelTask, LoopOutcome, TaskPoll,
};
use crate::kernel::dispatch::Kernel;
use crate::kernel::gas::TaskGasState;
use crate::kernel::lane::{ExecutionLane, MAX_EXECUTION_LANES};
use crate::kernel::frame::KernelFrame;
use crate::kernel::stack::{own_frame, with_frame, ERR_PENDING_ORIGIN_INVARIANT};
use crate::table::{Table, TableKey};

verus! {

impl TableKey for u64 {
    type Id = u64;

    open spec fn id(&self) -> u64 {
        *self
    }

    fn same(&self, other: &u64) -> bool {
        *self == *other
    }
}

/// Tasks by number.
pub type TaskTable<V> = Table<u64, V>;

/// What the outside has answered to the runs that were asked for, the first answer
/// last: how each run ended, and what making the frame of a call costs.
pub type Answers = Vec<(EntryExit, u64)>;

/// The tasks of a lane. One at a time runs; the others wait for their turn.
#[derive(Debug)]
pub struct KernelScheduler {
    pub lane: ExecutionLane,
    pub next_task_id: u64,
    pub tasks: TaskTable<KernelTask>,
    pub completed: TaskTable<LoopOutcome>,
    pub ready: VecDeque<u64>,
}

/// Whether every task is as it should be.
pub open spec fn tasks_wf(tasks: Map<u64, KernelTask>) -> bool {
    forall|id: u64| #[trigger] tasks.contains_key(id) ==> tasks[id].wf()
}

/// Whether `after` is a task that has been asked to run: its gas is that of the
/// frame on top, whose memory and address space are out for the run.
pub open spec fn is_begun(before: KernelTask, after: KernelTask) -> bool {
    let t = before.stack@.last().target as int;
    let frame = own_frame(after.stack@[t]);
    &&& after.id == before.id
    &&& after.lane == before.lane
    &&& after.next_iid == before.next_iid
    &&& after.stack@ == with_frame(before.stack@, t, frame)
    &&& frame == (KernelFrame {
        mem: frame.mem,
        mat_state: frame.mat_state,
        ro_units: frame.ro_units,
        runtime: None,
        ..own_frame(before.stack@[t])
    })
    &&& after.gas_state.switched(&before.gas_state, before.stack@.last().gas.scope())
}

/// Whether a task has gone on from the end of its run.
pub open spec fn has_polled(
    kernel: Kernel,
    kernel_after: Kernel,
    begun: KernelTask,
    answer: (EntryExit, u64),
    after: KernelTask,
    r: Result<TaskPoll, u32>,
) -> bool {
    polled(
        kernel,
        kernel_after,
        stack_landed(begun.stack@, answer.0),
        TaskGasState { live_gas: answer.0.info.gas_remaining, ..begun.gas_state },
        begun.next_iid,
        answer.0.info,
        answer.1,
        after,
        r,
    )
}

/// What one turn comes to: the first task that is ready runs, and is put at the
/// end if it goes on. The other tasks stay as they are.
pub open spec fn turn_taken(
    kernel: Kernel,
    kernel_after: Kernel,
    before: KernelScheduler,
    after: KernelScheduler,
    target: u64,
    answer: (EntryExit, u64),
    r: Result<Option<LoopOutcome>, u32>,
) -> bool {
    let id = before.ready@[0];
    &&& after.lane == before.lane
    &&& after.next_task_id == before.next_task_id
    &&& if !before.tasks@.contains_key(id) {
        &&& r == Err::<Option<LoopOutcome>, u32>(ERR_PENDING_ORIGIN_INVARIANT)
        &&& kernel_after == kernel
        &&& after.tasks@ == before.tasks@
        &&& after.completed@ == before.completed@
        &&& after.ready@ == before.ready@.drop_first()
    } else {
        exists|begun: KernelTask, task: KernelTask, p: Result<TaskPoll, u32>|
            #[trigger] is_begun(before.tasks@[id], begun) && #[trigger] has_polled(
                kernel,
                kernel_after,
                begun,
                answer,
                task,
                p,
            ) && match p {
                Err(e) => {
                    &&& r == Err::<Option<LoopOutcome>, u32>(e)
                    &&& after.tasks@ == before.tasks@.remove(id)
                    &&& after.completed@ == before.completed@
                    &&& after.ready@ == before.ready@.drop_first()
                },
                Ok(TaskPoll::Pending) => {
                    &&& r == Ok::<Option<LoopOutcome>, u32>(None)
                    &&& after.tasks@ == before.tasks@.insert(id, task)
                    &&& after.completed@ == before.completed@
                    &&& after.ready@ == before.ready@.drop_first().push(id)
                },
                Ok(TaskPoll::Done(outcome)) => {
                    &&& after.tasks@ == before.tasks@.remove(id)
                    &&& after.ready@ == before.ready@.drop_first()
                    &&& if id == target {
                        &&& r == Ok::<Option<LoopOutcome>, u32>(Some(outcome))
                        &&& after.completed@ == before.completed@
                    } else {
                        &&& r == Ok::<Option<LoopOutcome>, u32>(None)
                        &&& after.completed@ == before.completed@.insert(id, outcome)
                    }
                },
            }
    }
}

/// What taking turns until `target` has ended comes to. `Ok(None)`: the answers ran
/// out first.
pub open spec fn turns_taken(
    kernel: Kernel,
    kernel_after: Kernel,
    before: KernelScheduler,
    after: KernelScheduler,
    target: u64,
    answers: Seq<(EntryExit, u64)>,
    left: Seq<(EntryExit, u64)>,
    r: Result<Option<LoopOutcome>, u32>,
) -> bool
    decreases answers.len(),
{
    if before.completed@.contains_key(target) {
        &&& r == Ok::<Option<LoopOutcome>, u32>(Some(before.completed@[target]))
        &&& after.completed@ == before.completed@.remove(target)
        &&& after.tasks == before.tasks
        &&& after.ready == before.ready
        &&& kernel_after == kernel
        &&& left == answers
    } else if before.ready@.len() == 0 {
        r == Err::<Option<LoopOutcome>, u32>(ERR_PENDING_ORIGIN_INVARIANT) && after == before
            && kernel_after == kernel && left == answers
    } else if answers.len() == 0 {
        r == Ok::<Option<LoopOutcome>, u32>(None) && after == before && kernel_after == kernel
            && left == answers
    } else {
        exists|k: Kernel, s: KernelScheduler, step: Result<Option<LoopOutcome>, u32>|
            #[trigger] turn_taken(kernel, k, before, s, target, answers.last(), step) && match step {
                Err(e) => r == Err::<Option<LoopOutcome>, u32>(e) && after == s && kernel_after == k
                    && left == answers.drop_last(),
                Ok(Some(outcome)) => r == Ok::<Option<LoopOutcome>, u32>(Some(outcome)) && after == s
                    && kernel_after == k && left == answers.drop_last(),
                Ok(None) => turns_taken(
                    k,
                    kernel_after,
                    s,
                    after,
                    target,
                    answers.drop_last(),
                    left,
                    r,
                ),
            }
    }
}

/// What adding an invocation comes to.
pub open spec fn submitted(
    kernel: Kernel,
    before: KernelScheduler,
    after: KernelScheduler,
    instance_hash: CapHash,
    endpoint_idx: u32,
    args: Seq<u64>,
    initial_gas: i64,
    id: Result<u64, u32>,
) -> bool {
    &&& after.lane == before.lane
    &&& after.next_task_id == before.next_task_id.wrapping_add(1)
    &&& after.completed == before.completed
    &&& exists|made: Result<KernelTask, u32>| #[trigger]
        task_made(
            kernel,
            instance_hash,
            endpoint_idx,
            args,
            initial_gas,
            before.next_task_id,
            before.lane,
            made,
        ) && match made {
            Err(e) => id == Err::<u64, u32>(e) && after.tasks == before.tasks && after.ready
                == before.ready,
            Ok(task) => {
                &&& id == Ok::<u64, u32>(before.next_task_id)
                &&& after.tasks@ == before.tasks@.insert(before.next_task_id, task)
                &&& after.ready@ == before.ready@.push(before.next_task_id)
            },
        }
}

/// What running a task alone comes to. `Ok(None)`: the answers ran out first.
pub open spec fn task_run(
    kernel: Kernel,
    kernel_after: Kernel,
    before: KernelTask,
    answers: Seq<(EntryExit, u64)>,
    left: Seq<(EntryExit, u64)>,
    r: Result<Option<LoopOutcome>, u32>,
) -> bool
    decreases answers.len(),
{
    if answers.len() == 0 {
        r == Ok::<Option<LoopOutcome>, u32>(None) && kernel_after == kernel && left == answers
    } else {
        exists|begun: KernelTask, k: Kernel, task: KernelTask, p: Result<TaskPoll, u32>|
            #[trigger] is_begun(before, begun) && #[trigger] has_polled(
                kernel,
                k,
                begun,
                answers.last(),
                task,
                p,
            ) && match p {
                Err(e) => r == Err::<Option<LoopOutcome>, u32>(e) && kernel_after == k && left
                    == answers.drop_last(),
                Ok(TaskPoll::Done(outcome)) => r == Ok::<Option<LoopOutcome>, u32>(Some(outcome))
                    && kernel_after == k && left == answers.drop_last(),
                Ok(TaskPoll::Pending) => task_run(
                    k,
                    kernel_after,
                    task,
                    answers.drop_last(),
                    left,
                    r,
                ),
            }
    }
}

/// Run a task to its end, with the given answers to the runs that this asks for.
/// `Ok(None)` if they run out first.
pub fn run_to_completion(task: KernelTask, kernel: &mut Kernel, answers: &mut Answers) -> (r: Result<
    Option<LoopOutcome>,
    u32,
>)
    requires
        task.wf(),
    ensures
        task_run(*old(kernel), *final(kernel), task, old(answers)@, final(answers)@, r),
    decreases old(answers)@.len(),
{
    let ghost before = task;
    let mut task = task;
    let (exit, frame_cost): (EntryExit, u64) = match answers.pop() {
        Some(a) => a,
        None => return Ok(None),
    };
    let ghost a = (exit, frame_cost);
    let _ = task.begin_entry();
    let ghost begun = task;
    assert(is_begun(before, begun));
    let ghost kernel_before = *kernel;
    let poll = task.poll_once(kernel, exit, frame_cost);
    let ghost p = poll;
    let ghost kernel_mid = *kernel;
    let ghost mid = task;
    proof {
        assert(a == old(answers)@.last());
        assert(answers@ =~= old(answers)@.drop_last());
        assert(has_polled(kernel_before, kernel_mid, begun, old(answers)@.last(), mid, p));
    }
    match poll {
        Err(e) => Err(e),
        Ok(TaskPoll::Done(outcome)) => Ok(Some(outcome)),
        Ok(TaskPoll::Pending) => {
            let r = run_to_completion(task, kernel, answers);
            assert(task_run(
                kernel_mid,
                *kernel,
                mid,
                old(answers)@.drop_last(),
                answers@,
                r,
            ));
            r
        },
    }
}

/// Run an invocation on a lane to its end.
pub fn run_top_on_lane(
    kernel: &mut Kernel,
    lane: ExecutionLane,
    instance_hash: &CapHash,
    endpoint_idx: u32,
    args: &[u64; 4],
    initial_gas: i64,
    answers: &mut Answers,
) -> (r: Result<Option<LoopOutcome>, u32>)
    ensures
        exists|made: Result<KernelTask, u32>| #[trigger]
            task_made(
                *old(kernel),
                *instance_hash,
                endpoint_idx,
                args@,
                initial_gas,
                0,
                lane,
                made,
            ) && match made {
                Err(e) => r == Err::<Option<LoopOutcome>, u32>(e) && *final(kernel) == *old(kernel)
                    && final(answers)@ == old(answers)@,
                Ok(task) => task_run(
                    *old(kernel),
                    *final(kernel),
                    task,
                    old(answers)@,
                    final(answers)@,
                    r,
                ),
            },
{
    let made = KernelTask::new(kernel, 0, lane, instance_hash, endpoint_idx, args, initial_gas);
    let ghost m = made;
    assert(task_made(
        *kernel,
        *instance_hash,
        endpoint_idx,
        args@,
        initial_gas,
        0,
        lane,
        m,
    ));
    match made {
        Err(e) => Err(e),
        Ok(task) => run_to_completion(task, kernel, answers),
    }
}

/// Run an invocation on the first lane to its end.
pub fn run_top(
    kernel: &mut Kernel,
    instance_hash: &CapHash,
    endpoint_idx: u32,
    args: &[u64; 4],
    initial_gas: i64,
    answers: &mut Answers,
) -> (r: Result<Option<LoopOutcome>, u32>)
    ensures
        exists|made: Result<KernelTask, u32>| #[trigger]
            task_made(
                *old(kernel),
                *instance_hash,
                endpoint_idx,
                args@,
                initial_gas,
                0,
                (ExecutionLane { index: 0 }),
                made,
            ) && match made {
                Err(e) => r == Err::<Option<LoopOutcome>, u32>(e) && *final(kernel) == *old(kernel)
                    && final(answers)@ == old(answers)@,
                Ok(task) => task_run(
                    *old(kernel),
                    *final(kernel),
                    task,
                    old(answers)@,
                    final(answers)@,
                    r,
                ),
            },
{
    let lane = ExecutionLane::primary();
    assert(lane == (ExecutionLane { index: 0 }));
    run_top_on_lane(kernel, lane, instance_hash, endpoint_idx, args, initial_gas, answers)
}

/// What running two invocations side by side comes to.
pub open spec fn two_run(
    kernel: Kernel,
    kernel_after: Kernel,
    before: KernelScheduler,
    after: KernelScheduler,
    first: InvokePacket,
    second: InvokePacket,
    answers: Seq<(EntryExit, u64)>,
    unused: Seq<(EntryExit, u64)>,
    r: Result<Option<(LoopOutcome, LoopOutcome)>, u32>,
) -> bool {
    exists|one: KernelScheduler, a: Result<u64, u32>| #[trigger]
        packet_submitted(kernel, before, one, first, a) && match a {
            Err(e) => {
                &&& r == Err::<Option<(LoopOutcome, LoopOutcome)>, u32>(e)
                &&& after == one
                &&& kernel_after == kernel
                &&& unused == answers
            },
            Ok(first_id) => exists|two: KernelScheduler, b: Result<u64, u32>| #[trigger]
                packet_submitted(kernel, one, two, second, b) && match b {
                    Err(e) => {
                        &&& r == Err::<Option<(LoopOutcome, LoopOutcome)>, u32>(e)
                        &&& after == two
                        &&& kernel_after == kernel
                        &&& unused == answers
                    },
                    Ok(second_id) => both_run(
                        kernel,
                        kernel_after,
                        two,
                        after,
                        first_id,
                        second_id,
                        answers,
                        unused,
                        r,
                    ),
                },
        }
}

/// Whether the invocation of a packet was added.
pub open spec fn packet_submitted(
    kernel: Kernel,
    before: KernelScheduler,
    after: KernelScheduler,
    p: InvokePacket,
    id: Result<u64, u32>,
) -> bool {
    submitted(
        kernel,
        before,
        after,
        p.instance_hash,
        p.endpoint_idx,
        p.args@,
        p.initial_gas as i64,
        id,
    )
}

/// What taking turns until both tasks have ended comes to.
pub open spec fn both_run(
    kernel: Kernel,
    kernel_after: Kernel,
    before: KernelScheduler,
    after: KernelScheduler,
    first: u64,
    second: u64,
    answers: Seq<(EntryExit, u64)>,
    unused: Seq<(EntryExit, u64)>,
    r: Result<Option<(LoopOutcome, LoopOutcome)>, u32>,
) -> bool {
    exists|
        k: Kernel,
        s: KernelScheduler,
        left: Seq<(EntryExit, u64)>,
        x: Result<Option<LoopOutcome>, u32>,
    | #[trigger]
        turns_taken(kernel, k, before, s, first, answers, left, x) && match x {
            Err(e) => {
                &&& r == Err::<Option<(LoopOutcome, LoopOutcome)>, u32>(e)
                &&& after == s
                &&& kernel_after == k
                &&& unused == left
            },
            Ok(None) => {
                &&& r == Ok::<Option<(LoopOutcome, LoopOutcome)>, u32>(None)
                &&& after == s
                &&& kernel_after == k
                &&& unused == left
            },
            Ok(Some(one)) => exists|y: Result<Option<LoopOutcome>, u32>| #[trigger]
                turns_taken(k, kernel_after, s, after, second, left, unused, y) && match y {
                    Err(e) => r == Err::<Option<(LoopOutcome, LoopOutcome)>, u32>(e),
                    Ok(None) => r == Ok::<Option<(LoopOutcome, LoopOutcome)>, u32>(None),
                    Ok(Some(two)) => r == Ok::<Option<(LoopOutcome, LoopOutcome)>, u32>(
                        Some((one, two)),
                    ),
                },
        }
}

/// Run two invocations side by side on a lane, with the given answers to the runs
/// that this asks for.
pub fn run_two_for_test(
    scheduler: &mut KernelScheduler,
    kernel: &mut Kernel,
    first: &InvokePacket,
    second: &InvokePacket,
    answers: &mut Answers,
) -> (r: Result<Option<(LoopOutcome, LoopOutcome)>, u32>)
    requires
        old(scheduler).wf(),
    ensures
        final(scheduler).wf(),
        two_run(
            *old(kernel),
            *final(kernel),
            *old(scheduler),
            *final(scheduler),
            *first,
            *second,
            old(answers)@,
            final(answers)@,
            r,
        ),
{
    let ghost kernel_before = *kernel;
    let ghost before = *scheduler;
    let ghost given = answers@;
    let a = scheduler.submit_invoke(
        kernel,
        &first.instance_hash,
        first.endpoint_idx,
        &first.args,
        first.initial_gas as i64,
    );
    let ghost one = *scheduler;
    assert(packet_submitted(kernel_before, before, one, *first, a));
    let first_id: u64 = match a {
        Ok(id) => id,
        Err(e) => return Err(e),
    };
    let b = scheduler.submit_invoke(
        kernel,
        &second.instance_hash,
        second.endpoint_idx,
        &second.args,
        second.initial_gas as i64,
    );
    let ghost two = *scheduler;
    assert(packet_submitted(kernel_before, one, two, *second, b));
    let second_id: u64 = match b {
        Ok(id) => id,
        Err(e) => return Err(e),
    };
    let x = scheduler.run_until_result(kernel, first_id, answers);
    let ghost k = *kernel;
    let ghost s = *scheduler;
    let ghost left = answers@;
    assert(turns_taken(kernel_before, k, two, s, first_id, given, left, x));
    let one_outcome = match x {
        Err(e) => return Err(e),
        Ok(None) => return Ok(None),
        Ok(Some(o)) => o,
    };
    let y = scheduler.run_until_result(kernel, second_id, answers);
    assert(turns_taken(k, *kernel, s, *scheduler, second_id, left, answers@, y));
    match y {
        Err(e) => Err(e),
        Ok(None) => Ok(None),
        Ok(Some(o)) => Ok(Some((one_outcome, o))),
    }
}

impl KernelScheduler {
    pub open spec fn wf(&self) -> bool {
        tasks_wf(self.tasks@)
    }

    /// A lane without tasks.
    pub fn new(lane: ExecutionLane) -> (scheduler: KernelScheduler)
        ensures
            scheduler.wf(),
            scheduler.lane == lane,
            scheduler.next_task_id == 0,
            scheduler.tasks@ == Map::<u64, KernelTask>::empty(),
            scheduler.completed@ == Map::<u64, LoopOutcome>::empty(),
            scheduler.ready@ == Seq::<u64>::empty(),
    {
        KernelScheduler {
            lane,
            next_task_id: 0,
            tasks: Table::new(),
            completed: Table::new(),
            ready: VecDeque::new(),
        }
    }

    /// Add an invocation; its number.
    pub fn submit_invoke(
        &mut self,
        kernel: &Kernel,
        instance_hash: &CapHash,
        endpoint_idx: u32,
        args: &[u64; 4],
        initial_gas: i64,
    ) -> (id: Result<u64, u32>)
        requires
            old(self).wf(),
        ensures
            final(self).wf(),
            submitted(
                *kernel,
                *old(self),
                *final(self),
                *instance_hash,
                endpoint_idx,
                args@,
                initial_gas,
                id,
            ),
    {
        let id: u64 = self.next_task_id;
        self.next_task_id = id.wrapping_add(1);
        let made = KernelTask::new(
            kernel,
            id,
            self.lane,
            instance_hash,
            endpoint_idx,
            args,
            initial_gas,
        );
        let ghost m = made;
        assert(task_made(
            *kernel,
            *instance_hash,
            endpoint_idx,
            args@,
            initial_gas,
            id,
            self.lane,
            m,
        ));
        match made {
            Err(e) => Err(e),
            Ok(task) => {
                self.tasks.insert(id, task);
                self.ready.push_back(id);
                Ok(id)
            },
        }
    }

    /// One turn: run the task that is ready first.
    fn take_turn(&mut self, kernel: &mut Kernel, target: u64, answer: (EntryExit, u64)) -> (r: Result<
        Option<LoopOutcome>,
        u32,
    >)
        requires
            old(self).wf(),
            old(self).ready@.len() > 0,
        ensures
            turn_taken(*old(kernel), *final(kernel), *old(self), *final(self), target, answer, r),
            final(self).wf(),
    {
        let ghost before = *self;
        let id: u64 = match self.ready.pop_front() {
            Some(id) => id,
            None => return Err(ERR_PENDING_ORIGIN_INVARIANT),
        };
        assert(self.ready@ =~= before.ready@.drop_first());
        let mut task = match self.tasks.remove(&id) {
            Some(t) => t,
            None => {
                assert(self.tasks@ =~= before.tasks@);
                return Err(ERR_PENDING_ORIGIN_INVARIANT);
            },
        };
        assert(before.tasks@.contains_key(id));
        let _ = task.begin_entry();
        let ghost begun = task;
        assert(is_begun(before.tasks@[id], begun));
        let ghost kernel_before = *kernel;
        let ghost a = answer;
        let (exit, frame_cost): (EntryExit, u64) = answer;
        let poll = task.poll_once(kernel, exit, frame_cost);
        let ghost p = poll;
        assert(has_polled(kernel_before, *kernel, begun, a, task, p));
        match poll {
            Err(e) => Err(e),
            Ok(TaskPoll::Pending) => {
                self.tasks.insert(id, task);
                self.ready.push_back(id);
                assert(self.tasks@ =~= before.tasks@.insert(id, task));
                Ok(None)
            },
            Ok(TaskPoll::Done(outcome)) => {
                if id == target {
                    Ok(Some(outcome))
                } else {
                    self.completed.insert(id, outcome);
                    Ok(None)
                }
            },
        }
    }

    /// Take turns until `target` has ended, with the given answers to the runs that
    /// this asks for. `Ok(None)` if they run out first.
    pub fn run_until_result(&mut self, kernel: &mut Kernel, target: u64, answers: &mut Answers) -> (r:
        Result<Option<LoopOutcome>, u32>)
        requires
            old(self).wf(),
        ensures
            final(self).wf(),
            turns_taken(
                *old(kernel),
                *final(kernel),
                *old(self),
                *final(self),
                target,
                old(answers)@,
                final(answers)@,
                r,
            ),
        decreases old(answers)@.len(),
    {
        if self.completed.get(&target).is_some() {
            let outcome = self.completed.remove(&target);
            return Ok(outcome);
        }
        if self.ready.len() == 0 {
            return Err(ERR_PENDING_ORIGIN_INVARIANT);
        }
        let answer = match answers.pop() {
            Some(a) => a,
            None => return Ok(None),
        };
        let ghost kernel_before = *kernel;
        let ghost before = *self;
        let ghost a = answer;
        let step = self.take_turn(kernel, target, answer);
        let ghost s = step;
        let ghost kernel_mid = *kernel;
        let ghost mid = *self;
        proof {
            assert(a == old(answers)@.last());
            assert(answers@ =~= old(answers)@.drop_last());
            assert(turn_taken(
                kernel_before,
                kernel_mid,
                before,
                mid,
                target,
                old(answers)@.last(),
                s,
            ));
        }
        match step {
            Err(e) => Err(e),
            Ok(Some(outcome)) => Ok(Some(outcome)),
            Ok(None) => {
                let r = self.run_until_result(kernel, target, answers);
                assert(turns_taken(
                    kernel_mid,
                    *kernel,
                    mid,
                    *self,
                    target,
                    old(answers)@.drop_last(),
                    answers@,
                    r,
                ));
                r
            },
        }
    }
}

/// The schedulers of the lanes, each made when its lane is first used.
pub struct LaneSchedulers {
    pub lanes: Vec<Option<KernelScheduler>>,
}

impl LaneSchedulers {
    /// There is a place for every lane, and a scheduler is that of its lane.
    pub open spec fn wf(&self) -> bool {
        &&& self.lanes@.len() == MAX_EXECUTION_LANES
        &&& forall|i: int|
            0 <= i < self.lanes@.len() ==> (#[trigger] self.lanes@[i] matches Some(s) ==> s.wf()
                && s.lane.index == i)
    }

    /// No lane has been used.
    pub fn new() -> (schedulers: LaneSchedulers)
        ensures
            schedulers.wf(),
            forall|i: int| 0 <= i < MAX_EXECUTION_LANES ==> #[trigger] schedulers.lanes@[i] is None,
    {
        let mut lanes: Vec<Option<KernelScheduler>> = Vec::new();
        while lanes.len() < MAX_EXECUTION_LANES
            invariant
                lanes@.len() <= MAX_EXECUTION_LANES,
                forall|i: int| 0 <= i < lanes@.len() ==> #[trigger] lanes@[i] is None,
            decreases MAX_EXECUTION_LANES - lanes@.len(),
        {
            lanes.push(None);
        }
        LaneSchedulers { lanes }
    }

    /// The scheduler of a lane; the others are not touched.
    pub fn with_lane_scheduler(&mut self, lane: ExecutionLane) -> (scheduler: &mut KernelScheduler)
        requires
            old(self).wf(),
            lane.index < MAX_EXECUTION_LANES,
        ensures
            scheduler.wf(),
            scheduler.lane.index == lane.index,
            match old(self).lanes@[lane.index as int] {
                Some(s) => *scheduler == s,
                None => {
                    &&& scheduler.next_task_id == 0
                    &&& scheduler.tasks@ == Map::<u64, KernelTask>::empty()
                    &&& scheduler.completed@ == Map::<u64, LoopOutcome>::empty()
                    &&& scheduler.ready@ == Seq::<u64>::empty()
                },
            },
            final(self).lanes@ == old(self).lanes@.update(
                lane.index as int,
                Some(*final(scheduler)),
            ),
    {
        lane.assert_in_range();
        let i: usize = lane.index();
        if self.lanes[i].is_none() {
            self.lanes.set(i, Some(KernelScheduler::new(lane)));
        }
        match &mut self.lanes[i] {
            Some(s) => s,
            None => vstd::pervasive::unreached(),
        }
    }
}

} // verus!
