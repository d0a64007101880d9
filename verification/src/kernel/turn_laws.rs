//! What holds of tasks that take turns.
use vstd::prelude::*;

use crate::hash::CapHash;
use crate::kernel::call_loop::{polled, EntryExit, KernelTask, LoopOutcome, TaskPoll};
use crate::kernel::dispatch::Kernel;
use crate::kernel::gas::TaskGasState;
use crate::kernel::scheduler::{
    both_run, has_polled, is_begun, submitted, task_run, turn_taken, turns_taken, KernelScheduler,
};
use crate::kernel::stack::{entry_wf, stack_wf, StackEntry};

verus! {

/// The tasks take turns: the first that is ready runs, the others move up in order, and
/// the one that ran is the last of them if it goes on and is gone if it has ended. What
/// it has ended with is handed out if it was waited for, and else kept.
pub proof fn law_tasks_take_turns(
    kernel: Kernel,
    kernel_after: Kernel,
    before: KernelScheduler,
    after: KernelScheduler,
    target: u64,
    answer: (EntryExit, u64),
    r: Result<Option<LoopOutcome>, u32>,
)
    requires
        turn_taken(kernel, kernel_after, before, after, target, answer, r),
        before.ready@.len() > 0,
        before.tasks@.contains_key(before.ready@[0]),
    ensures
        ({
            let id = before.ready@[0];
            let n = before.ready@.len();
            &&& forall|i: int|
                0 <= i < n - 1 ==> #[trigger] after.ready@[i] == before.ready@[i + 1]
            &&& after.tasks@.contains_key(id) ==> {
                &&& after.ready@.len() == n
                &&& after.ready@[n - 1] == id
                &&& r matches Ok(None)
                &&& after.completed@ == before.completed@
            }
            &&& !after.tasks@.contains_key(id) ==> after.ready@.len() == n - 1
            &&& !after.tasks@.contains_key(id) && r is Ok && id != target ==> {
                &&& r matches Ok(None)
                &&& after.completed@.contains_key(id)
            }
            &&& !after.tasks@.contains_key(id) && r is Ok && id == target ==> {
                &&& r matches Ok(Some(_))
                &&& after.completed@ == before.completed@
            }
            &&& forall|other: u64|
                other != id ==> {
                    &&& #[trigger] after.completed@.contains_key(other)
                        == before.completed@.contains_key(other)
                    &&& before.completed@.contains_key(other) ==> after.completed@[other]
                        == before.completed@[other]
                }
        }),
{
    let id = before.ready@[0];
    let n = before.ready@.len();
    assert forall|i: int| 0 <= i < n - 1 implies #[trigger] after.ready@[i] == before.ready@[i
        + 1] by {
        assert(before.ready@.drop_first()[i] == before.ready@[i + 1]);
    }
}

/// A run goes on from what it has ended with: the frame on top has the registers, the
/// pc and the memory of the end of the run, the gas in use is what is left, and every
/// other entry is as it was.
pub proof fn law_run_lands_in_its_frame(
    kernel: Kernel,
    kernel_after: Kernel,
    task: KernelTask,
    begun: KernelTask,
    answer: (EntryExit, u64),
    after: KernelTask,
    r: Result<TaskPoll, u32>,
)
    requires
        stack_wf(task.stack@),
        task.stack@.len() > 0,
        is_begun(task, begun),
        has_polled(kernel, kernel_after, begun, answer, after, r),
    ensures
        exists|s: Seq<StackEntry>, g: TaskGasState|
            {
                let t = task.stack@.last().target as int;
                let was = *task.stack@[t].kind->Instance_0;
                let now = *s[t].kind->Instance_0;
                &&& #[trigger] polled(
                    kernel,
                    kernel_after,
                    s,
                    g,
                    task.next_iid,
                    answer.0.info,
                    answer.1,
                    after,
                    r,
                )
                &&& s.len() == task.stack@.len()
                &&& now.regs == answer.0.info.regs
                &&& now.pc == answer.0.info.pc
                &&& now.mem == answer.0.mem
                &&& now.cnode == was.cnode
                &&& now.pending == was.pending
                &&& now.origin == was.origin
                &&& now.image_hash == was.image_hash
                &&& now.image_hash_chain == was.image_hash_chain
                &&& forall|q: int|
                    0 <= q < s.len() && q != t ==> #[trigger] s[q] == task.stack@[q]
                &&& g.live_gas == answer.0.info.gas_remaining
                &&& g.in_use() == task.stack@.last().gas.scope()
                &&& g.root() == task.gas_state.root()
                &&& forall|x: Option<Seq<u8>>|
                    x != task.stack@.last().gas.scope() ==> #[trigger] g.balance(x)
                        == task.gas_state.balance(x)
            },
{
    let top = task.stack@.len() - 1;
    assert(entry_wf(task.stack@, top));
    let t = task.stack@.last().target as int;
    let s = crate::kernel::call_loop::stack_landed(begun.stack@, answer.0);
    let g = TaskGasState { live_gas: answer.0.info.gas_remaining, ..begun.gas_state };
    assert(begun.stack@.last().target == t);
    assert(polled(
        kernel,
        kernel_after,
        s,
        g,
        task.next_iid,
        answer.0.info,
        answer.1,
        after,
        r,
    ));
    assert forall|x: Option<Seq<u8>>| x != task.stack@.last().gas.scope() implies #[trigger] g.balance(
        x,
    ) == task.gas_state.balance(x) by {
        assert(begun.gas_state.balance(x) == task.gas_state.balance(x));
    }
}

/// A task that is added waits behind all others under a number of its own.
pub proof fn law_added_task_waits_last(
    kernel: Kernel,
    before: KernelScheduler,
    after: KernelScheduler,
    instance_hash: CapHash,
    endpoint_idx: u32,
    args: Seq<u64>,
    initial_gas: i64,
    id: Result<u64, u32>,
)
    requires
        submitted(
            kernel,
            before,
            after,
            instance_hash,
            endpoint_idx,
            args,
            initial_gas,
            id,
        ),
        id is Ok,
    ensures
        id->Ok_0 == before.next_task_id,
        before.next_task_id < u64::MAX ==> after.next_task_id == before.next_task_id + 1,
        after.ready@.len() == before.ready@.len() + 1,
        after.ready@.last() == id->Ok_0,
        forall|i: int| 0 <= i < before.ready@.len() ==> #[trigger] after.ready@[i]
            == before.ready@[i],
        after.tasks@.contains_key(id->Ok_0),
        after.tasks@[id->Ok_0].id == id->Ok_0,
        after.tasks@[id->Ok_0].lane == before.lane,
        after.tasks@[id->Ok_0].gas_state.live_gas == initial_gas,
        forall|other: u64|
            other != id->Ok_0 ==> {
                &&& #[trigger] after.tasks@.contains_key(other) == before.tasks@.contains_key(other)
                &&& before.tasks@.contains_key(other) ==> after.tasks@[other]
                    == before.tasks@[other]
            },
{
    let made = choose|made: Result<KernelTask, u32>| #[trigger]
        crate::kernel::call_loop::task_made(
            kernel,
            instance_hash,
            endpoint_idx,
            args,
            initial_gas,
            before.next_task_id,
            before.lane,
            made,
        ) && match made {
            Err(e) => id == Err::<u64, u32>(e) && after.tasks == before.tasks && after.ready
                == before.ready,
            Ok(task) => {
                &&& id == Ok::<u64, u32>(before.next_task_id)
                &&& after.tasks@ == before.tasks@.insert(before.next_task_id, task)
                &&& after.ready@ == before.ready@.push(before.next_task_id)
            },
        };
}

/// What a task has ended with is handed out once, to whoever asks for that task.
pub proof fn law_kept_outcome_is_handed_out(
    kernel: Kernel,
    kernel_after: Kernel,
    before: KernelScheduler,
    after: KernelScheduler,
    target: u64,
    answers: Seq<(EntryExit, u64)>,
    left: Seq<(EntryExit, u64)>,
    r: Result<Option<LoopOutcome>, u32>,
)
    requires
        turns_taken(kernel, kernel_after, before, after, target, answers, left, r),
        before.completed@.contains_key(target),
    ensures
        r == Ok::<Option<LoopOutcome>, u32>(Some(before.completed@[target])),
        !after.completed@.contains_key(target),
        forall|other: u64|
            other != target && before.completed@.contains_key(other)
                ==> #[trigger] after.completed@.contains_key(other) && after.completed@[other]
                == before.completed@[other],
        after.tasks == before.tasks,
        left == answers,
{
}

/// Of two tasks that both have ended, the outcome of the first comes first.
pub proof fn law_outcomes_come_in_order(
    kernel: Kernel,
    kernel_after: Kernel,
    before: KernelScheduler,
    after: KernelScheduler,
    first: u64,
    second: u64,
    answers: Seq<(EntryExit, u64)>,
    unused: Seq<(EntryExit, u64)>,
    r: Result<Option<(LoopOutcome, LoopOutcome)>, u32>,
)
    requires
        both_run(kernel, kernel_after, before, after, first, second, answers, unused, r),
        first != second,
        before.completed@.contains_key(first),
        before.completed@.contains_key(second),
    ensures
        r == Ok::<Option<(LoopOutcome, LoopOutcome)>, u32>(
            Some((before.completed@[first], before.completed@[second])),
        ),
        unused == answers,
{
    let (k, s, left, x) = choose|
        k: Kernel,
        s: KernelScheduler,
        left: Seq<(EntryExit, u64)>,
        x: Result<Option<LoopOutcome>, u32>,
    | #[trigger]
        turns_taken(kernel, k, before, s, first, answers, left, x) && match x {
            Err(e) => {
                &&& r == Err::<Option<(LoopOutcome, LoopOutcome)>, u32>(e)
                &&& after == s
                &&& kernel_after == k
                &&& unused == left
            },
            Ok(None) => {
                &&& r == Ok::<Option<(LoopOutcome, LoopOutcome)>, u32>(None)
                &&& after == s
                &&& kernel_after == k
                &&& unused == left
            },
            Ok(Some(one)) => exists|y: Result<Option<LoopOutcome>, u32>| #[trigger]
                turns_taken(k, kernel_after, s, after, second, left, unused, y) && match y {
                    Err(e) => r == Err::<Option<(LoopOutcome, LoopOutcome)>, u32>(e),
                    Ok(None) => r == Ok::<Option<(LoopOutcome, LoopOutcome)>, u32>(None),
                    Ok(Some(two)) => r == Ok::<Option<(LoopOutcome, LoopOutcome)>, u32>(
                        Some((one, two)),
                    ),
                },
        };
    law_kept_outcome_is_handed_out(kernel, k, before, s, first, answers, left, x);
    assert(s.completed@.contains_key(second));
}

/// The invocation of a packet starts with the arguments and the gas of the packet.
pub proof fn law_packet_is_what_runs(
    kernel: Kernel,
    before: KernelScheduler,
    after: KernelScheduler,
    p: crate::abi::InvokePacket,
    id: Result<u64, u32>,
    x: int,
)
    requires
        crate::kernel::scheduler::packet_submitted(kernel, before, after, p, id),
        id is Ok,
        p.initial_gas <= i64::MAX,
        0 <= x < 4,
    ensures
        after.tasks@.contains_key(id->Ok_0),
        ({
            let task = after.tasks@[id->Ok_0];
            let f = *task.stack@[0].kind->Instance_0;
            &&& task.stack@.len() == 1
            &&& task.gas_state.live_gas == p.initial_gas
            &&& f.regs@[7 + x] == p.args@[x]
            &&& *kernel.directory@[p.instance_hash] matches crate::kernel::caps::WireCap::Instance(
                w,
            ) && w.image_hash == f.image_hash && w.image_hash_chain == f.image_hash_chain
        }),
{
    let made = choose|made: Result<KernelTask, u32>| #[trigger]
        crate::kernel::call_loop::task_made(
            kernel,
            p.instance_hash,
            p.endpoint_idx,
            p.args@,
            p.initial_gas as i64,
            before.next_task_id,
            before.lane,
            made,
        ) && match made {
            Err(e) => id == Err::<u64, u32>(e) && after.tasks == before.tasks && after.ready
                == before.ready,
            Ok(task) => {
                &&& id == Ok::<u64, u32>(before.next_task_id)
                &&& after.tasks@ == before.tasks@.insert(before.next_task_id, task)
                &&& after.ready@ == before.ready@.push(before.next_task_id)
            },
        };
    assert(p.initial_gas as i64 == p.initial_gas);
    crate::kernel::poll_laws::law_task_starts_the_instance(
        kernel,
        p.instance_hash,
        p.endpoint_idx,
        p.args@,
        p.initial_gas as i64,
        before.next_task_id,
        before.lane,
        made,
    );
    assert(made->Ok_0.stack@[0].kind->Instance_0.regs@[7 + x] == p.args@[x]);
}

/// Two invocations that run side by side are added in order, and both outcomes are
/// waited for: the first under the number of the first.
pub proof fn law_two_invocations_run_in_order(
    kernel: Kernel,
    kernel_after: Kernel,
    before: KernelScheduler,
    after: KernelScheduler,
    first: crate::abi::InvokePacket,
    second: crate::abi::InvokePacket,
    answers: Seq<(EntryExit, u64)>,
    unused: Seq<(EntryExit, u64)>,
    r: Result<Option<(LoopOutcome, LoopOutcome)>, u32>,
    earlier: u64,
    later: u64,
)
    requires
        earlier == before.next_task_id,
        later == earlier + 1,
        crate::kernel::scheduler::two_run(
            kernel,
            kernel_after,
            before,
            after,
            first,
            second,
            answers,
            unused,
            r,
        ),
        r is Ok,
        before.next_task_id < u64::MAX - 1,
    ensures
        exists|s: KernelScheduler|
            {
                let n = before.ready@.len() as int;
                &&& #[trigger] both_run(
                    kernel,
                    kernel_after,
                    s,
                    after,
                    earlier,
                    later,
                    answers,
                    unused,
                    r,
                )
                &&& s.ready@.len() == n + 2
                &&& s.ready@[n] == earlier
                &&& s.ready@[n + 1] == later
                &&& s.tasks@.contains_key(earlier)
                &&& s.tasks@.contains_key(later)
                &&& forall|x: int|
                    0 <= x < 4 ==> s.tasks@[earlier].stack@[0].kind->Instance_0.regs@[7 + x]
                        == #[trigger] first.args@[x]
                &&& forall|x: int|
                    0 <= x < 4 ==> s.tasks@[later].stack@[0].kind->Instance_0.regs@[7 + x]
                        == #[trigger] second.args@[x]
            },
{
    let (one, a) = choose|one: KernelScheduler, a: Result<u64, u32>| #[trigger]
        crate::kernel::scheduler::packet_submitted(kernel, before, one, first, a) && match a {
            Err(e) => {
                &&& r == Err::<Option<(LoopOutcome, LoopOutcome)>, u32>(e)
                &&& after == one
                &&& kernel_after == kernel
                &&& unused == answers
            },
            Ok(first_id) => exists|two: KernelScheduler, b: Result<u64, u32>| #[trigger]
                crate::kernel::scheduler::packet_submitted(kernel, one, two, second, b) && match b {
                    Err(e) => {
                        &&& r == Err::<Option<(LoopOutcome, LoopOutcome)>, u32>(e)
                        &&& after == two
                        &&& kernel_after == kernel
                        &&& unused == answers
                    },
                    Ok(second_id) => both_run(
                        kernel,
                        kernel_after,
                        two,
                        after,
                        first_id,
                        second_id,
                        answers,
                        unused,
                        r,
                    ),
                },
        };
    let first_id = a->Ok_0;
    let (two, b) = choose|two: KernelScheduler, b: Result<u64, u32>| #[trigger]
        crate::kernel::scheduler::packet_submitted(kernel, one, two, second, b) && match b {
            Err(e) => {
                &&& r == Err::<Option<(LoopOutcome, LoopOutcome)>, u32>(e)
                &&& after == two
                &&& kernel_after == kernel
                &&& unused == answers
            },
            Ok(second_id) => both_run(
                kernel,
                kernel_after,
                two,
                after,
                first_id,
                second_id,
                answers,
                unused,
                r,
            ),
        };
    law_added_task_waits_last(
        kernel,
        before,
        one,
        first.instance_hash,
        first.endpoint_idx,
        first.args@,
        first.initial_gas as i64,
        a,
    );
    law_added_task_waits_last(
        kernel,
        one,
        two,
        second.instance_hash,
        second.endpoint_idx,
        second.args@,
        second.initial_gas as i64,
        b,
    );
    lemma_packet_args(kernel, before, one, first, a);
    lemma_packet_args(kernel, one, two, second, b);
    assert(two.tasks@[first_id] == one.tasks@[first_id]);
    assert(two.ready@[before.ready@.len() as int] == one.ready@[before.ready@.len() as int]);
    assert(both_run(
        kernel,
        kernel_after,
        two,
        after,
        earlier,
        later,
        answers,
        unused,
        r,
    ));
}

proof fn lemma_packet_args(
    kernel: Kernel,
    before: KernelScheduler,
    after: KernelScheduler,
    p: crate::abi::InvokePacket,
    id: Result<u64, u32>,
)
    requires
        crate::kernel::scheduler::packet_submitted(kernel, before, after, p, id),
        id is Ok,
    ensures
        forall|x: int|
            0 <= x < 4 ==> after.tasks@[id->Ok_0].stack@[0].kind->Instance_0.regs@[7 + x]
                == #[trigger] p.args@[x],
{
    let made = choose|made: Result<KernelTask, u32>| #[trigger]
        crate::kernel::call_loop::task_made(
            kernel,
            p.instance_hash,
            p.endpoint_idx,
            p.args@,
            p.initial_gas as i64,
            before.next_task_id,
            before.lane,
            made,
        ) && match made {
            Err(e) => id == Err::<u64, u32>(e) && after.tasks == before.tasks && after.ready
                == before.ready,
            Ok(task) => {
                &&& id == Ok::<u64, u32>(before.next_task_id)
                &&& after.tasks@ == before.tasks@.insert(before.next_task_id, task)
                &&& after.ready@ == before.ready@.push(before.next_task_id)
            },
        };
    crate::kernel::poll_laws::law_task_starts_the_instance(
        kernel,
        p.instance_hash,
        p.endpoint_idx,
        p.args@,
        p.initial_gas as i64,
        before.next_task_id,
        before.lane,
        made,
    );
}

/// A run that ends as it began changes nothing: what was handed out comes back to the
/// frame, and the frame and the stack are as they were. What it runs on is the balance
/// of the scope of its entry.
pub proof fn law_idle_run_changes_nothing(
    task: KernelTask,
    begun: KernelTask,
    run: crate::kernel::call_loop::EntryRun,
    exit: EntryExit,
)
    requires
        stack_wf(task.stack@),
        task.stack@.len() > 0,
        crate::kernel::call_loop::handed_out(task, begun, run),
        task.stack@[task.stack@.last().target as int].kind->Instance_0.pc <= u32::MAX,
        exit.info.regs == run.regs,
        exit.info.pc == run.pc,
        exit.mem == run.mem,
        exit.mat_state == run.mat_state,
        exit.ro_units == run.ro_units,
        exit.runtime == run.runtime,
    ensures
        crate::kernel::call_loop::stack_landed(begun.stack@, exit) == task.stack@,
        run.gas == task.gas_state.balance(task.stack@.last().gas.scope()),
{
    let top = task.stack@.len() - 1;
    assert(entry_wf(task.stack@, top));
    let t = task.stack@.last().target as int;
    let was = *task.stack@[t].kind->Instance_0;
    assert(was.pc as u32 == was.pc);
    let landed = crate::kernel::call_loop::stack_landed(begun.stack@, exit);
    assert(begun.stack@.last().target == t);
    assert(*landed[t].kind->Instance_0 == was);
    assert(landed =~= task.stack@);
    assert(begun.gas_state.balance(task.stack@.last().gas.scope()) == begun.gas_state.live_gas);
}

/// A task that is run alone takes the answers from the last to the first and none after
/// it has ended: what it ends with is what the last answer that it took led to, and it
/// has not ended only where no answer is left.
pub proof fn law_answers_are_taken_in_order(
    kernel: Kernel,
    kernel_after: Kernel,
    before: KernelTask,
    answers: Seq<(EntryExit, u64)>,
    left: Seq<(EntryExit, u64)>,
    r: Result<Option<LoopOutcome>, u32>,
)
    requires
        task_run(kernel, kernel_after, before, answers, left, r),
    ensures
        left.len() <= answers.len(),
        forall|i: int| 0 <= i < left.len() ==> left[i] == answers[i],
        r == Ok::<Option<LoopOutcome>, u32>(None) ==> left.len() == 0,
        answers.len() == 0 ==> r == Ok::<Option<LoopOutcome>, u32>(None) && kernel_after == kernel,
        answers.len() > 0 ==> exists|begun: KernelTask, k: Kernel, task: KernelTask, p: Result<
            TaskPoll,
            u32,
        >| #[trigger]
            is_begun(before, begun) && #[trigger] has_polled(
                kernel,
                k,
                begun,
                answers.last(),
                task,
                p,
            ) && (p matches Ok(TaskPoll::Pending) || left.len() == answers.len() - 1),
        r != Ok::<Option<LoopOutcome>, u32>(None) ==> left.len() < answers.len() && exists|
            k: Kernel,
            begun: KernelTask,
            task: KernelTask,
            p: Result<TaskPoll, u32>,
        | #[trigger]
            has_polled(k, kernel_after, begun, answers[left.len() as int], task, p) && ended_with(
                p,
                r,
            ),
    decreases answers.len(),
{
    if answers.len() > 0 {
        let (begun, k, task, p) = choose|
            begun: KernelTask,
            k: Kernel,
            task: KernelTask,
            p: Result<TaskPoll, u32>,
        | #[trigger]
            is_begun(before, begun) && #[trigger] has_polled(
                kernel,
                k,
                begun,
                answers.last(),
                task,
                p,
            ) && match p {
                Err(e) => r == Err::<Option<LoopOutcome>, u32>(e) && kernel_after == k && left
                    == answers.drop_last(),
                Ok(TaskPoll::Done(outcome)) => r == Ok::<Option<LoopOutcome>, u32>(Some(outcome))
                    && kernel_after == k && left == answers.drop_last(),
                Ok(TaskPoll::Pending) => task_run(
                    k,
                    kernel_after,
                    task,
                    answers.drop_last(),
                    left,
                    r,
                ),
            };
        if p matches Ok(TaskPoll::Pending) {
            law_answers_are_taken_in_order(k, kernel_after, task, answers.drop_last(), left, r);
        } else {
            assert(answers[left.len() as int] == answers.last());
        }
    }
}

/// Whether a task has ended with `r`.
pub open spec fn ended_with(
    p: Result<TaskPoll, u32>,
    r: Result<Option<LoopOutcome>, u32>,
) -> bool {
    match p {
        Ok(TaskPoll::Pending) => false,
        Ok(TaskPoll::Done(outcome)) => r == Ok::<Option<LoopOutcome>, u32>(Some(outcome)),
        Err(e) => r == Err::<Option<LoopOutcome>, u32>(e),
    }
}

} // verus!
