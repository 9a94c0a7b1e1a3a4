//! Process creation, and the process and signal system calls made by the
//! running thread.
use vstd::prelude::*;
use crate::action::SignalAction;
use crate::exit::{exit_current_and_run_next, exit_done};
use crate::id::RecycleAllocator;
use crate::kernel::{
    has_proc, has_task, is_listed, lemma_same_shape_keeps_wf, pid2process, proc_at, suspend_current_and_run_next,
    table_wf, task_at, ExitOutcome, Kernel,
    TaskRef, IDLE_PID,
};
use crate::process::{args_size, ArgLayout, ElfImage, MemorySet, ProcessControlBlock, ProcessControlBlockInner};
use crate::signal::{sig_bit, SignalFlags, MAX_SIG, SIGKILL, SIGSTOP};
use crate::signal_handling::with_inner;
use crate::task::{spec_ustack_top, TaskControlBlock};
use crate::trap::TrapContext;
use crate::timer::{get_time, ticks_to_ms, CLOCK_FREQ, MSEC_PER_SEC};

verus! {


/// A signal action cannot be read from or written to address 0, and the
/// actions of SIGKILL and SIGSTOP cannot be changed.
pub fn check_sigaction_error(signal: SignalFlags, action: usize, old_action: usize) -> (ret: bool)
    ensures
        ret == (action == 0 || old_action == 0 || signal.bits == SIGKILL || signal.bits == SIGSTOP),
{
    if action == 0 || old_action == 0 || signal == (SignalFlags { bits: SIGKILL }) || signal == (
    SignalFlags { bits: SIGSTOP }) {
        true
    } else {
        false
    }
}


/// What `sys_get_time` answers for time-register reading `reading`: the
/// time in milliseconds, or -1 where the clock cannot be read.
pub open spec fn time_reply(reading: Option<usize>) -> isize {
    match reading {
        Some(t) => (t / (CLOCK_FREQ / MSEC_PER_SEC)) as isize,
        None => -1isize,
    }
}

/// The answer of `sys_get_time` when the time register reads `reading`.
pub fn get_time_reply(reading: Option<usize>) -> (ret: isize)
    ensures
        ret == time_reply(reading),
        ret == -1 || 0 <= ret <= usize::MAX / (CLOCK_FREQ / MSEC_PER_SEC),
{
    match reading {
        Some(ticks) => {
            let ms = ticks_to_ms(ticks);
            proof {
                vstd::arithmetic::div_mod::lemma_div_is_ordered(ticks as int, usize::MAX as int, 12500);
                assert(usize::MAX / 12500 <= isize::MAX) by {
                    assert(usize::MAX == 0xffff_ffff || usize::MAX == 0xffff_ffff_ffff_ffff);
                    assert(isize::MAX == 0x7fff_ffff || isize::MAX == 0x7fff_ffff_ffff_ffff);
                    assert(usize::MAX == 0xffff_ffff <==> isize::MAX == 0x7fff_ffff);
                }
            }
            ms as isize
        },
        None => -1,
    }
}

/// The time in milliseconds, or -1 where the clock cannot be read.
pub fn sys_get_time() -> (ret: isize)
    ensures
        ret == -1 || 0 <= ret <= usize::MAX / (CLOCK_FREQ / MSEC_PER_SEC),
{
    get_time_reply(get_time())
}

/// Growing the heap is not supported: always -1.
pub fn sys_sbrk(size: i32) -> (ret: isize)
    ensures
        ret == -1,
{
    -1
}

proof fn lemma_fork_table_wf(
    a: Seq<Option<ProcessControlBlock>>,
    b: Seq<Option<ProcessControlBlock>>,
    pids0: RecycleAllocator,
    pids1: RecycleAllocator,
    pid: usize,
    child_pid: usize,
    child: ProcessControlBlock,
)
    requires
        table_wf(a, pids0),
        has_proc(a, pid as int),
        !proc_at(a, pid as int).inner.is_zombie,
        !pids0.is_allocated(child_pid as int),
        pids1.wf(),
        pids1.is_allocated(child_pid as int),
        forall|i: int| i != child_pid ==> (pids1.is_allocated(i) <==> pids0.is_allocated(i)),
        b.len() == pids1.current,
        child_pid < b.len(),
        a.len() <= b.len(),
        child_pid < a.len() || child_pid == a.len(),
        b.len() == (if child_pid == a.len() { a.len() + 1 } else { a.len() + 0 }),
        b[child_pid as int] == Some(child),
        child.pid == child_pid,
        child.inner.wf(),
        child.inner.parent == Some(pid),
        child.inner.children@.len() == 0,
        !child.inner.is_zombie,
        has_proc(b, pid as int),
        proc_at(b, pid as int).pid == pid,
        proc_at(b, pid as int).inner == (ProcessControlBlockInner {
            children: proc_at(b, pid as int).inner.children,
            ..proc_at(a, pid as int).inner
        }),
        proc_at(b, pid as int).inner.children@ == proc_at(a, pid as int).inner.children@.push(child_pid),
        forall|q: int| 0 <= q < a.len() && q != pid && q != child_pid ==> #[trigger] b[q] == a[q],
    ensures
        table_wf(b, pids1),
        forall|q: int| #![trigger a[q]] has_proc(a, q) ==> has_proc(b, q) && q != child_pid,
{
    let pa = proc_at(a, pid as int).inner;
    let pb = proc_at(b, pid as int).inner;
    assert(child_pid != pid) by {
        assert(a[pid as int] is Some);
    }
    assert(!pa.children@.contains(child_pid)) by {
        if pa.children@.contains(child_pid) {
            assert(has_proc(a, child_pid as int));
        }
    }
    assert forall|q: int| #![trigger a[q]] has_proc(a, q) implies has_proc(b, q) && q != child_pid by {
        if q == child_pid {
            assert(pids0.is_allocated(q));
        }
    }
    assert forall|q: int| 0 <= q < b.len() implies ((#[trigger] b[q]) is Some <==> pids1.is_allocated(q)) by {
        if q != child_pid && q != pid {
            assert(b[q] == a[q]);
            assert(a[q] is Some <==> pids0.is_allocated(q));
        }
    }
    assert forall|q: int| #![trigger b[q]] has_proc(b, q) implies proc_at(b, q).pid == q && proc_at(b, q).inner.wf() by {
        if q == pid {
            assert(a[q] is Some);
            assert(pb.children@.no_duplicates()) by {
                assert forall|i: int, j: int| 0 <= i < j < pb.children@.len() implies pb.children@[i]
                    != pb.children@[j] by {
                    if j == pa.children@.len() {
                        assert(pa.children@.contains(pa.children@[i]));
                    }
                }
            }
        } else if q != child_pid {
            assert(b[q] == a[q]);
        }
    }
    assert forall|p2: int, c: usize|
        has_proc(b, p2) && #[trigger] proc_at(b, p2).inner.children@.contains(c) implies has_proc(b, c as int)
        && proc_at(b, c as int).inner.parent == Some(p2 as usize) by {
        if p2 == pid {
            if c != child_pid {
                let k = choose|k: int| 0 <= k < pb.children@.len() && pb.children@[k] == c;
                assert(k < pa.children@.len());
                assert(pa.children@[k] == c);
                assert(pa.children@.contains(c));
                assert(has_proc(a, c as int));
                if c != pid {
                    assert(b[c as int] == a[c as int]);
                }
            }
        } else if p2 != child_pid {
            assert(b[p2] == a[p2]);
            assert(has_proc(a, c as int));
            if c != pid {
                assert(b[c as int] == a[c as int]);
            }
        }
    }
    assert forall|c: int| has_proc(b, c) && (#[trigger] proc_at(b, c).inner.parent) is Some implies {
        let p2 = proc_at(b, c).inner.parent->0;
        &&& p2 != c
        &&& has_proc(b, p2 as int)
        &&& proc_at(b, p2 as int).inner.children@.contains(c as usize)
    } by {
        if c == child_pid {
            assert(pb.children@[pa.children@.len() as int] == child_pid);
        } else {
            if c != pid {
                assert(b[c] == a[c]);
            }
            let p2 = proc_at(a, c).inner.parent->0;
            assert(proc_at(a, c).inner.parent is Some);
            assert(has_proc(a, p2 as int));
            if p2 == pid {
                let k = choose|k: int| 0 <= k < pa.children@.len() && pa.children@[k] == c as usize;
                assert(pb.children@[k] == c as usize);
            } else {
                assert(b[p2 as int] == a[p2 as int]);
            }
        }
    }
    assert forall|q: int| has_proc(b, q) && (#[trigger] proc_at(b, q).inner.is_zombie) implies proc_at(
        b,
        q,
    ).inner.children@.len() == 0 by {
        if q == pid {
            assert(a[q] is Some);
        } else if q != child_pid {
            assert(b[q] == a[q]);
        }
    }
    assert(has_proc(a, IDLE_PID as int));
    if IDLE_PID != pid {
        assert(b[IDLE_PID as int] == a[IDLE_PID as int]);
    }
}


/// The table after a new process without a parent enters slot `new_pid`.
proof fn lemma_spawn_table_wf(
    a: Seq<Option<ProcessControlBlock>>,
    b: Seq<Option<ProcessControlBlock>>,
    pids0: RecycleAllocator,
    pids1: RecycleAllocator,
    new_pid: usize,
    p: ProcessControlBlock,
)
    requires
        table_wf(a, pids0),
        !pids0.is_allocated(new_pid as int),
        pids1.wf(),
        pids1.is_allocated(new_pid as int),
        forall|i: int| i != new_pid ==> (pids1.is_allocated(i) <==> pids0.is_allocated(i)),
        b.len() == pids1.current,
        new_pid < b.len(),
        new_pid <= a.len(),
        b.len() == (if new_pid == a.len() { a.len() + 1 } else { a.len() + 0 }),
        b[new_pid as int] == Some(p),
        p.pid == new_pid,
        p.inner.wf(),
        p.inner.parent is None,
        p.inner.children@.len() == 0,
        !p.inner.is_zombie,
        forall|q: int| 0 <= q < a.len() && q != new_pid ==> #[trigger] b[q] == a[q],
    ensures
        table_wf(b, pids1),
        forall|q: int| #![trigger a[q]] has_proc(a, q) ==> has_proc(b, q) && q != new_pid,
{
    assert forall|q: int| #![trigger a[q]] has_proc(a, q) implies has_proc(b, q) && q != new_pid by {
        if q == new_pid {
            assert(pids0.is_allocated(q));
        }
        assert(b[q] == a[q]);
    }
    assert forall|q: int| 0 <= q < b.len() implies ((#[trigger] b[q]) is Some <==> pids1.is_allocated(q)) by {
        if q != new_pid {
            assert(b[q] == a[q]);
            assert(a[q] is Some <==> pids0.is_allocated(q));
        }
    }
    assert forall|q: int| #![trigger b[q]] has_proc(b, q) implies proc_at(b, q).pid == q && proc_at(b, q).inner.wf() by {
        if q != new_pid {
            assert(b[q] == a[q]);
        }
    }
    assert forall|p2: int, c: usize|
        has_proc(b, p2) && #[trigger] proc_at(b, p2).inner.children@.contains(c) implies has_proc(b, c as int)
        && proc_at(b, c as int).inner.parent == Some(p2 as usize) by {
        if p2 != new_pid {
            assert(b[p2] == a[p2]);
            assert(has_proc(a, c as int));
            assert(b[c as int] == a[c as int]);
        }
    }
    assert forall|c: int| has_proc(b, c) && (#[trigger] proc_at(b, c).inner.parent) is Some implies {
        let p2 = proc_at(b, c).inner.parent->0;
        &&& p2 != c
        &&& has_proc(b, p2 as int)
        &&& proc_at(b, p2 as int).inner.children@.contains(c as usize)
    } by {
        if c != new_pid {
            assert(b[c] == a[c]);
            let p2 = proc_at(a, c).inner.parent->0;
            assert(proc_at(a, c).inner.parent is Some);
            assert(has_proc(a, p2 as int));
            assert(b[p2 as int] == a[p2 as int]);
        }
    }
    assert forall|q: int| has_proc(b, q) && (#[trigger] proc_at(b, q).inner.is_zombie) implies proc_at(
        b,
        q,
    ).inner.children@.len() == 0 by {
        if q != new_pid {
            assert(b[q] == a[q]);
        }
    }
    assert(has_proc(a, IDLE_PID as int));
    assert(b[IDLE_PID as int] == a[IDLE_PID as int]);
}

/// `waitpid(pid)` waits for child `c`: any child for -1, else the one with that pid.
pub open spec fn wait_matches(pid: isize, c: usize) -> bool {
    pid == -1 || pid as usize == c
}

/// None of the children `kids` is one that `waitpid(pid)` waits for.
pub open spec fn no_child_matches(kids: Seq<usize>, pid: isize) -> bool {
    forall|i: int| 0 <= i < kids.len() ==> !wait_matches(pid, #[trigger] kids[i])
}

/// `k1` is `k0` after the running thread's process reaped child `c`: `c`
/// left its children list, the others stayed in order.
pub open spec fn child_reaped(k0: Kernel, k1: Kernel, c: usize) -> bool {
    exists|w: int|
        0 <= w < k0.cur_proc().inner.children@.len() && #[trigger] k0.cur_proc().inner.children@[w] == c
            && k1.proc(k0.cur_pid()).inner.children@ == k0.cur_proc().inner.children@.remove(w)
}

/// Child `c` has exited and is one that `waitpid(pid)` waits for.
pub open spec fn reapable(procs: Seq<Option<ProcessControlBlock>>, pid: isize, c: usize) -> bool {
    proc_at(procs, c as int).inner.is_zombie && wait_matches(pid, c)
}

/// `kids[k]` is the first child in `kids` that `waitpid(pid)` can reap.
pub open spec fn first_reapable(procs: Seq<Option<ProcessControlBlock>>, kids: Seq<usize>, pid: isize, k: int) -> bool {
    &&& 0 <= k < kids.len()
    &&& reapable(procs, pid, kids[k])
    &&& forall|j: int| 0 <= j < k ==> !reapable(procs, pid, #[trigger] kids[j])
}

proof fn lemma_reap_table_wf(
    a: Seq<Option<ProcessControlBlock>>,
    b: Seq<Option<ProcessControlBlock>>,
    pids0: RecycleAllocator,
    pids1: RecycleAllocator,
    ppid: usize,
    k: int,
)
    requires
        table_wf(a, pids0),
        has_proc(a, ppid as int),
        0 <= k < proc_at(a, ppid as int).inner.children@.len(),
        proc_at(a, proc_at(a, ppid as int).inner.children@[k] as int).inner.is_zombie,
        pids1.wf(),
        pids1.current == pids0.current,
        !pids1.is_allocated(proc_at(a, ppid as int).inner.children@[k] as int),
        forall|i: int|
            i != proc_at(a, ppid as int).inner.children@[k] ==> (pids1.is_allocated(i) <==> pids0.is_allocated(i)),
        b.len() == a.len(),
        b[proc_at(a, ppid as int).inner.children@[k] as int] is None,
        has_proc(b, ppid as int),
        proc_at(b, ppid as int).pid == ppid,
        proc_at(b, ppid as int).inner == (ProcessControlBlockInner {
            children: proc_at(b, ppid as int).inner.children,
            ..proc_at(a, ppid as int).inner
        }),
        proc_at(b, ppid as int).inner.children@ == proc_at(a, ppid as int).inner.children@.remove(k),
        forall|q: int|
            0 <= q < a.len() && q != ppid && q != proc_at(a, ppid as int).inner.children@[k] ==> #[trigger] b[q]
                == a[q],
    ensures
        table_wf(b, pids1),
{
    let kids = proc_at(a, ppid as int).inner.children@;
    let c = kids[k];
    let pb = proc_at(b, ppid as int).inner.children@;
    assert(kids.contains(c));
    assert(has_proc(a, c as int) && proc_at(a, c as int).inner.parent == Some(ppid));
    assert(c != ppid);
    assert(c != IDLE_PID);
    assert(a[ppid as int] is Some);
    assert(kids.no_duplicates());
    // a process other than the parent never lists `c`
    assert forall|j: int| 0 <= j < pb.len() implies #[trigger] pb[j] != c && kids.contains(pb[j]) by {
        if j < k {
            assert(pb[j] == kids[j]);
        } else {
            assert(pb[j] == kids[j + 1]);
        }
    }
    assert forall|q: int| 0 <= q < b.len() implies ((#[trigger] b[q]) is Some <==> pids1.is_allocated(q)) by {
        if q != c && q != ppid {
            assert(b[q] == a[q]);
        }
    }
    assert forall|q: int| #![trigger b[q]] has_proc(b, q) implies proc_at(b, q).pid == q && proc_at(b, q).inner.wf() by {
        if q == ppid {
            assert(pb.no_duplicates()) by {
                assert forall|i: int, j: int| 0 <= i < j < pb.len() implies pb[i] != pb[j] by {
                    let i2 = if i < k { i } else { i + 1 };
                    let j2 = if j < k { j } else { j + 1 };
                    assert(pb[i] == kids[i2] && pb[j] == kids[j2]);
                }
            }
        } else {
            assert(b[q] == a[q]);
        }
    }
    assert forall|p2: int, c2: usize|
        has_proc(b, p2) && #[trigger] proc_at(b, p2).inner.children@.contains(c2) implies has_proc(b, c2 as int)
        && proc_at(b, c2 as int).inner.parent == Some(p2 as usize) by {
        if p2 == ppid {
            let j = choose|j: int| 0 <= j < pb.len() && pb[j] == c2;
            assert(pb[j] != c && kids.contains(pb[j]));
            assert(has_proc(a, c2 as int));
            assert(c2 != ppid);
            assert(b[c2 as int] == a[c2 as int]);
        } else {
            assert(b[p2] == a[p2]);
            assert(c2 != c) by {
                if c2 == c {
                    assert(proc_at(a, c as int).inner.parent == Some(p2 as usize));
                }
            }
            assert(has_proc(a, c2 as int));
            if c2 != ppid {
                assert(b[c2 as int] == a[c2 as int]);
            }
        }
    }
    assert forall|c2: int| has_proc(b, c2) && (#[trigger] proc_at(b, c2).inner.parent) is Some implies {
        let p2 = proc_at(b, c2).inner.parent->0;
        &&& p2 != c2
        &&& has_proc(b, p2 as int)
        &&& proc_at(b, p2 as int).inner.children@.contains(c2 as usize)
    } by {
        if c2 != ppid {
            assert(b[c2] == a[c2]);
        }
        let p2 = proc_at(a, c2).inner.parent->0;
        assert(proc_at(a, c2).inner.parent is Some);
        assert(proc_at(a, p2 as int).inner.children@.contains(c2 as usize));
        assert(p2 != c) by {
            if p2 == c {
                assert(proc_at(a, c as int).inner.children@.len() == 0);
            }
        }
        if p2 == ppid {
            let j = choose|j: int| 0 <= j < kids.len() && kids[j] == c2 as usize;
            assert(j != k);
            let j2 = if j < k { j } else { j - 1 };
            assert(pb[j2] == c2 as usize);
        } else {
            assert(b[p2 as int] == a[p2 as int]);
        }
    }
    assert forall|q: int| has_proc(b, q) && (#[trigger] proc_at(b, q).inner.is_zombie) implies proc_at(
        b,
        q,
    ).inner.children@.len() == 0 by {
        if q == ppid {
            assert(proc_at(a, q).inner.is_zombie);
        } else {
            assert(b[q] == a[q]);
        }
    }
    assert(has_proc(a, IDLE_PID as int));
    if IDLE_PID != ppid {
        assert(b[IDLE_PID as int] == a[IDLE_PID as int]);
    }
}



/// The running thread exits with `exit_code`.
pub fn sys_exit(k: &mut Kernel, exit_code: i32) -> (ret: ExitOutcome)
    requires
        old(k).wf(),
        old(k).current is Some,
    ensures
        final(k).wf(),
        exit_done(*old(k), *final(k), exit_code, ret),
{
    exit_current_and_run_next(k, exit_code)
}

/// The running thread gives up the processor; 0.
pub fn sys_yield(k: &mut Kernel) -> (ret: isize)
    requires
        old(k).wf(),
        old(k).current is Some,
    ensures
        final(k).wf(),
        ret == 0,
        final(k).current is None,
        final(k).ready_queue@ == old(k).ready_queue@.push(old(k).current->0),
        crate::kernel::status_set(
            old(k).procs@,
            final(k).procs@,
            old(k).current->0,
            crate::task::TaskStatus::Ready,
        ),
        final(k).pid_allocator == old(k).pid_allocator,
{
    suspend_current_and_run_next(k);
    0
}

/// The pid of the running thread's process.
pub fn sys_getpid(k: &Kernel) -> (ret: isize)
    requires
        k.wf(),
        k.current is Some,
    ensures
        ret == k.current->0.pid as isize,
{
    let pid = k.current.unwrap().pid;
    let p = k.procs[pid].as_ref().unwrap();
    p.get_pid() as isize
}

/// Adds the signals `signal` to process `pid`: 0, or -1 when there is no
/// such live process.
pub fn sys_kill(k: &mut Kernel, pid: usize, signal: u32) -> (ret: isize)
    requires
        old(k).wf(),
    ensures
        final(k).wf(),
        is_listed(old(k).procs@, pid as int) ==> ret == 0 && final(k).procs@ == old(k).procs@.update(
            pid as int,
            Some(with_inner(old(k).proc(pid as int), ProcessControlBlockInner {
                signals: SignalFlags { bits: old(k).proc(pid as int).inner.signals.bits | signal },
                ..old(k).proc(pid as int).inner
            })),
        ),
        !is_listed(old(k).procs@, pid as int) ==> ret == -1 && final(k).procs@ == old(k).procs@,
        final(k).ready_queue == old(k).ready_queue,
        final(k).current == old(k).current,
        final(k).pid_allocator == old(k).pid_allocator,
        final(k).kernel_token == old(k).kernel_token,
        final(k).trap_handler == old(k).trap_handler,
        final(k).user_sstatus == old(k).user_sstatus,
{
    if pid2process(k, pid).is_some() {
        if let Some(flag) = SignalFlags::from_bits(signal) {
            let mut p = k.procs[pid].take().unwrap();
            p.inner.signals.insert(flag);
            proof {
                lemma_same_shape_keeps_wf(
                    old(k).procs@,
                    old(k).pid_allocator,
                    old(k).ready_queue@,
                    old(k).current,
                    pid as int,
                    p,
                );
            }
            k.procs[pid] = Some(p);
            proof {
                assert(k.procs@ =~= old(k).procs@.update(pid as int, Some(p)));
            }
            0
        } else {
            -1
        }
    } else {
        -1
    }
}

/// Sets the signal mask of the running thread's process to `mask` and
/// returns the mask it replaces.
pub fn sys_sigprocmask(k: &mut Kernel, mask: u32) -> (ret: isize)
    requires
        old(k).wf(),
        old(k).current is Some,
    ensures
        final(k).wf(),
        ret == old(k).cur_proc().inner.signal_mask.bits as isize,
        final(k).procs@ == old(k).procs@.update(
            old(k).cur_pid(),
            Some(with_inner(old(k).cur_proc(), ProcessControlBlockInner {
                signal_mask: SignalFlags { bits: mask },
                ..old(k).cur_proc().inner
            })),
        ),
        final(k).ready_queue == old(k).ready_queue,
        final(k).current == old(k).current,
        final(k).pid_allocator == old(k).pid_allocator,
        final(k).kernel_token == old(k).kernel_token,
        final(k).trap_handler == old(k).trap_handler,
        final(k).user_sstatus == old(k).user_sstatus,
{
    let pid = k.current.unwrap().pid;
    let mut p = k.procs[pid].take().unwrap();
    let old_mask = p.inner.signal_mask;
    if let Some(flag) = SignalFlags::from_bits(mask) {
        p.inner.signal_mask = flag;
        proof {
            lemma_same_shape_keeps_wf(
                old(k).procs@,
                old(k).pid_allocator,
                old(k).ready_queue@,
                old(k).current,
                pid as int,
                p,
            );
        }
        k.procs[pid] = Some(p);
        proof {
            assert(k.procs@ =~= old(k).procs@.update(pid as int, Some(p)));
        }
        old_mask.bits() as isize
    } else {
        k.procs[pid] = Some(p);
        -1
    }
}

/// `b` is `a` after returning from a user signal handler: no signal is
/// being handled and thread 0 has the registers saved on entry.
pub open spec fn sigreturned(a: ProcessControlBlockInner, b: ProcessControlBlockInner) -> bool {
    &&& b == ProcessControlBlockInner { handling_sig: -1isize, tasks: b.tasks, ..a }
    &&& b.tasks@ == a.tasks@.update(
        0,
        Some(TaskControlBlock { trap_cx: a.trap_ctx_backup->0, ..a.main_task() }),
    )
}

/// Leaves the running user signal handler: thread 0 of the running
/// thread's process gets back the registers saved when the handler was
/// entered, no signal is being handled, and the saved `x10` is returned.
pub fn sys_sigreturn(k: &mut Kernel) -> (ret: isize)
    requires
        old(k).wf(),
        old(k).current is Some,
        old(k).cur_proc().inner.trap_ctx_backup is Some,
    ensures
        final(k).wf(),
        ret == old(k).cur_proc().inner.trap_ctx_backup->0.x@[10] as isize,
        final(k).has_proc(old(k).cur_pid()),
        final(k).procs@ == old(k).procs@.update(
            old(k).cur_pid(),
            Some(with_inner(old(k).cur_proc(), final(k).proc(old(k).cur_pid()).inner)),
        ),
        sigreturned(old(k).cur_proc().inner, final(k).proc(old(k).cur_pid()).inner),
        final(k).ready_queue == old(k).ready_queue,
        final(k).current == old(k).current,
        final(k).pid_allocator == old(k).pid_allocator,
        final(k).kernel_token == old(k).kernel_token,
        final(k).trap_handler == old(k).trap_handler,
        final(k).user_sstatus == old(k).user_sstatus,
{
    let pid = k.current.unwrap().pid;
    let mut p = k.procs[pid].take().unwrap();
    p.inner.handling_sig = -1;
    let mut task = *p.inner.get_task(0);
    task.trap_cx = p.inner.trap_ctx_backup.unwrap();
    p.inner.tasks[0] = Some(task);
    let ret = task.trap_cx.x[10] as isize;
    proof {
        let a = old(k).cur_proc().inner;
        assert forall|i: int|
            0 <= i < p.inner.tasks@.len() && (#[trigger] p.inner.tasks@[i]) is Some
                && p.inner.tasks@[i]->0.res is Some implies p.inner.tasks@[i]->0.res->0.tid == i
            && p.inner.task_res_allocator.is_allocated(i) by {
            assert(a.tasks@[i] is Some);
        }
        lemma_same_shape_keeps_wf(
            old(k).procs@,
            old(k).pid_allocator,
            old(k).ready_queue@,
            old(k).current,
            pid as int,
            p,
        );
    }
    k.procs[pid] = Some(p);
    proof {
        assert(k.procs@ =~= old(k).procs@.update(pid as int, Some(p)));
    }
    ret
}

/// `sys_sigaction(signum, action, old_action)` is carried out: `signum` is
/// a signal number other than SIGKILL and SIGSTOP, and neither address is 0.
pub open spec fn sigaction_accepted(signum: i32, action: usize, old_action: usize) -> bool {
    0 <= signum <= MAX_SIG && !(action == 0 || old_action == 0 || signum == 9 || signum == 19)
}

/// What `sys_sigaction(signum, action, old_action)` returns in state `k`.
pub open spec fn sigaction_reply(k: Kernel, signum: i32, action: usize, old_action: usize) -> (isize, Option<
    SignalAction,
>) {
    if sigaction_accepted(signum, action, old_action) {
        (0isize, Some(k.cur_proc().inner.signal_actions.table@[signum as int]))
    } else {
        (-1isize, None::<SignalAction>)
    }
}

/// `k1` is `k0` with `action` installed for signal `signum` of the running
/// thread's process, and nothing else changed.
pub open spec fn action_installed(k0: Kernel, k1: Kernel, signum: int, action: SignalAction) -> bool {
    &&& k1.has_proc(k0.cur_pid())
    &&& k1.procs@ == k0.procs@.update(k0.cur_pid(), Some(with_inner(k0.cur_proc(), k1.proc(k0.cur_pid()).inner)))
    &&& k1.proc(k0.cur_pid()).inner == (ProcessControlBlockInner {
        signal_actions: k1.proc(k0.cur_pid()).inner.signal_actions,
        ..k0.cur_proc().inner
    })
    &&& k1.proc(k0.cur_pid()).inner.signal_actions.table@ == k0.cur_proc().inner.signal_actions.table@.update(
        signum,
        action,
    )
}

/// Installs `new_action` (the action found at address `action` of the
/// caller's memory) for signal `signum` of the running thread's process.
/// Returns 0 with the action it replaces, to be stored at address
/// `old_action`; or -1 with nothing changed when `signum` is not a signal
/// number (a negative one included), either address is 0, or the signal is SIGKILL or SIGSTOP.
pub fn sys_sigaction(
    k: &mut Kernel,
    signum: i32,
    action: usize,
    old_action: usize,
    new_action: SignalAction,
) -> (ret: (isize, Option<SignalAction>))
    requires
        old(k).wf(),
        old(k).current is Some,
    ensures
        final(k).wf(),
        ({
            let ok = 0 <= signum <= MAX_SIG && !(action == 0 || old_action == 0 || signum == 9
                || signum == 19);
            &&& ok ==> ret == (0isize, Some(old(k).cur_proc().inner.signal_actions.table@[signum as int]))
                && action_installed(*old(k), *final(k), signum as int, new_action)
            &&& !ok ==> ret == (-1isize, None::<SignalAction>) && final(k).procs@ == old(k).procs@
        }),
        ret == sigaction_reply(*old(k), signum, action, old_action),
        final(k).ready_queue == old(k).ready_queue,
        final(k).current == old(k).current,
        final(k).pid_allocator == old(k).pid_allocator,
        final(k).kernel_token == old(k).kernel_token,
        final(k).trap_handler == old(k).trap_handler,
        final(k).user_sstatus == old(k).user_sstatus,
{
    if signum < 0 || signum as usize > MAX_SIG {
        return (-1, None);
    }
    let flag_opt = SignalFlags::from_bits(1u32 << (signum as u32));
    if let Some(flag) = flag_opt {
        proof {
            let s = signum as u32;
            assert(flag.bits == sig_bit(s));
            assert(s < 32 ==> ((1u32 << s) == (1u32 << 9u32)) == (s == 9)) by (bit_vector);
            assert(s < 32 ==> ((1u32 << s) == (1u32 << 19u32)) == (s == 19)) by (bit_vector);
            assert(SIGKILL == 1u32 << 9u32 && SIGSTOP == 1u32 << 19u32) by (bit_vector);
        }
        if check_sigaction_error(flag, action, old_action) {
            return (-1, None);
        }
        let pid = k.current.unwrap().pid;
        let mut p = k.procs[pid].take().unwrap();
        let idx = signum as usize;
        let prev_action = p.inner.signal_actions.table[idx];
        p.inner.signal_actions.table[idx] = new_action;
        proof {
            lemma_same_shape_keeps_wf(
                old(k).procs@,
                old(k).pid_allocator,
                old(k).ready_queue@,
                old(k).current,
                pid as int,
                p,
            );
        }
        k.procs[pid] = Some(p);
        proof {
            assert(k.procs@ =~= old(k).procs@.update(pid as int, Some(p)));
        }
        (0, Some(prev_action))
    } else {
        (-1, None)
    }
}

impl ProcessControlBlock {
    /// A new process running `image` in one thread, thread 0, with the
    /// console on descriptors 0, 1 and 2 and kernel stack `kstack_top`. It
    /// gets the next free pid and enters the process table without a
    /// parent, and its thread waits at the back of the ready queue. Returns
    /// the new pid.
    pub fn new(k: &mut Kernel, image: ElfImage, kstack_top: usize) -> (ret: usize)
        requires
            old(k).wf(),
            spec_ustack_top(image.ustack_base, 0) <= usize::MAX,
            old(k).pid_allocator.recycled@.len() > 0 || old(k).pid_allocator.current < usize::MAX,
        ensures
            final(k).wf(),
            ({
            let pid = old(k).pid_allocator.next_id();
            &&& ret == pid
            &&& !old(k).pid_allocator.is_allocated(pid as int)
            &&& final(k).pid_allocator.is_allocated(pid as int)
            &&& forall|i: int| i != pid ==> (final(k).pid_allocator.is_allocated(i)
                <==> old(k).pid_allocator.is_allocated(i))
            &&& final(k).has_proc(pid as int)
            &&& final(k).procs@.len() == old(k).procs@.len() + (if pid == old(k).procs@.len() {
                1int
            } else {
                0int
            })
            &&& final(k).proc(pid as int).is_new_process(
                pid,
                image,
                kstack_top,
                old(k).kernel_token,
                old(k).trap_handler,
                old(k).user_sstatus,
            )
            &&& forall|q: int|
                0 <= q < old(k).procs@.len() && q != pid ==> #[trigger] final(k).procs@[q] == old(k).procs@[q]
            &&& final(k).ready_queue@ == old(k).ready_queue@.push(TaskRef { pid, tid: 0 })
        }),
            final(k).current == old(k).current,
            final(k).kernel_token == old(k).kernel_token,
            final(k).trap_handler == old(k).trap_handler,
            final(k).user_sstatus == old(k).user_sstatus,
    {
        let ghost a = k.procs@;
        let pid = k.pid_allocator.allocate();
        let p = ProcessControlBlock::with_pid(pid, image, kstack_top, k.kernel_token, k.trap_handler, k.user_sstatus);
        if pid == k.procs.len() {
            k.procs.push(Some(p));
        } else {
            k.procs[pid] = Some(p);
        }
        proof {
            let b = k.procs@;
            assert forall|q: int| 0 <= q < a.len() && q != pid implies #[trigger] b[q] == a[q] by {}
            lemma_spawn_table_wf(a, b, old(k).pid_allocator, k.pid_allocator, pid, p);
        }
        let ghost q0 = k.ready_queue@;
        let new_task = TaskRef { pid, tid: 0 };
        k.ready_queue.push(new_task);
        proof {
            let b = k.procs@;
            let q = k.ready_queue@;
            assert(!q0.contains(new_task)) by {
                if q0.contains(new_task) {
                    let j = choose|j: int| 0 <= j < q0.len() && q0[j] == new_task;
                    assert(has_task(a, q0[j]));
                }
            }
            assert(q.no_duplicates()) by {
                assert forall|i: int, j: int| 0 <= i < j < q.len() implies q[i] != q[j] by {
                    if j == q0.len() {
                        assert(q0.contains(q0[i]));
                    }
                }
            }
            assert forall|i: int| 0 <= i < q.len() implies has_task(b, #[trigger] q[i]) && task_at(b, q[i]).res is Some
                && !proc_at(b, q[i].pid as int).inner.is_zombie by {
                if i < q0.len() {
                    assert(q[i] == q0[i]);
                    assert(has_task(a, q0[i]));
                    assert(has_proc(a, q0[i].pid as int));
                    assert(b[q0[i].pid as int] == a[q0[i].pid as int]);
                } else {
                    assert(q[i] == new_task);
                }
            }
            if let Some(t) = k.current {
                assert(has_proc(a, t.pid as int));
                assert(b[t.pid as int] == a[t.pid as int]);
                assert(!q.contains(t)) by {
                    if q.contains(t) {
                        let j = choose|j: int| 0 <= j < q.len() && q[j] == t;
                        if j < q0.len() {
                            assert(q0[j] == t);
                        }
                    }
                }
            }
        }
        pid
    }

    /// Process `parent_pid`, which must be alive with a single thread, is
    /// copied into a new process with address space `memory_set` (a copy of
    /// the parent's) and kernel stack `kstack_top`. The child gets the next
    /// free pid, enters the process table, becomes the parent's last child,
    /// and its thread waits at the back of the ready queue. Returns the
    /// child's pid.
    pub fn fork(k: &mut Kernel, parent_pid: usize, memory_set: MemorySet, kstack_top: usize) -> (ret: usize)
        requires
            old(k).wf(),
            is_listed(old(k).procs@, parent_pid as int),
            old(k).proc(parent_pid as int).inner.tasks@.len() == 1,
            old(k).proc(parent_pid as int).inner.main_task().res is Some,
            old(k).pid_allocator.recycled@.len() > 0 || old(k).pid_allocator.current < usize::MAX,
        ensures
            final(k).wf(),
            ({
            let child_pid = old(k).pid_allocator.next_id();
            let parent = old(k).proc(parent_pid as int);
            let child = final(k).proc(child_pid as int);
            &&& ret == child_pid
            &&& !old(k).pid_allocator.is_allocated(child_pid as int)
            &&& final(k).pid_allocator.is_allocated(child_pid as int)
            &&& forall|i: int| i != child_pid ==> (final(k).pid_allocator.is_allocated(i)
                <==> old(k).pid_allocator.is_allocated(i))
            &&& final(k).has_proc(child_pid as int)
            &&& final(k).procs@.len() == old(k).procs@.len() + (if child_pid == old(k).procs@.len() {
                1int
            } else {
                0int
            })
            &&& child.is_fork_of(parent, child_pid, memory_set, kstack_top)
            &&& final(k).proc(parent_pid as int).pid == parent.pid
            &&& final(k).proc(parent_pid as int).inner == (ProcessControlBlockInner {
                children: final(k).proc(parent_pid as int).inner.children,
                ..parent.inner
            })
            &&& final(k).proc(parent_pid as int).inner.children@ == parent.inner.children@.push(child_pid)
            &&& forall|q: int|
                0 <= q < old(k).procs@.len() && q != parent_pid && q != child_pid
                    ==> #[trigger] final(k).procs@[q] == old(k).procs@[q]
            &&& final(k).ready_queue@ == old(k).ready_queue@.push(TaskRef { pid: child_pid, tid: 0 })
        }),
        final(k).current == old(k).current,
        final(k).kernel_token == old(k).kernel_token,
        final(k).trap_handler == old(k).trap_handler,
        final(k).user_sstatus == old(k).user_sstatus,
{
    let pid = parent_pid;
    let ghost a = k.procs@;
    let child_pid = k.pid_allocator.allocate();
    let child = k.procs[pid].as_ref().unwrap().copy_for_fork(child_pid, memory_set, kstack_top);
    let mut parent = k.procs[pid].take().unwrap();
    parent.inner.children.push(child_pid);
    k.procs[pid] = Some(parent);
    proof {
        assert(child.inner.wf()) by {
            assert forall|i: int|
                0 <= i < child.inner.tasks@.len() && (#[trigger] child.inner.tasks@[i]) is Some
                    && child.inner.tasks@[i]->0.res is Some implies child.inner.tasks@[i]->0.res->0.tid == i
                && child.inner.task_res_allocator.is_allocated(i) by {
                assert(i == 0);
            }
        }
    }
    let ghost a1 = k.procs@;
    if child_pid == k.procs.len() {
        k.procs.push(Some(child));
    } else {
        k.procs[child_pid] = Some(child);
    }
    proof {
        let b = k.procs@;
        assert forall|q: int| 0 <= q < a.len() && q != pid && q != child_pid implies #[trigger] b[q] == a[q] by {
            assert(a1[q] == a[q]);
        }
        lemma_fork_table_wf(a, b, old(k).pid_allocator, k.pid_allocator, pid, child_pid, child);
    }
    let ghost q0 = k.ready_queue@;
    let new_task = TaskRef { pid: child_pid, tid: 0 };
    k.ready_queue.push(new_task);
    proof {
        let b = k.procs@;
        let q = k.ready_queue@;
        assert(!q0.contains(new_task)) by {
            if q0.contains(new_task) {
                let k = choose|k: int| 0 <= k < q0.len() && q0[k] == new_task;
                assert(has_task(a, q0[k]));
            }
        }
        assert(q.no_duplicates()) by {
            assert forall|i: int, j: int| 0 <= i < j < q.len() implies q[i] != q[j] by {
                if j == q0.len() {
                    assert(q0.contains(q0[i]));
                }
            }
        }
        assert forall|i: int| 0 <= i < q.len() implies has_task(b, #[trigger] q[i]) && task_at(b, q[i]).res is Some
            && !proc_at(b, q[i].pid as int).inner.is_zombie by {
            if i < q0.len() {
                assert(q[i] == q0[i]);
                assert(has_task(a, q0[i]));
                assert(has_proc(a, q0[i].pid as int));
                if q0[i].pid != pid {
                    assert(b[q0[i].pid as int] == a[q0[i].pid as int]);
                }
            } else {
                assert(q[i] == new_task);
            }
        }
        if let Some(t) = k.current {
            assert(has_proc(a, t.pid as int));
            assert(!q.contains(t)) by {
                if q.contains(t) {
                    let j = choose|j: int| 0 <= j < q.len() && q[j] == t;
                    if j < q0.len() {
                        assert(q0[j] == t);
                    }
                }
            }
        }
    }
    child_pid
}
}



/// The running thread's process, which must have a single thread, is
/// copied into a new process with address space `memory_set` (a copy of
/// the parent's) and kernel stack `kstack_top`, as `ProcessControlBlock::fork`
/// does; the child's thread sees 0 in `x10`. Returns the child's pid.
pub fn sys_fork(k: &mut Kernel, memory_set: MemorySet, kstack_top: usize) -> (ret: isize)
    requires
        old(k).wf(),
        old(k).current is Some,
        old(k).cur_proc().inner.tasks@.len() == 1,
        old(k).pid_allocator.recycled@.len() > 0 || old(k).pid_allocator.current < usize::MAX,
    ensures
        final(k).wf(),
        ({
            let child_pid = old(k).pid_allocator.next_id();
            let parent = old(k).cur_proc();
            let child = final(k).proc(child_pid as int);
            &&& ret == child_pid as isize
            &&& !old(k).pid_allocator.is_allocated(child_pid as int)
            &&& final(k).pid_allocator.is_allocated(child_pid as int)
            &&& forall|i: int| i != child_pid ==> (final(k).pid_allocator.is_allocated(i)
                <==> old(k).pid_allocator.is_allocated(i))
            &&& final(k).has_proc(child_pid as int)
            &&& final(k).procs@.len() == old(k).procs@.len() + (if child_pid == old(k).procs@.len() {
                1int
            } else {
                0int
            })
            &&& child.forked_from(parent, child_pid, memory_set, kstack_top)
            &&& child.inner.main_task().trap_cx == (TrapContext {
                kernel_sp: kstack_top,
                x: child.inner.main_task().trap_cx.x,
                ..parent.inner.main_task().trap_cx
            })
            &&& child.inner.main_task().trap_cx.x@ == parent.inner.main_task().trap_cx.x@.update(10, 0)
            &&& final(k).proc(old(k).cur_pid()).pid == parent.pid
            &&& final(k).proc(old(k).cur_pid()).inner == (ProcessControlBlockInner {
                children: final(k).proc(old(k).cur_pid()).inner.children,
                ..parent.inner
            })
            &&& final(k).proc(old(k).cur_pid()).inner.children@ == parent.inner.children@.push(child_pid)
            &&& forall|q: int|
                0 <= q < old(k).procs@.len() && q != old(k).cur_pid() && q != child_pid
                    ==> #[trigger] final(k).procs@[q] == old(k).procs@[q]
            &&& final(k).ready_queue@ == old(k).ready_queue@.push(TaskRef { pid: child_pid, tid: 0 })
        }),
        final(k).current == old(k).current,
        final(k).kernel_token == old(k).kernel_token,
        final(k).trap_handler == old(k).trap_handler,
        final(k).user_sstatus == old(k).user_sstatus,
{
    let pid = k.current.unwrap().pid;
    proof {
        assert(has_task(k.procs@, k.current->0));
    }
    let child_pid = ProcessControlBlock::fork(k, pid, memory_set, kstack_top);
    let ghost procs1 = k.procs@;
    let ghost pids1 = k.pid_allocator;
    let ghost queue1 = k.ready_queue@;
    let ghost cur1 = k.current;
    let mut child = k.procs[child_pid].take().unwrap();
    let mut task = child.inner.tasks[0].unwrap();
    task.trap_cx.x[10] = 0;
    child.inner.tasks[0] = Some(task);
    proof {
        assert(child.inner.wf()) by {
            assert forall|i: int|
                0 <= i < child.inner.tasks@.len() && (#[trigger] child.inner.tasks@[i]) is Some
                    && child.inner.tasks@[i]->0.res is Some implies child.inner.tasks@[i]->0.res->0.tid == i
                && child.inner.task_res_allocator.is_allocated(i) by {
                assert(i == 0);
            }
        }
        lemma_same_shape_keeps_wf(procs1, pids1, queue1, cur1, child_pid as int, child);
    }
    k.procs[child_pid] = Some(child);
    proof {
        assert(k.procs@ =~= procs1.update(child_pid as int, Some(child)));
        assert(child.inner.main_task().trap_cx.x@ =~= old(k).cur_proc().inner.main_task().trap_cx.x@.update(10, 0));
    }
    child_pid as isize
}

/// Waits for a child of the running thread's process: any child when
/// `pid` is -1, else the child with pid `pid`. Returns -1 when there is no
/// such child, -2 when none of them has exited yet; otherwise the first
/// such child that has exited (in the order of the children list) is
/// removed from the list and the process table, its pid is freed, and
/// its pid is returned with its exit code, to be stored at the caller's
/// address.
pub fn sys_waitpid(k: &mut Kernel, pid: isize) -> (ret: (isize, Option<i32>))
    requires
        old(k).wf(),
        old(k).current is Some,
    ensures
        final(k).wf(),
        final(k).current == old(k).current,
        final(k).ready_queue == old(k).ready_queue,
        final(k).kernel_token == old(k).kernel_token,
        final(k).trap_handler == old(k).trap_handler,
        final(k).user_sstatus == old(k).user_sstatus,
        ({
            let kids = old(k).cur_proc().inner.children@;
            let procs = old(k).procs@;
            &&& no_child_matches(kids, pid) ==> {
                &&& ret == (-1isize, None::<i32>)
                &&& final(k).procs@ == procs
                &&& final(k).pid_allocator == old(k).pid_allocator
            }
            &&& (exists|i: int| 0 <= i < kids.len() && wait_matches(pid, #[trigger] kids[i])) && (forall|i: int|
                0 <= i < kids.len() ==> !reapable(procs, pid, #[trigger] kids[i])) ==> {
                &&& ret == (-2isize, None::<i32>)
                &&& final(k).procs@ == procs
                &&& final(k).pid_allocator == old(k).pid_allocator
            }
            &&& (exists|i: int| 0 <= i < kids.len() && reapable(procs, pid, #[trigger] kids[i])) ==> exists|w: int|
                #[trigger] first_reapable(procs, kids, pid, w) && {
                    let c = kids[w];
                    &&& ret == (c as isize, Some(proc_at(procs, c as int).inner.exit_code))
                    &&& final(k).procs@.len() == procs.len()
                    &&& final(k).procs@[c as int] is None
                    &&& final(k).proc(old(k).cur_pid()).pid == old(k).cur_proc().pid
                    &&& final(k).proc(old(k).cur_pid()).inner == (ProcessControlBlockInner {
                        children: final(k).proc(old(k).cur_pid()).inner.children,
                        ..old(k).cur_proc().inner
                    })
                    &&& final(k).proc(old(k).cur_pid()).inner.children@ == kids.remove(w)
                    &&& forall|q: int|
                        0 <= q < procs.len() && q != old(k).cur_pid() && q != c ==> #[trigger] final(k).procs@[q]
                            == procs[q]
                    &&& final(k).pid_allocator.current == old(k).pid_allocator.current
                    &&& final(k).pid_allocator.recycled@ == old(k).pid_allocator.recycled@.push(c)
                }
        }),
        ret.0 >= 0 ==> child_reaped(*old(k), *final(k), ret.0 as usize),
{
    let ghost procs = k.procs@;
    let cur = k.current.unwrap().pid;
    let ghost kids = k.proc(cur as int).inner.children@;
    proof {
        assert(has_task(procs, k.current->0));
        assert(procs[cur as int] is Some);
    }
    let p = k.procs[cur].as_ref().unwrap();
    let mut any = false;
    let mut i: usize = 0;
    while i < p.inner.children.len()
        invariant
            p.inner.children@ == kids,
            i <= kids.len(),
            any == exists|j: int| 0 <= j < i && wait_matches(pid, #[trigger] kids[j]),
        decreases kids.len() - i,
    {
        let c = p.inner.children[i];
        if pid == -1 || pid as usize == c {
            any = true;
        }
        i = i + 1;
    }
    if !any {
        proof {
            assert forall|j: int| 0 <= j < kids.len() implies !reapable(procs, pid, #[trigger] kids[j]) by {
                if reapable(procs, pid, kids[j]) {
                    assert(wait_matches(pid, kids[j]));
                }
            }
        }
        return (-1, None);
    }
    let mut found: Option<usize> = None;
    let mut i: usize = 0;
    while i < p.inner.children.len()
        invariant_except_break
            found is None,
            forall|j: int| 0 <= j < i ==> !reapable(procs, pid, #[trigger] kids[j]),
        invariant
            table_wf(procs, k.pid_allocator),
            has_proc(procs, cur as int),
            *p == proc_at(procs, cur as int),
            p.inner.children@ == kids,
            i <= kids.len(),
            k.procs@ == procs,
        ensures
            found is None ==> forall|j: int| 0 <= j < kids.len() ==> !reapable(procs, pid, #[trigger] kids[j]),
            found matches Some(j) ==> first_reapable(procs, kids, pid, j as int),
        decreases kids.len() - i,
    {
        let c = p.inner.children[i];
        proof {
            assert(kids.contains(c));
            assert(has_proc(procs, c as int));
        }
        let cp = k.procs[c].as_ref().unwrap();
        if cp.inner.is_zombie && (pid == -1 || pid as usize == c) {
            found = Some(i);
            break;
        }
        i = i + 1;
    }
    match found {
        None => (-2, None),
        Some(idx) => {
            let c = p.inner.children[idx];
            proof {
                assert(kids.contains(c));
                assert(has_proc(procs, c as int));
                assert(proc_at(procs, c as int).inner.parent == Some(cur));
                assert(c != cur);
            }
            let mut parent = k.procs[cur].take().unwrap();
            parent.inner.children.remove(idx);
            k.procs[cur] = Some(parent);
            let child = k.procs[c].take().unwrap();
            let exit_code = child.inner.exit_code;
            k.pid_allocator.dealloc(c);
            proof {
                lemma_reap_table_wf(procs, k.procs@, old(k).pid_allocator, k.pid_allocator, cur, idx as int);
                assert((c as isize) >= 0 ==> ((c as isize) as usize) == c) by (bit_vector);
                assert(kids[idx as int] == c);
            }
            (c as isize, Some(exit_code))
        },
    }
}

/// Replaces the program of the running thread's process with `image`,
/// the program found at the path the caller named (`None` when no file
/// is there), passing it `args`. Returns the argument count with where
/// the arguments go on the new user stack; or -1, changing nothing, when
/// there is no program.
pub fn sys_exec(k: &mut Kernel, image: Option<ElfImage>, args: Vec<String>) -> (ret: (isize, Option<ArgLayout>))
    requires
        old(k).wf(),
        old(k).current is Some,
        image matches Some(img) ==> {
            &&& old(k).cur_proc().inner.tasks@.len() == 1
            &&& spec_ustack_top(img.ustack_base, 0) <= usize::MAX
            &&& args_size(args@) <= spec_ustack_top(img.ustack_base, 0)
        },
    ensures
        final(k).wf(),
        image is None ==> ret.0 == -1 && ret.1 is None && final(k).procs@ == old(k).procs@,
        image matches Some(img) ==> {
            &&& ret.0 == args@.len() as isize
            &&& ret.1 is Some
            &&& final(k).has_proc(old(k).cur_pid())
            &&& final(k).proc(old(k).cur_pid()).is_exec_of(
                old(k).cur_proc(),
                img,
                args@,
                ret.1->0,
                old(k).kernel_token,
                old(k).trap_handler,
                old(k).user_sstatus,
            )
            &&& final(k).procs@ == old(k).procs@.update(
                old(k).cur_pid(),
                Some(final(k).proc(old(k).cur_pid())),
            )
        },
        final(k).ready_queue == old(k).ready_queue,
        final(k).current == old(k).current,
        final(k).pid_allocator == old(k).pid_allocator,
        final(k).kernel_token == old(k).kernel_token,
        final(k).trap_handler == old(k).trap_handler,
        final(k).user_sstatus == old(k).user_sstatus,
{
    match image {
        None => (-1, None),
        Some(img) => {
            let pid = k.current.unwrap().pid;
            proof {
                assert(has_task(k.procs@, k.current->0));
            }
            let argc = args.len();
            let mut p = k.procs[pid].take().unwrap();
            let layout = p.exec(img, args, k.kernel_token, k.trap_handler, k.user_sstatus);
            proof {
                lemma_same_shape_keeps_wf(
                    old(k).procs@,
                    old(k).pid_allocator,
                    old(k).ready_queue@,
                    old(k).current,
                    pid as int,
                    p,
                );
            }
            k.procs[pid] = Some(p);
            proof {
                assert(k.procs@ =~= old(k).procs@.update(pid as int, Some(p)));
            }
            (argc as isize, Some(layout))
        },
    }
}

} // verus!
