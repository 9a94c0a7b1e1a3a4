//! The running thread exits; when it is a process's main thread the whole
//! process exits and its children pass to the first process.
use vstd::prelude::*;
use crate::id::RecycleAllocator;
use crate::kernel::{
    has_proc, has_task, lemma_filter_agree, lemma_filter_all, lemma_remove_value_filter, lemma_remove_value_no_duplicates, proc_at,
    remove_task, sched_wf, table_wf, task_at, ExitOutcome, Kernel, TaskRef,
    IDLE_PID,
};
use crate::process::{MemorySet, ProcessControlBlock, ProcessControlBlockInner};
use crate::task::TaskControlBlock;

verus! {

/// Thread `task` after exiting with `code`: its user resources are gone and
/// its exit code is kept.
pub open spec fn exited_task(task: TaskControlBlock, code: i32) -> TaskControlBlock {
    TaskControlBlock { res: None, exit_code: Some(code), ..task }
}

/// Thread `i` of the process still holds user resources.
pub open spec fn live_res(inner: ProcessControlBlockInner, i: int) -> bool {
    0 <= i < inner.tasks@.len() && inner.tasks@[i] is Some && inner.tasks@[i]->0.res is Some
}

/// `b` is `a` after thread `tid` exited with `code` and gave its id back.
pub open spec fn thread_exited(
    a: ProcessControlBlockInner,
    b: ProcessControlBlockInner,
    tid: usize,
    code: i32,
) -> bool {
    &&& b == ProcessControlBlockInner {
        tasks: b.tasks,
        task_res_allocator: b.task_res_allocator,
        ..a
    }
    &&& b.tasks@ == a.tasks@.update(tid as int, Some(exited_task(a.tasks@[tid as int]->0, code)))
    &&& b.task_res_allocator.current == a.task_res_allocator.current
    &&& b.task_res_allocator.recycled@ == a.task_res_allocator.recycled@.push(tid)
}

/// Ids of the threads below `n` that hold user resources, in order.
pub open spec fn live_tids(inner: ProcessControlBlockInner, n: int) -> Seq<usize>
    decreases n,
{
    if n <= 0 {
        Seq::empty()
    } else if live_res(inner, n - 1) {
        live_tids(inner, n - 1).push((n - 1) as usize)
    } else {
        live_tids(inner, n - 1)
    }
}

proof fn lemma_live_tids_first(a: ProcessControlBlockInner, m: ProcessControlBlockInner, n: int)
    requires
        live_res(a, 0),
        !live_res(m, 0),
        forall|i: int| 1 <= i ==> live_res(a, i) == #[trigger] live_res(m, i),
        n >= 1,
    ensures
        live_tids(a, n) == seq![0usize] + live_tids(m, n),
    decreases n,
{
    if n == 1 {
        assert(live_tids(a, 0) =~= Seq::<usize>::empty());
        assert(live_tids(m, 0) =~= Seq::<usize>::empty());
        assert(live_tids(a, 1) =~= seq![0usize]);
        assert(live_tids(m, 1) =~= Seq::<usize>::empty());
        assert(seq![0usize] + Seq::<usize>::empty() =~= seq![0usize]);
    } else {
        lemma_live_tids_first(a, m, n - 1);
        assert(live_res(a, n - 1) == live_res(m, n - 1));
        if live_res(a, n - 1) {
            assert(live_tids(a, n) =~= seq![0usize] + live_tids(m, n));
        }
    }
}

/// `b` is `a` after the whole process exited with `code` from thread 0: it
/// is a zombie keeping the exit code, with no children and no descriptors,
/// its data pages given back, only its exited thread 0 left, and the ids of
/// all threads that held user resources given back in the order of the ids.
pub open spec fn process_exited(a: ProcessControlBlockInner, b: ProcessControlBlockInner, code: i32) -> bool {
    &&& b == ProcessControlBlockInner {
        is_zombie: true,
        exit_code: code,
        children: b.children,
        memory_set: MemorySet { data_recycled: true, ..a.memory_set },
        fd_table: b.fd_table,
        tasks: b.tasks,
        task_res_allocator: b.task_res_allocator,
        ..a
    }
    &&& b.children@.len() == 0
    &&& b.fd_table@.len() == 0
    &&& b.tasks@ == seq![Some(exited_task(a.main_task(), code))]
    &&& b.task_res_allocator.wf()
    &&& b.task_res_allocator.current == a.task_res_allocator.current
    &&& b.task_res_allocator.recycled@ == a.task_res_allocator.recycled@ + live_tids(a, a.tasks@.len() as int)
    &&& forall|i: int|
        #[trigger] b.task_res_allocator.is_allocated(i) <==> a.task_res_allocator.is_allocated(i)
            && !live_res(a, i)
}

/// Process `p` with the first process as its parent.
pub open spec fn reparented(p: ProcessControlBlock) -> ProcessControlBlock {
    ProcessControlBlock {
        inner: ProcessControlBlockInner { parent: Some(IDLE_PID), ..p.inner },
        ..p
    }
}

/// Table `b` is table `a` after process `pid` exited with `code`: the
/// process is as `process_exited` says, its children are children of the
/// first process, and nothing else changed.
pub open spec fn table_after_exit(
    a: Seq<Option<ProcessControlBlock>>,
    b: Seq<Option<ProcessControlBlock>>,
    pid: usize,
    code: i32,
) -> bool {
    let pa = proc_at(a, pid as int).inner;
    let init_a = proc_at(a, IDLE_PID as int);
    let init_b = proc_at(b, IDLE_PID as int);
    &&& b.len() == a.len()
    &&& has_proc(b, pid as int)
    &&& proc_at(b, pid as int).pid == pid
    &&& process_exited(pa, proc_at(b, pid as int).inner, code)
    &&& has_proc(b, IDLE_PID as int)
    &&& init_b.pid == init_a.pid
    &&& init_b.inner == ProcessControlBlockInner { children: init_b.inner.children, ..init_a.inner }
    &&& init_b.inner.children@ == init_a.inner.children@ + pa.children@
    &&& forall|c: usize| #[trigger] pa.children@.contains(c) ==> b[c as int] == Some(reparented(proc_at(a, c as int)))
    &&& forall|q: int|
        0 <= q < a.len() && q != pid && q != IDLE_PID && !pa.children@.contains(q as usize) ==> #[trigger] b[q]
            == a[q]
}

/// `k1` and `ret` are `k0` after its running thread exited with `code`.
pub open spec fn exit_done(k0: Kernel, k1: Kernel, code: i32, ret: ExitOutcome) -> bool {
    let t = k0.current->0;
    &&& k1.current is None
    &&& k1.pid_allocator == k0.pid_allocator
    &&& k1.kernel_token == k0.kernel_token
    &&& k1.trap_handler == k0.trap_handler
    &&& k1.user_sstatus == k0.user_sstatus
    &&& if t.tid == 0 && t.pid != IDLE_PID {
        &&& ret == ExitOutcome::RunNext
        &&& table_after_exit(k0.procs@, k1.procs@, t.pid, code)
        &&& k1.ready_queue@ == k0.ready_queue@.filter(|x: TaskRef| x.pid != t.pid)
    } else {
        &&& ret == (if t.tid == 0 {
            ExitOutcome::Shutdown { failure: code != 0 }
        } else {
            ExitOutcome::RunNext
        })
        &&& k1.procs@.len() == k0.procs@.len()
        &&& forall|q: int| 0 <= q < k0.procs@.len() && q != t.pid ==> #[trigger] k1.procs@[q] == k0.procs@[q]
        &&& has_proc(k1.procs@, t.pid as int)
        &&& k1.proc(t.pid as int).pid == t.pid
        &&& thread_exited(k0.proc(t.pid as int).inner, k1.proc(t.pid as int).inner, t.tid, code)
        &&& k1.ready_queue@ == k0.ready_queue@
    }
}

proof fn lemma_exit_table_wf(
    a: Seq<Option<ProcessControlBlock>>,
    b: Seq<Option<ProcessControlBlock>>,
    pids: RecycleAllocator,
    pid: usize,
    code: i32,
)
    requires
        table_wf(a, pids),
        has_proc(a, pid as int),
        pid != IDLE_PID,
        table_after_exit(a, b, pid, code),
    ensures
        table_wf(b, pids),
{
    let pa = proc_at(a, pid as int).inner;
    let pb = proc_at(b, pid as int).inner;
    let init_a = proc_at(a, IDLE_PID as int).inner;
    let init_b = proc_at(b, IDLE_PID as int).inner;
    // children of the exiting process are not the first process, not itself,
    // and not already children of the first process
    assert forall|c: usize| #[trigger] pa.children@.contains(c) implies c != IDLE_PID && c != pid
        && !init_a.children@.contains(c) && has_proc(a, c as int) && proc_at(a, c as int).inner.parent == Some(pid) by {
        if init_a.children@.contains(c) {
            assert(proc_at(a, c as int).inner.parent == Some(IDLE_PID));
        }
    }
    assert forall|q: int| 0 <= q < b.len() implies ((#[trigger] b[q]) is Some <==> a[q] is Some) by {
        if q != pid && q != IDLE_PID && !pa.children@.contains(q as usize) {
        } else if pa.children@.contains(q as usize) {
            assert(b[q] == Some(reparented(proc_at(a, q))));
        }
    }
    // each process keeps its pid and stays well formed
    assert forall|q: int| #![trigger b[q]] has_proc(b, q) implies proc_at(b, q).pid == q && proc_at(b, q).inner.wf() by {
        if q == pid {
            assert(pb.tasks@.len() == 1);
            assert forall|i: int|
                0 <= i < pb.tasks@.len() && (#[trigger] pb.tasks@[i]) is Some && pb.tasks@[i]->0.res is Some
                    implies pb.tasks@[i]->0.res->0.tid == i && pb.task_res_allocator.is_allocated(i) by {
                assert(pb.tasks@[0]->0.res is None);
            }
        } else if q == IDLE_PID as int {
            assert(has_proc(a, q));
            let ca = init_a.children@;
            let cc = pa.children@;
            assert(init_b.children@.no_duplicates()) by {
                assert forall|i: int, j: int| 0 <= i < j < init_b.children@.len() implies init_b.children@[i]
                    != init_b.children@[j] by {
                    if i < ca.len() && j >= ca.len() {
                        assert(cc.contains(init_b.children@[j]));
                        assert(ca.contains(init_b.children@[i]));
                    }
                    if i >= ca.len() {
                        assert(init_b.children@[i] == cc[i - ca.len()]);
                        assert(init_b.children@[j] == cc[j - ca.len()]);
                    }
                }
            }
        } else if pa.children@.contains(q as usize) {
            assert(b[q] == Some(reparented(proc_at(a, q))));
        } else {
            assert(b[q] == a[q]);
        }
    }
    // children point back at their parent
    assert forall|p2: int, c: usize|
        has_proc(b, p2) && #[trigger] proc_at(b, p2).inner.children@.contains(c) implies has_proc(b, c as int)
        && proc_at(b, c as int).inner.parent == Some(p2 as usize) by {
        if p2 == pid {
        } else if p2 == IDLE_PID as int {
            let ca = init_a.children@;
            let k = choose|k: int| 0 <= k < init_b.children@.len() && init_b.children@[k] == c;
            if k < ca.len() {
                assert(ca[k] == c);
                assert(ca.contains(c));
                assert(proc_at(a, c as int).inner.parent == Some(IDLE_PID));
                assert(!pa.children@.contains(c)) by {
                    if pa.children@.contains(c) {
                        assert(proc_at(a, c as int).inner.parent == Some(pid));
                    }
                }
                assert(c != IDLE_PID);
                if c != pid {
                    assert(b[c as int] == a[c as int]);
                }
            } else {
                assert(pa.children@[k - ca.len()] == c);
                assert(pa.children@.contains(c));
            }
        } else if pa.children@.contains(p2 as usize) {
            assert(b[p2] == Some(reparented(proc_at(a, p2))));
            assert(proc_at(a, p2).inner.children@.contains(c));
            assert(proc_at(a, c as int).inner.parent == Some(p2 as usize));
            assert(c != IDLE_PID && !pa.children@.contains(c)) by {
                if pa.children@.contains(c) {
                    assert(proc_at(a, c as int).inner.parent == Some(pid));
                    assert(proc_at(a, p2).inner.parent == Some(pid));
                }
                if c == IDLE_PID {
                    assert(proc_at(a, IDLE_PID as int).inner.parent is None);
                }
            }
            if c != pid {
                assert(b[c as int] == a[c as int]);
            }
        } else {
            assert(b[p2] == a[p2]);
            assert(proc_at(a, c as int).inner.parent == Some(p2 as usize));
            assert(c != IDLE_PID && !pa.children@.contains(c)) by {
                if pa.children@.contains(c) {
                    assert(proc_at(a, c as int).inner.parent == Some(pid));
                }
                if c == IDLE_PID {
                    assert(proc_at(a, IDLE_PID as int).inner.parent is None);
                }
            }
            if c != pid {
                assert(b[c as int] == a[c as int]);
            }
        }
    }
    // parents list their children
    assert forall|c: int| has_proc(b, c) && (#[trigger] proc_at(b, c).inner.parent) is Some implies {
        let p2 = proc_at(b, c).inner.parent->0;
        &&& p2 != c
        &&& has_proc(b, p2 as int)
        &&& proc_at(b, p2 as int).inner.children@.contains(c as usize)
    } by {
        let ca = init_a.children@;
        if c == pid as int {
            let p2 = pa.parent->0;
            assert(proc_at(a, c).inner.parent is Some);
            assert(proc_at(a, p2 as int).inner.children@.contains(c as usize));
            if p2 == IDLE_PID {
                let k = choose|k: int| 0 <= k < ca.len() && ca[k] == c as usize;
                assert(init_b.children@[k] == c as usize);
            } else if pa.children@.contains(p2) {
                assert(b[p2 as int] == Some(reparented(proc_at(a, p2 as int))));
            } else {
                assert(b[p2 as int] == a[p2 as int]);
            }
        } else if c == IDLE_PID as int {
        } else if pa.children@.contains(c as usize) {
            assert(b[c] == Some(reparented(proc_at(a, c))));
            let k = choose|k: int| 0 <= k < pa.children@.len() && pa.children@[k] == c as usize;
            assert(init_b.children@[ca.len() + k] == c as usize);
        } else {
            assert(b[c] == a[c]);
            let p2 = proc_at(a, c).inner.parent->0;
            assert(proc_at(a, c).inner.parent is Some);
            assert(proc_at(a, p2 as int).inner.children@.contains(c as usize));
            assert(p2 != pid) by {
                if p2 == pid {
                    assert(pa.children@.contains(c as usize));
                }
            }
            if p2 == IDLE_PID {
                let k = choose|k: int| 0 <= k < ca.len() && ca[k] == c as usize;
                assert(init_b.children@[k] == c as usize);
            } else if pa.children@.contains(p2) {
                assert(b[p2 as int] == Some(reparented(proc_at(a, p2 as int))));
            } else {
                assert(b[p2 as int] == a[p2 as int]);
            }
        }
    }
    // zombies have no children
    assert forall|q: int| has_proc(b, q) && (#[trigger] proc_at(b, q).inner.is_zombie) implies proc_at(
        b,
        q,
    ).inner.children@.len() == 0 by {
        if q == pid as int {
        } else if q == IDLE_PID as int {
        } else if pa.children@.contains(q as usize) {
            assert(b[q] == Some(reparented(proc_at(a, q))));
        } else {
            assert(b[q] == a[q]);
        }
    }
}

proof fn lemma_thread_exit_wf(
    procs: Seq<Option<ProcessControlBlock>>,
    pids: RecycleAllocator,
    queue: Seq<TaskRef>,
    t: TaskRef,
    p: ProcessControlBlock,
)
    requires
        table_wf(procs, pids),
        sched_wf(procs, queue, Some(t)),
        p.pid == t.pid,
        p.inner.wf(),
        p.inner.parent == proc_at(procs, t.pid as int).inner.parent,
        p.inner.children@ == proc_at(procs, t.pid as int).inner.children@,
        p.inner.is_zombie == proc_at(procs, t.pid as int).inner.is_zombie,
        p.inner.tasks@.len() == proc_at(procs, t.pid as int).inner.tasks@.len(),
        forall|i: int|
            0 <= i < p.inner.tasks@.len() && i != t.tid ==> #[trigger] p.inner.tasks@[i]
                == proc_at(procs, t.pid as int).inner.tasks@[i],
        p.inner.tasks@[t.tid as int] is Some,
    ensures
        table_wf(procs.update(t.pid as int, Some(p)), pids),
        sched_wf(procs.update(t.pid as int, Some(p)), queue, None),
{
    let np = procs.update(t.pid as int, Some(p));
    let pid = t.pid as int;
    assert forall|q: int| 0 <= q < np.len() implies ((#[trigger] np[q]) is Some <==> procs[q] is Some)
        && (q != pid ==> np[q] == procs[q]) by {}
    assert forall|p2: int, c: usize|
        has_proc(np, p2) && #[trigger] proc_at(np, p2).inner.children@.contains(c) implies has_proc(np, c as int)
        && proc_at(np, c as int).inner.parent == Some(p2 as usize) by {
        assert(proc_at(procs, p2).inner.children@.contains(c));
    }
    assert forall|c: int| has_proc(np, c) && (#[trigger] proc_at(np, c).inner.parent) is Some implies {
        let p2 = proc_at(np, c).inner.parent->0;
        &&& p2 != c
        &&& has_proc(np, p2 as int)
        &&& proc_at(np, p2 as int).inner.children@.contains(c as usize)
    } by {
        assert(proc_at(procs, c).inner.parent is Some);
    }
    assert forall|p2: int| has_proc(np, p2) && (#[trigger] proc_at(np, p2).inner.is_zombie) implies proc_at(
        np,
        p2,
    ).inner.children@.len() == 0 by {
        assert(proc_at(procs, p2).inner.is_zombie);
    }
    assert forall|i: int| 0 <= i < queue.len() implies has_task(np, #[trigger] queue[i]) && task_at(np, queue[i]).res
        is Some && !proc_at(np, queue[i].pid as int).inner.is_zombie by {
        let x = queue[i];
        assert(has_task(procs, x));
        if x.pid == t.pid {
            assert(x != t) by {
                assert(queue.contains(x));
            }
            assert(x.tid != t.tid);
            assert(p.inner.tasks@[x.tid as int] == proc_at(procs, pid).inner.tasks@[x.tid as int]);
        }
    }
}


/// The running thread exits with `exit_code`; its thread id is given back.
/// When it is thread 0 of a process other than the first, the whole
/// process exits: it becomes a zombie keeping the exit code, its children
/// pass to the first process, its threads leave the ready queue and give
/// their ids back, and its descriptors, data pages and other threads go.
/// When it is thread 0 of the first process, the machine is to shut down.
pub fn exit_current_and_run_next(k: &mut Kernel, exit_code: i32) -> (ret: ExitOutcome)
    requires
        old(k).wf(),
        old(k).current is Some,
    ensures
        final(k).wf(),
        final(k).current is None,
        final(k).pid_allocator == old(k).pid_allocator,
        final(k).kernel_token == old(k).kernel_token,
        final(k).trap_handler == old(k).trap_handler,
        final(k).user_sstatus == old(k).user_sstatus,
        exit_done(*old(k), *final(k), exit_code, ret),
{
    let ghost a = old(k).procs@;
    let ghost q0 = old(k).ready_queue@;
    let t = k.current.take().unwrap();
    let pid = t.pid;
    let tid = t.tid;
    let ghost pa = proc_at(a, pid as int).inner;
    let mut p = k.procs[pid].take().unwrap();
    let mut task = p.inner.tasks[tid].unwrap();
    let res_tid = task.res.unwrap().tid;
    task.exit_code = Some(exit_code);
    task.res = None;
    p.inner.tasks[tid] = Some(task);
    p.inner.dealloc_tid(res_tid);
    proof {
        assert(res_tid == tid);
        assert forall|i: int|
            0 <= i < p.inner.tasks@.len() && (#[trigger] p.inner.tasks@[i]) is Some && p.inner.tasks@[i]->0.res
                is Some implies p.inner.tasks@[i]->0.res->0.tid == i && p.inner.task_res_allocator.is_allocated(
            i,
        ) by {
            assert(i != tid);
            assert(pa.tasks@[i] == p.inner.tasks@[i]);
        }
        assert(p.inner.wf());
    }
    if tid != 0 || pid == IDLE_PID {
        proof {
            lemma_thread_exit_wf(a, old(k).pid_allocator, q0, t, p);
        }
        k.procs[pid] = Some(p);
        proof {
            assert(k.procs@ =~= a.update(pid as int, Some(p)));
            assert(p.inner.tasks@ =~= pa.tasks@.update(tid as int, Some(exited_task(pa.tasks@[tid as int]->0, exit_code))));
        }
        if tid == 0 {
            return ExitOutcome::Shutdown { failure: exit_code != 0 };
        }
        return ExitOutcome::RunNext;
    }
    p.inner.is_zombie = true;
    p.inner.exit_code = exit_code;
    // the children pass to the first process
    let ghost kids = pa.children@;
    let ghost init_a = proc_at(a, IDLE_PID as int);
    let mut init = k.procs[IDLE_PID].take().unwrap();
    let mut i: usize = 0;
    while i < p.inner.children.len()
        invariant
            table_wf(a, old(k).pid_allocator),
            has_proc(a, pid as int),
            pid != IDLE_PID,
            pa == proc_at(a, pid as int).inner,
            kids == pa.children@,
            init_a == proc_at(a, IDLE_PID as int),
            p.inner.children@ == kids,
            k.current is None,
            k.ready_queue == old(k).ready_queue,
            k.pid_allocator == old(k).pid_allocator,
            k.kernel_token == old(k).kernel_token,
            k.trap_handler == old(k).trap_handler,
            k.user_sstatus == old(k).user_sstatus,
            i <= kids.len(),
            k.procs@.len() == a.len(),
            k.procs@[pid as int] is None,
            k.procs@[IDLE_PID as int] is None,
            init.pid == init_a.pid,
            init.inner == (ProcessControlBlockInner { children: init.inner.children, ..init_a.inner }),
            init.inner.children@ == init_a.inner.children@ + kids.subrange(0, i as int),
            forall|j: int| 0 <= j < i ==> #[trigger] k.procs@[kids[j] as int] == Some(reparented(proc_at(a, kids[j] as int))),
            forall|q: int|
                0 <= q < a.len() && q != pid && q != IDLE_PID && !kids.subrange(0, i as int).contains(q as usize)
                    ==> #[trigger] k.procs@[q] == a[q],
        decreases kids.len() - i,
    {
        let c = p.inner.children[i];
        proof {
            assert(a[pid as int] is Some);
            assert(pa.wf());
            assert(kids.no_duplicates());
            assert(kids.contains(c));
            assert(has_proc(a, c as int) && proc_at(a, c as int).inner.parent == Some(pid));
            assert(c != IDLE_PID) by {
                if c == IDLE_PID {
                    assert(proc_at(a, IDLE_PID as int).inner.parent is None);
                }
            }
            assert(!kids.subrange(0, i as int).contains(c)) by {
                if kids.subrange(0, i as int).contains(c) {
                    let k = choose|k: int| 0 <= k < i && kids.subrange(0, i as int)[k] == c;
                    assert(kids[k] == kids[i as int]);
                }
            }
            assert(k.procs@[c as int] == a[c as int]);
        }
        let mut cp = k.procs[c].take().unwrap();
        cp.inner.parent = Some(IDLE_PID);
        k.procs[c] = Some(cp);
        init.inner.children.push(c);
        proof {
            assert(cp == reparented(proc_at(a, c as int)));
            assert(kids.subrange(0, i + 1) =~= kids.subrange(0, i as int).push(c));
            assert(init.inner.children@ =~= init_a.inner.children@ + kids.subrange(0, i + 1));
            assert forall|j: int| 0 <= j < i + 1 implies #[trigger] k.procs@[kids[j] as int] == Some(
                reparented(proc_at(a, kids[j] as int)),
            ) by {
                assert(kids.contains(kids[j]));
                assert(proc_at(a, pid as int).inner.children@.contains(kids[j]));
                assert(has_proc(a, kids[j] as int));
                if j < i {
                    assert(kids[j] != kids[i as int]);
                }
            }
            assert forall|q: int|
                0 <= q < a.len() && q != pid && q != IDLE_PID && !kids.subrange(0, i + 1).contains(q as usize)
                    implies #[trigger] k.procs@[q] == a[q] by {
                assert(kids.subrange(0, i + 1)[i as int] == c);
                assert(q != c);
                assert(!kids.subrange(0, i as int).contains(q as usize)) by {
                    if kids.subrange(0, i as int).contains(q as usize) {
                        let k = choose|k: int| 0 <= k < i && kids.subrange(0, i as int)[k] == q as usize;
                        assert(kids.subrange(0, i + 1)[k] == q as usize);
                    }
                }
            }
        }
        i = i + 1;
    }
    k.procs[IDLE_PID] = Some(init);
    proof {
        assert(kids.subrange(0, kids.len() as int) =~= kids);
    }
    // every thread leaves the ready queue and gives its id back
    let ghost pm = p.inner;
    let ghost pr = k.procs@;
    proof {
        lemma_filter_all(q0, |x: TaskRef| !(x.pid == pid && x.tid < 0));
    }
    let mut i: usize = 0;
    while i < p.inner.tasks.len()
        invariant
            pm.wf(),
            pm.tasks@.len() == pa.tasks@.len(),
            forall|j: int| 0 <= j < pa.tasks@.len() ==> (#[trigger] pm.tasks@[j] is Some <==> pa.tasks@[j] is Some),
            k.current is None,
            k.pid_allocator == old(k).pid_allocator,
            k.kernel_token == old(k).kernel_token,
            k.trap_handler == old(k).trap_handler,
            k.user_sstatus == old(k).user_sstatus,
            k.procs@ == pr,
            has_proc(a, pid as int),
            pa == proc_at(a, pid as int).inner,
            sched_wf(a, q0, Some(t)),
            t.pid == pid,
            i <= pm.tasks@.len(),
            p.pid == pid,
            p.inner == (ProcessControlBlockInner {
                tasks: p.inner.tasks,
                task_res_allocator: p.inner.task_res_allocator,
                ..pm
            }),
            p.inner.tasks@.len() == pm.tasks@.len(),
            forall|j: int|
                0 <= j < pm.tasks@.len() ==> ((#[trigger] p.inner.tasks@[j]) is Some <==> pm.tasks@[j] is Some),
            forall|j: int|
                0 <= j < i && (#[trigger] p.inner.tasks@[j]) is Some ==> p.inner.tasks@[j]->0 == (TaskControlBlock {
                    res: None,
                    ..pm.tasks@[j]->0
                }),
            forall|j: int| i <= j < pm.tasks@.len() ==> #[trigger] p.inner.tasks@[j] == pm.tasks@[j],
            p.inner.task_res_allocator.wf(),
            p.inner.task_res_allocator.current == pm.task_res_allocator.current,
            p.inner.task_res_allocator.recycled@ == pm.task_res_allocator.recycled@ + live_tids(pm, i as int),
            forall|k: int|
                #[trigger] p.inner.task_res_allocator.is_allocated(k) <==> pm.task_res_allocator.is_allocated(k)
                    && !(k < i && live_res(pm, k)),
            k.ready_queue@.no_duplicates(),
            k.ready_queue@ == q0.filter(|x: TaskRef| !(x.pid == pid && x.tid < i)),
            forall|x: TaskRef|
                #[trigger] k.ready_queue@.contains(x) <==> q0.contains(x) && !(x.pid == pid && x.tid < i),
        decreases pm.tasks@.len() - i,
    {
        let ghost pi = |x: TaskRef| !(x.pid == pid && x.tid < i);
        let ghost pj = |x: TaskRef| !(x.pid == pid && x.tid < i + 1);
        if p.inner.tasks[i].is_some() {
            let ghost qb = k.ready_queue@;
            remove_task(&mut k.ready_queue, TaskRef { pid, tid: i });
            proof {
                lemma_remove_value_no_duplicates(qb, TaskRef { pid, tid: i });
                let e = TaskRef { pid, tid: i };
                lemma_remove_value_filter(q0, pi, e);
                lemma_filter_agree(q0, |x: TaskRef| pi(x) && x != e, pj);
            }
        } else {
            proof {
                assert forall|j: int| 0 <= j < q0.len() implies pi(#[trigger] q0[j]) == pj(q0[j]) by {
                    if q0[j].pid == pid && q0[j].tid == i {
                        assert(has_task(a, q0[j]));
                        assert(pa.tasks@[i as int] is Some);
                    }
                }
                lemma_filter_agree(q0, pi, pj);
            }
        }
        if p.inner.tasks[i].is_some() {
            let mut task = p.inner.tasks[i].unwrap();
            if let Some(res) = task.res {
                proof {
                    assert(p.inner.tasks@[i as int] == pm.tasks@[i as int]);
                    assert(live_res(pm, i as int));
                    assert(res.tid == i);
                }
                task.res = None;
                p.inner.tasks[i] = Some(task);
                p.inner.dealloc_tid(res.tid);
            }
        }
        proof {
            assert forall|x: TaskRef|
                #[trigger] k.ready_queue@.contains(x) <==> q0.contains(x) && !(x.pid == pid && x.tid < i + 1) by {
                if x.pid == pid && x.tid == i && q0.contains(x) {
                    let k = choose|k: int| 0 <= k < q0.len() && q0[k] == x;
                    assert(has_task(a, q0[k]));
                    assert(pa.tasks@[i as int] is Some);
                    assert(pm.tasks@[i as int] is Some);
                }
            }
            assert forall|k: int|
                #[trigger] p.inner.task_res_allocator.is_allocated(k) <==> pm.task_res_allocator.is_allocated(k)
                    && !(k < i + 1 && live_res(pm, k)) by {
                if k == i {
                    if !live_res(pm, k) {
                        assert(p.inner.tasks@[k] == pm.tasks@[k]);
                    }
                }
            }
        }
        i = i + 1;
    }
    p.inner.children.clear();
    p.inner.memory_set.recycle_data_pages();
    p.inner.fd_table.clear();
    let ghost first = p.inner.tasks@[0];
    let ghost pz = p;
    while p.inner.tasks.len() > 1
        invariant
            p.inner.tasks@.len() >= 1,
            p.inner.tasks@[0] == first,
            p.pid == pz.pid,
            p.inner == (ProcessControlBlockInner { tasks: p.inner.tasks, ..pz.inner }),
        decreases p.inner.tasks@.len(),
    {
        p.inner.tasks.pop();
    }
    k.procs[pid] = Some(p);
    proof {
        assert forall|j: int| 0 <= j < q0.len() implies (!(q0[j].pid == pid && q0[j].tid < pm.tasks@.len())) == (
        #[trigger] q0[j].pid != pid) by {
            assert(has_task(a, q0[j]));
        }
        lemma_filter_agree(
            q0,
            |x: TaskRef| !(x.pid == pid && x.tid < pm.tasks@.len()),
            |x: TaskRef| x.pid != pid,
        );
        let b = k.procs@;
        assert(p.inner.tasks@ =~= seq![Some(exited_task(pa.main_task(), exit_code))]);
        assert(process_exited(pa, p.inner, exit_code)) by {
            assert forall|k: int|
                #[trigger] p.inner.task_res_allocator.is_allocated(k) <==> pa.task_res_allocator.is_allocated(k)
                    && !live_res(pa, k) by {
                if k == 0 {
                    assert(live_res(pa, 0));
                } else {
                    assert(live_res(pm, k) == live_res(pa, k));
                }
            }
            assert(live_res(pa, 0));
            assert forall|i: int| 1 <= i implies live_res(pa, i) == #[trigger] live_res(pm, i) by {
                if 0 <= i < pa.tasks@.len() {
                    assert(pm.tasks@[i] == pa.tasks@[i]);
                }
            }
            lemma_live_tids_first(pa, pm, pa.tasks@.len() as int);
            let n = pa.tasks@.len() as int;
            assert(pm.task_res_allocator.recycled@ == pa.task_res_allocator.recycled@.push(0));
            assert(pa.task_res_allocator.recycled@ + live_tids(pa, n) =~= pa.task_res_allocator.recycled@.push(0)
                + live_tids(pm, n));
        }
        assert(table_after_exit(a, b, pid, exit_code)) by {
            assert forall|c: usize| #[trigger] pa.children@.contains(c) implies b[c as int] == Some(reparented(proc_at(a, c as int))) by {
                let j = choose|j: int| 0 <= j < kids.len() && kids[j] == c;
                assert(b[kids[j] as int] == Some(reparented(proc_at(a, kids[j] as int))));
            }
        }
        lemma_exit_table_wf(a, b, old(k).pid_allocator, pid, exit_code);
        assert forall|x: TaskRef| #[trigger] k.ready_queue@.contains(x) <==> q0.contains(x) && x.pid != pid by {
            if q0.contains(x) && x.pid == pid {
                let k = choose|k: int| 0 <= k < q0.len() && q0[k] == x;
                assert(has_task(a, q0[k]));
            }
        }
        assert forall|j: int| 0 <= j < k.ready_queue@.len() implies has_task(b, #[trigger] k.ready_queue@[j])
            && task_at(b, k.ready_queue@[j]).res is Some && !proc_at(b, k.ready_queue@[j].pid as int).inner.is_zombie by {
            let x = k.ready_queue@[j];
            assert(k.ready_queue@.contains(x));
            let k = choose|k: int| 0 <= k < q0.len() && q0[k] == x;
            assert(has_task(a, q0[k]));
            if x.pid == IDLE_PID {
            } else if pa.children@.contains(x.pid) {
                assert(b[x.pid as int] == Some(reparented(proc_at(a, x.pid as int))));
            } else {
                assert(b[x.pid as int] == a[x.pid as int]);
            }
        }
    }
    ExitOutcome::RunNext
}

} // verus!
