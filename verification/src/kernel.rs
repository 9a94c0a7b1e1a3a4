//! The kernel's process table and scheduler state, and the operations on the
//! current thread: giving up the processor, blocking, and its signals.
use vstd::prelude::*;
use crate::id::RecycleAllocator;
use crate::process::{ElfImage, ProcessControlBlock, ProcessControlBlockInner};
use crate::signal::SignalFlags;
use crate::task::{spec_ustack_top, TaskControlBlock, TaskStatus};

verus! {

/// The pid of the first process; when it exits the machine shuts down.
pub const IDLE_PID: usize = 0;

/// A thread: its process and its thread id there.
#[derive(Clone, Copy, PartialEq, Eq, Structural, Debug)]
pub struct TaskRef {
    pub pid: usize,
    pub tid: usize,
}

/// What the processor does after the current thread exits.
#[derive(Clone, Copy, PartialEq, Eq, Structural, Debug)]
pub enum ExitOutcome {
    /// Switch to the next ready thread.
    RunNext,
    /// The first process exited: power off, reporting failure when its exit code was not 0.
    Shutdown { failure: bool },
}

pub open spec fn has_proc(procs: Seq<Option<ProcessControlBlock>>, pid: int) -> bool {
    0 <= pid < procs.len() && procs[pid] is Some
}

pub open spec fn proc_at(procs: Seq<Option<ProcessControlBlock>>, pid: int) -> ProcessControlBlock {
    procs[pid]->0
}

pub open spec fn has_task(procs: Seq<Option<ProcessControlBlock>>, t: TaskRef) -> bool {
    &&& has_proc(procs, t.pid as int)
    &&& t.tid < proc_at(procs, t.pid as int).inner.tasks@.len()
    &&& proc_at(procs, t.pid as int).inner.tasks@[t.tid as int] is Some
}

pub open spec fn task_at(procs: Seq<Option<ProcessControlBlock>>, t: TaskRef) -> TaskControlBlock {
    proc_at(procs, t.pid as int).inner.tasks@[t.tid as int]->0
}

/// The process table: slot `pid` holds process `pid` exactly while `pid` is
/// handed out; parent and child links agree; the first process is alive and
/// has no parent.
pub open spec fn table_wf(procs: Seq<Option<ProcessControlBlock>>, pids: RecycleAllocator) -> bool {
    &&& pids.wf()
    &&& procs.len() == pids.current
    &&& forall|pid: int| 0 <= pid < procs.len() ==> ((#[trigger] procs[pid]) is Some <==> pids.is_allocated(pid))
    &&& forall|pid: int|
        #![trigger procs[pid]]
        has_proc(procs, pid) ==> proc_at(procs, pid).pid == pid && proc_at(procs, pid).inner.wf()
    &&& forall|p: int, c: usize|
        has_proc(procs, p) && #[trigger] proc_at(procs, p).inner.children@.contains(c) ==> has_proc(
            procs,
            c as int,
        ) && proc_at(procs, c as int).inner.parent == Some(p as usize)
    &&& forall|c: int|
        has_proc(procs, c) && (#[trigger] proc_at(procs, c).inner.parent) is Some ==> {
            let p = proc_at(procs, c).inner.parent->0;
            &&& p != c
            &&& has_proc(procs, p as int)
            &&& proc_at(procs, p as int).inner.children@.contains(c as usize)
        }
    &&& forall|p: int|
        has_proc(procs, p) && (#[trigger] proc_at(procs, p).inner.is_zombie) ==> proc_at(
            procs,
            p,
        ).inner.children@.len() == 0
    &&& has_proc(procs, IDLE_PID as int)
    &&& !proc_at(procs, IDLE_PID as int).inner.is_zombie
    &&& proc_at(procs, IDLE_PID as int).inner.parent is None
}

/// Threads that can run belong to live processes; the running thread has not
/// exited and is not also waiting in the ready queue, which holds no thread twice.
pub open spec fn sched_wf(
    procs: Seq<Option<ProcessControlBlock>>,
    queue: Seq<TaskRef>,
    current: Option<TaskRef>,
) -> bool {
    &&& queue.no_duplicates()
    &&& forall|i: int|
        0 <= i < queue.len() ==> has_task(procs, #[trigger] queue[i]) && task_at(
            procs,
            queue[i],
        ).res is Some && !proc_at(procs, queue[i].pid as int).inner.is_zombie
    &&& current matches Some(t) ==> {
        &&& has_task(procs, t)
        &&& task_at(procs, t).res is Some
        &&& !proc_at(procs, t.pid as int).inner.is_zombie
        &&& !queue.contains(t)
    }
}

/// Process `pid` is in the pid table: it exists and has not exited.
pub open spec fn is_listed(procs: Seq<Option<ProcessControlBlock>>, pid: int) -> bool {
    has_proc(procs, pid) && !proc_at(procs, pid).inner.is_zombie
}

pub struct Kernel {
    /// Slot `pid` holds process `pid`.
    pub procs: Vec<Option<ProcessControlBlock>>,
    pub pid_allocator: RecycleAllocator,
    /// Threads waiting for the processor, first to run first.
    pub ready_queue: Vec<TaskRef>,
    /// The thread on the processor.
    pub current: Option<TaskRef>,
    /// Page-table token of the kernel's address space.
    pub kernel_token: usize,
    /// Address of the kernel's trap handler.
    pub trap_handler: usize,
    /// Status word that user threads start with.
    pub user_sstatus: usize,
}

impl Kernel {
    pub open spec fn wf(&self) -> bool {
        &&& table_wf(self.procs@, self.pid_allocator)
        &&& sched_wf(self.procs@, self.ready_queue@, self.current)
    }

    pub open spec fn has_proc(&self, pid: int) -> bool {
        has_proc(self.procs@, pid)
    }

    pub open spec fn proc(&self, pid: int) -> ProcessControlBlock {
        proc_at(self.procs@, pid)
    }

    pub open spec fn cur_pid(&self) -> int {
        self.current->0.pid as int
    }

    /// The process of the running thread.
    pub open spec fn cur_proc(&self) -> ProcessControlBlock {
        self.proc(self.cur_pid())
    }


}

/// Same place in the process tree and the same live threads.
pub open spec fn same_shape(a: ProcessControlBlock, b: ProcessControlBlock) -> bool {
    &&& a.pid == b.pid
    &&& a.inner.parent == b.inner.parent
    &&& a.inner.children@ == b.inner.children@
    &&& a.inner.is_zombie == b.inner.is_zombie
    &&& a.inner.tasks@.len() == b.inner.tasks@.len()
    &&& forall|i: int|
        0 <= i < a.inner.tasks@.len() ==> ((#[trigger] a.inner.tasks@[i]) is Some
            <==> b.inner.tasks@[i] is Some) && (a.inner.tasks@[i] is Some
            ==> (a.inner.tasks@[i]->0.res is Some <==> b.inner.tasks@[i]->0.res is Some))
}

pub(crate) proof fn lemma_same_shape_keeps_wf(
    procs: Seq<Option<ProcessControlBlock>>,
    pids: RecycleAllocator,
    queue: Seq<TaskRef>,
    current: Option<TaskRef>,
    pid: int,
    p: ProcessControlBlock,
)
    requires
        table_wf(procs, pids),
        sched_wf(procs, queue, current),
        has_proc(procs, pid),
        same_shape(proc_at(procs, pid), p),
        p.inner.wf(),
    ensures
        table_wf(procs.update(pid, Some(p)), pids),
        sched_wf(procs.update(pid, Some(p)), queue, current),
{
    let np = procs.update(pid, Some(p));
    assert forall|q: int| 0 <= q < np.len() implies ((#[trigger] np[q]) is Some <==> procs[q] is Some)
        && (q != pid ==> np[q] == procs[q]) by {}
    assert forall|p2: int, c: usize|
        has_proc(np, p2) && #[trigger] proc_at(np, p2).inner.children@.contains(c) implies has_proc(
            np,
            c as int,
        ) && proc_at(np, c as int).inner.parent == Some(p2 as usize) by {
        assert(proc_at(procs, p2).inner.children@.contains(c));
    }
    assert forall|c: int| has_proc(np, c) && (#[trigger] proc_at(np, c).inner.parent) is Some implies {
        let p2 = proc_at(np, c).inner.parent->0;
        &&& p2 != c
        &&& has_proc(np, p2 as int)
        &&& proc_at(np, p2 as int).inner.children@.contains(c as usize)
    } by {
        assert(proc_at(procs, c).inner.parent is Some);
    }
    assert forall|p2: int| has_proc(np, p2) && (#[trigger] proc_at(np, p2).inner.is_zombie) implies proc_at(
        np,
        p2,
    ).inner.children@.len() == 0 by {
        assert(proc_at(procs, p2).inner.is_zombie);
    }
    assert forall|i: int| 0 <= i < queue.len() implies has_task(np, #[trigger] queue[i]) && task_at(
        np,
        queue[i],
    ).res is Some && !proc_at(np, queue[i].pid as int).inner.is_zombie by {
        let t = queue[i];
        assert(has_task(procs, t));
        if t.pid == pid {
            assert(proc_at(procs, pid).inner.tasks@[t.tid as int] is Some);
        }
    }
    if let Some(t) = current {
        if t.pid == pid {
            assert(proc_at(procs, pid).inner.tasks@[t.tid as int] is Some);
        }
    }
}


/// `b` is `a` with only the state of thread `t` set to `status`.
pub open spec fn status_set(
    a: Seq<Option<ProcessControlBlock>>,
    b: Seq<Option<ProcessControlBlock>>,
    t: TaskRef,
    status: TaskStatus,
) -> bool {
    &&& b.len() == a.len()
    &&& forall|q: int| 0 <= q < a.len() && q != t.pid ==> #[trigger] b[q] == a[q]
    &&& has_proc(b, t.pid as int)
    &&& proc_at(b, t.pid as int).pid == proc_at(a, t.pid as int).pid
    &&& proc_at(b, t.pid as int).inner == (ProcessControlBlockInner {
        tasks: proc_at(b, t.pid as int).inner.tasks,
        ..proc_at(a, t.pid as int).inner
    })
    &&& proc_at(b, t.pid as int).inner.tasks@ == proc_at(a, t.pid as int).inner.tasks@.update(
        t.tid as int,
        Some(TaskControlBlock { task_status: status, ..task_at(a, t) }),
    )
}

impl Kernel {
    /// Puts the first ready thread on the processor.
    pub fn schedule_next(&mut self) -> (ret: Option<TaskRef>)
        requires
            old(self).wf(),
            old(self).current is None,
        ensures
            final(self).wf(),
            old(self).ready_queue@.len() == 0 ==> ret is None && *final(self) == *old(self),
            old(self).ready_queue@.len() > 0 ==> {
                let t = old(self).ready_queue@[0];
                &&& ret == Some(t)
                &&& final(self).current == Some(t)
                &&& final(self).ready_queue@ == old(self).ready_queue@.drop_first()
                &&& status_set(old(self).procs@, final(self).procs@, t, TaskStatus::Running)
            },
            final(self).pid_allocator == old(self).pid_allocator,
            final(self).kernel_token == old(self).kernel_token,
            final(self).trap_handler == old(self).trap_handler,
            final(self).user_sstatus == old(self).user_sstatus,
    {
        if self.ready_queue.len() == 0 {
            return None;
        }
        let t = self.ready_queue.remove(0);
        proof {
            assert(has_task(self.procs@, t));
        }
        self.set_task_status(t, TaskStatus::Running);
        self.current = Some(t);
        proof {
            let q = old(self).ready_queue@;
            assert(self.ready_queue@ =~= q.drop_first());
            assert(!self.ready_queue@.contains(t)) by {
                if self.ready_queue@.contains(t) {
                    let k = choose|k: int| 0 <= k < self.ready_queue@.len() && self.ready_queue@[k] == t;
                    assert(q[k + 1] == q[0]);
                }
            }
            assert forall|i: int| 0 <= i < self.ready_queue@.len() implies has_task(
                self.procs@,
                #[trigger] self.ready_queue@[i],
            ) && task_at(self.procs@, self.ready_queue@[i]).res is Some && !proc_at(
                self.procs@,
                self.ready_queue@[i].pid as int,
            ).inner.is_zombie by {
                assert(self.ready_queue@[i] == q[i + 1]);
            }
        }
        Some(t)
    }

    /// Sets the state of thread `t`, keeping everything else.
    fn set_task_status(&mut self, t: TaskRef, status: TaskStatus)
        requires
            old(self).wf(),
            has_task(old(self).procs@, t),
        ensures
            table_wf(final(self).procs@, final(self).pid_allocator),
            sched_wf(final(self).procs@, old(self).ready_queue@, old(self).current),
            has_task(final(self).procs@, t),
            task_at(final(self).procs@, t).res == task_at(old(self).procs@, t).res,
            status_set(old(self).procs@, final(self).procs@, t, status),
            final(self).ready_queue == old(self).ready_queue,
            final(self).current == old(self).current,
            final(self).pid_allocator == old(self).pid_allocator,
            final(self).kernel_token == old(self).kernel_token,
            final(self).trap_handler == old(self).trap_handler,
            final(self).user_sstatus == old(self).user_sstatus,
    {
        let mut p = self.procs[t.pid].take().unwrap();
        let mut task = p.inner.tasks[t.tid].unwrap();
        task.task_status = status;
        p.inner.tasks[t.tid] = Some(task);
        proof {
            lemma_same_shape_keeps_wf(
                old(self).procs@,
                old(self).pid_allocator,
                old(self).ready_queue@,
                old(self).current,
                t.pid as int,
                p,
            );
        }
        self.procs[t.pid] = Some(p);
        proof {
            assert(self.procs@ =~= old(self).procs@.update(t.pid as int, Some(p)));
        }
    }
}


/// Removes the first occurrence of `task` from the ready queue.
pub fn remove_task(queue: &mut Vec<TaskRef>, task: TaskRef)
    ensures
        final(queue)@ == old(queue)@.remove_value(task),
{
    let mut i: usize = 0;
    while i < queue.len()
        invariant
            *queue == *old(queue),
            i <= queue@.len(),
            forall|j: int| 0 <= j < i ==> queue@[j] != task,
        decreases queue@.len() - i,
    {
        if queue[i] == task {
            proof {
                let q = old(queue)@;
                q.index_of_first_ensures(task);
                assert(q.contains(task));
                let k = q.index_of_first(task)->0;
                assert(k == i) by {
                    if k < i {
                        assert(q[k] != task);
                    }
                }
            }
            queue.remove(i);
            proof {
                assert(queue@ =~= old(queue)@.remove(i as int));
            }
            return;
        }
        i = i + 1;
    }
    proof {
        let q = old(queue)@;
        q.index_of_first_ensures(task);
        assert(!q.contains(task));
    }
}

/// Removing an element from a list without repeats leaves the others, without repeats.
pub proof fn lemma_remove_value_no_duplicates(s: Seq<TaskRef>, x: TaskRef)
    requires
        s.no_duplicates(),
    ensures
        s.remove_value(x).no_duplicates(),
        forall|y: TaskRef| #[trigger] s.remove_value(x).contains(y) <==> s.contains(y) && y != x,
{
    s.index_of_first_ensures(x);
    if s.contains(x) {
        let i = s.index_of_first(x)->0;
        let r = s.remove(i);
        assert forall|a: int, b: int| 0 <= a < b < r.len() implies r[a] != r[b] by {
            let a2 = if a < i { a } else { a + 1 };
            let b2 = if b < i { b } else { b + 1 };
            assert(r[a] == s[a2] && r[b] == s[b2]);
        }
        assert forall|y: TaskRef| #[trigger] r.contains(y) <==> s.contains(y) && y != x by {
            if r.contains(y) {
                let m = choose|m: int| 0 <= m < r.len() && r[m] == y;
                let m2 = if m < i { m } else { m + 1 };
                assert(s[m2] == y);
                assert(m2 != i);
            }
            if s.contains(y) && y != x {
                let m = choose|m: int| 0 <= m < s.len() && s[m] == y;
                assert(m != i);
                let m2 = if m < i { m } else { m - 1 };
                assert(r[m2] == y);
            }
        }
    }
}

/// The running thread gives up the processor and waits at the back of the ready queue.
pub fn suspend_current_and_run_next(k: &mut Kernel)
    requires
        old(k).wf(),
        old(k).current is Some,
    ensures
        final(k).wf(),
        final(k).current is None,
        final(k).ready_queue@ == old(k).ready_queue@.push(old(k).current->0),
        status_set(old(k).procs@, final(k).procs@, old(k).current->0, TaskStatus::Ready),
        final(k).pid_allocator == old(k).pid_allocator,
        final(k).kernel_token == old(k).kernel_token,
        final(k).trap_handler == old(k).trap_handler,
        final(k).user_sstatus == old(k).user_sstatus,
{
    let t = k.current.take().unwrap();
    k.set_task_status(t, TaskStatus::Ready);
    k.ready_queue.push(t);
    proof {
        let q = old(k).ready_queue@;
        assert(k.ready_queue@.no_duplicates()) by {
            assert forall|i: int, j: int|
                0 <= i < j < k.ready_queue@.len() implies k.ready_queue@[i]
                != k.ready_queue@[j] by {
                if j == q.len() {
                    assert(q.contains(q[i]));
                }
            }
        }
        assert forall|i: int| 0 <= i < k.ready_queue@.len() implies has_task(
            k.procs@,
            #[trigger] k.ready_queue@[i],
        ) && task_at(k.procs@, k.ready_queue@[i]).res is Some && !proc_at(
            k.procs@,
            k.ready_queue@[i].pid as int,
        ).inner.is_zombie by {
            if i < q.len() {
                assert(k.ready_queue@[i] == q[i]);
            }
        }
    }
}

/// The running thread leaves the processor without being queued again.
pub fn block_current_and_run_next(k: &mut Kernel)
    requires
        old(k).wf(),
        old(k).current is Some,
    ensures
        final(k).wf(),
        final(k).current is None,
        final(k).ready_queue@ == old(k).ready_queue@,
        status_set(old(k).procs@, final(k).procs@, old(k).current->0, TaskStatus::Blocked),
        final(k).pid_allocator == old(k).pid_allocator,
        final(k).kernel_token == old(k).kernel_token,
        final(k).trap_handler == old(k).trap_handler,
        final(k).user_sstatus == old(k).user_sstatus,
{
    let t = k.current.take().unwrap();
    k.set_task_status(t, TaskStatus::Blocked);
}

/// Takes `task` out of the ready queue.
pub fn remove_inactive_task(k: &mut Kernel, task: TaskRef)
    requires
        old(k).wf(),
    ensures
        final(k).wf(),
        final(k).ready_queue@ == old(k).ready_queue@.remove_value(task),
        !final(k).ready_queue@.contains(task),
        final(k).procs@ == old(k).procs@,
        final(k).current == old(k).current,
        final(k).pid_allocator == old(k).pid_allocator,
        final(k).kernel_token == old(k).kernel_token,
        final(k).trap_handler == old(k).trap_handler,
        final(k).user_sstatus == old(k).user_sstatus,
{
    remove_task(&mut k.ready_queue, task);
    proof {
        let q = old(k).ready_queue@;
        lemma_remove_value_no_duplicates(q, task);
        let r = k.ready_queue@;
        assert forall|j: int| 0 <= j < r.len() implies has_task(k.procs@, #[trigger] r[j])
            && task_at(k.procs@, r[j]).res is Some && !proc_at(
            k.procs@,
            r[j].pid as int,
        ).inner.is_zombie by {
            assert(r.contains(r[j]));
            assert(q.contains(r[j]));
            let k = choose|k: int| 0 <= k < q.len() && q[k] == r[j];
            assert(q[k] == r[j]);
        }
    }
}

/// Adds `signal` to the signals pending for the running thread's process.
pub fn current_add_signal(k: &mut Kernel, signal: SignalFlags)
    requires
        old(k).wf(),
        old(k).current is Some,
    ensures
        final(k).wf(),
        final(k).procs@ == old(k).procs@.update(
            old(k).cur_pid(),
            Some(ProcessControlBlock {
                inner: ProcessControlBlockInner {
                    signals: SignalFlags { bits: old(k).cur_proc().inner.signals.bits | signal.bits },
                    ..old(k).cur_proc().inner
                },
                ..old(k).cur_proc()
            }),
        ),
        final(k).ready_queue == old(k).ready_queue,
        final(k).current == old(k).current,
        final(k).pid_allocator == old(k).pid_allocator,
        final(k).kernel_token == old(k).kernel_token,
        final(k).trap_handler == old(k).trap_handler,
        final(k).user_sstatus == old(k).user_sstatus,
{
    let pid = k.current.unwrap().pid;
    let mut p = k.procs[pid].take().unwrap();
    p.inner.signals.insert(signal);
    proof {
        lemma_same_shape_keeps_wf(
            old(k).procs@,
            old(k).pid_allocator,
            old(k).ready_queue@,
            old(k).current,
            pid as int,
            p,
        );
    }
    k.procs[pid] = Some(p);
    proof {
        assert(k.procs@ =~= old(k).procs@.update(pid as int, Some(p)));
    }
}

/// The exit code and message of the first fatal signal pending for the
/// running thread's process.
pub fn check_signals_of_current(k: &Kernel) -> (ret: Option<(i32, &'static str)>)
    requires
        k.wf(),
        k.current is Some,
    ensures
        match ret {
            Some((code, msg)) => k.cur_proc().inner.signals.error_code() == Some(code)
                && msg@ == k.cur_proc().inner.signals.error_message(),
            None => k.cur_proc().inner.signals.error_code() is None,
        },
{
    let pid = k.current.unwrap().pid;
    let p = k.procs[pid].as_ref().unwrap();
    p.inner.signals.check_error()
}

/// The process with pid `pid`, if it has not exited.
pub fn pid2process(k: &Kernel, pid: usize) -> (ret: Option<&ProcessControlBlock>)
    requires
        k.wf(),
    ensures
        ret is Some <==> is_listed(k.procs@, pid as int),
        ret is Some ==> *ret->0 == k.proc(pid as int),
{
    if pid < k.procs.len() {
        match &k.procs[pid] {
            Some(p) => {
                if p.inner.is_zombie {
                    None
                } else {
                    Some(p)
                }
            },
            None => None,
        }
    } else {
        None
    }
}

/// Starts the kernel with the first process, pid `IDLE_PID`, running
/// `image` in thread 0, which waits in the ready queue.
pub fn add_initproc(
    image: ElfImage,
    kstack_top: usize,
    kernel_token: usize,
    trap_handler: usize,
    user_sstatus: usize,
) -> (ret: Kernel)
    requires
        spec_ustack_top(image.ustack_base, 0) <= usize::MAX,
    ensures
        ret.wf(),
        ret.procs@.len() == 1,
        ret.pid_allocator.current == 1,
        ret.pid_allocator.recycled@ == Seq::<usize>::empty(),
        ret.proc(IDLE_PID as int).is_new_process(
            IDLE_PID,
            image,
            kstack_top,
            kernel_token,
            trap_handler,
            user_sstatus,
        ),
        ret.ready_queue@ == seq![TaskRef { pid: IDLE_PID, tid: 0 }],
        ret.current is None,
        ret.kernel_token == kernel_token,
        ret.trap_handler == trap_handler,
        ret.user_sstatus == user_sstatus,
{
    let mut pid_allocator = RecycleAllocator::new();
    let pid = pid_allocator.allocate();
    let initproc = ProcessControlBlock::with_pid(
        pid,
        image,
        kstack_top,
        kernel_token,
        trap_handler,
        user_sstatus,
    );
    let procs = vec![Some(initproc)];
    let ready_queue = vec![TaskRef { pid, tid: 0 }];
    let ret = Kernel {
        procs,
        pid_allocator,
        ready_queue,
        current: None,
        kernel_token,
        trap_handler,
        user_sstatus,
    };
    proof {
        assert(ret.procs@[0] is Some);
        assert(ret.ready_queue@[0] == TaskRef { pid, tid: 0 });
    }
    ret
}

/// Filters by predicates that agree on the elements give the same result.
pub proof fn lemma_filter_agree(s: Seq<TaskRef>, p: spec_fn(TaskRef) -> bool, q: spec_fn(TaskRef) -> bool)
    requires
        forall|i: int| 0 <= i < s.len() ==> p(#[trigger] s[i]) == q(s[i]),
    ensures
        s.filter(p) == s.filter(q),
    decreases s.len(),
{
    reveal(Seq::filter);
    if s.len() > 0 {
        lemma_filter_agree(s.drop_last(), p, q);
    }
}

proof fn lemma_push_remove_value(t: Seq<TaskRef>, l: TaskRef, e: TaskRef)
    requires
        l != e,
    ensures
        t.push(l).remove_value(e) == t.remove_value(e).push(l),
{
    let u = t.push(l);
    t.index_of_first_ensures(e);
    u.index_of_first_ensures(e);
    if t.contains(e) {
        let k = t.index_of_first(e)->0;
        assert(u.contains(e)) by {
            assert(u[k] == e);
        }
        let k2 = u.index_of_first(e)->0;
        assert(k2 == k) by {
            if k2 < k {
                assert(t[k2] == e);
            } else if k2 > k {
                assert(u[k] == e);
            }
        }
        assert(u.remove(k) =~= t.remove(k).push(l));
    } else {
        assert(!u.contains(e)) by {
            if u.contains(e) {
                let j = choose|j: int| 0 <= j < u.len() && u[j] == e;
                if j < t.len() {
                    assert(t[j] == e);
                }
            }
        }
    }
}

/// Removing `e` from a filtered list without repeats is filtering `e` out too.
pub proof fn lemma_remove_value_filter(s: Seq<TaskRef>, p: spec_fn(TaskRef) -> bool, e: TaskRef)
    requires
        s.no_duplicates(),
    ensures
        s.filter(p).remove_value(e) == s.filter(|x: TaskRef| p(x) && x != e),
    decreases s.len(),
{
    reveal(Seq::filter);
    let pe = |x: TaskRef| p(x) && x != e;
    if s.len() == 0 {
        s.filter(p).index_of_first_ensures(e);
    } else {
        let s1 = s.drop_last();
        let l = s.last();
        assert(s1.no_duplicates()) by {
            assert forall|i: int, j: int| 0 <= i < j < s1.len() implies s1[i] != s1[j] by {
                assert(s[i] == s1[i] && s[j] == s1[j]);
            }
        }
        lemma_remove_value_filter(s1, p, e);
        let f1 = s1.filter(p);
        assert(s.filter(p) == if p(l) { f1.push(l) } else { f1 });
        assert(s.filter(pe) == if pe(l) { s1.filter(pe).push(l) } else { s1.filter(pe) });
        if p(l) {
            if l == e {
                assert(!s1.contains(e)) by {
                    if s1.contains(e) {
                        let j = choose|j: int| 0 <= j < s1.len() && s1[j] == e;
                        assert(s[j] == s[s.len() - 1]);
                    }
                }
                assert(!f1.contains(e)) by {
                    if f1.contains(e) {
                        s1.lemma_filter_contains_rev(p, e);
                    }
                }
                let u = f1.push(e);
                u.index_of_first_ensures(e);
                assert(u[f1.len() as int] == e);
                let k = u.index_of_first(e)->0;
                assert(k == f1.len()) by {
                    if k < f1.len() {
                        assert(f1[k] == e);
                    }
                }
                assert(u.remove(k) =~= f1);
                assert forall|i: int| 0 <= i < s1.len() implies p(#[trigger] s1[i]) == pe(s1[i]) by {
                    assert(s1[i] != e) by {
                        if s1[i] == e {
                            assert(s1.contains(e));
                        }
                    }
                }
                lemma_filter_agree(s1, p, pe);
            } else {
                lemma_push_remove_value(f1, l, e);
            }
        }
    }
}

/// Filtering by a predicate that holds of every element keeps the list.
pub proof fn lemma_filter_all(s: Seq<TaskRef>, p: spec_fn(TaskRef) -> bool)
    requires
        forall|i: int| 0 <= i < s.len() ==> p(#[trigger] s[i]),
    ensures
        s.filter(p) == s,
    decreases s.len(),
{
    reveal(Seq::filter);
    if s.len() > 0 {
        lemma_filter_all(s.drop_last(), p);
        assert(s.drop_last().push(s.last()) =~= s);
    }
}

} // verus!
