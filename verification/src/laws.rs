//! Properties that relate several operations or hold in every state.
use vstd::prelude::*;
use crate::action::SignalAction;
use crate::exit::{exit_done, table_after_exit};
use crate::id::RecycleAllocator;
use crate::kernel::{has_proc, is_listed, proc_at, table_wf, ExitOutcome, Kernel, TaskRef, IDLE_PID};
use crate::process::{
    arg_addr, arg_bytes, args_size, args_user_sp, argv_base, fd_allocated, lemma_strings_size_monotonic,
    strings_size, ElfImage, FileHandle, MemorySet, ProcessControlBlock, ProcessControlBlockInner, WORD_BYTES,
};
use crate::signal::{sig_bit, MAX_SIG};
use crate::signal_handling::{
    acted, deliverable, handler_entered, is_kernel_signal, kernel_signals_acted, lowest_user_signal,
    signals_checked,
};
use crate::syscall::{
    action_installed, child_reaped, no_child_matches, reapable, sigaction_accepted, sigaction_reply, sigreturned,
    time_reply,
};
use crate::signal::SignalFlags;
use crate::timer::{trigger_for, CLOCK_FREQ, MSEC_PER_SEC, TICKS_PER_SEC};

verus! {

/// A freed id is the next one handed out.
pub proof fn lemma_freed_id_is_next(a: RecycleAllocator, b: RecycleAllocator, id: usize)
    requires
        b.current == a.current,
        b.recycled@ == a.recycled@.push(id),
    ensures
        b.next_id() == id,
{
}

/// In every consistent table the parent of a process has not exited: when a
/// process exits, its children pass to the first process.
pub proof fn lemma_parent_is_alive(procs: Seq<Option<ProcessControlBlock>>, pids: RecycleAllocator, c: int)
    requires
        table_wf(procs, pids),
        has_proc(procs, c),
        proc_at(procs, c).inner.parent is Some,
    ensures
        is_listed(procs, proc_at(procs, c).inner.parent->0 as int),
{
    let p = proc_at(procs, c).inner.parent->0;
    assert(proc_at(procs, p as int).inner.children@.contains(c as usize));
}

/// A process that exited with `code` stays a child of its parent until the
/// parent waits for it, and waiting for it (or for any child) finds it
/// exited with `code`.
pub proof fn lemma_exited_child_can_be_reaped(
    a: Seq<Option<ProcessControlBlock>>,
    b: Seq<Option<ProcessControlBlock>>,
    pids: RecycleAllocator,
    pid: usize,
    code: i32,
)
    requires
        table_wf(a, pids),
        has_proc(a, pid as int),
        pid != IDLE_PID,
        proc_at(a, pid as int).inner.parent is Some,
        table_after_exit(a, b, pid, code),
    ensures
        has_proc(b, proc_at(a, pid as int).inner.parent->0 as int),
        proc_at(b, proc_at(a, pid as int).inner.parent->0 as int).inner.children@.contains(pid),
        proc_at(b, pid as int).inner.exit_code == code,
        reapable(b, -1isize, pid),
        pid <= isize::MAX ==> reapable(b, pid as isize, pid),
{
    let par = proc_at(a, pid as int).inner.parent->0;
    let pa = proc_at(a, pid as int).inner;
    assert(proc_at(a, par as int).inner.children@.contains(pid));
    if par == IDLE_PID {
        let init_a = proc_at(a, IDLE_PID as int).inner.children@;
        let k = choose|k: int| 0 <= k < init_a.len() && init_a[k] == pid;
        assert(proc_at(b, IDLE_PID as int).inner.children@[k] == pid);
    } else if pa.children@.contains(par) {
        assert(b[par as int] == Some(crate::exit::reparented(proc_at(a, par as int))));
    } else {
        assert(par != pid);
        assert(b[par as int] == a[par as int]);
    }
}

/// After an action is installed for a signal, the signal's entry reads it
/// back, so the next `sys_sigaction` for that signal returns it; the other
/// entries keep theirs.
pub proof fn lemma_sigaction_read_back(k0: Kernel, k1: Kernel, signum: int, action: SignalAction)
    requires
        action_installed(k0, k1, signum, action),
        0 <= signum < 32,
    ensures
        k1.proc(k0.cur_pid()).inner.signal_actions.table@[signum] == action,
        forall|s: int|
            0 <= s < 32 && s != signum ==> #[trigger] k1.proc(k0.cur_pid()).inner.signal_actions.table@[s]
                == k0.cur_proc().inner.signal_actions.table@[s],
{
}

/// Returning from a user signal handler undoes its entry on thread 0: the
/// thread has the registers it had before, and no signal is being handled.
pub proof fn lemma_sigreturn_undoes_handler_entry(
    a: ProcessControlBlockInner,
    b: ProcessControlBlockInner,
    c: ProcessControlBlockInner,
    sig: usize,
    signal: SignalFlags,
)
    requires
        a.wf(),
        handler_entered(a, b, sig, signal),
        a.signal_actions.table@[sig as int].handler != 0,
        sigreturned(b, c),
    ensures
        c.tasks@ == a.tasks@,
        c.handling_sig == -1,
        c.signals.bits == a.signals.bits ^ signal.bits,
{
    let t = a.main_task();
    assert(c.tasks@[0] == Some(t));
    assert(a.tasks@[0] == Some(t));
    assert(c.tasks@ =~= a.tasks@);
}

/// `alloc_fd` does not take the slot it returns: asking again on the table
/// it left gives the same descriptor and leaves the table as it is.
pub proof fn lemma_alloc_fd_repeats(
    t0: Seq<Option<FileHandle>>,
    fd1: usize,
    t1: Seq<Option<FileHandle>>,
    fd2: usize,
    t2: Seq<Option<FileHandle>>,
)
    requires
        fd_allocated(t0, fd1, t1),
        fd_allocated(t1, fd2, t2),
    ensures
        fd2 == fd1,
        t2 == t1,
{
    assert(fd1 < t1.len() && t1[fd1 as int] is None) by {
        if fd1 == t0.len() {
            assert(t1[fd1 as int] == None::<FileHandle>);
        }
    }
    assert forall|i: int| 0 <= i < fd1 implies (#[trigger] t1[i]) is Some by {
        assert(t0[i] is Some);
        if fd1 == t0.len() {
            assert(t1[i] == t0[i]);
        }
    }
    if fd2 < fd1 {
        assert(t1[fd2 as int] is Some);
    }
    if fd2 > fd1 {
        assert(t1[fd1 as int] is Some);
    }
}

/// A child that `waitpid` reaped is never returned again: as long as the
/// process gains no children (by forking or by taking over orphans), no
/// later `waitpid` for that pid finds a matching child, so it returns -1.
pub proof fn lemma_reaped_child_not_returned_again(k0: Kernel, k1: Kernel, k2: Kernel, c: usize)
    requires
        k0.wf(),
        k0.current is Some,
        child_reaped(k0, k1, c),
        c <= isize::MAX,
        k2.current is Some,
        k2.cur_pid() == k0.cur_pid(),
        forall|x: usize|
            #[trigger] k2.cur_proc().inner.children@.contains(x) ==> k1.proc(k0.cur_pid()).inner.children@.contains(x),
    ensures
        no_child_matches(k2.cur_proc().inner.children@, c as isize),
{
    let kids = k0.cur_proc().inner.children@;
    let w = choose|w: int| 0 <= w < kids.len() && #[trigger] kids[w] == c && k1.proc(k0.cur_pid()).inner.children@
        == kids.remove(w);
    let kids1 = k1.proc(k0.cur_pid()).inner.children@;
    assert(k0.has_proc(k0.cur_pid())) by {
        assert(crate::kernel::has_task(k0.procs@, k0.current->0));
    }
    assert(kids.no_duplicates());
    assert(!kids1.contains(c)) by {
        if kids1.contains(c) {
            let j = choose|j: int| 0 <= j < kids1.len() && kids1[j] == c;
            if j < w {
                assert(kids[j] == c);
            } else {
                assert(kids[j + 1] == c);
            }
        }
    }
    let kids2 = k2.cur_proc().inner.children@;
    assert forall|i: int| 0 <= i < kids2.len() implies !crate::syscall::wait_matches(c as isize, #[trigger] kids2[i]) by {
        assert(kids2.contains(kids2[i]));
        assert((c as isize) as usize == c);
    }
}

/// An installed action is what `sys_sigaction` hands back for that signal
/// later, however much happened in between, as long as the entry of the
/// running thread's process for the signal was not changed.
pub proof fn lemma_sigaction_reads_back_later(
    k0: Kernel,
    k1: Kernel,
    k2: Kernel,
    signum: i32,
    action: SignalAction,
    action_addr: usize,
    old_action_addr: usize,
)
    requires
        0 <= signum <= MAX_SIG,
        action_installed(k0, k1, signum as int, action),
        k2.cur_pid() == k0.cur_pid(),
        k2.cur_proc().inner.signal_actions.table@[signum as int] == k1.proc(
            k0.cur_pid(),
        ).inner.signal_actions.table@[signum as int],
        sigaction_accepted(signum, action_addr, old_action_addr),
    ensures
        sigaction_reply(k2, signum, action_addr, old_action_addr) == (0isize, Some(action)),
{
}

/// Returning from a user signal handler, however long after entering it,
/// gives thread 0 back the registers it had before the handler was entered
/// and returns their `x10`, as long as the saved registers were left alone.
pub proof fn lemma_sigreturn_restores_entry(
    a: ProcessControlBlockInner,
    b: ProcessControlBlockInner,
    c: ProcessControlBlockInner,
    d: ProcessControlBlockInner,
    sig: usize,
    signal: SignalFlags,
)
    requires
        a.wf(),
        handler_entered(a, b, sig, signal),
        a.signal_actions.table@[sig as int].handler != 0,
        c.trap_ctx_backup == b.trap_ctx_backup,
        c.tasks@.len() >= 1,
        sigreturned(c, d),
    ensures
        d.tasks@[0] is Some,
        d.main_task().trap_cx == a.main_task().trap_cx,
        c.trap_ctx_backup->0.x@[10] == a.main_task().trap_cx.x@[10],
        d.handling_sig == -1,
{
}

/// What an exit leads to: the machine powers off exactly when thread 0 of
/// the first process exits, reporting failure exactly for a nonzero exit
/// code (negative ones included); when thread 0 of another process exits,
/// the process is left a zombie holding the exit code and its children
/// join those of the first process.
pub proof fn lemma_exit_outcome(k0: Kernel, k1: Kernel, code: i32, ret: ExitOutcome)
    requires
        k0.current is Some,
        exit_done(k0, k1, code, ret),
    ensures
        (ret is Shutdown) <==> (k0.current->0.pid == IDLE_PID && k0.current->0.tid == 0),
        ret matches ExitOutcome::Shutdown { failure } ==> (failure <==> code != 0),
        k0.current->0.tid == 0 && k0.current->0.pid != IDLE_PID ==> {
            let pid = k0.current->0.pid as int;
            &&& has_proc(k1.procs@, pid)
            &&& k1.proc(pid).inner.is_zombie
            &&& k1.proc(pid).inner.exit_code == code
            &&& k1.proc(pid).inner.children@.len() == 0
            &&& k1.proc(IDLE_PID as int).inner.children@ == k0.proc(IDLE_PID as int).inner.children@ + k0.proc(
                pid,
            ).inner.children@
            &&& forall|i: int| 0 <= i < k1.ready_queue@.len() ==> (#[trigger] k1.ready_queue@[i]).pid != pid
        },
{
    let t = k0.current->0;
    if t.tid == 0 && t.pid != IDLE_PID {
        let pred = |x: TaskRef| x.pid != t.pid;
        assert(k1.ready_queue@ == k0.ready_queue@.filter(pred));
        broadcast use vstd::seq_lib::group_filter_ensures;
        assert forall|i: int| 0 <= i < k1.ready_queue@.len() implies (#[trigger] k1.ready_queue@[i]).pid != t.pid by {
            assert(pred(k0.ready_queue@.filter(pred)[i]));
        }
    }
}

/// A forked child starts with the signal state of a new process, whatever
/// the parent has pending, masked or installed: no pending signal, no mask,
/// default actions, no handler running, neither killed nor stopped; it has
/// no children yet, exit code 0, and the forking process as its parent.
pub proof fn lemma_forked_child_starts_fresh(
    child: ProcessControlBlock,
    parent: ProcessControlBlock,
    child_pid: usize,
    memory_set: MemorySet,
    kstack_top: usize,
)
    requires
        child.forked_from(parent, child_pid, memory_set, kstack_top),
    ensures
        child.inner.signals.bits == 0,
        child.inner.signal_mask.bits == 0,
        child.inner.signal_actions.is_default(),
        child.inner.handling_sig == -1,
        !child.inner.killed,
        !child.inner.frozen,
        child.inner.trap_ctx_backup is None,
        !child.inner.is_zombie,
        child.inner.children@.len() == 0,
        child.inner.exit_code == 0,
        child.inner.parent == Some(parent.pid),
        child.pid == child_pid,
        child.inner.fd_table@ == parent.inner.fd_table@,
        child.inner.tasks@.len() == 1,
{
}

/// A new process starts with no pending signal, no mask, default actions,
/// no parent and no children.
pub proof fn lemma_new_process_starts_fresh(
    p: ProcessControlBlock,
    pid: usize,
    image: ElfImage,
    kstack_top: usize,
    kernel_token: usize,
    trap_handler: usize,
    sstatus: usize,
)
    requires
        p.is_new_process(pid, image, kstack_top, kernel_token, trap_handler, sstatus),
    ensures
        p.inner.signals.bits == 0,
        p.inner.signal_mask.bits == 0,
        p.inner.signal_actions.is_default(),
        p.inner.handling_sig == -1,
        !p.inner.killed,
        !p.inner.frozen,
        p.inner.parent is None,
        p.inner.children@.len() == 0,
        p.inner.tasks@.len() == 1,
{
}

proof fn lemma_lowest_user_signal_is(a: ProcessControlBlockInner, from: int, s: u32)
    requires
        0 <= from <= s < 32,
        deliverable(a, s),
        !is_kernel_signal(s),
        forall|j: u32| from <= j < s ==> !#[trigger] deliverable(a, j),
    ensures
        lowest_user_signal(a, from) == Some(s),
    decreases s - from,
{
    if from < s {
        assert(!deliverable(a, from as u32));
        lemma_lowest_user_signal_is(a, from + 1, s);
    }
}

/// A pending, unmasked signal other than SIGDEF (0), SIGKILL (9), SIGCONT
/// (18) and SIGSTOP (19), the lowest pending unmasked one, whose action has
/// a handler, is delivered to that handler when no handler is running:
/// thread 0 resumes at the handler with the signal number in `x10` and its
/// registers saved, the signal is no longer pending and is the one being
/// handled, and the process is neither killed nor stopped or resumed by it.
pub proof fn lemma_user_signal_enters_its_handler(a: ProcessControlBlockInner, b: ProcessControlBlockInner, s: u32)
    requires
        signals_checked(a, b),
        s < 32,
        s != 0,
        s != 9,
        s != 18,
        s != 19,
        a.handling_sig == -1,
        a.signals.has(s),
        !a.signal_mask.has(s),
        forall|j: u32| j < s ==> !(#[trigger] a.signals.has(j) && !a.signal_mask.has(j)),
        a.signal_actions.table@[s as int].handler != 0,
    ensures
        b.handling_sig == s as isize,
        b.killed == a.killed,
        b.frozen == a.frozen,
        !b.signals.has(s),
        b.trap_ctx_backup == Some(a.main_task().trap_cx),
        b.tasks@[0] is Some,
        b.main_task().trap_cx.sepc == a.signal_actions.table@[s as int].handler,
        b.main_task().trap_cx.x@[10] == s as usize,
{
    assert forall|j: u32| 0 <= j < s implies !#[trigger] deliverable(a, j) by {
        assert(!(a.signals.has(j) && !a.signal_mask.has(j)));
    }
    lemma_lowest_user_signal_is(a, 0, s);
    let k = kernel_signals_acted(a, s as int);
    assert(!acted(a, 9, s as int) && !acted(a, 0, s as int) && !acted(a, 18, s as int) && !acted(a, 19, s as int));
    let x = a.signals.bits;
    assert(x ^ 0u32 ^ 0u32 == x) by (bit_vector);
    assert(k.signals.bits == x);
    assert(x & (1u32 << s) == (1u32 << s) && s < 32 ==> (x ^ (1u32 << s)) & (1u32 << s) != (1u32 << s))
        by (bit_vector);
}

/// The arguments `exec` puts on the stack are packed below the pointer
/// array, each ending right where the previous one starts, and the stack
/// pointer a program starts with is word aligned, below all of them and not
/// below address 0.
pub proof fn lemma_args_packed(top: int, args: Seq<String>)
    requires
        args_size(args) <= top,
    ensures
        argv_base(top, args.len() as int) + (args.len() + 1) * WORD_BYTES == top,
        forall|i: int|
            0 <= i < args.len() ==> #[trigger] arg_addr(top, args, i) + arg_bytes(args[i]).len() + 1 == if i == 0 {
                argv_base(top, args.len() as int)
            } else {
                arg_addr(top, args, i - 1)
            },
        forall|i: int| 0 <= i < args.len() ==> args_user_sp(top, args) <= #[trigger] arg_addr(top, args, i),
        args_user_sp(top, args) <= argv_base(top, args.len() as int),
        args_user_sp(top, args) % (WORD_BYTES as int) == 0,
        args_user_sp(top, args) >= 0,
{
    let n = args.len() as int;
    lemma_strings_size_monotonic(args, 0, n);
    assert forall|i: int| 0 <= i < args.len() implies args_user_sp(top, args) <= #[trigger] arg_addr(top, args, i) by {
        lemma_strings_size_monotonic(args, i + 1, n);
    }
    let sp = argv_base(top, n) - strings_size(args, n);
    assert(sp >= 0);
    assert(sp == 8 * (sp / 8) + sp % 8);
    assert((sp - sp % 8) % 8 == 0);
}

proof fn lemma_lowest_user_signal(a: ProcessControlBlockInner, from: int)
    ensures
        lowest_user_signal(a, from) matches Some(u) ==> deliverable(a, u) && !is_kernel_signal(u) && u < 32,
    decreases 32 - from,
{
    if 0 <= from <= 31 && !(deliverable(a, from as u32) && !is_kernel_signal(from as u32)) {
        lemma_lowest_user_signal(a, from + 1);
    }
}

proof fn lemma_flip_keeps(x: u32, f: u32, s: u32)
    requires
        s < 32,
        f == 0 || exists|j: u32| j < 32 && j != s && f == sig_bit(j),
    ensures
        (x ^ f) & sig_bit(s) == x & sig_bit(s),
{
    if f == 0 {
        assert(x ^ 0 == x) by (bit_vector);
    } else {
        let j = choose|j: u32| j < 32 && j != s && f == sig_bit(j);
        assert(j < 32 && s < 32 && j != s ==> (x ^ (1u32 << j)) & (1u32 << s) == x & (1u32 << s)) by (bit_vector);
    }
}

/// The kernel acts on its own signals when no user signal below SIGSTOP is
/// deliverable and no handler is running: a pending, unmasked SIGKILL or
/// SIGDEF kills the process; a pending, unmasked SIGSTOP stops it and is
/// cleared; otherwise a pending, unmasked SIGCONT resumes it and is
/// cleared. A killed process stays killed.
pub proof fn lemma_kernel_signals_take_effect(a: ProcessControlBlockInner, b: ProcessControlBlockInner)
    requires
        signals_checked(a, b),
        a.handling_sig == -1,
        forall|j: u32|
            j < 20 && j != 0 && j != 9 && j != 18 && j != 19 ==> !(#[trigger] a.signals.has(j)
                && !a.signal_mask.has(j)),
    ensures
        a.killed ==> b.killed,
        a.signals.has(9) && !a.signal_mask.has(9) ==> b.killed,
        a.signals.has(0) && !a.signal_mask.has(0) ==> b.killed,
        a.signals.has(19) && !a.signal_mask.has(19) ==> b.frozen && !b.signals.has(19),
        a.signals.has(18) && !a.signal_mask.has(18) && !(a.signals.has(19) && !a.signal_mask.has(19))
            ==> !b.frozen && !b.signals.has(18),
{
    let u = lowest_user_signal(a, 0);
    lemma_lowest_user_signal(a, 0);
    let upto = if u is Some { u->0 as int } else { 32 };
    if let Some(v) = u {
        assert(a.signals.has(v) && !a.signal_mask.has(v));
        assert(v >= 20);
    }
    let k = kernel_signals_acted(a, upto);
    let x = a.signals.bits;
    let c18: u32 = if acted(a, 18, upto) { sig_bit(18) } else { 0 };
    let c19: u32 = if acted(a, 19, upto) { sig_bit(19) } else { 0 };
    assert(k.signals.bits == x ^ c18 ^ c19);
    let y = x ^ c18 ^ c19;
    // bit 19 after the flips
    if acted(a, 19, upto) {
        lemma_flip_keeps(x, c18, 19);
        assert((x ^ c18) & sig_bit(19) == sig_bit(19));
        let z = x ^ c18;
        assert(z & (1u32 << 19u32) == (1u32 << 19u32) ==> (z ^ (1u32 << 19u32)) & (1u32 << 19u32) != (1u32
            << 19u32)) by (bit_vector);
        assert(y & sig_bit(19) != sig_bit(19));
    }
    if acted(a, 18, upto) && !acted(a, 19, upto) {
        let z = x;
        assert(z & (1u32 << 18u32) == (1u32 << 18u32) ==> (z ^ (1u32 << 18u32)) & (1u32 << 18u32) != (1u32
            << 18u32)) by (bit_vector);
        assert((x ^ c18) & sig_bit(18) != sig_bit(18));
        lemma_flip_keeps(x ^ c18, c19, 18);
        assert(y & sig_bit(18) != sig_bit(18));
    }
    if let Some(v) = u {
        if k.signal_actions.table@[v as int].handler != 0 {
            lemma_flip_keeps(y, sig_bit(v), 19);
            lemma_flip_keeps(y, sig_bit(v), 18);
        }
    }
}

/// A signal masked by the process is never delivered: checking the pending
/// signals leaves it pending (or not) as it was, and enters no handler for it.
pub proof fn lemma_masked_signal_not_delivered(a: ProcessControlBlockInner, b: ProcessControlBlockInner, s: u32)
    requires
        signals_checked(a, b),
        s < 32,
        a.signal_mask.has(s),
    ensures
        b.signals.has(s) == a.signals.has(s),
        b.handling_sig == a.handling_sig || b.handling_sig != s as isize,
{
    let u = lowest_user_signal(a, 0);
    lemma_lowest_user_signal(a, 0);
    let upto = if u is Some { u->0 as int } else { 32 };
    let x = a.signals.bits;
    let c18: u32 = if acted(a, 18, upto) { sig_bit(18) } else { 0 };
    let c19: u32 = if acted(a, 19, upto) { sig_bit(19) } else { 0 };
    assert(!deliverable(a, s));
    if acted(a, 18, upto) {
        assert(s != 18);
    }
    if acted(a, 19, upto) {
        assert(s != 19);
    }
    lemma_flip_keeps(x, c18, s);
    lemma_flip_keeps(x ^ c18, c19, s);
    if let Some(v) = u {
        assert(v != s);
        let k = crate::signal_handling::kernel_signals_acted(a, upto);
        if a.signal_actions.table@[v as int].handler != 0 {
            lemma_flip_keeps(k.signals.bits, sig_bit(v), s);
        }
    }
}

/// A pid that is not in the table is nobody's parent and nobody's child, so
/// a reaped process leaves nothing pointing at it.
pub proof fn lemma_absent_pid_unreferenced(procs: Seq<Option<ProcessControlBlock>>, pids: RecycleAllocator, pid: usize)
    requires
        table_wf(procs, pids),
        !has_proc(procs, pid as int),
    ensures
        forall|q: int|
            has_proc(procs, q) ==> !(#[trigger] proc_at(procs, q).inner.children@).contains(pid)
                && proc_at(procs, q).inner.parent != Some(pid),
{
    assert forall|q: int| has_proc(procs, q) implies !(#[trigger] proc_at(procs, q).inner.children@).contains(pid)
        && proc_at(procs, q).inner.parent != Some(pid) by {
        if proc_at(procs, q).inner.parent == Some(pid) {
            assert(proc_at(procs, q).inner.parent is Some);
        }
    }
}

/// `sys_get_time` counts whole milliseconds: for a reading of `t` ticks it
/// answers the number of milliseconds `ms` with `ms` milliseconds of ticks
/// at most `t` and `ms + 1` milliseconds of ticks beyond `t`; for an
/// unreadable clock it answers -1.
pub proof fn lemma_time_reply_counts_milliseconds(reading: Option<usize>)
    ensures
        reading is None ==> time_reply(reading) == -1,
        reading matches Some(t) ==> {
            let ms = time_reply(reading) as int;
            &&& 0 <= ms
            &&& ms * (CLOCK_FREQ / MSEC_PER_SEC) <= t
            &&& t < (ms + 1) * (CLOCK_FREQ / MSEC_PER_SEC)
        },
{
    if let Some(t) = reading {
        assert(usize::MAX / 12500 <= isize::MAX) by {
            assert(usize::MAX == 0xffff_ffff || usize::MAX == 0xffff_ffff_ffff_ffff);
            assert(isize::MAX == 0x7fff_ffff || isize::MAX == 0x7fff_ffff_ffff_ffff);
            assert(usize::MAX == 0xffff_ffff <==> isize::MAX == 0x7fff_ffff);
        }
        vstd::arithmetic::div_mod::lemma_div_is_ordered(t as int, usize::MAX as int, 12500);
        vstd::arithmetic::div_mod::lemma_fundamental_div_mod(t as int, 12500);
        assert(CLOCK_FREQ / MSEC_PER_SEC == 12500);
    }
}

/// The next timer interrupt is armed exactly when the clock can be read,
/// one tick period after the reading, counted round the top of the counter,
/// and the reading itself is handed back.
pub proof fn lemma_trigger_one_tick_later(reading: Option<usize>)
    ensures
        trigger_for(reading) is Some <==> reading is Some,
        reading matches Some(t) ==> trigger_for(reading) matches Some((now, deadline)) && now == t
            && deadline as int == (t + CLOCK_FREQ / TICKS_PER_SEC) % (usize::MAX as int + 1),
{
    if let Some(t) = reading {
        let x = t + CLOCK_FREQ / TICKS_PER_SEC;
        let m = usize::MAX as int + 1;
        if x <= usize::MAX {
            vstd::arithmetic::div_mod::lemma_small_mod(x as nat, m as nat);
        } else {
            vstd::arithmetic::div_mod::lemma_mod_add_multiples_vanish(x - m, m);
            vstd::arithmetic::div_mod::lemma_small_mod((x - m) as nat, m as nat);
            assert(m + (x - m) == x);
        }
    }
}

/// The timer interrupt comes every ten milliseconds: the next deadline is
/// one tick period after the current time, and a tick period is 10 ms.
pub proof fn lemma_tick_period_is_ten_ms(now: usize)
    requires
        now + CLOCK_FREQ / TICKS_PER_SEC <= usize::MAX,
    ensures
        (CLOCK_FREQ / TICKS_PER_SEC) / (CLOCK_FREQ / MSEC_PER_SEC) == 10,
        crate::timer::next_trigger_spec(now) - now == CLOCK_FREQ / TICKS_PER_SEC,
{
    assert(CLOCK_FREQ / TICKS_PER_SEC == 125000);
    assert(CLOCK_FREQ / MSEC_PER_SEC == 12500);
    assert(125000int / 12500int == 10);
}

} // verus!
