//! Delivery of pending signals to the running thread's process.
use vstd::prelude::*;
use crate::kernel::{lemma_same_shape_keeps_wf, status_set, suspend_current_and_run_next, Kernel};
use crate::process::{ProcessControlBlock, ProcessControlBlockInner};
use crate::signal::{sig_bit, SignalFlags, MAX_SIG, SIGCONT, SIGDEF, SIGKILL, SIGSTOP};
use crate::trap::TrapContext;
use crate::task::{TaskControlBlock, TaskStatus};

verus! {

/// Signals the kernel acts on itself: SIGDEF, SIGKILL, SIGCONT and SIGSTOP.
pub open spec fn is_kernel_signal(sig: u32) -> bool {
    sig == 0 || sig == 9 || sig == 18 || sig == 19
}

/// Signal `sig` is pending, not masked by the process, and not masked by the
/// action of the signal whose handler is running.
pub open spec fn deliverable(inner: ProcessControlBlockInner, sig: u32) -> bool {
    &&& inner.signals.has(sig)
    &&& !inner.signal_mask.has(sig)
    &&& (inner.handling_sig == -1 || !inner.signal_actions.table@[inner.handling_sig as int].mask.has(sig))
}

/// The lowest deliverable signal at or above `from` that a user handler deals with.
pub open spec fn lowest_user_signal(inner: ProcessControlBlockInner, from: int) -> Option<u32>
    decreases 32 - from,
{
    if from < 0 || from > MAX_SIG {
        None
    } else if deliverable(inner, from as u32) && !is_kernel_signal(from as u32) {
        Some(from as u32)
    } else {
        lowest_user_signal(inner, from + 1)
    }
}

/// Kernel signal `sig` is acted on when it is deliverable and below `upto`.
pub open spec fn acted(inner: ProcessControlBlockInner, sig: u32, upto: int) -> bool {
    sig < upto && deliverable(inner, sig)
}

/// The process after the kernel acted on its deliverable kernel signals below
/// `upto`: SIGSTOP freezes it and is cleared, SIGCONT (when SIGSTOP is not
/// acted on) thaws it and is cleared, SIGKILL and SIGDEF mark it killed.
pub open spec fn kernel_signals_acted(inner: ProcessControlBlockInner, upto: int) -> ProcessControlBlockInner {
    ProcessControlBlockInner {
        frozen: if acted(inner, 19, upto) {
            true
        } else if acted(inner, 18, upto) {
            false
        } else {
            inner.frozen
        },
        killed: inner.killed || acted(inner, 9, upto) || acted(inner, 0, upto),
        signals: SignalFlags {
            bits: inner.signals.bits ^ (if acted(inner, 18, upto) {
                sig_bit(18)
            } else {
                0
            }) ^ (if acted(inner, 19, upto) {
                sig_bit(19)
            } else {
                0
            }),
        },
        ..inner
    }
}

/// `b` is `a` after the user handler of `sig` is entered: the bits of
/// `signal` are flipped, `sig` is marked as being handled, the registers of thread 0 are saved,
/// and thread 0 resumes at the handler with the signal number in `x10`.
/// When no handler is set nothing changes.
pub open spec fn handler_entered(
    a: ProcessControlBlockInner,
    b: ProcessControlBlockInner,
    sig: usize,
    signal: SignalFlags,
) -> bool {
    let handler = a.signal_actions.table@[sig as int].handler;
    if handler == 0 {
        b == a
    } else {
        let cx = a.main_task().trap_cx;
        &&& b == ProcessControlBlockInner {
            handling_sig: sig as isize,
            signals: SignalFlags { bits: a.signals.bits ^ signal.bits },
            trap_ctx_backup: Some(cx),
            tasks: b.tasks,
            ..a
        }
        &&& b.tasks@.len() == a.tasks@.len()
        &&& forall|i: int| 1 <= i < a.tasks@.len() ==> #[trigger] b.tasks@[i] == a.tasks@[i]
        &&& b.tasks@[0] is Some
        &&& b.main_task() == TaskControlBlock { trap_cx: b.main_task().trap_cx, ..a.main_task() }
        &&& b.main_task().trap_cx == TrapContext { x: b.main_task().trap_cx.x, sepc: handler, ..cx }
        &&& b.main_task().trap_cx.x@ == cx.x@.update(10, sig as usize)
    }
}

/// `b` is `a` after its pending signals are checked: kernel signals below the
/// lowest deliverable user signal are acted on, then that user signal's
/// handler is entered.
pub open spec fn signals_checked(a: ProcessControlBlockInner, b: ProcessControlBlockInner) -> bool {
    let u = lowest_user_signal(a, 0);
    let upto = if u is Some {
        u->0 as int
    } else {
        32
    };
    let k = kernel_signals_acted(a, upto);
    if u is Some {
        handler_entered(k, b, u->0 as usize, SignalFlags { bits: sig_bit(u->0) })
    } else {
        b == k
    }
}

/// `b` is `a` after the kernel acted on `signal`.
pub open spec fn kernel_handled(a: ProcessControlBlockInner, signal: SignalFlags) -> ProcessControlBlockInner {
    if signal.bits == sig_bit(19) {
        ProcessControlBlockInner {
            frozen: true,
            signals: SignalFlags { bits: a.signals.bits ^ sig_bit(19) },
            ..a
        }
    } else if signal.bits == sig_bit(18) {
        if a.signals.has(18) {
            ProcessControlBlockInner {
                frozen: false,
                signals: SignalFlags { bits: a.signals.bits ^ sig_bit(18) },
                ..a
            }
        } else {
            a
        }
    } else {
        ProcessControlBlockInner { killed: true, ..a }
    }
}

proof fn lemma_sig_bits()
    ensures
        SIGSTOP == sig_bit(19),
        SIGCONT == sig_bit(18),
        SIGKILL == sig_bit(9),
        SIGDEF == sig_bit(0),
{
    assert(SIGSTOP == sig_bit(19) && SIGCONT == sig_bit(18) && SIGKILL == sig_bit(9)
        && SIGDEF == sig_bit(0)) by (bit_vector);
}

proof fn lemma_sig_bit_injective(a: u32, b: u32)
    requires
        a < 32,
        b < 32,
    ensures
        (sig_bit(a) == sig_bit(b)) == (a == b),
{
    assert(a < 32 && b < 32 ==> ((1u32 << a) == (1u32 << b)) == (a == b)) by (bit_vector);
}

proof fn lemma_flip_other_bit(x: u32, a: u32, s: u32)
    requires
        a < 32,
        s < 32,
        a != s,
    ensures
        (x ^ sig_bit(a)) & sig_bit(s) == x & sig_bit(s),
{
    assert(a < 32 && s < 32 && a != s ==> (x ^ (1u32 << a)) & (1u32 << s) == x & (1u32 << s))
        by (bit_vector);
}

proof fn lemma_flip_zero(x: u32)
    ensures
        x ^ 0 == x,
{
    assert(x ^ 0 == x) by (bit_vector);
}

pub open spec fn with_inner(p: ProcessControlBlock, inner: ProcessControlBlockInner) -> ProcessControlBlock {
    ProcessControlBlock { inner, ..p }
}




/// Acts on kernel signal `signal` for the running thread's process:
/// SIGSTOP freezes it, SIGCONT thaws it when pending, anything else kills it.
pub fn call_kernel_signal_handler(k: &mut Kernel, signal: SignalFlags)
    requires
        old(k).wf(),
        old(k).current is Some,
    ensures
        final(k).wf(),
        final(k).procs@ == old(k).procs@.update(
            old(k).cur_pid(),
            Some(with_inner(old(k).cur_proc(), kernel_handled(old(k).cur_proc().inner, signal))),
        ),
        final(k).ready_queue == old(k).ready_queue,
        final(k).current == old(k).current,
        final(k).pid_allocator == old(k).pid_allocator,
        final(k).kernel_token == old(k).kernel_token,
        final(k).trap_handler == old(k).trap_handler,
        final(k).user_sstatus == old(k).user_sstatus,
{
    proof {
        lemma_sig_bits();
    }
    let pid = k.current.unwrap().pid;
    let mut p = k.procs[pid].take().unwrap();
    if signal.bits == SIGSTOP {
        p.inner.frozen = true;
        p.inner.signals.toggle(SignalFlags { bits: SIGSTOP });
    } else if signal.bits == SIGCONT {
        if p.inner.signals.contains(SignalFlags { bits: SIGCONT }) {
            p.inner.signals.toggle(SignalFlags { bits: SIGCONT });
            p.inner.frozen = false;
        }
    } else {
        p.inner.killed = true;
    }
    proof {
        lemma_same_shape_keeps_wf(
            old(k).procs@,
            old(k).pid_allocator,
            old(k).ready_queue@,
            old(k).current,
            pid as int,
            p,
        );
    }
    k.procs[pid] = Some(p);
    proof {
        assert(k.procs@ =~= old(k).procs@.update(pid as int, Some(p)));
    }
}

/// Enters the user handler of signal `sig` in thread 0 of the running
/// thread's process, flipping the bits of `signal`; with no handler set
/// the signal is left alone.
pub fn call_user_signal_handler(k: &mut Kernel, sig: usize, signal: SignalFlags)
    requires
        old(k).wf(),
        old(k).current is Some,
        sig <= MAX_SIG,
    ensures
        final(k).wf(),
        final(k).has_proc(old(k).cur_pid()),
        final(k).procs@ == old(k).procs@.update(
            old(k).cur_pid(),
            Some(with_inner(old(k).cur_proc(), final(k).proc(old(k).cur_pid()).inner)),
        ),
        handler_entered(old(k).cur_proc().inner, final(k).proc(old(k).cur_pid()).inner, sig, signal),
        final(k).ready_queue == old(k).ready_queue,
        final(k).current == old(k).current,
        final(k).pid_allocator == old(k).pid_allocator,
        final(k).kernel_token == old(k).kernel_token,
        final(k).trap_handler == old(k).trap_handler,
        final(k).user_sstatus == old(k).user_sstatus,
{
    let pid = k.current.unwrap().pid;
    let mut p = k.procs[pid].take().unwrap();
    let handler = p.inner.signal_actions.table[sig].handler;
    if handler != 0 {
        p.inner.handling_sig = sig as isize;
        p.inner.signals.toggle(signal);
        let mut task = p.inner.tasks[0].unwrap();
        p.inner.trap_ctx_backup = Some(task.trap_cx);
        task.trap_cx.sepc = handler;
        task.trap_cx.x[10] = sig;
        p.inner.tasks[0] = Some(task);
    }
    proof {
        let a = old(k).cur_proc().inner;
        assert forall|i: int|
            0 <= i < a.tasks@.len() && (#[trigger] p.inner.tasks@[i]) is Some
                && p.inner.tasks@[i]->0.res is Some implies p.inner.tasks@[i]->0.res->0.tid == i
            && p.inner.task_res_allocator.is_allocated(i) by {
            assert(a.tasks@[i] is Some);
        }
        lemma_same_shape_keeps_wf(
            old(k).procs@,
            old(k).pid_allocator,
            old(k).ready_queue@,
            old(k).current,
            pid as int,
            p,
        );
    }
    k.procs[pid] = Some(p);
    proof {
        assert(k.procs@ =~= old(k).procs@.update(pid as int, Some(p)));
        if handler != 0 {
            assert(p.inner.tasks@[0]->0.trap_cx.x@ =~= old(k).cur_proc().inner.main_task().trap_cx.x@.update(10, sig));
        }
    }
}

/// Goes through signal numbers upward for the running thread's process:
/// each deliverable kernel signal is acted on, and the first deliverable
/// user signal has its handler entered, which ends the scan.
pub fn check_pending_signals(k: &mut Kernel)
    requires
        old(k).wf(),
        old(k).current is Some,
    ensures
        final(k).wf(),
        final(k).has_proc(old(k).cur_pid()),
        final(k).procs@ == old(k).procs@.update(
            old(k).cur_pid(),
            Some(with_inner(old(k).cur_proc(), final(k).proc(old(k).cur_pid()).inner)),
        ),
        signals_checked(old(k).cur_proc().inner, final(k).proc(old(k).cur_pid()).inner),
        final(k).ready_queue == old(k).ready_queue,
        final(k).current == old(k).current,
        final(k).pid_allocator == old(k).pid_allocator,
        final(k).kernel_token == old(k).kernel_token,
        final(k).trap_handler == old(k).trap_handler,
        final(k).user_sstatus == old(k).user_sstatus,
{
    let ghost pid = old(k).cur_pid();
    let ghost a = old(k).cur_proc().inner;
    let ghost p0 = old(k).cur_proc();
    proof {
        lemma_sig_bits();
    }
    proof {
        lemma_flip_zero(a.signals.bits);
        lemma_flip_zero(a.signals.bits ^ 0);
        assert(kernel_signals_acted(a, 0) == a);
        assert(with_inner(p0, a) == p0);
        assert(old(k).procs@.update(pid, Some(p0)) =~= old(k).procs@);
    }
    let mut sig: usize = 0;
    while sig < MAX_SIG + 1
        invariant
            k.wf(),
            k.current == old(k).current,
            old(k).current is Some,
            pid == old(k).cur_pid(),
            old(k).has_proc(pid),
            p0 == old(k).cur_proc(),
            a == p0.inner,
            sig <= MAX_SIG + 1,
            lowest_user_signal(a, 0) == lowest_user_signal(a, sig as int),
            k.procs@ == old(k).procs@.update(pid, Some(with_inner(p0, kernel_signals_acted(a, sig as int)))),
            k.ready_queue == old(k).ready_queue,
            k.pid_allocator == old(k).pid_allocator,
            k.kernel_token == old(k).kernel_token,
            k.trap_handler == old(k).trap_handler,
            k.user_sstatus == old(k).user_sstatus,
        decreases MAX_SIG + 1 - sig,
    {
        let ghost ks = kernel_signals_acted(a, sig as int);
        let ghost s = sig as u32;
        proof {
            assert(k.procs@[pid] == Some(with_inner(p0, ks)));
            // the bit of `sig` is as it was: only bits below `sig` were flipped
            let c18: u32 = if acted(a, 18, sig as int) { sig_bit(18) } else { 0 };
            let c19: u32 = if acted(a, 19, sig as int) { sig_bit(19) } else { 0 };
            let x = a.signals.bits;
            if acted(a, 18, sig as int) {
                lemma_flip_other_bit(x, 18, s);
            } else {
                lemma_flip_zero(x);
            }
            if acted(a, 19, sig as int) {
                lemma_flip_other_bit(x ^ c18, 19, s);
            } else {
                lemma_flip_zero(x ^ c18);
            }
            assert(ks.signals.bits & sig_bit(s) == x & sig_bit(s));
        }
        let pid_exec = k.current.unwrap().pid;
        let p = k.procs[pid_exec].as_ref().unwrap();
        let signal = SignalFlags::from_bits(1u32 << (sig as u32)).unwrap();
        proof {
            assert(signal.bits == sig_bit(s));
        }
        if p.inner.signals.contains(signal) && !p.inner.signal_mask.contains(signal) {
            let mut masked = true;
            let handling_sig = p.inner.handling_sig;
            if handling_sig == -1 {
                masked = false;
            } else {
                let hs = handling_sig as usize;
                if !p.inner.signal_actions.table[hs].mask.contains(signal) {
                    masked = false;
                }
            }
            proof {
                assert(!masked == deliverable(a, s));
            }
            if !masked {
                proof {
                    lemma_sig_bits();
                    lemma_sig_bit_injective(s, 9);
                    lemma_sig_bit_injective(s, 19);
                    lemma_sig_bit_injective(s, 18);
                    lemma_sig_bit_injective(s, 0);
                }
                if signal.bits == SIGKILL || signal.bits == SIGSTOP || signal.bits == SIGCONT
                    || signal.bits == SIGDEF {
                    call_kernel_signal_handler(k, signal);
                    proof {
                        let k2 = kernel_signals_acted(a, sig + 1);
                        let x = a.signals.bits;
                        assert(kernel_handled(ks, signal) == k2) by {
                            let c18: u32 = if acted(a, 18, sig as int) { sig_bit(18) } else { 0 };
                            lemma_flip_zero(x);
                            lemma_flip_zero(x ^ c18);
                            lemma_flip_zero(x ^ 0);
                            lemma_flip_zero(x ^ sig_bit(18));
                            lemma_flip_zero((x ^ c18) ^ 0);
                            if s == 18 {
                                assert(ks.signals.has(18));
                                assert(!acted(a, 18, sig as int));
                                assert(!acted(a, 19, sig as int));
                                assert(ks.signals.bits == x);
                                assert(k2.signals.bits == x ^ sig_bit(18));
                            } else if s == 19 {
                                assert(acted(a, 19, sig + 1));
                                assert(!acted(a, 19, sig as int));
                                assert(ks.signals.bits == x ^ c18);
                                assert(k2.signals.bits == (x ^ c18) ^ sig_bit(19));
                            } else {
                                assert(acted(a, 18, sig + 1) == acted(a, 18, sig as int));
                                assert(acted(a, 19, sig + 1) == acted(a, 19, sig as int));
                                assert(k2.signals == ks.signals);
                                assert(k2.frozen == ks.frozen);
                                if s == 9 {
                                    assert(acted(a, 9, sig + 1));
                                } else {
                                    assert(s == 0);
                                    assert(acted(a, 0, sig + 1));
                                }
                                assert(k2.killed);
                            }
                        }
                        assert(lowest_user_signal(a, sig as int) == lowest_user_signal(a, sig + 1));
                    }
                } else {
                    call_user_signal_handler(k, sig, signal);
                    proof {
                        assert(!is_kernel_signal(s));
                        assert(deliverable(a, s));
                        assert(lowest_user_signal(a, sig as int) == Some(s));
                    }
                    return;
                }
            } else {
                proof {
                    assert(kernel_signals_acted(a, sig + 1) == ks);
                    assert(lowest_user_signal(a, sig as int) == lowest_user_signal(a, sig + 1));
                }
            }
        } else {
            proof {
                assert(!deliverable(a, s));
                assert(kernel_signals_acted(a, sig + 1) == ks);
                assert(lowest_user_signal(a, sig as int) == lowest_user_signal(a, sig + 1));
            }
        }
        sig = sig + 1;
    }
    proof {
        assert(lowest_user_signal(a, 32) is None);
    }
}

/// One round of signal handling for the running thread: its process's
/// pending signals are checked; then, when the process is frozen and not
/// killed, the thread gives up the processor and `true` is returned, and
/// the caller runs other threads until this one is back, then calls again.
pub fn handle_signals(k: &mut Kernel) -> (suspended: bool)
    requires
        old(k).wf(),
        old(k).current is Some,
    ensures
        final(k).wf(),
        exists|b: ProcessControlBlockInner|
            #![trigger signals_checked(old(k).cur_proc().inner, b)]
            signals_checked(old(k).cur_proc().inner, b) && {
                let mid = old(k).procs@.update(
                    old(k).cur_pid(),
                    Some(with_inner(old(k).cur_proc(), b)),
                );
                &&& suspended == (b.frozen && !b.killed)
                &&& suspended ==> {
                    &&& final(k).current is None
                    &&& final(k).ready_queue@ == old(k).ready_queue@.push(old(k).current->0)
                    &&& status_set(mid, final(k).procs@, old(k).current->0, TaskStatus::Ready)
                }
                &&& !suspended ==> {
                    &&& final(k).current == old(k).current
                    &&& final(k).ready_queue == old(k).ready_queue
                    &&& final(k).procs@ == mid
                }
            },
        final(k).pid_allocator == old(k).pid_allocator,
        final(k).kernel_token == old(k).kernel_token,
        final(k).trap_handler == old(k).trap_handler,
        final(k).user_sstatus == old(k).user_sstatus,
{
    check_pending_signals(k);
    let ghost b = k.proc(old(k).cur_pid()).inner;
    proof {
        assert(signals_checked(old(k).cur_proc().inner, b));
    }
    let pid = k.current.unwrap().pid;
    let p = k.procs[pid].as_ref().unwrap();
    let frozen = p.inner.frozen;
    let killed = p.inner.killed;
    if !frozen || killed {
        return false;
    }
    suspend_current_and_run_next(k);
    true
}

} // verus!
