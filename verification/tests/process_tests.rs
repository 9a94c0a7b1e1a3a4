use os_core::action::SignalAction;
use os_core::exit::exit_current_and_run_next;
use os_core::id::RecycleAllocator;
use os_core::kernel::{
    add_initproc, block_current_and_run_next, check_signals_of_current, current_add_signal, pid2process,
    remove_inactive_task, suspend_current_and_run_next, ExitOutcome, Kernel, TaskRef, IDLE_PID,
};
use os_core::process::{ElfImage, FileHandle, MemorySet, ProcessControlBlock};
use os_core::signal::{SignalFlags, SIGCONT, SIGINT, SIGKILL, SIGSEGV, SIGSTOP, SIGUSR1};
use os_core::signal_handling::{check_pending_signals, handle_signals};
use os_core::syscall::{
    check_sigaction_error, sys_exec, sys_exit, sys_fork, sys_get_time, sys_getpid, sys_kill, sys_sbrk,
    sys_sigaction, sys_sigprocmask, sys_sigreturn, sys_waitpid, sys_yield,
};
use os_core::task::{TaskStatus, USER_STACK_SIZE};
use os_core::timer::{next_trigger, ticks_to_ms};

const USTACK_BASE: usize = 0x10_0000;
const ENTRY: usize = 0x1000;

fn image(token: usize) -> ElfImage {
    ElfImage {
        memory_set: MemorySet { token, data_recycled: false },
        ustack_base: USTACK_BASE,
        entry_point: ENTRY,
    }
}

/// A kernel with the first process running.
fn booted() -> Kernel {
    let mut k = add_initproc(image(0x8000), 0xffff_0000, 0x9999, 0x7777, 0x20);
    assert_eq!(k.schedule_next(), Some(TaskRef { pid: 0, tid: 0 }));
    k
}

fn proc(k: &Kernel, pid: usize) -> &ProcessControlBlock {
    k.procs[pid].as_ref().unwrap()
}

#[test]
fn initproc_starts_its_program() {
    let k = add_initproc(image(0x8000), 0xffff_0000, 0x9999, 0x7777, 0x20);
    assert_eq!(k.ready_queue, vec![TaskRef { pid: 0, tid: 0 }]);
    assert!(k.current.is_none());
    let p = proc(&k, 0);
    assert_eq!(p.get_pid(), 0);
    assert_eq!(p.inner.fd_table, vec![Some(FileHandle::Stdin), Some(FileHandle::Stdout), Some(FileHandle::Stdout)]);
    assert_eq!(p.inner.handling_sig, -1);
    let t = p.inner.get_task(0);
    assert_eq!(t.trap_cx.sepc, ENTRY);
    assert_eq!(t.trap_cx.x[2], USTACK_BASE + USER_STACK_SIZE);
    assert_eq!(t.trap_cx.kernel_satp, 0x9999);
    assert_eq!(t.trap_cx.kernel_sp, 0xffff_0000);
    assert_eq!(t.trap_cx.trap_handler, 0x7777);
    assert_eq!(t.trap_cx.sstatus, 0x20);
    assert_eq!(t.task_status, TaskStatus::Ready);
    assert_eq!(p.inner.get_user_token(), 0x8000);
    assert_eq!(p.inner.signal_actions.table[5].mask.bits(), 40);
}

#[test]
fn getpid_names_the_running_process() {
    let k = booted();
    assert_eq!(sys_getpid(&k), 0);
    assert_eq!(proc(&k, 0).inner.get_task(0).task_status, TaskStatus::Running);
}

#[test]
fn fork_gives_the_child_zero_and_the_parent_its_pid() {
    let mut k = booted();
    let pid = sys_fork(&mut k, MemorySet { token: 0x8001, data_recycled: false }, 0xfffe_0000);
    assert_eq!(pid, 1);
    let parent = proc(&k, 0);
    assert_eq!(parent.inner.children, vec![1]);
    let child = proc(&k, 1);
    assert_eq!(child.inner.parent, Some(0));
    assert_eq!(child.inner.get_user_token(), 0x8001);
    assert_eq!(child.inner.fd_table, parent.inner.fd_table);
    let ct = child.inner.get_task(0);
    assert_eq!(ct.trap_cx.x[10], 0);
    assert_eq!(ct.trap_cx.kernel_sp, 0xfffe_0000);
    assert_eq!(ct.trap_cx.sepc, parent.inner.get_task(0).trap_cx.sepc);
    assert_eq!(k.ready_queue, vec![TaskRef { pid: 1, tid: 0 }]);
}

/// Runs the child until it exits with `code`, then puts the first process back.
fn child_exits(k: &mut Kernel, code: i32) {
    assert_eq!(sys_yield(k), 0);
    assert_eq!(k.schedule_next(), Some(TaskRef { pid: 1, tid: 0 }));
    assert_eq!(sys_exit(k, code), ExitOutcome::RunNext);
    assert_eq!(k.schedule_next(), Some(TaskRef { pid: 0, tid: 0 }));
}

#[test]
fn waitpid_returns_the_exit_code_of_an_exited_child() {
    let mut k = booted();
    sys_fork(&mut k, MemorySet { token: 1, data_recycled: false }, 0xfffe_0000);
    child_exits(&mut k, 3);
    assert!(proc(&k, 1).inner.is_zombie);
    assert!(pid2process(&k, 1).is_none());
    assert_eq!(sys_waitpid(&mut k, -1), (1, Some(3)));
    assert!(k.procs[1].is_none());
    assert!(proc(&k, 0).inner.children.is_empty());
    // the freed pid is handed out again first
    assert_eq!(sys_fork(&mut k, MemorySet { token: 2, data_recycled: false }, 0xfffd_0000), 1);
}

#[test]
fn waitpid_by_pid() {
    let mut k = booted();
    sys_fork(&mut k, MemorySet { token: 1, data_recycled: false }, 0xfffe_0000);
    child_exits(&mut k, -7);
    assert_eq!(sys_waitpid(&mut k, 5), (-1, None));
    assert_eq!(sys_waitpid(&mut k, 1), (1, Some(-7)));
}

#[test]
fn waitpid_without_children_fails() {
    let mut k = booted();
    assert_eq!(sys_waitpid(&mut k, -1), (-1, None));
}

#[test]
fn waitpid_for_a_running_child_says_not_yet() {
    let mut k = booted();
    sys_fork(&mut k, MemorySet { token: 1, data_recycled: false }, 0xfffe_0000);
    assert_eq!(sys_waitpid(&mut k, -1), (-2, None));
    assert_eq!(sys_waitpid(&mut k, 1), (-2, None));
    assert!(k.procs[1].is_some());
}

#[test]
fn exit_of_main_thread_makes_a_zombie_and_frees_its_threads() {
    let mut k = booted();
    sys_fork(&mut k, MemorySet { token: 1, data_recycled: false }, 0xfffe_0000);
    child_exits(&mut k, 9);
    let c = proc(&k, 1);
    assert_eq!(c.inner.exit_code, 9);
    assert!(c.inner.fd_table.is_empty());
    assert!(c.inner.memory_set.data_recycled);
    assert_eq!(c.inner.thread_count(), 1);
    let t = c.inner.get_task(0);
    assert!(t.res.is_none());
    assert_eq!(t.exit_code, Some(9));
    assert!(!k.ready_queue.iter().any(|t| t.pid == 1));
}

#[test]
fn exit_passes_children_to_the_first_process() {
    let mut k = booted();
    sys_fork(&mut k, MemorySet { token: 1, data_recycled: false }, 0xfffe_0000);
    assert_eq!(sys_yield(&mut k), 0);
    assert_eq!(k.schedule_next(), Some(TaskRef { pid: 1, tid: 0 }));
    // the child forks a grandchild, then exits
    assert_eq!(sys_fork(&mut k, MemorySet { token: 2, data_recycled: false }, 0xfffd_0000), 2);
    assert_eq!(sys_exit(&mut k, 0), ExitOutcome::RunNext);
    assert_eq!(k.ready_queue, vec![TaskRef { pid: 0, tid: 0 }, TaskRef { pid: 2, tid: 0 }]);
    assert_eq!(proc(&k, 2).inner.parent, Some(IDLE_PID));
    assert_eq!(proc(&k, 0).inner.children, vec![1, 2]);
    assert!(proc(&k, 1).inner.children.is_empty());
}

#[test]
fn first_process_exit_shuts_down() {
    let mut k = booted();
    assert_eq!(exit_current_and_run_next(&mut k, 0), ExitOutcome::Shutdown { failure: false });
    let mut k = booted();
    assert_eq!(exit_current_and_run_next(&mut k, 2), ExitOutcome::Shutdown { failure: true });
    assert!(k.current.is_none());
}

#[test]
fn exit_of_another_thread_keeps_the_process() {
    let mut k = booted();
    // give the first process a second thread and run it
    let tid = {
        let inner = k.procs[0].as_mut().unwrap().inner_exclusive_access();
        let tid = inner.alloc_tid();
        let mut t = *inner.get_task(0);
        t.res = Some(os_core::task::TaskUserRes { tid, ustack_base: USTACK_BASE });
        inner.tasks.push(Some(t));
        tid
    };
    assert_eq!(tid, 1);
    k.ready_queue.push(TaskRef { pid: 0, tid: 1 });
    assert_eq!(sys_yield(&mut k), 0);
    assert_eq!(k.schedule_next(), Some(TaskRef { pid: 0, tid: 1 }));
    assert_eq!(sys_exit(&mut k, 4), ExitOutcome::RunNext);
    let p = proc(&k, 0);
    assert!(!p.inner.is_zombie);
    assert_eq!(p.inner.get_task(1).exit_code, Some(4));
    assert!(p.inner.get_task(1).res.is_none());
    assert_eq!(p.inner.task_res_allocator.recycled, vec![1]);
    // the freed thread id is the one handed out next
    let inner = k.procs[0].as_mut().unwrap().inner_exclusive_access();
    assert_eq!(inner.alloc_tid(), 1);
    assert!(inner.task_res_allocator.recycled.is_empty());
}

#[test]
fn block_leaves_the_queue_alone() {
    let mut k = booted();
    block_current_and_run_next(&mut k);
    assert!(k.current.is_none());
    assert!(k.ready_queue.is_empty());
    assert_eq!(proc(&k, 0).inner.get_task(0).task_status, TaskStatus::Blocked);
}

#[test]
fn suspend_puts_the_thread_at_the_back() {
    let mut k = booted();
    sys_fork(&mut k, MemorySet { token: 1, data_recycled: false }, 0xfffe_0000);
    suspend_current_and_run_next(&mut k);
    assert_eq!(k.ready_queue, vec![TaskRef { pid: 1, tid: 0 }, TaskRef { pid: 0, tid: 0 }]);
    assert_eq!(proc(&k, 0).inner.get_task(0).task_status, TaskStatus::Ready);
    remove_inactive_task(&mut k, TaskRef { pid: 1, tid: 0 });
    assert_eq!(k.ready_queue, vec![TaskRef { pid: 0, tid: 0 }]);
}

#[test]
fn kill_adds_the_signal_to_a_live_process() {
    let mut k = booted();
    assert_eq!(sys_kill(&mut k, 0, SIGUSR1), 0);
    assert_eq!(proc(&k, 0).inner.signals.bits(), SIGUSR1);
    assert_eq!(sys_kill(&mut k, 0, SIGINT), 0);
    assert_eq!(proc(&k, 0).inner.signals.bits(), SIGUSR1 | SIGINT);
    assert_eq!(sys_kill(&mut k, 5, SIGUSR1), -1);
}

#[test]
fn kill_of_an_exited_process_fails() {
    let mut k = booted();
    sys_fork(&mut k, MemorySet { token: 1, data_recycled: false }, 0xfffe_0000);
    child_exits(&mut k, 0);
    assert_eq!(sys_kill(&mut k, 1, SIGUSR1), -1);
}

#[test]
fn sigprocmask_returns_the_previous_mask() {
    let mut k = booted();
    assert_eq!(sys_sigprocmask(&mut k, SIGUSR1), 0);
    assert_eq!(sys_sigprocmask(&mut k, SIGINT), SIGUSR1 as isize);
    assert_eq!(proc(&k, 0).inner.signal_mask.bits(), SIGINT);
}

#[test]
fn sigaction_returns_the_action_it_replaces() {
    let mut k = booted();
    let a = SignalAction { handler: 0x4000, mask: SignalFlags { bits: 0 } };
    let (r, prev) = sys_sigaction(&mut k, 10, 0x100, 0x200, a);
    assert_eq!(r, 0);
    assert_eq!(prev, Some(SignalAction { handler: 0, mask: SignalFlags { bits: 40 } }));
    let b = SignalAction { handler: 0x5000, mask: SignalFlags { bits: 1 } };
    assert_eq!(sys_sigaction(&mut k, 10, 0x100, 0x200, b), (0, Some(a)));
    assert_eq!(proc(&k, 0).inner.signal_actions.table[10], b);
}

#[test]
fn sigaction_rejects_bad_requests() {
    let mut k = booted();
    let a = SignalAction { handler: 0x4000, mask: SignalFlags { bits: 0 } };
    assert_eq!(sys_sigaction(&mut k, 9, 0x100, 0x200, a), (-1, None));
    assert_eq!(sys_sigaction(&mut k, 19, 0x100, 0x200, a), (-1, None));
    assert_eq!(sys_sigaction(&mut k, 32, 0x100, 0x200, a), (-1, None));
    assert_eq!(sys_sigaction(&mut k, -1, 0x100, 0x200, a), (-1, None));
    assert_eq!(sys_sigaction(&mut k, 10, 0, 0x200, a), (-1, None));
    assert_eq!(sys_sigaction(&mut k, 10, 0x100, 0, a), (-1, None));
    assert_eq!(proc(&k, 0).inner.signal_actions.table[10].handler, 0);
}

#[test]
fn sigaction_error_check() {
    let user = SignalFlags { bits: SIGUSR1 };
    assert!(!check_sigaction_error(user, 1, 2));
    assert!(check_sigaction_error(user, 0, 2));
    assert!(check_sigaction_error(user, 1, 0));
    assert!(check_sigaction_error(SignalFlags { bits: SIGKILL }, 1, 2));
    assert!(check_sigaction_error(SignalFlags { bits: SIGSTOP }, 1, 2));
}

#[test]
fn user_handler_entry_and_sigreturn() {
    let mut k = booted();
    let a = SignalAction { handler: 0x4000, mask: SignalFlags { bits: 0 } };
    assert_eq!(sys_sigaction(&mut k, 10, 0x100, 0x200, a).0, 0);
    let before = proc(&k, 0).inner.get_task(0).trap_cx;
    assert_eq!(sys_kill(&mut k, 0, SIGUSR1), 0);
    assert!(!handle_signals(&mut k));
    let p = proc(&k, 0);
    assert_eq!(p.inner.handling_sig, 10);
    assert_eq!(p.inner.signals.bits(), 0);
    let cx = p.inner.get_task(0).trap_cx;
    assert_eq!(cx.sepc, 0x4000);
    assert_eq!(cx.x[10], 10);
    assert_eq!(sys_sigreturn(&mut k), before.x[10] as isize);
    let p = proc(&k, 0);
    assert_eq!(p.inner.handling_sig, -1);
    let cx = p.inner.get_task(0).trap_cx;
    assert_eq!(cx.sepc, before.sepc);
    assert_eq!(cx.x, before.x);
}

#[test]
fn signal_without_handler_is_left_pending() {
    let mut k = booted();
    current_add_signal(&mut k, SignalFlags { bits: SIGUSR1 });
    check_pending_signals(&mut k);
    assert_eq!(proc(&k, 0).inner.signals.bits(), SIGUSR1);
    assert_eq!(proc(&k, 0).inner.handling_sig, -1);
}

#[test]
fn masked_signal_is_not_delivered() {
    let mut k = booted();
    let a = SignalAction { handler: 0x4000, mask: SignalFlags { bits: 0 } };
    sys_sigaction(&mut k, 10, 0x100, 0x200, a);
    sys_sigprocmask(&mut k, SIGUSR1);
    current_add_signal(&mut k, SignalFlags { bits: SIGUSR1 });
    assert!(!handle_signals(&mut k));
    let p = proc(&k, 0);
    assert_eq!(p.inner.signals.bits(), SIGUSR1);
    assert_eq!(p.inner.handling_sig, -1);
    assert_eq!(p.inner.get_task(0).trap_cx.sepc, ENTRY);
}

#[test]
fn stop_freezes_and_cont_thaws() {
    let mut k = booted();
    current_add_signal(&mut k, SignalFlags { bits: SIGSTOP });
    assert!(handle_signals(&mut k));
    assert!(k.current.is_none());
    assert!(proc(&k, 0).inner.frozen);
    assert_eq!(proc(&k, 0).inner.signals.bits(), 0);
    assert_eq!(k.ready_queue, vec![TaskRef { pid: 0, tid: 0 }]);
    assert_eq!(k.schedule_next(), Some(TaskRef { pid: 0, tid: 0 }));
    current_add_signal(&mut k, SignalFlags { bits: SIGCONT });
    assert!(!handle_signals(&mut k));
    assert!(!proc(&k, 0).inner.frozen);
    assert_eq!(proc(&k, 0).inner.signals.bits(), 0);
}

#[test]
fn kill_signal_marks_the_process_killed() {
    let mut k = booted();
    current_add_signal(&mut k, SignalFlags { bits: SIGSTOP | SIGKILL });
    assert!(!handle_signals(&mut k));
    let p = proc(&k, 0);
    assert!(p.inner.killed);
    assert!(p.inner.frozen);
}

#[test]
fn fatal_signal_is_reported() {
    let mut k = booted();
    assert_eq!(check_signals_of_current(&k), None);
    current_add_signal(&mut k, SignalFlags { bits: SIGSEGV });
    assert_eq!(check_signals_of_current(&k), Some((-11, "Segmentation Fault, SIGSEGV=11")));
    current_add_signal(&mut k, SignalFlags { bits: SIGINT });
    assert_eq!(check_signals_of_current(&k), Some((-2, "Killed, SIGINT=2")));
}

#[test]
fn exec_lays_out_the_arguments() {
    let mut k = booted();
    let img = ElfImage {
        memory_set: MemorySet { token: 0x8123, data_recycled: false },
        ustack_base: 0x20_0000,
        entry_point: 0x2000,
    };
    let (argc, layout) = sys_exec(&mut k, Some(img), vec![String::from("ab"), String::from("c")]);
    assert_eq!(argc, 2);
    let layout = layout.unwrap();
    let top = 0x20_0000 + USER_STACK_SIZE;
    assert_eq!(layout.argv_base, top - 24);
    assert_eq!(layout.argv, vec![top - 27, top - 29, 0]);
    assert_eq!(layout.user_sp, (top - 29) / 8 * 8);
    let p = proc(&k, 0);
    assert_eq!(p.inner.get_user_token(), 0x8123);
    let cx = p.inner.get_task(0).trap_cx;
    assert_eq!(cx.sepc, 0x2000);
    assert_eq!(cx.x[10], 2);
    assert_eq!(cx.x[11], top - 24);
    assert_eq!(cx.x[2], layout.user_sp);
    assert_eq!(cx.kernel_satp, 0x9999);
}

#[test]
fn exec_without_a_program_fails() {
    let mut k = booted();
    let (r, layout) = sys_exec(&mut k, None, vec![String::from("x")]);
    assert_eq!(r, -1);
    assert!(layout.is_none());
    assert_eq!(proc(&k, 0).inner.get_user_token(), 0x8000);
}

#[test]
fn alloc_fd_takes_the_lowest_free_slot() {
    let mut k = booted();
    let inner = k.procs[0].as_mut().unwrap().inner_exclusive_access();
    assert_eq!(inner.alloc_fd(), 3);
    assert_eq!(inner.fd_table.len(), 4);
    inner.fd_table[1] = None;
    assert_eq!(inner.alloc_fd(), 1);
    assert_eq!(inner.fd_table.len(), 4);
}

#[test]
fn recycled_ids_come_back_first() {
    let mut a = RecycleAllocator::new();
    assert_eq!(a.allocate(), 0);
    assert_eq!(a.allocate(), 1);
    assert_eq!(a.allocate(), 2);
    a.dealloc(1);
    a.dealloc(0);
    assert_eq!(a.allocate(), 0);
    assert_eq!(a.allocate(), 1);
    assert_eq!(a.allocate(), 3);
}

#[test]
fn signal_flags_basics() {
    let f = SignalFlags::from_bits(SIGUSR1 | SIGINT).unwrap();
    assert!(f.contains(SignalFlags { bits: SIGUSR1 }));
    assert!(!f.contains(SignalFlags { bits: SIGKILL }));
    assert_eq!(SignalFlags::from_bits(u32::MAX), Some(SignalFlags { bits: u32::MAX }));
    let mut g = SignalFlags::empty();
    g.insert(f);
    g.toggle(SignalFlags { bits: SIGINT });
    assert_eq!(g.bits(), SIGUSR1);
    assert_eq!(SignalFlags { bits: SIGKILL | SIGSEGV }.check_error(), Some((-9, "Killed, SIGKILL=9")));
}

#[test]
fn timer_arithmetic() {
    assert_eq!(ticks_to_ms(12500), 1);
    assert_eq!(ticks_to_ms(12499), 0);
    assert_eq!(next_trigger(0), 125000);
    assert_eq!(next_trigger(usize::MAX), 124999);
    assert_eq!(ticks_to_ms(next_trigger(1000) - 1000), 10);
}

/// The tests run on the build machine, which has no RISC-V time register.
#[test]
fn time_is_unreadable_off_the_target() {
    assert_eq!(sys_get_time(), -1);
    assert_eq!(os_core::timer::get_time(), None);
    assert_eq!(os_core::timer::set_next_trigger(), None);
    assert_eq!(os_core::timer::get_time_ms(), None);
}

#[test]
fn sbrk_is_not_supported() {
    assert_eq!(sys_sbrk(4096), -1);
}

#[test]
fn process_builders() {
    let p = ProcessControlBlock::with_pid(4, image(0x1), 0xabc0, 1, 2, 3);
    assert_eq!(p.get_pid(), 4);
    assert_eq!(p.inner.parent, None);
    let c = p.copy_for_fork(5, MemorySet { token: 9, data_recycled: false }, 0xdef0);
    assert_eq!(c.get_pid(), 5);
    assert_eq!(c.inner.parent, Some(4));
    assert_eq!(c.inner.get_task(0).trap_cx.kernel_sp, 0xdef0);
    assert_eq!(c.inner.get_task(0).trap_cx.sepc, ENTRY);
    assert!(p.inner.children.is_empty());
}

#[test]
fn new_process_enters_table_and_queue() {
    let mut k = booted();
    let pid = ProcessControlBlock::new(&mut k, image(0x5), 0xabc0);
    assert_eq!(pid, 1);
    assert_eq!(k.ready_queue, vec![TaskRef { pid: 1, tid: 0 }]);
    let p = pid2process(&k, 1).unwrap();
    assert_eq!(p.get_pid(), 1);
    assert_eq!(p.inner.parent, None);
    assert!(p.inner.children.is_empty());
    assert_eq!(p.inner.get_user_token(), 0x5);
    let t = p.inner.get_task(0);
    assert_eq!(t.trap_cx.sepc, ENTRY);
    assert_eq!(t.trap_cx.kernel_sp, 0xabc0);
    assert_eq!(t.trap_cx.kernel_satp, 0x9999);
    assert_eq!(t.trap_cx.trap_handler, 0x7777);
    assert_eq!(t.trap_cx.sstatus, 0x20);
    assert_eq!(t.trap_cx.x[2], USTACK_BASE + USER_STACK_SIZE);
    assert!(proc(&k, 0).inner.children.is_empty());
    assert_eq!(ProcessControlBlock::new(&mut k, image(0x6), 0xabd0), 2);
    assert_eq!(k.ready_queue, vec![TaskRef { pid: 1, tid: 0 }, TaskRef { pid: 2, tid: 0 }]);
}

#[test]
fn fork_registers_the_child() {
    let mut k = booted();
    k.procs[0].as_mut().unwrap().inner.tasks[0].as_mut().unwrap().trap_cx.x[10] = 42;
    let child = ProcessControlBlock::fork(&mut k, 0, MemorySet { token: 9, data_recycled: false }, 0xdef0);
    assert_eq!(child, 1);
    assert_eq!(proc(&k, 0).inner.children, vec![1]);
    assert_eq!(k.ready_queue, vec![TaskRef { pid: 1, tid: 0 }]);
    let c = pid2process(&k, 1).unwrap();
    assert_eq!(c.inner.parent, Some(0));
    assert_eq!(c.inner.get_user_token(), 9);
    assert_eq!(c.inner.get_task(0).trap_cx.x[10], 42);
    assert_eq!(c.inner.get_task(0).trap_cx.kernel_sp, 0xdef0);
    let spawned = ProcessControlBlock::new(&mut k, image(0x5), 0xabc0);
    let grandchild = ProcessControlBlock::fork(&mut k, spawned, MemorySet { token: 11, data_recycled: false }, 0xde00);
    assert_eq!(grandchild, 3);
    assert_eq!(proc(&k, 2).inner.children, vec![3]);
    assert_eq!(proc(&k, 3).inner.parent, Some(2));
    assert_eq!(proc(&k, 0).inner.children, vec![1]);
    assert_eq!(
        k.ready_queue,
        vec![TaskRef { pid: 1, tid: 0 }, TaskRef { pid: 2, tid: 0 }, TaskRef { pid: 3, tid: 0 }]
    );
}

#[test]
fn alloc_fd_asked_again_gives_the_same_slot() {
    let mut k = booted();
    let inner = k.procs[0].as_mut().unwrap().inner_exclusive_access();
    let first = inner.alloc_fd();
    let table = inner.fd_table.clone();
    assert_eq!(inner.alloc_fd(), first);
    assert_eq!(inner.fd_table, table);
    inner.fd_table[3] = Some(FileHandle::Stdout);
    inner.fd_table[0] = None;
    assert_eq!(inner.alloc_fd(), 0);
    assert_eq!(inner.alloc_fd(), 0);
    assert_eq!(inner.fd_table.len(), 4);
}

#[test]
fn reaped_child_is_not_returned_later() {
    let mut k = booted();
    sys_fork(&mut k, MemorySet { token: 1, data_recycled: false }, 0xfffe_0000);
    child_exits(&mut k, 3);
    assert_eq!(sys_waitpid(&mut k, 1), (1, Some(3)));
    // other work in between, none of it giving the process a child
    assert_eq!(sys_yield(&mut k), 0);
    assert_eq!(k.schedule_next(), Some(TaskRef { pid: 0, tid: 0 }));
    assert_eq!(ProcessControlBlock::new(&mut k, image(0x5), 0xabc0), 1);
    assert_eq!(sys_waitpid(&mut k, 1), (-1, None));
    assert_eq!(sys_waitpid(&mut k, -1), (-1, None));
}

#[test]
fn sigaction_reads_back_after_other_calls() {
    let mut k = booted();
    let a = SignalAction { handler: 0x4000, mask: SignalFlags { bits: 0 } };
    assert_eq!(sys_sigaction(&mut k, 10, 0x100, 0x200, a).0, 0);
    let b = SignalAction { handler: 0x5000, mask: SignalFlags { bits: 1 } };
    assert_eq!(sys_sigaction(&mut k, 12, 0x100, 0x200, b).0, 0);
    assert_eq!(sys_sigprocmask(&mut k, SIGINT), 0);
    sys_fork(&mut k, MemorySet { token: 1, data_recycled: false }, 0xfffe_0000);
    assert_eq!(sys_sigaction(&mut k, 10, 0x300, 0x400, b), (0, Some(a)));
}

#[test]
fn sigreturn_after_other_calls_restores_the_registers() {
    let mut k = booted();
    let a = SignalAction { handler: 0x4000, mask: SignalFlags { bits: 0 } };
    assert_eq!(sys_sigaction(&mut k, 10, 0x100, 0x200, a).0, 0);
    k.procs[0].as_mut().unwrap().inner.tasks[0].as_mut().unwrap().trap_cx.x[10] = 77;
    let before = proc(&k, 0).inner.get_task(0).trap_cx;
    assert_eq!(sys_kill(&mut k, 0, SIGUSR1), 0);
    assert!(!handle_signals(&mut k));
    // the handler runs and makes other calls before returning
    assert_eq!(sys_sigprocmask(&mut k, SIGINT), 0);
    assert_eq!(sys_getpid(&k), 0);
    assert_eq!(sys_sigreturn(&mut k), 77);
    let p = proc(&k, 0);
    assert_eq!(p.inner.handling_sig, -1);
    let cx = p.inner.get_task(0).trap_cx;
    assert_eq!(cx.x, before.x);
    assert_eq!(cx.sepc, before.sepc);
    assert_eq!(cx.sstatus, before.sstatus);
    assert_eq!(cx.kernel_sp, before.kernel_sp);
}
