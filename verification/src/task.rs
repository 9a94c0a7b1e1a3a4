//! Threads: their state, their user stack and their saved registers.
use vstd::prelude::*;
use crate::trap::TrapContext;

verus! {

pub const PAGE_SIZE: usize = 0x1000;
pub const USER_STACK_SIZE: usize = 4096 * 2;

#[derive(Clone, Copy, PartialEq, Eq, Structural, Debug)]
pub enum TaskStatus {
    Ready,
    Running,
    Blocked,
}

/// The user stack of thread `tid` starts above those of lower ids, a guard page apart.
pub open spec fn spec_ustack_top(ustack_base: usize, tid: usize) -> int {
    ustack_base + tid * (PAGE_SIZE + USER_STACK_SIZE) + USER_STACK_SIZE
}

/// The user-space resources of a live thread: its id within the process and
/// the base above which the user stacks of the process lie.
#[derive(Clone, Copy, PartialEq, Eq, Structural, Debug)]
pub struct TaskUserRes {
    pub tid: usize,
    pub ustack_base: usize,
}

impl TaskUserRes {
    pub fn ustack_base(&self) -> (ret: usize)
        ensures
            ret == self.ustack_base,
    {
        self.ustack_base
    }

    /// The top of this thread's user stack.
    pub fn ustack_top(&self) -> (ret: usize)
        requires
            spec_ustack_top(self.ustack_base, self.tid) <= usize::MAX,
        ensures
            ret == spec_ustack_top(self.ustack_base, self.tid),
    {
        proof {
            assert(self.tid * (PAGE_SIZE + USER_STACK_SIZE) <= usize::MAX);
        }
        self.ustack_base + self.tid * (PAGE_SIZE + USER_STACK_SIZE) + USER_STACK_SIZE
    }
}

/// A thread of a process.
#[derive(Clone, Copy)]
pub struct TaskControlBlock {
    /// Top of the thread's kernel stack.
    pub kstack_top: usize,
    /// `None` once the thread has exited.
    pub res: Option<TaskUserRes>,
    /// The registers saved at the last trap.
    pub trap_cx: TrapContext,
    pub task_status: TaskStatus,
    pub exit_code: Option<i32>,
}

} // verus!
