//! The registers saved when a user thread traps into the kernel.
use vstd::prelude::*;

verus! {

/// Saved user registers and what the trap handler needs to get back into the kernel.
#[derive(Clone, Copy)]
pub struct TrapContext {
    /// General registers `x0..x31`.
    pub x: [usize; 32],
    /// The supervisor status word to return to user mode with.
    pub sstatus: usize,
    /// Where the thread resumes.
    pub sepc: usize,
    pub kernel_satp: usize,
    pub kernel_sp: usize,
    pub trap_handler: usize,
}

impl TrapContext {
    /// A context that starts a thread at `entry` with stack pointer `sp`
    /// and every other general register zero.
    pub open spec fn is_app_init(
        self,
        entry: usize,
        sp: usize,
        sstatus: usize,
        kernel_satp: usize,
        kernel_sp: usize,
        trap_handler: usize,
    ) -> bool {
        &&& self.x@[2] == sp
        &&& forall|i: int| 0 <= i < 32 && i != 2 ==> #[trigger] self.x@[i] == 0
        &&& self.sstatus == sstatus
        &&& self.sepc == entry
        &&& self.kernel_satp == kernel_satp
        &&& self.kernel_sp == kernel_sp
        &&& self.trap_handler == trap_handler
    }

    pub fn set_sp(&mut self, sp: usize)
        ensures
            final(self).x@ == old(self).x@.update(2, sp),
            final(self).sstatus == old(self).sstatus,
            final(self).sepc == old(self).sepc,
            final(self).kernel_satp == old(self).kernel_satp,
            final(self).kernel_sp == old(self).kernel_sp,
            final(self).trap_handler == old(self).trap_handler,
    {
        self.x[2] = sp;
    }

    /// `sstatus` is the current status word with the previous privilege set to user.
    pub fn app_init_context(
        entry: usize,
        sp: usize,
        sstatus: usize,
        kernel_satp: usize,
        kernel_sp: usize,
        trap_handler: usize,
    ) -> (ret: TrapContext)
        ensures
            ret.is_app_init(entry, sp, sstatus, kernel_satp, kernel_sp, trap_handler),
    {
        let mut cx = TrapContext {
            x: [0; 32],
            sstatus,
            sepc: entry,
            kernel_satp,
            kernel_sp,
            trap_handler,
        };
        cx.set_sp(sp);
        cx
    }
}

} // verus!
