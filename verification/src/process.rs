//! The process control block: what a process owns and the operations that
//! build, copy and replace it.
use vstd::prelude::*;
use vstd::utf8::encode_utf8;
use crate::action::SignalActions;
use crate::id::RecycleAllocator;
use crate::signal::{SignalFlags, MAX_SIG};
use crate::task::{spec_ustack_top, TaskControlBlock, TaskStatus, TaskUserRes, USER_STACK_SIZE};
use crate::trap::TrapContext;

verus! {

/// Size in bytes of a pointer-sized word on the user stack.
pub const WORD_BYTES: usize = 8;

/// An entry of a file-descriptor table: one of the console streams, or an
/// open file known to the kernel by its number.
#[derive(Clone, Copy, PartialEq, Eq, Structural, Debug)]
pub enum FileHandle {
    Stdin,
    Stdout,
    Opened(usize),
}

/// What the process logic reads of an address space: the page-table token
/// it is entered with, and whether its data pages have been given back.
#[derive(Clone, Copy, PartialEq, Eq, Structural, Debug)]
pub struct MemorySet {
    pub token: usize,
    pub data_recycled: bool,
}

impl MemorySet {
    pub fn token(&self) -> (ret: usize)
        ensures
            ret == self.token,
    {
        self.token
    }

    /// Marks the data pages as given back to the frame allocator.
    pub fn recycle_data_pages(&mut self)
        ensures
            final(self).token == old(self).token,
            final(self).data_recycled,
    {
        self.data_recycled = true;
    }
}

/// A program loaded from an ELF image: its address space, the base of its
/// user stacks and its entry point.
#[derive(Clone, Copy, PartialEq, Eq, Structural, Debug)]
pub struct ElfImage {
    pub memory_set: MemorySet,
    pub ustack_base: usize,
    pub entry_point: usize,
}

pub struct ProcessControlBlockInner {
    pub memory_set: MemorySet,
    /// Pid of the parent.
    pub parent: Option<usize>,
    /// Pids of the children.
    pub children: Vec<usize>,
    pub exit_code: i32,
    pub fd_table: Vec<Option<FileHandle>>,
    pub signals: SignalFlags,
    pub signal_mask: SignalFlags,
    /// The signal whose user handler runs, or -1.
    pub handling_sig: isize,
    pub signal_actions: SignalActions,
    pub killed: bool,
    pub frozen: bool,
    pub trap_ctx_backup: Option<TrapContext>,
    pub is_zombie: bool,
    /// Threads, indexed by thread id.
    pub tasks: Vec<Option<TaskControlBlock>>,
    pub task_res_allocator: RecycleAllocator,
}

pub struct ProcessControlBlock {
    pub pid: usize,
    pub inner: ProcessControlBlockInner,
}

/// Bytes of a string as stored in memory.
pub open spec fn arg_bytes(s: String) -> Seq<u8> {
    encode_utf8(s@)
}

/// Room taken by the first `n` arguments, each with its terminating zero.
pub open spec fn strings_size(args: Seq<String>, n: int) -> int
    decreases n,
{
    if n <= 0 {
        0
    } else {
        strings_size(args, n - 1) + arg_bytes(args[n - 1]).len() + 1
    }
}

/// Room that `exec` takes below the stack top for the arguments.
pub open spec fn args_size(args: Seq<String>) -> int {
    (args.len() + 1) * WORD_BYTES + strings_size(args, args.len() as int)
}

/// The argument-pointer array sits right below the stack top, one word per
/// argument and a zero word after them.
pub open spec fn argv_base(top: int, argc: int) -> int {
    top - (argc + 1) * WORD_BYTES
}

/// Argument `i` is stored below the array and below arguments `0..i`.
pub open spec fn arg_addr(top: int, args: Seq<String>, i: int) -> int {
    argv_base(top, args.len() as int) - strings_size(args, i + 1)
}

/// The stack pointer a program starts with: below all arguments, rounded
/// down to a word.
pub open spec fn args_user_sp(top: int, args: Seq<String>) -> int {
    let sp = argv_base(top, args.len() as int) - strings_size(args, args.len() as int);
    sp - sp % (WORD_BYTES as int)
}

pub proof fn lemma_strings_size_monotonic(args: Seq<String>, i: int, j: int)
    requires
        i <= j,
    ensures
        0 <= strings_size(args, i) <= strings_size(args, j),
    decreases j - i,
{
    if i < j {
        lemma_strings_size_monotonic(args, i, j - 1);
    }
    if i > 0 {
        lemma_strings_size_nonneg(args, i);
    }
}

proof fn lemma_strings_size_nonneg(args: Seq<String>, i: int)
    ensures
        strings_size(args, i) >= 0,
    decreases i,
{
    if i > 0 {
        lemma_strings_size_nonneg(args, i - 1);
    }
}

/// Where `exec` put the arguments on the new user stack: the word at
/// `argv_base + WORD_BYTES * i` holds `argv[i]`, and for each argument `i`
/// its bytes followed by a zero start at `argv[i]`.
pub struct ArgLayout {
    pub argv_base: usize,
    pub argv: Vec<usize>,
    pub user_sp: usize,
}

/// `fd` is what `alloc_fd` returns on descriptor table `t`, and `t1` the
/// table it leaves: the lowest free slot, or a new free slot at the end when
/// none is free. The slot stays free.
pub open spec fn fd_allocated(t: Seq<Option<FileHandle>>, fd: usize, t1: Seq<Option<FileHandle>>) -> bool {
    &&& fd <= t.len()
    &&& forall|i: int| 0 <= i < fd ==> (#[trigger] t[i]) is Some
    &&& fd < t.len() ==> t[fd as int] is None && t1 == t
    &&& fd == t.len() ==> t1 == t.push(None)
}

impl ProcessControlBlockInner {
    pub open spec fn wf(&self) -> bool {
        &&& self.task_res_allocator.wf()
        &&& self.tasks@.len() >= 1
        &&& self.tasks@[0] is Some
        &&& forall|i: int|
            0 <= i < self.tasks@.len() && (#[trigger] self.tasks@[i]) is Some && self.tasks@[i]->0.res is Some
                ==> self.tasks@[i]->0.res->0.tid == i && self.task_res_allocator.is_allocated(i)
        &&& (self.handling_sig == -1 || 0 <= self.handling_sig <= MAX_SIG)
        &&& self.children@.no_duplicates()
    }

    /// The main thread.
    pub open spec fn main_task(&self) -> TaskControlBlock {
        self.tasks@[0]->0
    }

    pub fn get_user_token(&self) -> (ret: usize)
        ensures
            ret == self.memory_set.token,
    {
        self.memory_set.token()
    }

    /// The lowest free descriptor, after growing the table by one free slot
    /// when none is free.
    pub fn alloc_fd(&mut self) -> (fd: usize)
        ensures
            fd <= old(self).fd_table@.len(),
            forall|i: int| 0 <= i < fd ==> (#[trigger] old(self).fd_table@[i]) is Some,
            fd < old(self).fd_table@.len() ==> old(self).fd_table@[fd as int] is None
                && final(self).fd_table@ == old(self).fd_table@,
            fd == old(self).fd_table@.len() ==> final(self).fd_table@ == old(self).fd_table@.push(None),
            fd_allocated(old(self).fd_table@, fd, final(self).fd_table@),
            final(self).memory_set == old(self).memory_set,
            final(self).parent == old(self).parent,
            final(self).children@ == old(self).children@,
            final(self).exit_code == old(self).exit_code,
            final(self).signals == old(self).signals,
            final(self).signal_mask == old(self).signal_mask,
            final(self).handling_sig == old(self).handling_sig,
            final(self).signal_actions == old(self).signal_actions,
            final(self).killed == old(self).killed,
            final(self).frozen == old(self).frozen,
            final(self).trap_ctx_backup == old(self).trap_ctx_backup,
            final(self).is_zombie == old(self).is_zombie,
            final(self).tasks@ == old(self).tasks@,
            final(self).task_res_allocator == old(self).task_res_allocator,
    {
        let mut fd: usize = 0;
        while fd < self.fd_table.len()
            invariant
                fd <= self.fd_table@.len(),
                self.fd_table@ == old(self).fd_table@,
                forall|i: int| 0 <= i < fd ==> (#[trigger] self.fd_table@[i]) is Some,
            decreases self.fd_table@.len() - fd,
        {
            if self.fd_table[fd].is_none() {
                return fd;
            }
            fd = fd + 1;
        }
        self.fd_table.push(None);
        self.fd_table.len() - 1
    }

    /// A thread id for a new thread.
    pub fn alloc_tid(&mut self) -> (tid: usize)
        requires
            old(self).task_res_allocator.wf(),
            old(self).task_res_allocator.recycled@.len() > 0
                || old(self).task_res_allocator.current < usize::MAX,
        ensures
            *final(self) == (ProcessControlBlockInner {
                task_res_allocator: final(self).task_res_allocator,
                ..*old(self)
            }),
            final(self).task_res_allocator.wf(),
            tid == old(self).task_res_allocator.next_id(),
            !old(self).task_res_allocator.is_allocated(tid as int),
            final(self).task_res_allocator.is_allocated(tid as int),
            forall|i: int| i != tid ==> (final(self).task_res_allocator.is_allocated(i)
                <==> old(self).task_res_allocator.is_allocated(i)),
            final(self).tasks@ == old(self).tasks@,
            final(self).children@ == old(self).children@,
            final(self).handling_sig == old(self).handling_sig,
    {
        self.task_res_allocator.allocate()
    }

    /// Gives thread id `tid` back.
    pub fn dealloc_tid(&mut self, tid: usize)
        requires
            old(self).task_res_allocator.wf(),
            old(self).task_res_allocator.is_allocated(tid as int),
        ensures
            *final(self) == (ProcessControlBlockInner {
                task_res_allocator: final(self).task_res_allocator,
                ..*old(self)
            }),
            final(self).task_res_allocator.wf(),
            final(self).task_res_allocator.current == old(self).task_res_allocator.current,
            final(self).task_res_allocator.recycled@ == old(self).task_res_allocator.recycled@.push(tid),
            !final(self).task_res_allocator.is_allocated(tid as int),
            forall|i: int| i != tid ==> (final(self).task_res_allocator.is_allocated(i)
                <==> old(self).task_res_allocator.is_allocated(i)),
            final(self).tasks@ == old(self).tasks@,
            final(self).children@ == old(self).children@,
            final(self).handling_sig == old(self).handling_sig,
    {
        self.task_res_allocator.dealloc(tid);
    }

    pub fn thread_count(&self) -> (ret: usize)
        ensures
            ret == self.tasks@.len(),
    {
        self.tasks.len()
    }

    pub fn get_task(&self, tid: usize) -> (ret: &TaskControlBlock)
        requires
            tid < self.tasks@.len(),
            self.tasks@[tid as int] is Some,
        ensures
            *ret == self.tasks@[tid as int]->0,
    {
        self.tasks[tid].as_ref().unwrap()
    }
}

impl ProcessControlBlockInner {
    /// The state every new process starts in, apart from its address space,
    /// descriptors and threads.
    pub open spec fn is_fresh(&self, parent: Option<usize>) -> bool {
        &&& self.parent == parent
        &&& self.children@ == Seq::<usize>::empty()
        &&& self.exit_code == 0
        &&& self.signals.bits == 0
        &&& self.signal_mask.bits == 0
        &&& self.handling_sig == -1
        &&& self.signal_actions.is_default()
        &&& !self.killed
        &&& !self.frozen
        &&& self.trap_ctx_backup is None
        &&& !self.is_zombie
        &&& self.tasks@.len() == 1
        &&& self.task_res_allocator.current == 1
        &&& self.task_res_allocator.recycled@ == Seq::<usize>::empty()
    }
}

impl ProcessControlBlock {
    /// What `with_pid` builds.
    pub open spec fn is_new_process(
        self,
        pid: usize,
        image: ElfImage,
        kstack_top: usize,
        kernel_token: usize,
        trap_handler: usize,
        sstatus: usize,
    ) -> bool {
        &&& self.pid == pid
        &&& self.inner.wf()
        &&& self.inner.is_fresh(None)
        &&& self.inner.memory_set == image.memory_set
        &&& self.inner.fd_table@ == seq![
            Some(FileHandle::Stdin),
            Some(FileHandle::Stdout),
            Some(FileHandle::Stdout),
        ]
        &&& self.inner.main_task().kstack_top == kstack_top
        &&& self.inner.main_task().res == Some(TaskUserRes { tid: 0, ustack_base: image.ustack_base })
        &&& self.inner.main_task().trap_cx.is_app_init(
            image.entry_point,
            spec_ustack_top(image.ustack_base, 0) as usize,
            sstatus,
            kernel_token,
            kstack_top,
            trap_handler,
        )
        &&& self.inner.main_task().task_status == TaskStatus::Ready
        &&& self.inner.main_task().exit_code is None
    }

    /// What `copy_for_fork` builds from `parent`.
    pub open spec fn is_fork_of(
        self,
        parent: ProcessControlBlock,
        child_pid: usize,
        memory_set: MemorySet,
        kstack_top: usize,
    ) -> bool {
        &&& self.forked_from(parent, child_pid, memory_set, kstack_top)
        &&& self.inner.main_task().trap_cx == (TrapContext {
            kernel_sp: kstack_top,
            ..parent.inner.main_task().trap_cx
        })
    }

    /// What `copy_for_fork` builds from `parent`, the registers of its thread aside.
    pub open spec fn forked_from(
        self,
        parent: ProcessControlBlock,
        child_pid: usize,
        memory_set: MemorySet,
        kstack_top: usize,
    ) -> bool {
        &&& self.pid == child_pid
        &&& self.inner.wf()
        &&& self.inner.is_fresh(Some(parent.pid))
        &&& self.inner.memory_set == memory_set
        &&& self.inner.fd_table@ == parent.inner.fd_table@
        &&& self.inner.main_task().kstack_top == kstack_top
        &&& self.inner.main_task().res == Some(TaskUserRes {
            tid: 0,
            ustack_base: parent.inner.main_task().res->0.ustack_base,
        })
        &&& self.inner.main_task().task_status == TaskStatus::Ready
        &&& self.inner.main_task().exit_code is None
    }
}

impl ProcessControlBlock {
    /// `self` is what `exec` makes of `before`, with `layout` its result.
    pub open spec fn is_exec_of(
        self,
        before: ProcessControlBlock,
        image: ElfImage,
        args: Seq<String>,
        layout: ArgLayout,
        kernel_token: usize,
        trap_handler: usize,
        sstatus: usize,
    ) -> bool {
        let top = spec_ustack_top(image.ustack_base, 0);
        let task = self.inner.main_task();
        let old_task = before.inner.main_task();
        &&& self.pid == before.pid
        &&& self.inner.wf()
        &&& self.inner == ProcessControlBlockInner {
            memory_set: image.memory_set,
            tasks: self.inner.tasks,
            ..before.inner
        }
        &&& self.inner.tasks@.len() == 1
        &&& layout.argv_base == argv_base(top, args.len() as int)
        &&& layout.argv@.len() == args.len() + 1
        &&& layout.argv@[args.len() as int] == 0
        &&& forall|i: int| 0 <= i < args.len() ==> #[trigger] layout.argv@[i] == arg_addr(top, args, i)
        &&& layout.user_sp == args_user_sp(top, args)
        &&& task.kstack_top == old_task.kstack_top
        &&& task.res == Some(TaskUserRes { tid: 0, ustack_base: image.ustack_base })
        &&& task.task_status == old_task.task_status
        &&& task.exit_code == old_task.exit_code
        &&& task.trap_cx.x@ == Seq::new(
            32,
            |i: int|
                if i == 2 {
                    layout.user_sp
                } else if i == 10 {
                    args.len() as usize
                } else if i == 11 {
                    layout.argv_base
                } else {
                    0usize
                },
        )
        &&& task.trap_cx.sepc == image.entry_point
        &&& task.trap_cx.sstatus == sstatus
        &&& task.trap_cx.kernel_satp == kernel_token
        &&& task.trap_cx.kernel_sp == old_task.kstack_top
        &&& task.trap_cx.trap_handler == trap_handler
    }
}

impl ProcessControlBlock {
    pub fn inner_exclusive_access(&mut self) -> (ret: &mut ProcessControlBlockInner)
        ensures
            *ret == old(self).inner,
            final(self).inner == *final(ret),
            final(self).pid == old(self).pid,
    {
        &mut self.inner
    }

    pub fn get_pid(&self) -> (ret: usize)
        ensures
            ret == self.pid,
    {
        self.pid
    }

    /// A process with pid `pid` running `image` in one thread, thread 0, with
    /// the console on descriptors 0, 1 and 2. The thread starts at the entry
    /// point on top of its user stack, with kernel stack `kstack_top`.
    pub fn with_pid(
        pid: usize,
        image: ElfImage,
        kstack_top: usize,
        kernel_token: usize,
        trap_handler: usize,
        sstatus: usize,
    ) -> (ret: ProcessControlBlock)
        requires
            spec_ustack_top(image.ustack_base, 0) <= usize::MAX,
        ensures
            ret.is_new_process(pid, image, kstack_top, kernel_token, trap_handler, sstatus),
    {
        let mut task_res_allocator = RecycleAllocator::new();
        let tid = task_res_allocator.allocate();
        let res = TaskUserRes { tid, ustack_base: image.ustack_base };
        let ustack_top = res.ustack_top();
        let trap_cx = TrapContext::app_init_context(
            image.entry_point,
            ustack_top,
            sstatus,
            kernel_token,
            kstack_top,
            trap_handler,
        );
        let task = TaskControlBlock {
            kstack_top,
            res: Some(res),
            trap_cx,
            task_status: TaskStatus::Ready,
            exit_code: None,
        };
        let fd_table = vec![
            Some(FileHandle::Stdin),
            Some(FileHandle::Stdout),
            Some(FileHandle::Stdout),
        ];
        let tasks = vec![Some(task)];
        let ret = ProcessControlBlock {
            pid,
            inner: ProcessControlBlockInner {
                memory_set: image.memory_set,
                parent: None,
                children: Vec::new(),
                exit_code: 0,
                fd_table,
                signals: SignalFlags::empty(),
                signal_mask: SignalFlags::empty(),
                handling_sig: -1,
                signal_actions: SignalActions::default(),
                killed: false,
                frozen: false,
                trap_ctx_backup: None,
                is_zombie: false,
                tasks,
                task_res_allocator,
            },
        };
        ret
    }

    /// A copy of this single-threaded process with pid `child_pid` and address
    /// space `memory_set` (a copy of this one): same descriptors, one thread
    /// with the registers of this process's thread 0 and kernel stack
    /// `kstack_top`; parent this process, fresh signal state.
    pub fn copy_for_fork(&self, child_pid: usize, memory_set: MemorySet, kstack_top: usize) -> (child:
        ProcessControlBlock)
        requires
            self.inner.wf(),
            self.inner.tasks@.len() == 1,
            self.inner.main_task().res is Some,
        ensures
            child.is_fork_of(*self, child_pid, memory_set, kstack_top),
    {
        let parent_task = self.inner.get_task(0);
        let ustack_base = parent_task.res.unwrap().ustack_base();
        let mut new_fd_table: Vec<Option<FileHandle>> = Vec::new();
        let mut i: usize = 0;
        while i < self.inner.fd_table.len()
            invariant
                i <= self.inner.fd_table@.len(),
                new_fd_table@ == self.inner.fd_table@.subrange(0, i as int),
            decreases self.inner.fd_table@.len() - i,
        {
            if let Some(file) = self.inner.fd_table[i] {
                new_fd_table.push(Some(file));
            } else {
                new_fd_table.push(None);
            }
            i = i + 1;
        }
        proof {
            assert(new_fd_table@ == self.inner.fd_table@);
        }
        let mut task_res_allocator = RecycleAllocator::new();
        let tid = task_res_allocator.allocate();
        let mut trap_cx = parent_task.trap_cx;
        trap_cx.kernel_sp = kstack_top;
        let task = TaskControlBlock {
            kstack_top,
            res: Some(TaskUserRes { tid, ustack_base }),
            trap_cx,
            task_status: TaskStatus::Ready,
            exit_code: None,
        };
        let tasks = vec![Some(task)];
        ProcessControlBlock {
            pid: child_pid,
            inner: ProcessControlBlockInner {
                memory_set,
                parent: Some(self.pid),
                children: Vec::new(),
                exit_code: 0,
                fd_table: new_fd_table,
                signals: SignalFlags::empty(),
                signal_mask: SignalFlags::empty(),
                handling_sig: -1,
                signal_actions: SignalActions::default(),
                killed: false,
                frozen: false,
                trap_ctx_backup: None,
                is_zombie: false,
                tasks,
                task_res_allocator,
            },
        }
    }

    /// Replaces the program of this single-threaded process with `image` and
    /// lays the arguments out on the new user stack of thread 0; the thread
    /// restarts at the entry point with the argument count in `x10` and the
    /// address of the argument-pointer array in `x11`.
    pub fn exec(
        &mut self,
        image: ElfImage,
        args: Vec<String>,
        kernel_token: usize,
        trap_handler: usize,
        sstatus: usize,
    ) -> (ret: ArgLayout)
        requires
            old(self).inner.wf(),
            old(self).inner.tasks@.len() == 1,
            old(self).inner.main_task().res is Some,
            spec_ustack_top(image.ustack_base, 0) <= usize::MAX,
            args_size(args@) <= spec_ustack_top(image.ustack_base, 0),
        ensures
            final(self).is_exec_of(*old(self), image, args@, ret, kernel_token, trap_handler, sstatus),
    {
        let ghost top = spec_ustack_top(image.ustack_base, 0);
        self.inner.memory_set = image.memory_set;
        let mut task = *self.inner.get_task(0);
        let mut res = task.res.unwrap();
        res.ustack_base = image.ustack_base;
        let top_exec = res.ustack_top();
        let argc = args.len();
        proof {
            lemma_strings_size_monotonic(args@, 0, argc as int);
            assert((argc + 1) * WORD_BYTES <= args_size(args@));
        }
        let mut user_sp: usize = top_exec - (argc + 1) * WORD_BYTES;
        let base = user_sp;
        let mut argv: Vec<usize> = Vec::new();
        let mut i: usize = 0;
        while i < argc
            invariant
                argc == args@.len(),
                top_exec == top,
                args_size(args@) <= top,
                i <= argc,
                base == argv_base(top, argc as int),
                user_sp == base - strings_size(args@, i as int),
                argv@.len() == i,
                forall|j: int| 0 <= j < i ==> #[trigger] argv@[j] == arg_addr(top, args@, j),
            decreases argc - i,
        {
            let len = args[i].as_str().len();
            proof {
                lemma_strings_size_monotonic(args@, i + 1, argc as int);
                assert(strings_size(args@, i + 1) == strings_size(args@, i as int) + len + 1);
            }
            user_sp = user_sp - (len + 1);
            argv.push(user_sp);
            i = i + 1;
        }
        argv.push(0);
        user_sp = user_sp - user_sp % WORD_BYTES;
        let mut trap_cx = TrapContext::app_init_context(
            image.entry_point,
            user_sp,
            sstatus,
            kernel_token,
            task.kstack_top,
            trap_handler,
        );
        trap_cx.x[10] = argc;
        trap_cx.x[11] = base;
        task.res = Some(res);
        task.trap_cx = trap_cx;
        self.inner.tasks[0] = Some(task);
        proof {
            assert(trap_cx.x@ =~= Seq::new(
                32,
                |i: int|
                    if i == 2 {
                        user_sp
                    } else if i == 10 {
                        argc
                    } else if i == 11 {
                        base
                    } else {
                        0usize
                    },
            ));
        }
        ArgLayout { argv_base: base, argv, user_sp }
    }
}

} // verus!
