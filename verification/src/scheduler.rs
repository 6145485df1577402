//! Tasks and the round-robin scheduler: which task runs next, what is saved of the
//! task that was interrupted, and what the processor is to be loaded with.

use vstd::prelude::*;
use crate::gdt::set_usermode_segs;
use crate::mem::{
    PageTable, PhysAddr, VirtAddr, BIT_PRESENT, BIT_USER, BIT_WRITABLE, FRAME_SIZE,
};
use crate::paging::{MapError, Mapping, TableMemory};
use crate::port::{end_of_interrupt, end_of_interrupt_spec, PortWrite};

verus! {

/// The registers of an interrupted task: the fifteen general registers and the
/// frame that the processor pushed, in the order in which they lie in memory.
#[derive(Copy, Clone, Debug, PartialEq, Eq, Structural)]
pub struct Context {
    pub rbp: u64,
    pub rax: u64,
    pub rbx: u64,
    pub rcx: u64,
    pub rdx: u64,
    pub rsi: u64,
    pub rdi: u64,
    pub r8: u64,
    pub r9: u64,
    pub r10: u64,
    pub r11: u64,
    pub r12: u64,
    pub r13: u64,
    pub r14: u64,
    pub r15: u64,
    pub rip: u64,
    pub cs: u64,
    pub rflags: u64,
    pub rsp: u64,
    pub ss: u64,
}

/// Number of 64-bit words in a saved context.
pub const CONTEXT_WORDS: usize = 20;

/// Flags that a task starts with: interrupts enabled, nothing else.
pub const INITIAL_RFLAGS: u64 = 0x200;

/// Where the code of a task built from raw bytes is mapped.
pub const USER_CODE_BASE: u64 = 0x40_0000;

/// Where the stack page of a task is mapped.
pub const USER_STACK_BASE: u64 = 0x80_0000;

/// The first address above a task's stack: its initial stack pointer.
pub const USER_STACK_TOP: u64 = 0x80_1000;

impl Context {
    /// The context as it lies in memory, lowest address first: the general
    /// registers in the reverse of the order in which they were pushed, then
    /// the frame of the interrupt.
    pub open spec fn words_spec(self) -> Seq<u64> {
        seq![
            self.rbp,
            self.rax,
            self.rbx,
            self.rcx,
            self.rdx,
            self.rsi,
            self.rdi,
            self.r8,
            self.r9,
            self.r10,
            self.r11,
            self.r12,
            self.r13,
            self.r14,
            self.r15,
            self.rip,
            self.cs,
            self.rflags,
            self.rsp,
            self.ss,
        ]
    }

    /// The context as it lies in memory.
    pub fn to_words(&self) -> (w: [u64; 20])
        ensures
            w@ == self.words_spec(),
    {
        let w = [
            self.rbp,
            self.rax,
            self.rbx,
            self.rcx,
            self.rdx,
            self.rsi,
            self.rdi,
            self.r8,
            self.r9,
            self.r10,
            self.r11,
            self.r12,
            self.r13,
            self.r14,
            self.r15,
            self.rip,
            self.cs,
            self.rflags,
            self.rsp,
            self.ss,
        ];
        assert(w@ =~= self.words_spec());
        w
    }

    /// The context that lies in memory as `w`.
    pub fn from_words(w: &[u64; 20]) -> (c: Context)
        ensures
            c.words_spec() == w@,
    {
        let c = Context {
            rbp: w[0],
            rax: w[1],
            rbx: w[2],
            rcx: w[3],
            rdx: w[4],
            rsi: w[5],
            rdi: w[6],
            r8: w[7],
            r9: w[8],
            r10: w[9],
            r11: w[10],
            r12: w[11],
            r13: w[12],
            r14: w[13],
            r15: w[14],
            rip: w[15],
            cs: w[16],
            rflags: w[17],
            rsp: w[18],
            ss: w[19],
        };
        assert(c.words_spec() =~= w@);
        c
    }

    /// The context that a task is launched with: every general register zero, and
    /// the frame that takes the processor to `code` in user mode, on the stack
    /// that ends at `stack_end`, with interrupts enabled.
    pub open spec fn launch_spec(code: VirtAddr, stack_end: VirtAddr) -> Context {
        Context {
            rbp: 0,
            rax: 0,
            rbx: 0,
            rcx: 0,
            rdx: 0,
            rsi: 0,
            rdi: 0,
            r8: 0,
            r9: 0,
            r10: 0,
            r11: 0,
            r12: 0,
            r13: 0,
            r14: 0,
            r15: 0,
            rip: code@,
            cs: 51,
            rflags: INITIAL_RFLAGS,
            rsp: stack_end@,
            ss: 43,
        }
    }
}

/// A context written to memory and read back is the same context.
pub proof fn law_context_words_round_trip(c: Context, d: Context)
    requires
        c.words_spec() == d.words_spec(),
    ensures
        c == d,
{
    let w = c.words_spec();
    let v = d.words_spec();
    assert(w[0] == v[0] && w[1] == v[1] && w[2] == v[2] && w[3] == v[3] && w[4] == v[4]);
    assert(w[5] == v[5] && w[6] == v[6] && w[7] == v[7] && w[8] == v[8] && w[9] == v[9]);
    assert(w[10] == v[10] && w[11] == v[11] && w[12] == v[12] && w[13] == v[13] && w[14] == v[14]);
    assert(w[15] == v[15] && w[16] == v[16] && w[17] == v[17] && w[18] == v[18] && w[19] == v[19]);
}

/// The frame for the first entry into user mode: the words to push before the
/// interrupt return, in the order in which they are pushed: stack segment, stack
/// pointer, flags, code segment, instruction pointer.
pub fn jmp_to_usermode(code: VirtAddr, stack_end: VirtAddr) -> (frame: [u64; 5])
    ensures
        frame@ == seq![43u64, stack_end@, INITIAL_RFLAGS, 51u64, code@],
        frame@[0] == Context::launch_spec(code, stack_end).ss,
        frame@[1] == Context::launch_spec(code, stack_end).rsp,
        frame@[2] == Context::launch_spec(code, stack_end).rflags,
        frame@[3] == Context::launch_spec(code, stack_end).cs,
        frame@[4] == Context::launch_spec(code, stack_end).rip,
{
    let (cs_idx, ds_idx) = set_usermode_segs();
    let frame = [ds_idx as u64, stack_end.addr(), INITIAL_RFLAGS, cs_idx as u64, code.addr()];
    assert(frame@ =~= seq![43u64, stack_end@, INITIAL_RFLAGS, 51u64, code@]);
    frame
}

/// What a task is resumed from.
#[derive(Copy, Clone, Debug, PartialEq, Eq, Structural)]
pub enum TaskState {
    /// The registers saved when the task was interrupted.
    SavedContext(Context),
    /// The entry point and the top of the stack of a task that has not run yet.
    StartingInfo(VirtAddr, VirtAddr),
}

/// A task: its state, its address space, and the memory that holds its code and
/// its stack, which stays where it is for as long as the task lives.
pub struct Task {
    pub state: TaskState,
    /// The root table of the task's address space.
    pub task_pt: PhysAddr,
    pub data_bytes: Vec<u8>,
    pub stack_bytes: Vec<u8>,
}

impl Task {
    /// A task that has not run yet: it starts at `exec_base` with its stack
    /// pointer at `stack_end`.
    pub fn new(
        exec_base: VirtAddr,
        stack_end: VirtAddr,
        task_pt: PhysAddr,
        data_bytes: Vec<u8>,
        stack_bytes: Vec<u8>,
    ) -> (t: Task)
        ensures
            t.state == TaskState::StartingInfo(exec_base, stack_end),
            t.task_pt == task_pt,
            t.data_bytes == data_bytes,
            t.stack_bytes == stack_bytes,
    {
        Task { state: TaskState::StartingInfo(exec_base, stack_end), task_pt, data_bytes, stack_bytes }
    }
}

/// What the processor is to do after the scheduler has chosen.
#[derive(Copy, Clone, Debug, PartialEq, Eq, Structural)]
pub enum Dispatch {
    /// There is no task: wait for the next interrupt.
    Idle,
    /// Load `cr3`, flush the translation cache, and enter user mode at `entry`
    /// with the stack pointer at `stack_end`.
    Launch { cr3: PhysAddr, entry: VirtAddr, stack_end: VirtAddr },
    /// Load `cr3`, flush the translation cache, and return from the interrupt
    /// with the registers of `context`.
    Resume { cr3: PhysAddr, context: Context },
}

/// One thing that the processor is made to do.
#[derive(Copy, Clone, Debug, PartialEq, Eq, Structural)]
pub enum CpuStep {
    /// Halt until the next interrupt.
    Wait,
    /// Load the root table at this address into `cr3`.
    LoadPageTable(PhysAddr),
    /// Flush the whole translation cache.
    FlushTlb,
    /// Load the data segment registers with this selector.
    LoadDataSegments(u16),
    /// Push this interrupt frame, in the order of the fields, and return from the
    /// interrupt.
    EnterUserMode { ss: u64, rsp: u64, rflags: u64, cs: u64, rip: u64 },
    /// Point the stack at the image of these registers, pop the fifteen general
    /// registers, and return from the interrupt.
    RestoreContext(Context),
}

impl Dispatch {
    /// What the processor is made to do, in this order: the address space is
    /// switched and the translation cache flushed before anything of the task
    /// runs.
    pub open spec fn steps_spec(self) -> Seq<CpuStep> {
        match self {
            Dispatch::Idle => seq![CpuStep::Wait],
            Dispatch::Launch { cr3, entry, stack_end } => seq![
                CpuStep::LoadPageTable(cr3),
                CpuStep::FlushTlb,
                CpuStep::LoadDataSegments(43),
                CpuStep::EnterUserMode {
                    ss: 43,
                    rsp: stack_end@,
                    rflags: INITIAL_RFLAGS,
                    cs: 51,
                    rip: entry@,
                },
            ],
            Dispatch::Resume { cr3, context } => seq![
                CpuStep::LoadPageTable(cr3),
                CpuStep::FlushTlb,
                CpuStep::RestoreContext(context),
            ],
        }
    }

    /// What the processor is made to do, in this order.
    pub fn steps(&self) -> (s: Vec<CpuStep>)
        ensures
            s@ == self.steps_spec(),
    {
        let mut s: Vec<CpuStep> = Vec::new();
        match *self {
            Dispatch::Idle => {
                s.push(CpuStep::Wait);
            },
            Dispatch::Launch { cr3, entry, stack_end } => {
                let (_, ds_idx) = set_usermode_segs();
                s.push(CpuStep::LoadPageTable(cr3));
                s.push(CpuStep::FlushTlb);
                s.push(CpuStep::LoadDataSegments(ds_idx));
                let frame = jmp_to_usermode(entry, stack_end);
                s.push(
                    CpuStep::EnterUserMode {
                        ss: frame[0],
                        rsp: frame[1],
                        rflags: frame[2],
                        cs: frame[3],
                        rip: frame[4],
                    },
                );
            },
            Dispatch::Resume { cr3, context } => {
                s.push(CpuStep::LoadPageTable(cr3));
                s.push(CpuStep::FlushTlb);
                s.push(CpuStep::RestoreContext(context));
            },
        }
        assert(s@ =~= self.steps_spec());
        s
    }
}

/// What the contracts see of the scheduler.
pub struct SchedulerView {
    /// State and address space of each task, in the order in which they were scheduled.
    pub tasks: Seq<(TaskState, PhysAddr)>,
    /// The task that runs, if one has been chosen yet.
    pub cur_task: Option<int>,
}

impl SchedulerView {
    /// The cursor is a task.
    pub open spec fn wf(self) -> bool {
        match self.cur_task {
            Some(i) => 0 <= i < self.tasks.len(),
            None => true,
        }
    }

    /// The task that runs next: the first one if none has run, else the one behind
    /// the task that ran last, and the first one again behind the last.
    pub open spec fn next_task(self) -> int {
        match self.cur_task {
            Some(i) => if i + 1 < self.tasks.len() {
                i + 1
            } else {
                0
            },
            None => 0,
        }
    }

    /// What the processor is loaded with for task `i`.
    pub open spec fn dispatch_of(self, i: int) -> Dispatch {
        match self.tasks[i].0 {
            TaskState::SavedContext(context) => Dispatch::Resume { cr3: self.tasks[i].1, context },
            TaskState::StartingInfo(entry, stack_end) => Dispatch::Launch {
                cr3: self.tasks[i].1,
                entry,
                stack_end,
            },
        }
    }

    /// The scheduler after the registers `ctx` were saved for the task that runs.
    pub open spec fn saved(self, ctx: Context) -> SchedulerView {
        match self.cur_task {
            Some(i) => SchedulerView {
                tasks: self.tasks.update(i, (TaskState::SavedContext(ctx), self.tasks[i].1)),
                cur_task: self.cur_task,
            },
            None => self,
        }
    }

    /// The scheduler after the next task was chosen.
    pub open spec fn advanced(self) -> SchedulerView {
        if self.tasks.len() > 0 {
            SchedulerView { tasks: self.tasks, cur_task: Some(self.next_task()) }
        } else {
            self
        }
    }

    /// What the processor is loaded with after the next task was chosen.
    pub open spec fn next_dispatch(self) -> Dispatch {
        if self.tasks.len() > 0 {
            self.dispatch_of(self.next_task())
        } else {
            Dispatch::Idle
        }
    }
}

/// The round-robin scheduler.
pub struct Scheduler {
    tasks: Vec<Task>,
    cur_task: Option<usize>,
}

impl View for Scheduler {
    type V = SchedulerView;

    closed spec fn view(&self) -> SchedulerView {
        SchedulerView {
            tasks: Seq::new(
                self.tasks@.len(),
                |i: int| (self.tasks@[i].state, self.tasks@[i].task_pt),
            ),
            cur_task: match self.cur_task {
                Some(i) => Some(i as int),
                None => None,
            },
        }
    }
}

impl Scheduler {
    pub open spec fn wf(&self) -> bool {
        self@.wf()
    }

    /// A scheduler with no task, in which none has run.
    pub fn new() -> (s: Scheduler)
        ensures
            s.wf(),
            s@.tasks == Seq::<(TaskState, PhysAddr)>::empty(),
            s@.cur_task is None,
    {
        let s = Scheduler { tasks: Vec::new(), cur_task: None };
        assert(s@.tasks =~= Seq::<(TaskState, PhysAddr)>::empty());
        s
    }

    /// Number of tasks.
    pub fn task_count(&self) -> (n: usize)
        ensures
            n == self@.tasks.len(),
    {
        self.tasks.len()
    }

    /// The task that runs, if one has been chosen yet.
    pub fn current(&self) -> (c: Option<usize>)
        ensures
            match c {
                Some(i) => self@.cur_task == Some(i as int),
                None => self@.cur_task is None,
            },
    {
        self.cur_task
    }

    /// Adds a task behind all others. Tasks are never removed.
    pub fn schedule_task(&mut self, task: Task)
        requires
            old(self).wf(),
        ensures
            final(self).wf(),
            final(self)@.tasks == old(self)@.tasks.push((task.state, task.task_pt)),
            final(self)@.cur_task == old(self)@.cur_task,
    {
        self.tasks.push(task);
        assert(self@.tasks =~= old(self)@.tasks.push((task.state, task.task_pt)));
    }

    /// Records the registers of the task that runs, which was just interrupted.
    /// Nothing is recorded before the first task was chosen.
    pub fn save_current_context(&mut self, ctx: &Context)
        requires
            old(self).wf(),
        ensures
            final(self).wf(),
            final(self)@ == old(self)@.saved(*ctx),
    {
        match self.cur_task {
            Some(cur_task_idx) => {
                self.tasks[cur_task_idx].state = TaskState::SavedContext(*ctx);
                assert(self@.tasks =~= old(self)@.saved(*ctx).tasks);
            },
            None => {},
        }
    }

    /// Chooses the task that runs next and says what the processor is to be loaded
    /// with: the root table of the task's address space in any case; for a task
    /// that was interrupted, the registers saved then; for a task that has not
    /// run, its entry point and stack.
    pub fn run_next(&mut self) -> (d: Dispatch)
        requires
            old(self).wf(),
        ensures
            final(self).wf(),
            final(self)@ == old(self)@.advanced(),
            d == old(self)@.next_dispatch(),
            old(self)@.tasks.len() > 0 ==> 0 <= old(self)@.next_task() < old(self)@.tasks.len(),
    {
        let tasks_len = self.tasks.len();
        if tasks_len > 0 {
            let next_task = match self.cur_task {
                Some(cur_task) => if cur_task + 1 < tasks_len {
                    cur_task + 1
                } else {
                    0
                },
                None => 0,
            };
            self.cur_task = Some(next_task);
            let task = &self.tasks[next_task];
            match task.state {
                TaskState::SavedContext(ctx) => Dispatch::Resume { cr3: task.task_pt, context: ctx },
                TaskState::StartingInfo(exec_base, stack_end) => Dispatch::Launch {
                    cr3: task.task_pt,
                    entry: exec_base,
                    stack_end,
                },
            }
        } else {
            Dispatch::Idle
        }
    }

    /// What the timer interrupt does: the registers of the interrupted task are
    /// saved, the end of interrupt 32 is signalled, and the next task is chosen.
    /// Returns the port writes of the signal and what the processor is to be
    /// loaded with, in this order.
    pub fn context_switch(&mut self, ctx: &Context) -> (r: (Vec<PortWrite>, Dispatch))
        requires
            old(self).wf(),
        ensures
            final(self).wf(),
            final(self)@ == old(self)@.saved(*ctx).advanced(),
            r.0@ == end_of_interrupt_spec(32),
            r.1 == old(self)@.saved(*ctx).next_dispatch(),
    {
        self.save_current_context(ctx);
        let eoi = end_of_interrupt(32);
        let d = self.run_next();
        (eoi, d)
    }
}

/// The pages of a task made from raw bytes that lie at the physical address
/// `prog_phys`: the page of the first byte and the page behind it, mapped at the
/// user code base for reading by user code; and the stack page at `stack_phys`,
/// mapped at the user stack base for reading and writing.
pub open spec fn data_pages(prog_phys: PhysAddr, stack_phys: PhysAddr) -> Seq<Mapping> {
    let page = (prog_phys@ >> 12) << 12;
    seq![
        Mapping { virt: VirtAddr(USER_CODE_BASE), phys: PhysAddr(page), opts: 5 },
        Mapping {
            virt: VirtAddr((USER_CODE_BASE + FRAME_SIZE) as u64),
            phys: PhysAddr((page + FRAME_SIZE) as u64),
            opts: 5,
        },
        Mapping { virt: VirtAddr(USER_STACK_BASE), phys: stack_phys, opts: 7 },
    ]
}

/// Where such a task starts: at the user code base, as far into the page as the
/// first byte lies in its physical page, plus the offset of the entry point.
pub open spec fn data_entry(prog_phys: PhysAddr, entry_offset: usize) -> VirtAddr {
    VirtAddr((USER_CODE_BASE + (prog_phys@ - ((prog_phys@ >> 12) << 12)) + entry_offset) as u64)
}

impl Scheduler {
    /// Makes a task from the code in `prog_data`, which lies in physical memory at
    /// `prog_phys`, with the stack `stack_space`, which lies at `stack_phys`, and
    /// schedules it: a new address space is built that shares the kernel's half
    /// with the one under `kernel_root`, the code and the stack are mapped in it,
    /// and the task starts `entry_offset` bytes into the code.
    ///
    /// Where the address space cannot be built the scheduler stays as it is and
    /// the error says why.
    pub fn schedule_data(
        &mut self,
        mem: &mut TableMemory,
        kernel_root: PhysAddr,
        prog_data: Vec<u8>,
        prog_phys: PhysAddr,
        stack_space: Vec<u8>,
        stack_phys: PhysAddr,
        entry_offset: usize,
    ) -> (r: Result<(), MapError>)
        requires
            old(self).wf(),
            old(mem).wf(),
            prog_phys@ + FRAME_SIZE <= u64::MAX,
            USER_CODE_BASE + FRAME_SIZE + entry_offset <= u64::MAX,
        ensures
            final(self).wf(),
            final(mem).wf(),
            ({
                let pages = data_pages(prog_phys, stack_phys);
                let built = old(mem)@.task_space(kernel_root@, pages);
                let known = old(mem)@.is_table(kernel_root@, 4) && old(mem)@.entry(
                    kernel_root@,
                    0,
                ).present();
                match r {
                    Ok(_) => {
                        &&& known && old(mem)@.spare.len() >= 2 && built.2
                        &&& final(mem)@ == built.0
                        &&& final(self)@.cur_task == old(self)@.cur_task
                        &&& final(self)@.tasks == old(self)@.tasks.push(
                            (
                                TaskState::StartingInfo(
                                    data_entry(prog_phys, entry_offset),
                                    VirtAddr(USER_STACK_TOP),
                                ),
                                PhysAddr(built.1),
                            ),
                        )
                    },
                    Err(MapError::BadRoot) => {
                        &&& !known
                        &&& final(mem)@ == old(mem)@
                        &&& final(self)@ == old(self)@
                    },
                    Err(MapError::MapFail) => {
                        &&& known
                        &&& final(self)@ == old(self)@
                        &&& if old(mem)@.spare.len() < 2 {
                            final(mem)@ == old(mem)@
                        } else {
                            final(mem)@ == built.0 && !built.2
                        }
                    },
                }
            }),
    {
        let userspace_fn_phys: u64 = prog_phys.addr();
        let page_phys_start: u64 = (userspace_fn_phys >> 12) << 12;
        assert((userspace_fn_phys >> 12) << 12 <= userspace_fn_phys && userspace_fn_phys - ((
        userspace_fn_phys >> 12) << 12) < 0x1000) by (bit_vector);
        let fn_page_offset: u64 = userspace_fn_phys - page_phys_start;
        let userspace_fn_virt_base: u64 = USER_CODE_BASE;
        let userspace_fn_virt: u64 = userspace_fn_virt_base + fn_page_offset + entry_offset as u64;
        let mut pages: Vec<Mapping> = Vec::new();
        pages.push(
            Mapping {
                virt: VirtAddr::new(userspace_fn_virt_base),
                phys: PhysAddr::new(page_phys_start),
                opts: BIT_PRESENT | BIT_USER,
            },
        );
        pages.push(
            Mapping {
                virt: VirtAddr::new(userspace_fn_virt_base).offset(FRAME_SIZE),
                phys: PhysAddr::new(page_phys_start).offset(FRAME_SIZE),
                opts: BIT_PRESENT | BIT_USER,
            },
        );
        pages.push(
            Mapping {
                virt: VirtAddr::new(USER_STACK_BASE),
                phys: stack_phys,
                opts: BIT_PRESENT | BIT_WRITABLE | BIT_USER,
            },
        );
        proof {
            assert(BIT_PRESENT | BIT_USER == 5 && BIT_PRESENT | BIT_WRITABLE | BIT_USER == 7)
                by (bit_vector);
            assert(pages@ =~= data_pages(prog_phys, stack_phys));
        }
        let task_pt = match PageTable::new_task_space(mem, kernel_root, &pages) {
            Ok(root) => root,
            Err(e) => {
                return Err(e);
            },
        };
        let task = Task::new(
            VirtAddr::new(userspace_fn_virt),
            VirtAddr::new(USER_STACK_TOP),
            task_pt,
            prog_data,
            stack_space,
        );
        self.schedule_task(task);
        Ok(())
    }
}

/// The processor is loaded with the address space of the task chosen; a task that
/// was interrupted gets back the registers saved for it, its instruction pointer
/// among them, and a task that has not run starts at its entry point.
pub proof fn law_dispatch_loads_chosen_task(s: SchedulerView)
    requires
        s.wf(),
        s.tasks.len() > 0,
    ensures
        0 <= s.next_task() < s.tasks.len(),
        s.advanced().cur_task == Some(s.next_task()),
        match s.next_dispatch() {
            Dispatch::Resume { cr3, context } => cr3 == s.tasks[s.next_task()].1 && s.tasks[s.next_task()].0
                == TaskState::SavedContext(context),
            Dispatch::Launch { cr3, entry, stack_end } => cr3 == s.tasks[s.next_task()].1
                && s.tasks[s.next_task()].0 == TaskState::StartingInfo(entry, stack_end),
            Dispatch::Idle => false,
        },
{
}

/// A task whose registers were saved is resumed with just these registers when it
/// is chosen again.
pub proof fn law_saved_task_resumes(s: SchedulerView, ctx: Context)
    requires
        s.wf(),
        s.cur_task is Some,
    ensures
        s.saved(ctx).dispatch_of(s.cur_task->0) == (Dispatch::Resume {
            cr3: s.tasks[s.cur_task->0].1,
            context: ctx,
        }),
        forall|j: int|
            0 <= j < s.tasks.len() && j != s.cur_task->0 ==> #[trigger] s.saved(ctx).tasks[j]
                == s.tasks[j],
{
}

impl SchedulerView {
    /// The scheduler after the next task was chosen `k` times.
    pub open spec fn advanced_by(self, k: nat) -> SchedulerView
        decreases k,
    {
        if k == 0 {
            self
        } else {
            self.advanced_by((k - 1) as nat).advanced()
        }
    }
}

/// The tasks run in turn: the task that runs next is the one whose place is that of
/// the task that ran last plus one, modulo the number of tasks. After the next
/// task was chosen `k` times, at least once, the task that runs is the one `k`
/// places behind the task that ran before, and the first task comes behind the
/// last. Where no task ran before, counting
/// begins before the first task. So each task runs once in as many ticks as
/// there are tasks.
pub proof fn law_round_robin(s: SchedulerView, k: nat)
    requires
        s.wf(),
        s.tasks.len() > 0,
        k >= 1,
    ensures
        s.advanced_by(k).tasks == s.tasks,
        s.advanced_by(k).cur_task == Some(
            (match s.cur_task {
                Some(c) => c + k,
                None => k - 1,
            }) % (s.tasks.len() as int),
        ),
    decreases k,
{
    let n = s.tasks.len() as int;
    if k == 1 {
        assert(s.advanced_by(1) == s.advanced_by(0).advanced());
        match s.cur_task {
            Some(c) => {
                if c + 1 < n {
                    vstd::arithmetic::div_mod::lemma_small_mod((c + 1) as nat, n as nat);
                } else {
                    vstd::arithmetic::div_mod::lemma_mod_self_0(n);
                }
            },
            None => {
                vstd::arithmetic::div_mod::lemma_small_mod(0, n as nat);
            },
        }
    } else {
        law_round_robin(s, (k - 1) as nat);
        let before = s.advanced_by((k - 1) as nat);
        let base = match s.cur_task {
            Some(c) => c + k - 1,
            None => k - 2,
        };
        let x = base % n;
        assert(before.cur_task == Some(x));
        vstd::arithmetic::div_mod::lemma_mod_pos_bound(base, n);
        vstd::arithmetic::div_mod::lemma_add_mod_noop(base, 1, n);
        if x + 1 < n {
            vstd::arithmetic::div_mod::lemma_small_mod((x + 1) as nat, n as nat);
        } else {
            vstd::arithmetic::div_mod::lemma_mod_self_0(n);
        }
        if n > 1 {
            vstd::arithmetic::div_mod::lemma_small_mod(1, n as nat);
        } else {
            vstd::arithmetic::div_mod::lemma_mod_self_0(n);
        }
        assert((x + 1) % n == (base + 1) % n);
    }
}

/// The address space of a task made from raw code holds the direct map, as the
/// kernel's does: its code and its stack lie outside the kernel's half.
pub proof fn law_data_task_keeps_direct_map(
    m: crate::paging::MemoryView,
    kernel_root: u64,
    prog_phys: PhysAddr,
    stack_phys: PhysAddr,
)
    requires
        m.wf(),
        m.direct_mapped(kernel_root),
        m.spare.len() >= 2,
    ensures
        ({
            let built = m.task_space(kernel_root, data_pages(prog_phys, stack_phys));
            built.0.wf() && built.0.direct_mapped(built.1) && built.0.direct_mapped(kernel_root)
        }),
{
    let pages = data_pages(prog_phys, stack_phys);
    assert((0x40_0000u64 >> 39) & 0x1ff == 0 && (0x40_0000u64 >> 30) & 0x1ff == 0 && (0x40_1000u64
        >> 39) & 0x1ff == 0 && (0x40_1000u64 >> 30) & 0x1ff == 0 && (0x80_0000u64 >> 39) & 0x1ff
        == 0 && (0x80_0000u64 >> 30) & 0x1ff == 0) by (bit_vector);
    assert forall|i: int| 0 <= i < pages.len() implies !crate::paging_laws::in_kernel_half(
        (#[trigger] pages[i]).virt,
    ) by {
        assert(pages[0].virt == VirtAddr(0x40_0000));
        assert(pages[1].virt == VirtAddr(0x40_1000));
        assert(pages[2].virt == VirtAddr(0x80_0000));
    }
    crate::paging_laws::law_task_space_keeps_direct_map(m, kernel_root, pages);
}

} // verus!
