use rust_os::elf::Elf;
use rust_os::mem::{PageTable, PhysAddr, VirtAddr, BIT_PRESENT, BIT_USER, BIT_WRITABLE};
use rust_os::paging::{kernel_mappings, MapError, TableMemory};
use rust_os::port::PortWrite;
use rust_os::boot::{init_order, InitStep};
use rust_os::scheduler::{
    jmp_to_usermode, Context, CpuStep, Dispatch, Scheduler, Task, TaskState,
};

fn context(seed: u64) -> Context {
    let mut w = [0u64; 20];
    for (i, word) in w.iter_mut().enumerate() {
        *word = seed * 100 + i as u64;
    }
    Context::from_words(&w)
}

fn task(entry: u64, root: u64) -> Task {
    Task::new(
        VirtAddr::new(entry),
        VirtAddr::new(0x80_1000),
        PhysAddr::new(root),
        vec![0x90; 16],
        vec![0; 4096],
    )
}

fn kernel_space(spare: u64) -> (TableMemory, PhysAddr) {
    let mut mem = TableMemory::new();
    for i in 0..(spare + 9) {
        assert!(mem.add_frame(PhysAddr::new(0xe000_0000 - i * 0x1000)));
    }
    let root = mem.add_root().unwrap();
    PageTable::map_many(&mut mem, root, &kernel_mappings()).unwrap();
    assert_eq!(mem.spare_frames() as u64, spare + 2);
    (mem, root)
}

#[test]
fn context_words_are_in_stack_order() {
    let mut w = [0u64; 20];
    for (i, word) in w.iter_mut().enumerate() {
        *word = 0x1000 + i as u64;
    }
    let c = Context::from_words(&w);
    assert_eq!(c.rbp, 0x1000);
    assert_eq!(c.rax, 0x1001);
    assert_eq!(c.rbx, 0x1002);
    assert_eq!(c.rcx, 0x1003);
    assert_eq!(c.rdx, 0x1004);
    assert_eq!(c.rsi, 0x1005);
    assert_eq!(c.rdi, 0x1006);
    assert_eq!(c.r8, 0x1007);
    assert_eq!(c.r15, 0x100e);
    assert_eq!(c.rip, 0x100f);
    assert_eq!(c.cs, 0x1010);
    assert_eq!(c.rflags, 0x1011);
    assert_eq!(c.rsp, 0x1012);
    assert_eq!(c.ss, 0x1013);
    assert_eq!(c.to_words(), w);
}

#[test]
fn first_entry_into_user_mode() {
    let frame = jmp_to_usermode(VirtAddr::new(0x40_0123), VirtAddr::new(0x80_1000));
    assert_eq!(frame, [43, 0x80_1000, 0x200, 51, 0x40_0123]);
}

#[test]
fn no_task_nothing_to_run() {
    let mut s = Scheduler::new();
    assert_eq!(s.run_next(), Dispatch::Idle);
    assert_eq!(s.current(), None);
    s.save_current_context(&context(1));
    assert_eq!(s.run_next(), Dispatch::Idle);
}

#[test]
fn scheduler_cycle() {
    let mut s = Scheduler::new();
    s.schedule_task(task(0x40_0000, 0x1000));
    s.schedule_task(task(0x40_0100, 0x2000));
    s.schedule_task(task(0x40_0200, 0x3000));
    assert_eq!(s.task_count(), 3);

    let (eoi, d) = s.context_switch(&context(9));
    assert_eq!(eoi, vec![PortWrite { port: 0x20, width: 1, value: 0x20 }]);
    assert_eq!(
        d,
        Dispatch::Launch {
            cr3: PhysAddr::new(0x1000),
            entry: VirtAddr::new(0x40_0000),
            stack_end: VirtAddr::new(0x80_1000),
        }
    );
    assert_eq!(s.current(), Some(0));

    let (_, d) = s.context_switch(&context(1));
    assert_eq!(
        d,
        Dispatch::Launch {
            cr3: PhysAddr::new(0x2000),
            entry: VirtAddr::new(0x40_0100),
            stack_end: VirtAddr::new(0x80_1000),
        }
    );
    let (_, d) = s.context_switch(&context(2));
    assert_eq!(
        d,
        Dispatch::Launch {
            cr3: PhysAddr::new(0x3000),
            entry: VirtAddr::new(0x40_0200),
            stack_end: VirtAddr::new(0x80_1000),
        }
    );
    // the fourth tick resumes the first task from what was saved at the second
    let (_, d) = s.context_switch(&context(3));
    assert_eq!(d, Dispatch::Resume { cr3: PhysAddr::new(0x1000), context: context(1) });
    match d {
        Dispatch::Resume { context: c, .. } => assert_eq!(c.rip, 115),
        _ => unreachable!(),
    }
    let (_, d) = s.context_switch(&context(4));
    assert_eq!(d, Dispatch::Resume { cr3: PhysAddr::new(0x2000), context: context(2) });
    let (_, d) = s.context_switch(&context(5));
    assert_eq!(d, Dispatch::Resume { cr3: PhysAddr::new(0x3000), context: context(3) });
    assert_eq!(s.current(), Some(2));
}

#[test]
fn a_single_task_runs_again_and_again() {
    let mut s = Scheduler::new();
    s.schedule_task(task(0x40_0000, 0x1000));
    assert!(matches!(s.run_next(), Dispatch::Launch { .. }));
    assert!(matches!(s.run_next(), Dispatch::Launch { .. }));
    s.save_current_context(&context(7));
    assert_eq!(
        s.run_next(),
        Dispatch::Resume { cr3: PhysAddr::new(0x1000), context: context(7) }
    );
}

#[test]
fn task_from_raw_code() {
    let (mut mem, kernel) = kernel_space(5);
    let mut s = Scheduler::new();
    s.schedule_data(
        &mut mem,
        kernel,
        vec![0x90; 32],
        PhysAddr::new(0x12_3456),
        vec![0; 4096],
        PhysAddr::new(0x34_5000),
        0x10,
    )
    .unwrap();
    // a root and a level-3 table, a level-2 table, and a level-1 table each for the
    // code and for the stack
    assert_eq!(mem.spare_frames(), 2);
    let d = s.run_next();
    let (root, entry, stack_end) = match d {
        Dispatch::Launch { cr3, entry, stack_end } => (cr3, entry, stack_end),
        _ => panic!("{:?}", d),
    };
    assert_eq!(entry.addr(), 0x40_0466);
    assert_eq!(stack_end.addr(), 0x80_1000);
    let (p, e) = VirtAddr::new(0x40_0000).to_phys(&mem, root).unwrap();
    assert_eq!(p.addr(), 0x12_3000);
    assert!(e.get_bit(BIT_USER) && !e.get_bit(BIT_WRITABLE));
    let (p, _) = entry.to_phys(&mem, root).unwrap();
    assert_eq!(p.addr(), 0x12_3466);
    let (p, _) = VirtAddr::new(0x40_1000).to_phys(&mem, root).unwrap();
    assert_eq!(p.addr(), 0x12_4000);
    let (p, e) = VirtAddr::new(0x80_0ff8).to_phys(&mem, root).unwrap();
    assert_eq!(p.addr(), 0x34_5ff8);
    assert!(e.get_bit(BIT_USER) && e.get_bit(BIT_WRITABLE));
    // the kernel's half is there too, and the kernel does not see the task's pages
    let (p, _) = VirtAddr::new(0xC00b_8000).to_phys(&mem, root).unwrap();
    assert_eq!(p.addr(), 0xb8000);
    assert_eq!(VirtAddr::new(0x40_0000).to_phys(&mem, kernel).unwrap().0.addr(), 0x40_0000);
}

#[test]
fn task_needs_frames_for_its_tables() {
    let (mut mem, kernel) = kernel_space(0);
    let mut s = Scheduler::new();
    let r = s.schedule_data(
        &mut mem,
        kernel,
        vec![0x90; 32],
        PhysAddr::new(0x12_3456),
        vec![0; 4096],
        PhysAddr::new(0x34_5000),
        0,
    );
    assert_eq!(r, Err(MapError::MapFail));
    assert_eq!(s.task_count(), 0);
    let r = s.schedule_data(
        &mut mem,
        PhysAddr::new(0x5000),
        vec![0x90; 32],
        PhysAddr::new(0x12_3456),
        vec![0; 4096],
        PhysAddr::new(0x34_5000),
        0,
    );
    assert_eq!(r, Err(MapError::BadRoot));
}

fn put64(data: &mut [u8], at: usize, v: u64) {
    data[at..at + 8].copy_from_slice(&v.to_le_bytes());
}

fn put16(data: &mut [u8], at: usize, v: u16) {
    data[at..at + 2].copy_from_slice(&v.to_le_bytes());
}

/// An image with a header that is not loaded, a segment of code of 0x1800 bytes and
/// a writable segment of one byte.
fn image() -> Vec<u8> {
    let mut data = vec![0u8; 0x3000];
    put64(&mut data, 24, 0x40_0080);
    put64(&mut data, 32, 0x40);
    put16(&mut data, 54, 56);
    put16(&mut data, 56, 3);
    let h0 = 0x40;
    data[h0] = 6;
    put64(&mut data, h0 + 8, 0x40);
    put64(&mut data, h0 + 16, 0x40_0040);
    put64(&mut data, h0 + 32, 3 * 56);
    let h1 = 0x40 + 56;
    data[h1] = 1;
    data[h1 + 4] = 5;
    put64(&mut data, h1 + 8, 0x1000);
    put64(&mut data, h1 + 16, 0x40_0000);
    put64(&mut data, h1 + 32, 0x1800);
    let h2 = 0x40 + 2 * 56;
    data[h2] = 1;
    data[h2 + 4] = 6;
    put64(&mut data, h2 + 8, 0x2000);
    put64(&mut data, h2 + 16, 0x60_0000);
    put64(&mut data, h2 + 32, 1);
    data
}

#[test]
fn elf_headers() {
    let data = image();
    assert!(Elf::check(&data));
    let elf = Elf::new(data);
    assert_eq!(elf.entry_point.addr(), 0x40_0080);
    assert_eq!(elf.headers.len(), 3);
    assert_eq!(elf.headers[0].htype, 6);
    assert_eq!(elf.headers[1].htype, 1);
    assert!(!elf.headers[1].writable);
    assert_eq!(elf.headers[1].physical_offset, 0x1000);
    assert_eq!(elf.headers[1].load_address.addr(), 0x40_0000);
    assert_eq!(elf.headers[1].phys_size, 0x1800);
    assert!(elf.headers[2].writable);
}

#[test]
fn elf_too_short_is_not_well_formed() {
    assert!(!Elf::check(&vec![0u8; 57]));
    assert!(Elf::check(&vec![0u8; 58]));
    let mut data = image();
    data.truncate(0x40 + 3 * 56 - 1);
    assert!(!Elf::check(&data));
    let mut data = image();
    put16(&mut data, 54, 39);
    assert!(!Elf::check(&data));
    let mut data = image();
    put64(&mut data, 32, u64::MAX - 8);
    assert!(!Elf::check(&data));
}

#[test]
fn task_from_an_image() {
    let (mut mem, kernel) = kernel_space(6);
    let elf = Elf::new(image());
    let pages = elf.pages(PhysAddr::new(0x50_0000), PhysAddr::new(0x70_0000));
    assert_eq!(pages.len(), 4);
    assert_eq!(pages[0].virt.addr(), 0x40_0000);
    assert_eq!(pages[0].phys.addr(), 0x50_1000);
    assert_eq!(pages[0].opts, 5);
    assert_eq!(pages[1].virt.addr(), 0x40_1000);
    assert_eq!(pages[1].phys.addr(), 0x50_2000);
    assert_eq!(pages[2].virt.addr(), 0x60_0000);
    assert_eq!(pages[2].opts, 7);
    assert_eq!(pages[3].virt.addr(), 0x80_0000);
    let task = elf
        .into_task(&mut mem, kernel, PhysAddr::new(0x50_0000), vec![0; 4096], PhysAddr::new(0x70_0000))
        .unwrap();
    assert_eq!(
        task.state,
        TaskState::StartingInfo(VirtAddr::new(0x40_0080), VirtAddr::new(0x80_1000))
    );
    assert_eq!(task.data_bytes.len(), 0x3000);
    let root = task.task_pt;
    assert_eq!(VirtAddr::new(0x40_0080).to_phys(&mem, root).unwrap().0.addr(), 0x50_1080);
    assert_eq!(VirtAddr::new(0x40_17ff).to_phys(&mem, root).unwrap().0.addr(), 0x50_27ff);
    assert!(VirtAddr::new(0x40_2000).to_phys(&mem, root).is_none());
    let (p, e) = VirtAddr::new(0x60_0000).to_phys(&mem, root).unwrap();
    assert_eq!(p.addr(), 0x50_2000);
    assert!(e.get_bit(BIT_WRITABLE));
    let (p, e) = VirtAddr::new(0x80_0000).to_phys(&mem, root).unwrap();
    assert_eq!(p.addr(), 0x70_0000);
    assert!(e.get_bit(BIT_WRITABLE) && e.get_bit(BIT_USER) && e.get_bit(BIT_PRESENT));
    // tables: a root and a level-3 table, then one level-2 table and three level-1 tables
    assert_eq!(mem.spare_frames(), 2);
}

#[test]
fn address_space_is_switched_before_the_task_runs() {
    let launch = Dispatch::Launch {
        cr3: PhysAddr::new(0x1000),
        entry: VirtAddr::new(0x40_0000),
        stack_end: VirtAddr::new(0x80_1000),
    };
    assert_eq!(
        launch.steps(),
        vec![
            CpuStep::LoadPageTable(PhysAddr::new(0x1000)),
            CpuStep::FlushTlb,
            CpuStep::LoadDataSegments(43),
            CpuStep::EnterUserMode { ss: 43, rsp: 0x80_1000, rflags: 0x200, cs: 51, rip: 0x40_0000 },
        ]
    );
    let resume = Dispatch::Resume { cr3: PhysAddr::new(0x2000), context: context(4) };
    assert_eq!(
        resume.steps(),
        vec![
            CpuStep::LoadPageTable(PhysAddr::new(0x2000)),
            CpuStep::FlushTlb,
            CpuStep::RestoreContext(context(4)),
        ]
    );
    assert_eq!(Dispatch::Idle.steps(), vec![CpuStep::Wait]);
}

#[test]
fn bring_up_order() {
    let order = init_order();
    assert_eq!(
        order,
        [
            InitStep::Gdt,
            InitStep::Idt,
            InitStep::Pics,
            InitStep::SyscallMsrs,
            InitStep::FrameAllocator,
            InitStep::Heap,
            InitStep::Unmask,
            InitStep::FirstSchedule,
        ]
    );
    for (i, step) in order.iter().enumerate() {
        assert_eq!(step.position(), i);
        assert!(step.is_due(i));
        assert!(!step.is_due(i + 1));
    }
}
