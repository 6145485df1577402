//! Executable files: the entry point and the program headers of an ELF image, and
//! the task that runs it.

use vstd::prelude::*;
use crate::bytes::{le16, le64, read_le16, read_le64};
use crate::mem::{PageTable, PhysAddr, VirtAddr, BIT_PRESENT, BIT_USER, BIT_WRITABLE, FRAME_SIZE};
use crate::paging::{MapError, Mapping, TableMemory};
use crate::scheduler::{Task, TaskState, USER_STACK_BASE, USER_STACK_TOP};

verus! {

/// Size of the part of the file header that is read.
pub const ELF_HEADER_SIZE: usize = 58;

/// Size of the part of a program header that is read.
pub const PROGRAM_HEADER_SIZE: usize = 40;

/// Type of a program header whose segment is to be loaded.
pub const PT_LOAD: u8 = 1;

/// Flag of a segment that may be written.
pub const PF_WRITE: u8 = 2;

/// One program header of the image.
#[derive(Copy, Clone, Debug, PartialEq, Eq, Structural)]
pub struct ProgramHeader {
    /// The low byte of the segment's type.
    pub htype: u8,
    /// Whether the segment may be written.
    pub writable: bool,
    /// Where in the file the segment begins.
    pub physical_offset: u64,
    /// Where in the task's address space the segment begins.
    pub load_address: VirtAddr,
    /// How many bytes of the file the segment takes.
    pub phys_size: u64,
}

/// An executable image.
pub struct Elf {
    pub data: Vec<u8>,
    pub entry_point: VirtAddr,
    pub headers: Vec<ProgramHeader>,
}

/// Where the program headers begin in the file.
pub open spec fn ph_off(data: Seq<u8>) -> u64 {
    le64(data, 32)
}

/// Size of one program header in the file.
pub open spec fn ph_siz(data: Seq<u8>) -> u16 {
    le16(data, 54)
}

/// Number of program headers.
pub open spec fn ph_cnt(data: Seq<u8>) -> u16 {
    le16(data, 56)
}

/// Whether `data` holds a file header and all the program headers that it announces.
pub open spec fn well_formed(data: Seq<u8>) -> bool {
    &&& data.len() >= ELF_HEADER_SIZE
    &&& ph_cnt(data) > 0 ==> ph_siz(data) >= PROGRAM_HEADER_SIZE && ph_off(data) + ph_cnt(data)
        * ph_siz(data) <= data.len()
}

/// Program header `i` of the image.
pub open spec fn header_spec(data: Seq<u8>, i: int) -> ProgramHeader {
    let at = ph_off(data) + i * ph_siz(data);
    ProgramHeader {
        htype: data[at],
        writable: data[at + 4] & PF_WRITE != 0,
        physical_offset: le64(data, at + 8),
        load_address: VirtAddr(le64(data, at + 16)),
        phys_size: le64(data, at + 32),
    }
}

/// The pages of a segment that are mapped before page `k`: page `j` of the segment
/// is mapped to the page of the file that holds it, for user code, and writable
/// if the segment is.
pub open spec fn segment_pages(h: ProgramHeader, data_phys: PhysAddr, k: nat) -> Seq<Mapping>
    decreases k,
{
    if k == 0 {
        Seq::empty()
    } else {
        segment_pages(h, data_phys, (k - 1) as nat).push(segment_page(h, data_phys, (k - 1) as int))
    }
}

/// Page `j` of a segment. Addresses wrap at 64 bits.
pub open spec fn segment_page(h: ProgramHeader, data_phys: PhysAddr, j: int) -> Mapping {
    Mapping {
        virt: VirtAddr(((h.load_address@ + j * FRAME_SIZE) % 0x1_0000_0000_0000_0000) as u64),
        phys: PhysAddr(
            ((data_phys@ + h.physical_offset + j * FRAME_SIZE) % 0x1_0000_0000_0000_0000) as u64,
        ),
        opts: if h.writable {
            7
        } else {
            5
        },
    }
}

/// Number of pages that a segment of `size` bytes takes.
pub open spec fn page_count(size: u64) -> nat {
    ((size + FRAME_SIZE - 1) / (FRAME_SIZE as int)) as nat
}

/// The pages of the first `n` program headers: those of the segments to be loaded.
pub open spec fn image_pages(headers: Seq<ProgramHeader>, data_phys: PhysAddr, n: nat) -> Seq<Mapping>
    decreases n,
{
    if n == 0 {
        Seq::empty()
    } else {
        let h = headers[n - 1];
        let before = image_pages(headers, data_phys, (n - 1) as nat);
        if h.htype == PT_LOAD {
            before.add(segment_pages(h, data_phys, page_count(h.phys_size)))
        } else {
            before
        }
    }
}

/// The pages of a task that runs the image: those of its segments, and the stack.
pub open spec fn task_pages(headers: Seq<ProgramHeader>, data_phys: PhysAddr, stack_phys: PhysAddr) -> Seq<Mapping> {
    image_pages(headers, data_phys, headers.len()).push(
        Mapping { virt: VirtAddr(USER_STACK_BASE), phys: stack_phys, opts: 7 },
    )
}

impl Elf {
    /// Whether `data` holds a file header and all the program headers that it
    /// announces: what `new` asks of its input.
    pub fn check(data: &Vec<u8>) -> (ok: bool)
        ensures
            ok == well_formed(data@),
    {
        if data.len() < ELF_HEADER_SIZE {
            return false;
        }
        let off = read_le64(data.as_slice(), 32);
        let siz = read_le16(data.as_slice(), 54) as u64;
        let cnt = read_le16(data.as_slice(), 56) as u64;
        if cnt == 0 {
            return true;
        }
        if siz < PROGRAM_HEADER_SIZE as u64 {
            return false;
        }
        assert(cnt * siz <= 0xffff * 0xffff) by (nonlinear_arith)
            requires
                cnt <= 0xffff,
                siz <= 0xffff,
        ;
        let total = cnt * siz;
        off <= data.len() as u64 && total <= data.len() as u64 - off
    }

    /// Reads the entry point and the program headers of the image.
    pub fn new(data: Vec<u8>) -> (e: Elf)
        requires
            well_formed(data@),
        ensures
            e.data == data,
            e.entry_point@ == le64(data@, 24),
            e.headers@.len() == ph_cnt(data@),
            forall|i: int| 0 <= i < e.headers@.len() ==> #[trigger] e.headers@[i] == header_spec(data@, i),
    {
        let entry_point = VirtAddr::new(read_le64(data.as_slice(), 24));
        let off = read_le64(data.as_slice(), 32);
        let siz = read_le16(data.as_slice(), 54) as usize;
        let cnt = read_le16(data.as_slice(), 56) as usize;
        let mut headers: Vec<ProgramHeader> = Vec::new();
        let mut i: usize = 0;
        while i < cnt
            invariant
                i <= cnt,
                well_formed(data@),
                off == ph_off(data@),
                siz == ph_siz(data@),
                cnt == ph_cnt(data@),
                headers@.len() == i,
                forall|j: int| 0 <= j < i ==> #[trigger] headers@[j] == header_spec(data@, j),
            decreases cnt - i,
        {
            let len = data.len();
            proof {
                assert(i * siz + siz <= cnt * siz) by (nonlinear_arith)
                    requires
                        i < cnt,
                        siz >= 0,
                ;
                assert(0 <= i * siz) by (nonlinear_arith)
                    requires
                        i >= 0,
                        siz >= 0,
                ;
                assert(off + i * siz + siz <= len);
            }
            let at: usize = off as usize + i * siz;
            assert(at == ph_off(data@) + i * ph_siz(data@));
            let flags: u8 = data[at + 4];
            headers.push(
                ProgramHeader {
                    htype: data[at],
                    writable: flags & PF_WRITE != 0,
                    physical_offset: read_le64(data.as_slice(), at + 8),
                    load_address: VirtAddr::new(read_le64(data.as_slice(), at + 16)),
                    phys_size: read_le64(data.as_slice(), at + 32),
                },
            );
            i += 1;
        }
        Elf { data, entry_point, headers }
    }

    /// The pages to map for a task that runs the image, whose bytes lie in physical
    /// memory at `data_phys` and whose stack lies at `stack_phys`.
    pub fn pages(&self, data_phys: PhysAddr, stack_phys: PhysAddr) -> (pages: Vec<Mapping>)
        ensures
            pages@ == task_pages(self.headers@, data_phys, stack_phys),
    {
        let mut pages: Vec<Mapping> = Vec::new();
        let mut n: usize = 0;
        while n < self.headers.len()
            invariant
                n <= self.headers@.len(),
                pages@ == image_pages(self.headers@, data_phys, n as nat),
            decreases self.headers@.len() - n,
        {
            let header = self.headers[n];
            if header.htype == PT_LOAD {
                let opts: u16 = if header.writable {
                    BIT_PRESENT | BIT_WRITABLE | BIT_USER
                } else {
                    BIT_PRESENT | BIT_USER
                };
                assert(BIT_PRESENT | BIT_USER == 5 && BIT_PRESENT | BIT_WRITABLE | BIT_USER == 7)
                    by (bit_vector);
                let count: u64 = header.phys_size / FRAME_SIZE + (if header.phys_size % FRAME_SIZE
                    != 0 {
                    1u64
                } else {
                    0u64
                });
                let ghost before = pages@;
                let mut k: u64 = 0;
                let base_phys: u64 = data_phys.addr().wrapping_add(header.physical_offset);
                while k < count
                    invariant
                        k <= count,
                        count == page_count(header.phys_size),
                        count <= 0x10_0000_0000_0000,
                        base_phys == (data_phys@ + header.physical_offset) % 0x1_0000_0000_0000_0000,
                        opts == (if header.writable {
                            7u16
                        } else {
                            5u16
                        }),
                        pages@ == before.add(segment_pages(header, data_phys, k as nat)),
                    decreases count - k,
                {
                    let step: u64 = k * FRAME_SIZE;
                    let virt = header.load_address.addr().wrapping_add(step);
                    let phys = base_phys.wrapping_add(step);
                    proof {
                        let m = 0x1_0000_0000_0000_0000int;
                        vstd::arithmetic::div_mod::lemma_add_mod_noop(
                            data_phys@ + header.physical_offset,
                            step as int,
                            m,
                        );
                        vstd::arithmetic::div_mod::lemma_small_mod(step as nat, m as nat);
                        assert(phys == (data_phys@ + header.physical_offset + k * FRAME_SIZE) % m);
                    }
                    pages.push(
                        Mapping { virt: VirtAddr::new(virt), phys: PhysAddr::new(phys), opts },
                    );
                    proof {
                        assert(pages@ =~= before.add(
                            segment_pages(header, data_phys, (k + 1) as nat),
                        ));
                    }
                    k += 1;
                }
            }
            n += 1;
        }
        assert(BIT_PRESENT | BIT_WRITABLE | BIT_USER == 7) by (bit_vector);
        pages.push(
            Mapping {
                virt: VirtAddr::new(USER_STACK_BASE),
                phys: stack_phys,
                opts: BIT_PRESENT | BIT_WRITABLE | BIT_USER,
            },
        );
        pages
    }

    /// Makes the task that runs the image: a new address space that shares the
    /// kernel's half with the one under `kernel_root`; every page of every segment
    /// to be loaded mapped to the page of the image that holds it, for user code;
    /// and the stack page at `stack_phys` mapped at the user stack base. The task
    /// starts at the image's entry point with its stack pointer at the top of
    /// the stack page.
    pub fn into_task(
        self,
        mem: &mut TableMemory,
        kernel_root: PhysAddr,
        data_phys: PhysAddr,
        stack_space: Vec<u8>,
        stack_phys: PhysAddr,
    ) -> (r: Result<Task, MapError>)
        requires
            old(mem).wf(),
        ensures
            final(mem).wf(),
            ({
                let pages = task_pages(self.headers@, data_phys, stack_phys);
                let built = old(mem)@.task_space(kernel_root@, pages);
                let known = old(mem)@.is_table(kernel_root@, 4) && old(mem)@.entry(
                    kernel_root@,
                    0,
                ).present();
                match r {
                    Ok(task) => {
                        &&& known && old(mem)@.spare.len() >= 2 && built.2
                        &&& final(mem)@ == built.0
                        &&& task.task_pt@ == built.1
                        &&& task.state == TaskState::StartingInfo(
                            self.entry_point,
                            VirtAddr(USER_STACK_TOP),
                        )
                        &&& task.data_bytes == self.data
                        &&& task.stack_bytes == stack_space
                    },
                    Err(MapError::BadRoot) => !known && final(mem)@ == old(mem)@,
                    Err(MapError::MapFail) => {
                        &&& known
                        &&& if old(mem)@.spare.len() < 2 {
                            final(mem)@ == old(mem)@
                        } else {
                            final(mem)@ == built.0 && !built.2
                        }
                    },
                }
            }),
    {
        let pages = self.pages(data_phys, stack_phys);
        let task_pt = match PageTable::new_task_space(mem, kernel_root, &pages) {
            Ok(root) => root,
            Err(e) => {
                return Err(e);
            },
        };
        Ok(
            Task::new(
                self.entry_point,
                VirtAddr::new(USER_STACK_TOP),
                task_pt,
                self.data,
                stack_space,
            ),
        )
    }
}

} // verus!
