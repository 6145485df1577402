//! A disk behind the primary IDE controller and the FAT16 volume on it.

use vstd::prelude::*;
use crate::bytes::{le16, le32, read_le16, read_le32};
use crate::port::{Port, PortWrite};

verus! {

pub const SECTOR_SIZE: usize = 512;

pub const DIR_ENTRY_SIZE: usize = 32;

/// Number of 16-bit words in a sector.
pub const SECTOR_WORDS: usize = 256;

/// Attribute bit of a directory.
pub const ATTR_DIRECTORY: u8 = 0x10;

/// Attribute bit of a file to be archived: an ordinary file.
pub const ATTR_ARCHIVE: u8 = 0x20;

/// First value of a table entry that ends a chain of clusters.
pub const END_OF_CHAIN: u16 = 0xFFF8;

/// A string of exactly `N` bytes.
#[derive(Copy, Clone, Debug)]
pub struct SizedString<const N: usize>(pub [u8; N]);

impl<const N: usize> SizedString<N> {
    /// The string made of the `N` bytes of `c`.
    pub fn new(c: &[u8]) -> (s: Self)
        requires
            c@.len() == N,
        ensures
            s.0@ == c@,
    {
        let mut bytes = [0u8;N];
        let mut i: usize = 0;
        while i < N
            invariant
                i <= N,
                c@.len() == N,
                forall|j: int| 0 <= j < i ==> #[trigger] bytes@[j] == c@[j],
            decreases N - i,
        {
            bytes[i] = c[i];
            i += 1;
        }
        assert(bytes@ =~= c@);
        SizedString(bytes)
    }

    /// The bytes of the string.
    pub fn to_vec(&self) -> (v: Vec<u8>)
        ensures
            v@ == self.0@,
    {
        let mut v: Vec<u8> = Vec::new();
        let mut i: usize = 0;
        while i < N
            invariant
                i <= N,
                v@ == self.0@.subrange(0, i as int),
            decreases N - i,
        {
            v.push(self.0[i]);
            assert(self.0@.subrange(0, i + 1) =~= self.0@.subrange(0, i as int).push(self.0@[i as int]));
            i += 1;
        }
        assert(self.0@.subrange(0, N as int) =~= self.0@);
        v
    }
}

/// The primary IDE controller with the disk behind it: the ports that it is
/// driven through, and the sectors read from the disk so far.
pub struct IDE {
    pub io_port: Port<u16>,
    pub sel_port: Port<u8>,
    pub err_io_port: Port<u8>,
    pub sec_count_port: Port<u8>,
    pub lba0: Port<u8>,
    pub lba1: Port<u8>,
    pub lba2: Port<u8>,
    pub ctl_port: Port<u8>,
    /// What was read from the disk, from its first byte on.
    pub medium: Vec<u8>,
}

/// A byte written to `port`.
pub open spec fn byte_write(port: u16, value: u8) -> PortWrite {
    PortWrite { port, width: 1, value: value as u32 }
}

/// The port writes that ask the master disk for `cnt` sectors from sector `lba`
/// on: the disk and bits 24 to 27 of the sector number, a zero to the error
/// port, the count, the low three bytes of the sector number, and the read command.
pub open spec fn read_sectors_spec(lba: usize, cnt: usize) -> Seq<PortWrite> {
    seq![
        byte_write(0x1F6, (0xE0u8 | (((lba >> 24) as u8) & 0xF))),
        byte_write(0x1F1, 0),
        byte_write(0x1F2, cnt as u8),
        byte_write(0x1F3, lba as u8),
        byte_write(0x1F4, (lba >> 8) as u8),
        byte_write(0x1F5, (lba >> 16) as u8),
        byte_write(0x1F7, 0x20),
    ]
}

/// The byte sequence of length `len` that is zero throughout.
pub open spec fn zeros(len: nat) -> Seq<u8> {
    Seq::new(len, |i: int| 0u8)
}

impl IDE {
    pub open spec fn ports_ok(&self) -> bool {
        &&& self.io_port.port == 0x1F0
        &&& self.err_io_port.port == 0x1F1
        &&& self.sec_count_port.port == 0x1F2
        &&& self.lba0.port == 0x1F3
        &&& self.lba1.port == 0x1F4
        &&& self.lba2.port == 0x1F5
        &&& self.sel_port.port == 0x1F6
        &&& self.ctl_port.port == 0x1F7
    }

    /// The byte at `address` of the disk: zero where nothing was read.
    pub open spec fn byte_at(&self, address: int) -> u8 {
        if 0 <= address < self.medium@.len() {
            self.medium@[address]
        } else {
            0
        }
    }

    /// The `len` bytes from `address` on.
    pub open spec fn bytes_at(&self, address: int, len: nat) -> Seq<u8> {
        Seq::new(len, |i: int| self.byte_at(address + i))
    }

    /// The primary controller, with nothing read from its disk yet.
    pub fn new_primary_master() -> (ide: IDE)
        ensures
            ide.ports_ok(),
            ide.medium@ == Seq::<u8>::empty(),
    {
        IDE {
            io_port: Port::<u16>::new(0x1F0),
            sel_port: Port::<u8>::new(0x1F6),
            err_io_port: Port::<u8>::new(0x1F1),
            sec_count_port: Port::<u8>::new(0x1F2),
            lba0: Port::<u8>::new(0x1F3),
            lba1: Port::<u8>::new(0x1F4),
            lba2: Port::<u8>::new(0x1F5),
            ctl_port: Port::<u8>::new(0x1F7),
            medium: Vec::new(),
        }
    }

    /// Whether the status byte says that data can be transferred: the disk is not
    /// busy and reports neither an error nor a fault, and it requests data.
    pub fn is_ready(&self, status: u8) -> (r: bool)
        ensures
            r == (status & 0xA1 == 0 && status & 8 != 0),
    {
        if status & 0xA1 != 0 {
            false
        } else {
            status & 8 != 0
        }
    }

    /// The port writes that ask the disk for `cnt` sectors from sector `lba` on.
    pub fn read_sectors(&self, lba: usize, cnt: usize) -> (writes: Vec<PortWrite>)
        requires
            self.ports_ok(),
        ensures
            writes@ == read_sectors_spec(lba, cnt),
    {
        let mut writes: Vec<PortWrite> = Vec::new();
        writes.push(self.sel_port.write(0xE0 | ((lba >> 24) as u8 & 0xF)));
        writes.push(self.err_io_port.write(0));
        writes.push(self.sec_count_port.write(cnt as u8));
        writes.push(self.lba0.write(lba as u8));
        writes.push(self.lba1.write((lba >> 8) as u8));
        writes.push(self.lba2.write((lba >> 16) as u8));
        writes.push(self.ctl_port.write(0x20));
        assert(writes@ =~= read_sectors_spec(lba, cnt));
        writes
    }

    /// Takes the words of the next sector, as they came from the data port: each
    /// word gives two bytes, the low one first.
    pub fn store_sector(&mut self, words: &[u16; 256])
        ensures
            final(self).medium@.len() == old(self).medium@.len() + 512,
            final(self).medium@.subrange(0, old(self).medium@.len() as int) == old(self).medium@,
            forall|j: int|
                0 <= j < 256 ==> {
                    &&& #[trigger] final(self).medium@[old(self).medium@.len() + 2 * j]
                        == words@[j] as u8
                    &&& final(self).medium@[old(self).medium@.len() + 2 * j + 1] == (words@[j]
                        >> 8) as u8
                },
            final(self).io_port == old(self).io_port,
            final(self).sel_port == old(self).sel_port,
            final(self).err_io_port == old(self).err_io_port,
            final(self).sec_count_port == old(self).sec_count_port,
            final(self).lba0 == old(self).lba0,
            final(self).lba1 == old(self).lba1,
            final(self).lba2 == old(self).lba2,
            final(self).ctl_port == old(self).ctl_port,
    {
        let ghost start = self.medium@;
        let mut j: usize = 0;
        while j < SECTOR_WORDS
            invariant
                j <= 256,
                self.medium@.len() == start.len() + 2 * j,
                self.medium@.subrange(0, start.len() as int) == start,
                forall|k: int|
                    0 <= k < j ==> {
                        &&& #[trigger] self.medium@[start.len() + 2 * k] == words@[k] as u8
                        &&& self.medium@[start.len() + 2 * k + 1] == (words@[k] >> 8) as u8
                    },
                self.io_port == old(self).io_port,
                self.sel_port == old(self).sel_port,
                self.err_io_port == old(self).err_io_port,
                self.sec_count_port == old(self).sec_count_port,
                self.lba0 == old(self).lba0,
                self.lba1 == old(self).lba1,
                self.lba2 == old(self).lba2,
                self.ctl_port == old(self).ctl_port,
            decreases 256 - j,
        {
            let b: u16 = words[j];
            let ghost before = self.medium@;
            self.medium.push(b as u8);
            self.medium.push((b >> 8) as u8);
            proof {
                assert(self.medium@.subrange(0, start.len() as int) =~= before.subrange(
                    0,
                    start.len() as int,
                ));
                assert forall|k: int| 0 <= k < j + 1 implies {
                    &&& #[trigger] self.medium@[start.len() + 2 * k] == words@[k] as u8
                    &&& self.medium@[start.len() + 2 * k + 1] == (words@[k] >> 8) as u8
                } by {
                    if k < j {
                        assert(self.medium@[start.len() + 2 * k] == before[start.len() + 2 * k]);
                        assert(self.medium@[start.len() + 2 * k + 1] == before[start.len() + 2 * k
                            + 1]);
                    }
                }
            }
            j += 1;
        }
    }

    /// Fills `buf` with the bytes of the disk from `address` on; what was not read
    /// from the disk reads as zero.
    pub fn read(&self, address: u64, buf: &mut [u8])
        ensures
            final(buf)@ == self.bytes_at(address as int, old(buf)@.len()),
    {
        let n = buf.len();
        let have = self.medium.len();
        let mut i: usize = 0;
        while i < n
            invariant
                i <= n,
                n == buf@.len(),
                buf@.len() == old(buf)@.len(),
                have == self.medium@.len(),
                forall|j: int| 0 <= j < i ==> buf@[j] == self.byte_at(address + j),
            decreases n - i,
        {
            let b: u8 = if address < have as u64 && (i as u64) < have as u64 - address {
                self.medium[address as usize + i]
            } else {
                0
            };
            buf[i] = b;
            i += 1;
        }
        assert(buf@ =~= self.bytes_at(address as int, old(buf)@.len()));
    }

    /// The `len` bytes of the disk from `address` on.
    pub fn read_vec(&self, address: u64, len: usize) -> (buf: Vec<u8>)
        ensures
            buf@ == self.bytes_at(address as int, len as nat),
    {
        let mut buf: Vec<u8> = Vec::new();
        let mut i: usize = 0;
        let have = self.medium.len();
        while i < len
            invariant
                i <= len,
                have == self.medium@.len(),
                buf@ == self.bytes_at(address as int, i as nat),
            decreases len - i,
        {
            let b: u8 = if address < have as u64 && (i as u64) < have as u64 - address {
                self.medium[address as usize + i]
            } else {
                0
            };
            buf.push(b);
            assert(buf@ =~= self.bytes_at(address as int, (i + 1) as nat));
            i += 1;
        }
        buf
    }
}

/// One entry of a directory.
#[derive(Copy, Clone, Debug)]
pub struct DirEntry {
    pub name: SizedString<11>,
    pub attr: u8,
    pub cluster: Option<u16>,
    pub size: usize,
    pub index: u16,
}

/// What the contracts see of a directory entry.
pub struct DirEntryView {
    pub name: Seq<u8>,
    pub attr: u8,
    pub cluster: Option<u16>,
    pub size: usize,
    pub index: u16,
}

impl View for DirEntry {
    type V = DirEntryView;

    open spec fn view(&self) -> DirEntryView {
        DirEntryView {
            name: self.name.0@,
            attr: self.attr,
            cluster: self.cluster,
            size: self.size,
            index: self.index,
        }
    }
}

/// The entry that lies in the 32 bytes `b`, found at position `index`: the name in
/// bytes 0 to 10, the attributes in byte 11, the first cluster in bytes 26 and 27,
/// the size in bytes 28 to 31.
pub open spec fn entry_of(b: Seq<u8>, index: u16) -> DirEntryView {
    DirEntryView {
        name: b.subrange(0, 11),
        attr: b[11],
        cluster: Some(le16(b, 26)),
        size: le32(b, 28) as usize,
        index,
    }
}

impl DirEntry {
    /// The entry that lies in the 32 bytes `b`, found at position `index`: the name
    /// in bytes 0 to 10, the attributes in byte 11, the first cluster in bytes 26
    /// and 27, the size in bytes 28 to 31.
    pub fn new(b: &[u8; 32], index: u16) -> (e: DirEntry)
        ensures
            e@ == entry_of(b@, index),
    {
        let bytes = b.as_slice();
        let name = vstd::slice::slice_subrange(bytes, 0, 11);
        DirEntry {
            name: SizedString::<11>::new(name),
            attr: b[11],
            cluster: Some(read_le16(bytes, 26)),
            size: read_le32(bytes, 28) as usize,
            index,
        }
    }

    pub fn is_archive(&self) -> (r: bool)
        ensures
            r == (self.attr & ATTR_ARCHIVE != 0),
    {
        self.attr & ATTR_ARCHIVE != 0
    }

    pub fn is_dir(&self) -> (r: bool)
        ensures
            r == (self.attr & ATTR_DIRECTORY != 0),
    {
        self.attr & ATTR_DIRECTORY != 0
    }
}

/// The layout of a FAT16 volume, as its first sector gives it.
#[derive(Copy, Clone, Debug)]
pub struct FAT16 {
    pub label: SizedString<11>,
    pub sector_size: u16,
    pub cluster_sectors: u8,
    pub reserved_sectors: u16,
    pub fat_cnt: u8,
    pub fat_size: u16,
    pub root_start: u16,
    pub root_entries: u16,
    pub data_start: u64,
}

/// A position in a directory: the address of the next entry.
pub struct DirIter(pub u64);

/// The layout that the first sector `b` of a volume gives. The first sector of the
/// root directory is computed in 16 bits and wraps there.
pub open spec fn layout_of(b: Seq<u8>) -> FAT16View {
    let sector_size = le16(b, 11);
    let reserved_sectors = le16(b, 14);
    let fat_cnt = b[16];
    let fat_size = le16(b, 22);
    let root_entries = le16(b, 17);
    let root_start = ((fat_cnt as int * fat_size as int + reserved_sectors as int) % 0x1_0000) as u16;
    FAT16View {
        label: b.subrange(43, 54),
        sector_size,
        cluster_sectors: b[13],
        reserved_sectors,
        fat_cnt,
        fat_size,
        root_start,
        root_entries,
        data_start: (root_start as int * sector_size as int + root_entries as int * 32) as u64,
    }
}

/// Number of sectors of the volume whose first sector is `b`: the 16-bit count at
/// byte 19 or, where that is zero, the 32-bit count at byte 32.
pub open spec fn volume_sectors_of(b: Seq<u8>) -> u32 {
    if le16(b, 19) != 0 {
        le16(b, 19) as u32
    } else {
        le32(b, 32)
    }
}

/// What the contracts see of a volume's layout.
pub struct FAT16View {
    pub label: Seq<u8>,
    pub sector_size: u16,
    pub cluster_sectors: u8,
    pub reserved_sectors: u16,
    pub fat_cnt: u8,
    pub fat_size: u16,
    pub root_start: u16,
    pub root_entries: u16,
    pub data_start: u64,
}

impl View for FAT16 {
    type V = FAT16View;

    open spec fn view(&self) -> FAT16View {
        FAT16View {
            label: self.label.0@,
            sector_size: self.sector_size,
            cluster_sectors: self.cluster_sectors,
            reserved_sectors: self.reserved_sectors,
            fat_cnt: self.fat_cnt,
            fat_size: self.fat_size,
            root_start: self.root_start,
            root_entries: self.root_entries,
            data_start: self.data_start,
        }
    }
}

impl FAT16View {
    /// Address of the root directory.
    pub open spec fn root_addr_spec(self) -> u64 {
        (self.root_start as u64 * self.sector_size as u64) as u64
    }

    /// Size of a cluster in bytes.
    pub open spec fn cluster_bytes_spec(self) -> u64 {
        (self.cluster_sectors as u64 * self.sector_size as u64) as u64
    }

    /// Address of the first byte of a cluster: the data begins with cluster 2.
    /// The address wraps at 64 bits.
    pub open spec fn cluster_addr_spec(self, cluster: u16) -> u64 {
        (((cluster as int - 2) * self.cluster_bytes_spec() + self.data_start)
            % 0x1_0000_0000_0000_0000) as u64
    }

    /// The cluster that follows `cluster` in its chain, as the first table of the
    /// volume gives it; `None` at the end of the chain.
    pub open spec fn next_cluster_spec(self, ide: &IDE, cluster: u16) -> Option<u16> {
        let fat_start = self.reserved_sectors as int * self.sector_size as int;
        let next = le16(ide.bytes_at(fat_start + cluster as int * 2, 2), 0);
        if next >= END_OF_CHAIN {
            None
        } else {
            Some(next)
        }
    }

    /// The `to_read` bytes of a file whose chain begins at `cluster`: cluster by
    /// cluster, as long as the chain goes on; what lies behind the end of the
    /// chain reads as zero.
    pub open spec fn file_bytes(self, ide: &IDE, cluster: Option<u16>, to_read: nat) -> Seq<u8>
        decreases to_read,
    {
        let cb = self.cluster_bytes_spec() as nat;
        match cluster {
            Some(cl) => if cb == 0 {
                zeros(to_read)
            } else if to_read <= cb {
                ide.bytes_at(self.cluster_addr_spec(cl) as int, to_read)
            } else {
                ide.bytes_at(self.cluster_addr_spec(cl) as int, cb).add(
                    self.file_bytes(ide, self.next_cluster_spec(ide, cl), (to_read - cb) as nat),
                )
            },
            None => zeros(to_read),
        }
    }

    /// The entry at the address `addr`, if one is in use there: its position in
    /// the root directory is counted from 1.
    pub open spec fn at_addr_spec(self, ide: &IDE, addr: u64) -> Option<DirEntryView> {
        let b = ide.bytes_at(addr as int, 32);
        if b[0] == 0 {
            None
        } else {
            Some(entry_of(b, self.index_of_addr(addr)))
        }
    }

    /// The position that an entry at the address `addr` has in the root directory,
    /// counted from 1, and cut down to 16 bits.
    pub open spec fn index_of_addr(self, addr: u64) -> u16 {
        ((1 + (((addr as int - self.root_addr_spec()) % 0x1_0000_0000_0000_0000) / 32) % 0x1_0000)
            % 0x1_0000) as u16
    }

    /// The entry that stands for the root directory.
    pub open spec fn root_spec(self) -> DirEntryView {
        DirEntryView {
            name: seq![82u8, 79, 79, 84, 32, 32, 32, 32, 32, 32, 32],
            attr: ATTR_DIRECTORY,
            cluster: None,
            size: (self.root_entries as usize * DIR_ENTRY_SIZE) as usize,
            index: 0,
        }
    }
}

impl FAT16 {
    /// Reads the layout of the volume from the first sector of the disk.
    pub fn new(ide: &IDE) -> (f: FAT16)
        ensures
            f@ == layout_of(ide.bytes_at(0, 512)),
    {
        let mut buf = [0u8;512];
        ide.read(0, &mut buf);
        let b = buf.as_slice();
        let sector_size = read_le16(b, 11);
        let fat_cnt = buf[16];
        let reserved_sectors = read_le16(b, 14);
        let fat_size = read_le16(b, 22);
        let root_start = (fat_cnt as u16).wrapping_mul(fat_size).wrapping_add(reserved_sectors);
        let root_entries = read_le16(b, 17);
        proof {
            let m = 0x1_0000int;
            let p = fat_cnt as int * fat_size as int;
            vstd::arithmetic::div_mod::lemma_add_mod_noop(p, reserved_sectors as int, m);
            vstd::arithmetic::div_mod::lemma_small_mod(reserved_sectors as nat, m as nat);
            vstd::arithmetic::div_mod::lemma_mod_bound(p, m);
            assert(root_start as int == (p + reserved_sectors) % m) by {
                assert(((fat_cnt as u16).wrapping_mul(fat_size)) as int == p % m);
                assert(root_start as int == ((p % m) + reserved_sectors) % m);
            }
            assert(root_start as u64 * sector_size as u64 <= 0xffff * 0xffff) by (nonlinear_arith)
                requires
                    root_start <= 0xffff,
                    sector_size <= 0xffff,
            ;
        }
        FAT16 {
            label: SizedString::<11>::new(vstd::slice::slice_subrange(b, 43, 54)),
            sector_size,
            cluster_sectors: buf[13],
            reserved_sectors,
            fat_cnt,
            fat_size,
            root_start,
            root_entries,
            data_start: root_start as u64 * sector_size as u64 + root_entries as u64
                * DIR_ENTRY_SIZE as u64,
        }
    }

    /// Number of sectors of the volume, as its first sector gives it: how much of
    /// the disk there is to read.
    pub fn volume_sectors(ide: &IDE) -> (n: u32)
        ensures
            n == volume_sectors_of(ide.bytes_at(0, 512)),
    {
        let mut buf = [0u8;512];
        ide.read(0, &mut buf);
        let small = read_le16(buf.as_slice(), 19);
        if small != 0 {
            small as u32
        } else {
            read_le32(buf.as_slice(), 32)
        }
    }

    /// The entry that stands for the root directory.
    pub fn root(&self) -> (e: DirEntry)
        ensures
            e@ == self@.root_spec(),
    {
        let name: [u8; 11] = [82, 79, 79, 84, 32, 32, 32, 32, 32, 32, 32];
        let e = DirEntry {
            name: SizedString::<11>::new(name.as_slice()),
            attr: ATTR_DIRECTORY,
            cluster: None,
            size: self.root_entries as usize * DIR_ENTRY_SIZE,
            index: 0,
        };
        assert(e@.name =~= self@.root_spec().name);
        e
    }

    /// Address of the root directory.
    pub fn root_addr(&self) -> (a: u64)
        ensures
            a == self@.root_addr_spec(),
            a <= 0xffff * 0xffff,
    {
        assert(self.root_start as u64 * self.sector_size as u64 <= 0xffff * 0xffff)
            by (nonlinear_arith)
            requires
                self.root_start <= 0xffff,
                self.sector_size <= 0xffff,
        ;
        self.root_start as u64 * self.sector_size as u64
    }

    /// The cluster that follows `cluster` in its chain; `None` at the end of the chain.
    pub fn next_cluster(&self, ide: &IDE, cluster: u16) -> (r: Option<u16>)
        ensures
            r == self@.next_cluster_spec(ide, cluster),
    {
        assert(self.reserved_sectors as u64 * self.sector_size as u64 <= 0xffff * 0xffff)
            by (nonlinear_arith)
            requires
                self.reserved_sectors <= 0xffff,
                self.sector_size <= 0xffff,
        ;
        let fat_start: u64 = self.reserved_sectors as u64 * self.sector_size as u64;
        let fat_offset: u64 = cluster as u64 * 2;
        let mut buf = [0u8;2];
        ide.read(fat_start + fat_offset, &mut buf);
        let next_cluster = read_le16(buf.as_slice(), 0);
        if next_cluster >= END_OF_CHAIN {
            None
        } else {
            Some(next_cluster)
        }
    }

    /// Size of a cluster in bytes.
    pub fn cluster_bytes(&self) -> (n: u64)
        ensures
            n == self@.cluster_bytes_spec(),
            n <= 0xff * 0xffff,
    {
        assert(self.cluster_sectors as u64 * self.sector_size as u64 <= 0xff * 0xffff)
            by (nonlinear_arith)
            requires
                self.cluster_sectors <= 0xff,
                self.sector_size <= 0xffff,
        ;
        self.cluster_sectors as u64 * self.sector_size as u64
    }

    /// Address of the first byte of a cluster.
    pub fn cluster_addr(&self, cluster: u16) -> (a: u64)
        ensures
            a == self@.cluster_addr_spec(cluster),
    {
        let cb = self.cluster_bytes();
        let a = (cluster as u64).wrapping_sub(2).wrapping_mul(cb).wrapping_add(self.data_start);
        proof {
            let m = 0x1_0000_0000_0000_0000int;
            let c = cluster as int - 2;
            let w = (cluster as u64).wrapping_sub(2) as int;
            assert(w == c % m) by {
                if cluster >= 2 {
                    vstd::arithmetic::div_mod::lemma_small_mod(c as nat, m as nat);
                } else {
                    vstd::arithmetic::div_mod::lemma_mod_add_multiples_vanish(c, m);
                    vstd::arithmetic::div_mod::lemma_small_mod((c + m) as nat, m as nat);
                }
            }
            vstd::arithmetic::div_mod::lemma_mul_mod_noop_left(c, cb as int, m);
            vstd::arithmetic::div_mod::lemma_add_mod_noop(c * cb, self.data_start as int, m);
            vstd::arithmetic::div_mod::lemma_small_mod(self.data_start as nat, m as nat);
            vstd::arithmetic::div_mod::lemma_mod_bound(w * cb, m);
        }
        a
    }

    /// The contents of the file or directory that the entry `d` stands for.
    pub fn read_data(&self, ide: &IDE, d: &DirEntry) -> (buf: Vec<u8>)
        ensures
            buf@ == self@.file_bytes(ide, d.cluster, d.size as nat),
    {
        let mut buf: Vec<u8> = Vec::new();
        let mut to_read: usize = d.size;
        let cluster_bytes = self.cluster_bytes();
        let mut cluster = d.cluster;
        if cluster_bytes == 0 {
            cluster = None;
        }
        let ghost whole = self@.file_bytes(ide, d.cluster, d.size as nat);
        proof {
            if cluster_bytes == 0 {
                assert(self@.file_bytes(ide, d.cluster, d.size as nat) =~= zeros(d.size as nat));
                assert(self@.file_bytes(ide, None, d.size as nat) =~= zeros(d.size as nat));
            }
            assert(buf@.add(self@.file_bytes(ide, cluster, to_read as nat)) =~= whole);
        }
        while cluster.is_some() && to_read > 0
            invariant
                cluster_bytes == self@.cluster_bytes_spec(),
                cluster is Some ==> cluster_bytes > 0,
                buf@.add(self@.file_bytes(ide, cluster, to_read as nat)) == whole,
            decreases to_read,
        {
            let cl = match cluster {
                Some(cl) => cl,
                None => 0,
            };
            let n: usize = if to_read as u64 <= cluster_bytes {
                to_read
            } else {
                cluster_bytes as usize
            };
            let ghost before = buf@;
            let mut chunk = ide.read_vec(self.cluster_addr(cl), n);
            buf.append(&mut chunk);
            if to_read as u64 <= cluster_bytes {
                proof {
                    assert(buf@ =~= whole);
                    assert(self@.file_bytes(ide, cluster, 0) =~= Seq::<u8>::empty()) by {
                        assert(ide.bytes_at(self@.cluster_addr_spec(cl) as int, 0) =~= Seq::<
                            u8,
                        >::empty());
                    }
                }
                to_read = 0;
            } else {
                to_read -= cluster_bytes as usize;
                let next = self.next_cluster(ide, cl);
                proof {
                    assert(buf@.add(self@.file_bytes(ide, next, to_read as nat)) =~= whole);
                }
                cluster = next;
            }
        }
        // what lies behind the end of the chain reads as zero
        let ghost head = buf@;
        let mut k: usize = 0;
        proof {
            match cluster {
                Some(cl) => {
                    assert(self@.file_bytes(ide, cluster, 0) =~= zeros(0)) by {
                        assert(ide.bytes_at(self@.cluster_addr_spec(cl) as int, 0) =~= zeros(0));
                    }
                },
                None => {},
            }
            assert(head.add(zeros(to_read as nat)) =~= whole);
        }
        while k < to_read
            invariant
                k <= to_read,
                buf@ == head.add(zeros(k as nat)),
                head.add(zeros(to_read as nat)) == whole,
            decreases to_read - k,
        {
            buf.push(0);
            assert(buf@ =~= head.add(zeros((k + 1) as nat)));
            k += 1;
        }
        buf
    }

    /// The entry at position `index` of the root directory, if it is in use:
    /// position 0 is the root directory itself, position 1 its first entry.
    pub fn at(&self, ide: &IDE, index: u16) -> (r: Option<DirEntry>)
        ensures
            index == 0 ==> r is Some && r->0@ == self@.root_spec(),
            index != 0 ==> match r {
                Some(e) => Some(e@) == self@.at_addr_spec(
                    ide,
                    (self@.root_addr_spec() + (index - 1) * 32) as u64,
                ),
                None => self@.at_addr_spec(ide, (self@.root_addr_spec() + (index - 1) * 32) as u64)
                    is None,
            },
    {
        if index == 0 {
            Some(self.root())
        } else {
            let addr = self.root_addr() + (index - 1) as u64 * DIR_ENTRY_SIZE as u64;
            self.at_addr(ide, addr)
        }
    }

    /// The entry at the address `addr`, if one is in use there.
    pub fn at_addr(&self, ide: &IDE, addr: u64) -> (r: Option<DirEntry>)
        ensures
            match r {
                Some(e) => Some(e@) == self@.at_addr_spec(ide, addr),
                None => self@.at_addr_spec(ide, addr) is None,
            },
    {
        let mut b = [0u8;32];
        ide.read(addr, &mut b);
        if b[0] == 0 {
            None
        } else {
            let root = self.root_addr();
            let t: u16 = ((addr.wrapping_sub(root) / DIR_ENTRY_SIZE as u64) % 0x1_0000) as u16;
            let idx: u16 = if t == 0xffff {
                0
            } else {
                t + 1
            };
            proof {
                let m = 0x1_0000_0000_0000_0000int;
                let d = addr as int - root as int;
                assert(addr.wrapping_sub(root) as int == d % m) by {
                    if addr >= root {
                        vstd::arithmetic::div_mod::lemma_small_mod(d as nat, m as nat);
                    } else {
                        vstd::arithmetic::div_mod::lemma_mod_add_multiples_vanish(d, m);
                        vstd::arithmetic::div_mod::lemma_small_mod((d + m) as nat, m as nat);
                    }
                }
            }
            Some(DirEntry::new(&b, idx))
        }
    }

    /// The start of the listing of the directory `e`: the root directory for the
    /// entry that stands for it, else the first cluster of the directory.
    pub fn ls(&self, e: &DirEntry) -> (it: DirIter)
        requires
            e.index == 0 || e.cluster is Some,
        ensures
            it.0 == (if e.index == 0 {
                self@.root_addr_spec()
            } else {
                self@.cluster_addr_spec(e.cluster->0)
            }),
    {
        if e.index == 0 {
            DirIter(self.root_addr())
        } else {
            let cl = match e.cluster {
                Some(cl) => cl,
                None => 0,
            };
            DirIter(self.cluster_addr(cl))
        }
    }
}

/// The address of the entry behind the one at `addr`; the last address if there
/// is none behind it.
pub open spec fn next_entry_addr(addr: u64) -> u64 {
    if addr <= u64::MAX - 32 {
        (addr + 32) as u64
    } else {
        u64::MAX
    }
}

impl DirIter {
    /// The entry at the position, if one is in use there; the position moves on by
    /// one entry in any case.
    pub fn next(&mut self, fat: &FAT16, ide: &IDE) -> (r: Option<DirEntry>)
        ensures
            final(self).0 == next_entry_addr(old(self).0),
            match r {
                Some(e) => Some(e@) == fat@.at_addr_spec(ide, old(self).0),
                None => fat@.at_addr_spec(ide, old(self).0) is None,
            },
    {
        let item = fat.at_addr(ide, self.0);
        self.0 = if self.0 <= u64::MAX - DIR_ENTRY_SIZE as u64 {
            self.0 + DIR_ENTRY_SIZE as u64
        } else {
            u64::MAX
        };
        item
    }
}

/// Whether the name of a directory entry begins with BOOT.
pub open spec fn is_boot(name: Seq<u8>) -> bool {
    name.len() >= 4 && name[0] == 66 && name[1] == 79 && name[2] == 79 && name[3] == 84
}

/// The file to start the system with, searched in the listing from the address
/// `addr` on: the contents of the first ordinary file whose name begins with
/// BOOT; `None` if the listing ends before one is found. A listing ends at the
/// first entry that is not in use, at the latest where the disk was not read.
pub open spec fn find_main(fat: FAT16View, ide: &IDE, addr: u64) -> Option<Seq<u8>>
    decreases
        (if addr < ide.medium@.len() {
            ide.medium@.len() - addr
        } else {
            0
        }),
{
    match fat.at_addr_spec(ide, addr) {
        Some(e) => if e.attr & ATTR_ARCHIVE != 0 && is_boot(e.name) {
            Some(fat.file_bytes(ide, e.cluster, e.size as nat))
        } else if addr < ide.medium@.len() && addr < next_entry_addr(addr) {
            find_main(fat, ide, next_entry_addr(addr))
        } else {
            None
        },
        None => None,
    }
}

/// Loads the file to start the system with: the first ordinary file in the root
/// directory whose name begins with BOOT.
pub fn load_main(ide: &IDE) -> (r: Option<Vec<u8>>)
    ensures
        ({
            let fat = layout_of(ide.bytes_at(0, 512));
            match r {
                Some(v) => Some(v@) == find_main(fat, ide, fat.root_addr_spec()),
                None => find_main(fat, ide, fat.root_addr_spec()) is None,
            }
        }),
{
    let f = FAT16::new(ide);
    let mut it = f.ls(&f.root());
    let len = ide.medium.len() as u64;
    loop
        invariant
            len == ide.medium@.len(),
            f@ == layout_of(ide.bytes_at(0, 512)),
            find_main(f@, ide, it.0) == find_main(f@, ide, f@.root_addr_spec()),
        decreases
            (if it.0 < len {
                len - it.0
            } else {
                0
            }),
    {
        let at = it.0;
        match it.next(&f, ide) {
            Some(i) => {
                proof {
                    if at >= len {
                        assert(ide.bytes_at(at as int, 32)[0] == 0);
                        assert(false);
                    }
                }
                if i.is_archive() {
                    let v = f.read_data(ide, &i);
                    if i.name.0[0] == 66 && i.name.0[1] == 79 && i.name.0[2] == 79 && i.name.0[3]
                        == 84 {
                        return Some(v);
                    }
                }
            },
            None => {
                return None;
            },
        }
    }
}

} // verus!
