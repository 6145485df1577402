use rust_os::fat16::{load_main, DirEntry, DirIter, SizedString, FAT16, IDE};
use rust_os::port::PortWrite;

fn put16(data: &mut [u8], at: usize, v: u16) {
    data[at..at + 2].copy_from_slice(&v.to_le_bytes());
}

fn entry(name: &[u8; 11], attr: u8, cluster: u16, size: u32) -> [u8; 32] {
    let mut e = [0u8; 32];
    e[0..11].copy_from_slice(name);
    e[11] = attr;
    e[26..28].copy_from_slice(&cluster.to_le_bytes());
    e[28..32].copy_from_slice(&size.to_le_bytes());
    e
}

/// A volume with sectors of 512 bytes, clusters of two sectors, one reserved
/// sector, two tables of one sector each and a root directory of 16 entries:
/// the tables begin at 0x200, the root directory at 0x600, the data at 0x800.
fn image() -> Vec<u8> {
    let mut d = vec![0u8; 0x800 + 8 * 1024];
    put16(&mut d, 11, 512);
    d[13] = 2;
    put16(&mut d, 14, 1);
    d[16] = 2;
    put16(&mut d, 17, 16);
    put16(&mut d, 22, 1);
    d[43..54].copy_from_slice(b"TESTVOLUME ");
    // chains: README is cluster 2; BOOT is clusters 3, 5, 4; DOCS is cluster 6
    let fat = 0x200;
    put16(&mut d, fat + 2 * 2, 0xFFFF);
    put16(&mut d, fat + 3 * 2, 5);
    put16(&mut d, fat + 5 * 2, 4);
    put16(&mut d, fat + 4 * 2, 0xFFF8);
    put16(&mut d, fat + 6 * 2, 0xFFFF);
    let root = 0x600;
    d[root..root + 32].copy_from_slice(&entry(b"README  TXT", 0x20, 2, 5));
    d[root + 32..root + 64].copy_from_slice(&entry(b"DOCS       ", 0x10, 6, 0));
    d[root + 64..root + 96].copy_from_slice(&entry(b"BOOT       ", 0x20, 3, 2500));
    let data = 0x800;
    d[data..data + 5].copy_from_slice(b"hello");
    for i in 0..1024 {
        d[data + 1024 + i] = 0xa0;
        d[data + 3 * 1024 + i] = 0xb0;
        d[data + 2 * 1024 + i] = 0xc0;
    }
    d[data + 4 * 1024..data + 4 * 1024 + 32].copy_from_slice(&entry(b"NOTES   TXT", 0x20, 7, 3));
    d
}

fn disk(image: &[u8]) -> IDE {
    let mut ide = IDE::new_primary_master();
    for sector in image.chunks(512) {
        let mut words = [0u16; 256];
        for (j, w) in words.iter_mut().enumerate() {
            *w = sector[2 * j] as u16 | (sector[2 * j + 1] as u16) << 8;
        }
        ide.store_sector(&words);
    }
    ide
}

#[test]
fn sectors_come_as_words() {
    let mut ide = IDE::new_primary_master();
    let mut words = [0u16; 256];
    words[0] = 0x3412;
    words[255] = 0xbeef;
    ide.store_sector(&words);
    assert_eq!(ide.medium.len(), 512);
    assert_eq!(&ide.medium[0..2], &[0x12, 0x34]);
    assert_eq!(&ide.medium[510..512], &[0xef, 0xbe]);
    ide.store_sector(&words);
    assert_eq!(ide.medium.len(), 1024);
    assert_eq!(&ide.medium[512..514], &[0x12, 0x34]);
}

#[test]
fn reading_the_disk() {
    let ide = disk(&image());
    let mut buf = [0xffu8; 5];
    ide.read(0x800, &mut buf);
    assert_eq!(&buf, b"hello");
    assert_eq!(ide.read_vec(43, 11), b"TESTVOLUME ".to_vec());
    assert_eq!(ide.read_vec(0, 0), Vec::<u8>::new());
    ide.read(0, &mut buf[0..0]);
    assert_eq!(&buf, b"hello");
    let end = ide.medium.len() as u64;
    let mut tail = [0xffu8; 4];
    ide.read(end - 2, &mut tail);
    assert_eq!(tail, [0, 0, 0, 0]);
    assert_eq!(ide.read_vec(u64::MAX, 3), vec![0, 0, 0]);
    assert_eq!(ide.read_vec(0x800 + 1024 - 1, 2), vec![0, 0xa0]);
    ide.read(0x800 + 2 * 1024 - 1, &mut tail);
    assert_eq!(tail, [0xa0, 0xc0, 0xc0, 0xc0]);
}

#[test]
fn read_command() {
    let ide = IDE::new_primary_master();
    let b = |port: u16, value: u8| PortWrite { port, width: 1, value: value as u32 };
    assert_eq!(
        ide.read_sectors(0x0a12_3456, 3),
        vec![
            b(0x1F6, 0xEA),
            b(0x1F1, 0),
            b(0x1F2, 3),
            b(0x1F3, 0x56),
            b(0x1F4, 0x34),
            b(0x1F5, 0x12),
            b(0x1F7, 0x20),
        ]
    );
    assert_eq!(ide.read_sectors(0, 256)[2], b(0x1F2, 0));
}

#[test]
fn disk_status() {
    let ide = IDE::new_primary_master();
    assert!(ide.is_ready(0x08));
    assert!(ide.is_ready(0x58));
    assert!(!ide.is_ready(0x00));
    assert!(!ide.is_ready(0x88));
    assert!(!ide.is_ready(0x09));
    assert!(!ide.is_ready(0x28));
    assert!(!ide.is_ready(0x50));
}

#[test]
fn volume_layout() {
    let ide = disk(&image());
    let f = FAT16::new(&ide);
    assert_eq!(f.label.0, *b"TESTVOLUME ");
    assert_eq!(f.sector_size, 512);
    assert_eq!(f.cluster_sectors, 2);
    assert_eq!(f.reserved_sectors, 1);
    assert_eq!(f.fat_cnt, 2);
    assert_eq!(f.fat_size, 1);
    assert_eq!(f.root_start, 3);
    assert_eq!(f.root_entries, 16);
    assert_eq!(f.data_start, 0x800);
    assert_eq!(f.root_addr(), 0x600);
    assert_eq!(f.cluster_bytes(), 1024);
    assert_eq!(f.cluster_addr(2), 0x800);
    assert_eq!(f.cluster_addr(5), 0x800 + 3 * 1024);
    assert_eq!(f.cluster_addr(0), 0u64);
}

#[test]
fn cluster_chains() {
    let ide = disk(&image());
    let f = FAT16::new(&ide);
    assert_eq!(f.next_cluster(&ide, 3), Some(5));
    assert_eq!(f.next_cluster(&ide, 5), Some(4));
    assert_eq!(f.next_cluster(&ide, 4), None);
    assert_eq!(f.next_cluster(&ide, 2), None);
    assert_eq!(f.next_cluster(&ide, 9), Some(0));
}

#[test]
fn directory_entries() {
    let ide = disk(&image());
    let f = FAT16::new(&ide);
    let root = f.root();
    assert_eq!(root.name.0, *b"ROOT       ");
    assert!(root.is_dir());
    assert!(!root.is_archive());
    assert_eq!(root.cluster, None);
    assert_eq!(root.size, 16 * 32);
    assert_eq!(root.index, 0);
    assert_eq!(f.at(&ide, 0).unwrap().name.0, *b"ROOT       ");
    let readme = f.at(&ide, 1).unwrap();
    assert_eq!(readme.name.0, *b"README  TXT");
    assert!(readme.is_archive());
    assert!(!readme.is_dir());
    assert_eq!(readme.cluster, Some(2));
    assert_eq!(readme.size, 5);
    assert_eq!(readme.index, 1);
    let docs = f.at(&ide, 2).unwrap();
    assert!(docs.is_dir());
    assert_eq!(docs.index, 2);
    assert_eq!(f.at(&ide, 3).unwrap().index, 3);
    assert!(f.at(&ide, 4).is_none());
    assert_eq!(f.at_addr(&ide, 0x600 + 64).unwrap().name.0, *b"BOOT       ");
    let e = DirEntry::new(&{
        let mut b = [0u8; 32];
        b[0..11].copy_from_slice(b"A       B  ");
        b[11] = 0x30;
        b[26] = 0x34;
        b[27] = 0x12;
        b[28..32].copy_from_slice(&[4, 3, 2, 1]);
        b
    }, 9);
    assert_eq!(e.cluster, Some(0x1234));
    assert_eq!(e.size, 0x0102_0304);
    assert_eq!(e.index, 9);
    assert!(e.is_dir() && e.is_archive());
    assert_eq!(SizedString::<3>::new(b"abc").to_vec(), b"abc".to_vec());
}

#[test]
fn listing() {
    let ide = disk(&image());
    let f = FAT16::new(&ide);
    let mut it: DirIter = f.ls(&f.root());
    let mut names = Vec::new();
    while let Some(e) = it.next(&f, &ide) {
        names.push(e.name.to_vec());
    }
    assert_eq!(names, vec![b"README  TXT".to_vec(), b"DOCS       ".to_vec(), b"BOOT       ".to_vec()]);
    let docs = f.at(&ide, 2).unwrap();
    let mut it = f.ls(&docs);
    assert_eq!(it.0, 0x800 + 4 * 1024);
    let notes = it.next(&f, &ide).unwrap();
    assert_eq!(notes.name.0, *b"NOTES   TXT");
    assert!(it.next(&f, &ide).is_none());
    assert_eq!(it.0, 0x800 + 4 * 1024 + 64);
}

#[test]
fn file_contents_follow_the_chain() {
    let ide = disk(&image());
    let f = FAT16::new(&ide);
    assert_eq!(f.read_data(&ide, &f.at(&ide, 1).unwrap()), b"hello".to_vec());
    let boot = f.read_data(&ide, &f.at(&ide, 3).unwrap());
    assert_eq!(boot.len(), 2500);
    assert!(boot[0..1024].iter().all(|&b| b == 0xa0));
    assert!(boot[1024..2048].iter().all(|&b| b == 0xb0));
    assert!(boot[2048..2500].iter().all(|&b| b == 0xc0));
    assert_eq!(f.read_data(&ide, &f.at(&ide, 2).unwrap()), Vec::<u8>::new());
    // a chain that ends early: what is behind it reads as zero
    let mut short = f.at(&ide, 1).unwrap();
    short.size = 1030;
    let data = f.read_data(&ide, &short);
    assert_eq!(&data[0..5], b"hello");
    assert_eq!(data.len(), 1030);
    assert!(data[1024..].iter().all(|&b| b == 0));
    assert_eq!(f.read_data(&ide, &f.root()), vec![0u8; 512]);
}

#[test]
fn loading_the_main_program() {
    let ide = disk(&image());
    let main = load_main(&ide).unwrap();
    assert_eq!(main.len(), 2500);
    assert_eq!(main[0], 0xa0);
    assert_eq!(main[2499], 0xc0);
    let mut without = image();
    without[0x600 + 64] = b'R';
    assert!(load_main(&disk(&without)).is_none());
    let mut directory = image();
    directory[0x600 + 64 + 11] = 0x10;
    assert!(load_main(&disk(&directory)).is_none());
    assert!(load_main(&IDE::new_primary_master()).is_none());
}
