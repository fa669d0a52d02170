use vdi::ext4::{block_size_from_log, gdt_offset_for};
use vdi::structs::DirectoryEntry;
use vdi::{Ext4Error, Ext4Reader, ReadAt, SeekFrom, VdiDisk};

const BS: usize = 1024;
const INODE_TABLE: usize = 5;
const ROOT_BLOCK: u32 = 20;
const LOST_BLOCK: u32 = 21;
const HELLO_BLOCK: u32 = 22;
const INDEX_BLOCK: u32 = 30;

fn put16(img: &mut [u8], off: usize, v: u16) {
    img[off..off + 2].copy_from_slice(&v.to_le_bytes());
}

fn put32(img: &mut [u8], off: usize, v: u32) {
    img[off..off + 4].copy_from_slice(&v.to_le_bytes());
}

fn inode_at(n: usize) -> usize {
    INODE_TABLE * BS + (n - 1) * 128
}

fn set_inode(img: &mut [u8], n: usize, mode: u16, size: u32, flags: u32, blocks: &[u32]) {
    let at = inode_at(n);
    put16(img, at, mode);
    put32(img, at + 4, size);
    put32(img, at + 32, flags);
    for (i, b) in blocks.iter().enumerate() {
        put32(img, at + 40 + 4 * i, *b);
    }
}

/// Writes a directory record and returns the offset of the next one.
fn dir_record(img: &mut [u8], at: usize, inode: u32, rec_len: u16, name: &str, file_type: u8) -> usize {
    put32(img, at, inode);
    put16(img, at + 4, rec_len);
    img[at + 6] = name.len() as u8;
    img[at + 7] = file_type;
    img[at + 8..at + 8 + name.len()].copy_from_slice(name.as_bytes());
    at + rec_len as usize
}

fn big_data() -> Vec<u8> {
    (0..3000usize).map(|i| (i * 7 % 256) as u8).collect()
}

/// A small ext4 image with 1 KiB blocks: `/lost+found`, `/hello.txt` (direct
/// block), `/big.bin` (a depth-1 extent tree over blocks 31, 32 and 40).
fn ext4_image() -> Vec<u8> {
    let mut img = vec![0u8; 64 * BS];
    let sb = 1024;
    put32(&mut img, sb, 64);
    put32(&mut img, sb + 4, 64);
    put32(&mut img, sb + 24, 0);
    put32(&mut img, sb + 32, 8192);
    put32(&mut img, sb + 40, 32);
    put16(&mut img, sb + 56, 0xEF53);
    put16(&mut img, sb + 88, 128);
    put32(&mut img, 2048 + 8, INODE_TABLE as u32);

    // root directory, mapped by a depth-0 extent tree
    let root_extents = [0xF30A | (1 << 16), 4, 0, 0, 1, ROOT_BLOCK];
    set_inode(&mut img, 2, 0x41ED, BS as u32, 0x80000, &root_extents);
    let mut at = ROOT_BLOCK as usize * BS;
    at = dir_record(&mut img, at, 2, 12, ".", 2);
    at = dir_record(&mut img, at, 2, 12, "..", 2);
    at = dir_record(&mut img, at, 11, 20, "lost+found", 2);
    at = dir_record(&mut img, at, 12, 20, "hello.txt", 1);
    let rest = (ROOT_BLOCK as usize + 1) * BS - at;
    dir_record(&mut img, at, 13, rest as u16, "big.bin", 1);

    set_inode(&mut img, 11, 0x41C0, BS as u32, 0, &[LOST_BLOCK]);
    let at = dir_record(&mut img, LOST_BLOCK as usize * BS, 11, 12, ".", 2);
    dir_record(&mut img, at, 2, (BS - 12) as u16, "..", 2);

    set_inode(&mut img, 12, 0x81A4, 5, 0, &[HELLO_BLOCK]);
    let h = HELLO_BLOCK as usize * BS;
    img[h..h + 5].copy_from_slice(b"hello");

    // big.bin: the root points at an index block, which holds a leaf of two extents
    let big_root = [0xF30A | (1 << 16), 4 | (1 << 16), 0, 0, INDEX_BLOCK, 0];
    set_inode(&mut img, 13, 0x81A4, 3000, 0x80000, &big_root);
    let leaf = INDEX_BLOCK as usize * BS;
    let words = [0xF30A | (2 << 16), 84, 0, 0, 2, 31, 2, 1, 40];
    for (i, w) in words.iter().enumerate() {
        put32(&mut img, leaf + 4 * i, *w);
    }
    let data = big_data();
    img[31 * BS..33 * BS].copy_from_slice(&data[..2048]);
    img[40 * BS..40 * BS + 952].copy_from_slice(&data[2048..]);
    img
}

fn reader() -> Ext4Reader<Vec<u8>> {
    match Ext4Reader::new(ext4_image()) {
        Ok(r) => r,
        Err(e) => panic!("open failed: {:?}", e),
    }
}

fn names(r: &Ext4Reader<Vec<u8>>, path: &str) -> Vec<DirectoryEntry> {
    let mut it = r.read_dir(path).unwrap();
    let mut out = Vec::new();
    while let Some(e) = it.next() {
        out.push(e);
    }
    out
}

#[test]
fn block_size_from_superblock_log() {
    assert_eq!(block_size_from_log(2), 4096);
    assert_eq!(gdt_offset_for(4096), 4096);
    assert_eq!(block_size_from_log(0), 1024);
    assert_eq!(gdt_offset_for(1024), 2048);
    assert_eq!(block_size_from_log(40), 1024);

    let mut img = vec![0u8; 64 * 4096];
    put32(&mut img, 1024 + 4, 16);
    put32(&mut img, 1024 + 24, 2);
    put32(&mut img, 1024 + 32, 32768);
    put32(&mut img, 1024 + 40, 16);
    put16(&mut img, 1024 + 56, 0xEF53);
    let r = Ext4Reader::new(img).unwrap();
    assert_eq!(r.block_size(), 4096);
    assert_eq!(r.superblock().s_log_block_size, 2);
}

#[test]
fn bad_superblock_magic_is_rejected() {
    let mut img = ext4_image();
    put16(&mut img, 1024 + 56, 0x1234);
    assert!(matches!(Ext4Reader::new(img), Err(Ext4Error::InvalidSuperblock)));
    let short = vec![0u8; 1100];
    assert!(matches!(Ext4Reader::new(short), Err(Ext4Error::Io(_))));
}

#[test]
fn root_listing_is_sorted_without_dots() {
    let r = reader();
    let entries = names(&r, "/");
    let listed: Vec<&str> = entries.iter().map(|e| e.name.as_str()).collect();
    assert_eq!(listed, vec!["big.bin", "hello.txt", "lost+found"]);
    let hello = &entries[1];
    assert!(hello.is_file && !hello.is_dir);
    assert_eq!(hello.size, 5);
    assert_eq!(hello.path, "/hello.txt");
    let lost = &entries[2];
    assert!(lost.is_dir && !lost.is_file);
    assert_eq!(lost.size, 0);
    assert_eq!(entries[0].size, 3000);
    for w in entries.windows(2) {
        assert!(w[0].name < w[1].name);
    }
}

#[test]
fn listing_scenario_two_records() {
    let mut img = ext4_image();
    let at = ROOT_BLOCK as usize * BS;
    let next = dir_record(&mut img, at, 11, 20, "lost+found", 2);
    dir_record(&mut img, next, 12, (BS - 20) as u16, "hello.txt", 1);
    let r = Ext4Reader::new(img).unwrap();
    let entries = names(&r, "/");
    assert_eq!(entries.len(), 2);
    assert_eq!(entries[0].name, "hello.txt");
    assert!(entries[0].is_file);
    assert_eq!(entries[1].name, "lost+found");
    assert!(entries[1].is_dir);
}

#[test]
fn nested_listing_paths() {
    let r = reader();
    assert!(names(&r, "/lost+found").is_empty());
    assert!(names(&r, "lost+found/").is_empty());
    assert!(matches!(r.read_dir("/hello.txt"), Err(Ext4Error::FileNotFound(m)) if m.contains("is not a directory")));
}

#[test]
fn open_and_read_hello() {
    let r = reader();
    let mut f = r.open("/hello.txt").unwrap();
    assert_eq!(f.size(), 5);
    let mut buf = [0u8; 10];
    assert_eq!(f.read(&mut buf).unwrap(), 5);
    assert_eq!(&buf[..5], b"hello");
    assert_eq!(f.read(&mut buf).unwrap(), 0);
}

#[test]
fn open_errors() {
    let r = reader();
    assert!(matches!(r.open("/nosuch"), Err(Ext4Error::FileNotFound(m)) if m == "Path not found: /nosuch"));
    assert!(matches!(r.open("/"), Err(Ext4Error::FileNotFound(m)) if m == "/ is not a regular file"));
    assert!(matches!(r.open("/lost+found"), Err(Ext4Error::FileNotFound(m)) if m == "/lost+found is not a regular file"));
    assert!(matches!(r.open("/hello.txt/x"), Err(Ext4Error::FileNotFound(m)) if m == "Path component is not a directory: x"));
}

#[test]
fn exists_and_metadata_agree() {
    let r = reader();
    for p in ["/", "/hello.txt", "/lost+found", "//hello.txt", "/nosuch", "/lost+found/x"] {
        assert_eq!(r.metadata(p).is_some(), r.path_exists(p), "{}", p);
    }
    assert!(r.path_exists("/big.bin"));
    assert!(!r.path_exists("/missing"));
    let m = r.metadata("/hello.txt").unwrap();
    assert!(m.is_file && !m.is_dir);
    assert_eq!(m.size, 5);
    assert_eq!(m.mode, 0x81A4);
    let d = r.metadata("/").unwrap();
    assert!(d.is_dir && !d.is_file);
}

#[test]
fn depth_one_extent_tree_reads_whole_file() {
    let r = reader();
    let mut f = r.open("/big.bin").unwrap();
    let mut buf = vec![0u8; 4000];
    let n = f.read(&mut buf).unwrap();
    assert_eq!(n, 3000);
    assert_eq!(&buf[..3000], &big_data()[..]);
}

#[test]
fn chunked_reads_concatenate() {
    let r = reader();
    let mut whole = Vec::new();
    let mut f = r.open("/big.bin").unwrap();
    for size in [1usize, 7, 1000, 3, 2048, 500].iter().cycle() {
        let mut buf = vec![0u8; *size];
        let n = f.read(&mut buf).unwrap();
        if n == 0 {
            break;
        }
        whole.extend_from_slice(&buf[..n]);
    }
    assert_eq!(whole, big_data());
}

#[test]
fn seek_then_read_matches_prefix_read() {
    let r = reader();
    let (k, n) = (1020usize, 40usize);
    let mut a = r.open("/big.bin").unwrap();
    let mut whole = vec![0u8; k + n];
    assert_eq!(a.read(&mut whole).unwrap(), k + n);
    let mut b = r.open("/big.bin").unwrap();
    assert_eq!(b.seek(SeekFrom::Start(k as u64)).unwrap(), k as u64);
    let mut part = vec![0u8; n];
    assert_eq!(b.read(&mut part).unwrap(), n);
    assert_eq!(&part[..], &whole[k..]);
    assert!(b.seek(SeekFrom::Start(3001)).is_err());
    assert_eq!(b.seek(SeekFrom::End(-1)).unwrap(), 2999);
}

#[test]
fn written_bytes_read_back() {
    let mut img = ext4_image();
    let payload: Vec<u8> = (0..700u32).map(|i| (i * 13 % 256) as u8).collect();
    let h = HELLO_BLOCK as usize * BS;
    img[h..h + payload.len()].copy_from_slice(&payload);
    put32(&mut img, inode_at(12) + 4, payload.len() as u32);
    let r = Ext4Reader::new(img).unwrap();
    let mut f = r.open("/hello.txt").unwrap();
    let mut buf = vec![0u8; 1024];
    assert_eq!(f.read(&mut buf).unwrap(), payload.len());
    assert_eq!(&buf[..payload.len()], &payload[..]);
}

#[test]
fn malformed_records_and_extents() {
    let mut img = ext4_image();
    put16(&mut img, ROOT_BLOCK as usize * BS + 4, 0);
    let r = Ext4Reader::new(img).unwrap();
    assert!(matches!(r.read_dir("/"), Err(Ext4Error::InvalidDirectoryEntry)));

    let mut img = ext4_image();
    img[ROOT_BLOCK as usize * BS + 6] = 9;
    let r = Ext4Reader::new(img).unwrap();
    assert!(matches!(r.read_dir("/"), Err(Ext4Error::InvalidDirectoryEntry)));

    let mut img = ext4_image();
    put32(&mut img, inode_at(2) + 40, 0x1234);
    let r = Ext4Reader::new(img).unwrap();
    assert!(matches!(r.read_dir("/"), Err(Ext4Error::UnsupportedFeature("extents"))));
}

#[test]
fn invalid_inode_numbers() {
    let mut img = ext4_image();
    let at = ROOT_BLOCK as usize * BS + 24;
    put32(&mut img, at, 0);
    put32(&mut img, ROOT_BLOCK as usize * BS + 44, 5000);
    let r = Ext4Reader::new(img).unwrap();
    assert!(matches!(r.open("/hello.txt"), Err(Ext4Error::InvalidInode(5000))));
    assert!(!r.path_exists("/lost+found"));
    let entries = names(&r, "/");
    assert_eq!(entries.iter().find(|e| e.name == "hello.txt").unwrap().size, 0);
}

#[test]
fn ext4_inside_vdi_partition() {
    const MIB: usize = 1 << 20;
    let fs = ext4_image();
    let mut file = vec![0u8; 0x200000 + MIB];
    put32(&mut file, 64, 0xBEDA107F);
    put32(&mut file, 68, 0x00010001);
    put32(&mut file, 76, 1);
    put32(&mut file, 340, 0x200);
    put32(&mut file, 344, 0x200000);
    file[368..376].copy_from_slice(&(2 * MIB as u64).to_le_bytes());
    put32(&mut file, 376, MIB as u32);
    put32(&mut file, 384, 2);
    put32(&mut file, 0x200, 0xFFFF_FFFF);
    put32(&mut file, 0x204, 0);
    file[0x200000 + 4096..0x200000 + 4096 + fs.len()].copy_from_slice(&fs);
    let disk = VdiDisk::open(file).unwrap();
    let part = disk.slice(MIB as u64 + 4096..2 * MIB as u64);
    let r = Ext4Reader::new(part).unwrap();
    let mut f = r.open("/hello.txt").unwrap();
    let mut buf = [0u8; 5];
    assert_eq!(f.read(&mut buf).unwrap(), 5);
    assert_eq!(&buf, b"hello");
    let mut first = [0u8; 2];
    assert_eq!(disk.read_at(0, &mut first).unwrap(), 2);
    assert_eq!(first, [0, 0]);
}

#[test]
fn invalid_utf8_names_are_decoded_lossily() {
    let mut img = ext4_image();
    let name_at = ROOT_BLOCK as usize * BS + 24 + 8;
    img[name_at..name_at + 10].copy_from_slice(b"lost\xFFfound");
    let r = Ext4Reader::new(img).unwrap();
    let entries = names(&r, "/");
    let listed: Vec<&str> = entries.iter().map(|e| e.name.as_str()).collect();
    assert_eq!(listed, vec!["big.bin", "hello.txt", "lost\u{FFFD}found"]);
    assert_eq!(entries[2].path, "/lost\u{FFFD}found");
    assert!(r.path_exists("/lost\u{FFFD}found"));
}

#[test]
fn out_of_image_offsets_are_io_errors() {
    let mut img = ext4_image();
    put32(&mut img, 2048 + 8, 0xFFFF_FFFF);
    let r = Ext4Reader::new(img).unwrap();
    assert!(matches!(r.read_dir("/"), Err(Ext4Error::Io(_))));
    assert!(r.metadata("/").is_none());
    assert!(r.path_exists("/"));
    assert!(!r.path_exists("/hello.txt"));

    let mut img = ext4_image();
    put32(&mut img, inode_at(12) + 40, 0xFFFF_FFFF);
    let r = Ext4Reader::new(img).unwrap();
    let mut f = r.open("/hello.txt").unwrap();
    let mut buf = [0u8; 4];
    assert!(matches!(f.read(&mut buf), Err(Ext4Error::Io(_))));
}

#[test]
fn nested_paths_join_with_slash() {
    let mut img = ext4_image();
    let lost = LOST_BLOCK as usize * BS;
    let at = dir_record(&mut img, lost, 11, 12, ".", 2);
    let at = dir_record(&mut img, at, 2, 12, "..", 2);
    dir_record(&mut img, at, 12, (BS - 24) as u16, "copy.txt", 1);
    let r = Ext4Reader::new(img).unwrap();
    let entries = names(&r, "/lost+found");
    assert_eq!(entries.len(), 1);
    assert_eq!(entries[0].path, "/lost+found/copy.txt");
    assert_eq!(entries[0].size, 5);
    let mut f = r.open("/lost+found/copy.txt").unwrap();
    let mut buf = [0u8; 5];
    assert_eq!(f.read(&mut buf).unwrap(), 5);
    assert_eq!(&buf, b"hello");
}

#[test]
fn ext4_error_messages() {
    let r = reader();
    match r.open("/nosuch") {
        Err(e) => assert_eq!(e.message(), "File not found: Path not found: /nosuch"),
        Ok(_) => panic!("a missing file opened"),
    }
    assert_eq!(Ext4Error::InvalidSuperblock.message(), "Invalid superblock magic number");
    assert_eq!(Ext4Error::InvalidInode(7).message(), "Invalid inode number: 7");
    assert_eq!(Ext4Error::UnsupportedFeature("extents").message(), "Unsupported filesystem feature: extents");
    assert_eq!(Ext4Error::InvalidDirectoryEntry.message(), "Invalid directory entry");
}

#[test]
fn empty_buffer_and_end_of_file_read_zero() {
    let r = reader();
    let mut f = r.open("/big.bin").unwrap();
    let mut empty: [u8; 0] = [];
    assert_eq!(f.read(&mut empty).unwrap(), 0);
    assert_eq!(f.seek(SeekFrom::End(0)).unwrap(), 3000);
    let mut buf = [0u8; 8];
    assert_eq!(f.read(&mut buf).unwrap(), 0);
    assert!(r.path_exists("/"));
}

#[test]
fn group_sizes_of_zero() {
    let mut img = ext4_image();
    put32(&mut img, 1024 + 40, 0);
    let r = Ext4Reader::new(img).unwrap();
    assert!(matches!(r.open("/hello.txt"), Err(Ext4Error::InvalidInode(2))));
    assert!(r.metadata("/").is_none());
    assert!(r.path_exists("/"));

    let mut img = ext4_image();
    put32(&mut img, 1024 + 32, 0);
    match Ext4Reader::new(img) {
        Err(e) => {
            assert!(matches!(e, Ext4Error::InvalidBlockGroups));
            assert_eq!(e.message(), "Invalid superblock: zero blocks per group");
        }
        Ok(_) => panic!("a superblock without blocks per group opened"),
    }
}

#[test]
fn extent_blocks_beyond_32_bits_are_rejected() {
    let mut img = ext4_image();
    put32(&mut img, INDEX_BLOCK as usize * BS + 16, 2 | (1 << 16));
    let r = Ext4Reader::new(img).unwrap();
    let mut f = r.open("/big.bin").unwrap();
    let mut buf = [0u8; 16];
    assert!(matches!(f.read(&mut buf), Err(Ext4Error::UnsupportedFeature("extents"))));
}
