use vdi::seek::resolve_seek;
use vdi::{OwnedSlice, ReadAt, SeekFrom, Slice, VdiDisk, VdiError, VdiHeader};

const MIB: usize = 1 << 20;

fn put32(img: &mut [u8], off: usize, v: u32) {
    img[off..off + 4].copy_from_slice(&v.to_le_bytes());
}

fn put64(img: &mut [u8], off: usize, v: u64) {
    img[off..off + 8].copy_from_slice(&v.to_le_bytes());
}

/// A dynamic VDI with 1 MiB blocks, its table at 0x200 and data at 0x200000.
fn vdi_file(table: &[u32], data_blocks: usize, image_type: u32) -> Vec<u8> {
    let mut img = vec![0u8; 0x200000 + data_blocks * MIB];
    put32(&mut img, 64, 0xBEDA107F);
    put32(&mut img, 68, 0x00010001);
    put32(&mut img, 72, 400);
    put32(&mut img, 76, image_type);
    put32(&mut img, 340, 0x200);
    put32(&mut img, 344, 0x200000);
    put64(&mut img, 368, (table.len() * MIB) as u64);
    put32(&mut img, 376, MIB as u32);
    put32(&mut img, 384, table.len() as u32);
    for (i, e) in table.iter().enumerate() {
        put32(&mut img, 0x200 + 4 * i, *e);
    }
    for b in 0..data_blocks {
        for i in 0..MIB {
            img[0x200000 + b * MIB + i] = ((i % 251) as u8).wrapping_add(b as u8 * 100 + 1);
        }
    }
    img
}

fn scenario_disk() -> VdiDisk<Vec<u8>> {
    let file = vdi_file(&[0xFFFF_FFFF, 0, 0xFFFF_FFFF, 1], 2, 1);
    match VdiDisk::open(file) {
        Ok(d) => d,
        Err(e) => panic!("open failed: {:?}", e),
    }
}

#[test]
fn vdi_header_scenario_reads() {
    let disk = scenario_disk();
    assert_eq!(disk.header().block_size, 1048576);
    assert_eq!(disk.header().blocks_in_image, 4);
    assert_eq!(disk.block_size(), 1048576);
    assert_eq!(disk.block_offsets(), &vec![None, Some(0x200000), None, Some(0x300000)]);

    let mut buf = [0xAAu8; 16];
    assert_eq!(disk.read_at(0, &mut buf).unwrap(), 16);
    assert_eq!(buf, [0u8; 16]);

    let file = vdi_file(&[0xFFFF_FFFF, 0, 0xFFFF_FFFF, 1], 2, 1);
    let mut four = [0u8; 4];
    assert_eq!(disk.read_at(1048576, &mut four).unwrap(), 4);
    assert_eq!(&four[..], &file[0x200000..0x200004]);
}

#[test]
fn vdi_unallocated_block_reads_zero() {
    let disk = scenario_disk();
    let mut buf = vec![0x55u8; 4096];
    assert_eq!(disk.read_at(2 * MIB as u64 + 100, &mut buf).unwrap(), 4096);
    assert!(buf.iter().all(|b| *b == 0));
}

#[test]
fn vdi_read_crosses_blocks() {
    let disk = scenario_disk();
    let file = vdi_file(&[0xFFFF_FFFF, 0, 0xFFFF_FFFF, 1], 2, 1);
    let mut buf = vec![0x55u8; 20];
    let n = disk.read_at(2 * MIB as u64 - 10, &mut buf).unwrap();
    assert_eq!(n, 20);
    assert_eq!(&buf[..10], &file[0x300000 - 10..0x300000]);
    assert_eq!(&buf[10..], &[0u8; 10]);
}

#[test]
fn vdi_read_at_end_returns_zero() {
    let disk = scenario_disk();
    let mut buf = [1u8; 8];
    assert_eq!(disk.read_at(4 * MIB as u64, &mut buf).unwrap(), 0);
    assert_eq!(buf, [1u8; 8]);
    assert_eq!(disk.read_at(4 * MIB as u64 - 3, &mut buf).unwrap(), 3);
}

#[test]
fn vdi_rejects_non_dynamic_image() {
    let file = vdi_file(&[0xFFFF_FFFF], 0, 2);
    assert!(matches!(VdiDisk::open(file), Err(VdiError::UnsupportedImageType)));
}

#[test]
fn vdi_rejects_bad_signature_and_version_accepts_zero_block_size() {
    let mut file = vdi_file(&[0xFFFF_FFFF], 0, 1);
    put32(&mut file, 64, 0x12345678);
    assert!(matches!(VdiDisk::open(file), Err(VdiError::InvalidSignature)));
    let mut file = vdi_file(&[0xFFFF_FFFF], 0, 1);
    put32(&mut file, 68, 0x00010000);
    assert!(matches!(VdiDisk::open(file), Err(VdiError::UnsupportedVersion)));
    let mut file = vdi_file(&[0xFFFF_FFFF], 0, 1);
    put32(&mut file, 376, 0);
    let disk = VdiDisk::open(file).unwrap();
    let mut buf = [3u8; 8];
    assert_eq!(disk.read_at(0, &mut buf).unwrap(), 0);
    assert_eq!(buf, [3u8; 8]);
}

#[test]
fn vdi_truncated_header_is_io_error() {
    let file = vec![0u8; 100];
    assert!(matches!(VdiDisk::open(file), Err(VdiError::Io(_))));
}

#[test]
fn vdi_header_constants() {
    assert_eq!(VdiHeader::SIGNATURE, 0xBEDA107F);
    assert_eq!(VdiHeader::VERSION, 0x00010001);
}

#[test]
fn vdi_cursor_read_and_seek() {
    let mut disk = scenario_disk();
    let file = vdi_file(&[0xFFFF_FFFF, 0, 0xFFFF_FFFF, 1], 2, 1);
    assert_eq!(disk.seek(SeekFrom::Start(MIB as u64)).unwrap(), MIB as u64);
    let mut buf = [0u8; 6];
    assert_eq!(disk.read(&mut buf).unwrap(), 6);
    assert_eq!(&buf[..], &file[0x200000..0x200006]);
    assert_eq!(disk.seek(SeekFrom::Current(-6)).unwrap(), MIB as u64);
    assert_eq!(disk.seek(SeekFrom::End(0)).unwrap(), 4 * MIB as u64);
    assert!(disk.seek(SeekFrom::End(1)).is_err());
    assert!(disk.seek(SeekFrom::Current(-(5 * MIB as i64))).is_err());
    assert_eq!(disk.seek(SeekFrom::Current(0)).unwrap(), 4 * MIB as u64);
    assert!(disk.write(&[1, 2, 3]).is_err());
    assert!(disk.flush().is_ok());
}

#[test]
fn seek_resolution_bounds() {
    assert_eq!(resolve_seek(SeekFrom::Start(5), 0, 10), Some(5));
    assert_eq!(resolve_seek(SeekFrom::Start(11), 0, 10), None);
    assert_eq!(resolve_seek(SeekFrom::End(-10), 3, 10), Some(0));
    assert_eq!(resolve_seek(SeekFrom::End(-11), 3, 10), None);
    assert_eq!(resolve_seek(SeekFrom::Current(i64::MIN), 3, 10), None);
    assert_eq!(resolve_seek(SeekFrom::Current(7), 3, 10), Some(10));
}

#[test]
fn slice_clamps_reads_to_its_range() {
    let bytes: Vec<u8> = (0..100u8).collect();
    let s = Slice::new(&bytes, 10..20);
    assert_eq!(s.len(), 10);
    let mut buf = [0u8; 32];
    assert_eq!(s.read_at(5, &mut buf).unwrap(), 5);
    assert_eq!(&buf[..5], &[15, 16, 17, 18, 19]);
    assert_eq!(s.read_at(10, &mut buf).unwrap(), 0);
}

#[test]
fn slice_cursor_and_owned_slice() {
    let bytes: Vec<u8> = (0..100u8).collect();
    let mut s = Slice::new(&bytes, 50..60);
    let mut buf = [0u8; 4];
    assert_eq!(s.read(&mut buf).unwrap(), 4);
    assert_eq!(buf, [50, 51, 52, 53]);
    assert_eq!(s.seek(SeekFrom::End(-1)).unwrap(), 9);
    assert_eq!(s.read(&mut buf).unwrap(), 1);
    assert_eq!(buf[0], 59);
    assert!(s.seek(SeekFrom::Start(11)).is_err());

    let mut o = OwnedSlice::new(bytes.clone(), 95..100).unwrap();
    assert_eq!(o.len(), 5);
    let mut big = [0u8; 10];
    assert_eq!(o.read(&mut big).unwrap(), 5);
    assert_eq!(&big[..5], &[95, 96, 97, 98, 99]);
    assert_eq!(o.read(&mut big).unwrap(), 0);
    assert_eq!(o.seek(SeekFrom::Start(2)).unwrap(), 2);
    assert_eq!(o.read_at(3, &mut big).unwrap(), 2);
    assert_eq!(o.into_inner(), bytes);
}

#[test]
fn vdi_slices() {
    let disk = scenario_disk();
    let file = vdi_file(&[0xFFFF_FFFF, 0, 0xFFFF_FFFF, 1], 2, 1);
    let s = disk.slice(MIB as u64..2 * MIB as u64);
    let mut buf = [0u8; 8];
    assert_eq!(s.read_at(0, &mut buf).unwrap(), 8);
    assert_eq!(&buf[..], &file[0x200000..0x200008]);
    let owned = scenario_disk().slice_owned(3 * MIB as u64..4 * MIB as u64).unwrap();
    assert_eq!(owned.read_at(MIB as u64 - 2, &mut buf).unwrap(), 2);
    assert_eq!(&buf[..2], &file[0x400000 - 2..0x400000]);
}

#[test]
fn vdi_read_at_largest_offset() {
    let disk = scenario_disk();
    let mut buf = [7u8; 4];
    assert_eq!(disk.read_at(u64::MAX, &mut buf).unwrap(), 0);
    assert_eq!(buf, [7u8; 4]);
    let mut empty: [u8; 0] = [];
    assert_eq!(disk.read_at(0, &mut empty).unwrap(), 0);
}

#[test]
fn vdi_error_messages() {
    assert_eq!(VdiError::UnsupportedImageType.message(), "Only dynamic VDI images are supported");
    assert_eq!(VdiError::InvalidSignature.message(), "Invalid VDI signature");
    assert_eq!(VdiError::UnsupportedVersion.message(), "Unsupported VDI version");
    let file = vdi_file(&[0xFFFF_FFFF], 0, 2);
    match VdiDisk::open(file) {
        Err(e) => assert_eq!(e.message(), "Only dynamic VDI images are supported"),
        Ok(_) => panic!("a non-dynamic image opened"),
    }
    let io = VdiError::Io(std::io::Error::new(std::io::ErrorKind::Other, "boom"));
    assert_eq!(io.message(), "IO error: boom");
}

#[test]
fn vdi_cursor_reads_are_full_and_zero_filled() {
    let mut disk = scenario_disk();
    let mut buf = vec![0x55u8; 3 * MIB];
    assert_eq!(disk.read(&mut buf).unwrap(), 3 * MIB);
    assert!(buf[..MIB].iter().all(|b| *b == 0));
    assert!(buf[2 * MIB..].iter().all(|b| *b == 0));
    let mut rest = vec![0u8; 2 * MIB];
    assert_eq!(disk.read(&mut rest).unwrap(), MIB);
    assert_eq!(disk.read(&mut rest).unwrap(), 0);
    let mut hole = [9u8; 10];
    assert_eq!(disk.read_virtual(2 * MIB as u64 + 5, &mut hole).unwrap(), 10);
    assert_eq!(hole, [0u8; 10]);
}
