use nucleus::loader::{load_segments, plan_load, prepare_load, LoadError, PT_LOAD};

fn put16(b: &mut Vec<u8>, v: u16) {
    b.extend_from_slice(&v.to_le_bytes());
}
fn put32(b: &mut Vec<u8>, v: u32) {
    b.extend_from_slice(&v.to_le_bytes());
}
fn put64(b: &mut Vec<u8>, v: u64) {
    b.extend_from_slice(&v.to_le_bytes());
}

/// An ELF64 little-endian executable whose program headers are `phdrs`
/// (p_type, p_offset, p_vaddr, p_filesz, p_memsz), with `total` file bytes
/// where byte i (past the headers) holds i % 251.
fn elf_file(entry: u64, phdrs: &[(u32, u64, u64, u64, u64)], total: usize) -> Vec<u8> {
    let mut b = vec![0x7f, b'E', b'L', b'F', 2, 1, 1, 0, 0, 0, 0, 0, 0, 0, 0, 0];
    put16(&mut b, 2);
    put16(&mut b, 0x3e);
    put32(&mut b, 1);
    put64(&mut b, entry);
    put64(&mut b, 64);
    put64(&mut b, 0);
    put32(&mut b, 0);
    put16(&mut b, 64);
    put16(&mut b, 56);
    put16(&mut b, phdrs.len() as u16);
    put16(&mut b, 64);
    put16(&mut b, 0);
    put16(&mut b, 0);
    for p in phdrs {
        put32(&mut b, p.0);
        put32(&mut b, 5);
        put64(&mut b, p.1);
        put64(&mut b, p.2);
        put64(&mut b, p.2);
        put64(&mut b, p.3);
        put64(&mut b, p.4);
        put64(&mut b, 0x1000);
    }
    while b.len() < total {
        let i = b.len();
        b.push((i % 251) as u8);
    }
    b
}

#[test]
fn loads_two_segments() {
    let phdrs = [
        (PT_LOAD, 0x200, 0x100000, 0x100, 0x200),
        (PT_LOAD, 0x300, 0x101000, 0x80, 0x80),
        (4, 0, 0x200000, 0x10, 0x10),
    ];
    let file = elf_file(0x100120, &phdrs, 0x400);
    let plan = prepare_load(&file).unwrap();
    assert_eq!(plan.entry, 0x100120);
    assert_eq!(plan.first, 0x100000);
    assert_eq!(plan.last, 0x101080);
    assert_eq!(plan.pages, 2);
    assert_eq!(plan.segments.len(), 3);
    let mut region = vec![0xeeu8; plan.pages as usize * 0x1000];
    assert_eq!(load_segments(&plan, &file, &mut region), Ok(()));
    assert_eq!(&region[0..0x100], &file[0x200..0x300]);
    assert!(region[0x100..0x200].iter().all(|b| *b == 0));
    assert!(region[0x200..0x1000].iter().all(|b| *b == 0xee));
    assert_eq!(&region[0x1000..0x1080], &file[0x300..0x380]);
    assert!(region[0x1080..].iter().all(|b| *b == 0xee));
}

#[test]
fn page_count_rounds_up() {
    let plan = plan_load(0, vec![(PT_LOAD, 0, 0x2000, 0, 0x1001)]).unwrap();
    assert_eq!((plan.first, plan.last, plan.pages), (0x2000, 0x3001, 2));
    let plan = plan_load(0, vec![(PT_LOAD, 0, 0x2000, 0, 0x1000)]).unwrap();
    assert_eq!(plan.pages, 1);
}

#[test]
fn malformed_file() {
    assert!(matches!(prepare_load(&[0u8; 10]), Err(LoadError::Malformed)));
    assert!(matches!(prepare_load(b"not an elf file at all, not even close....................."), Err(LoadError::Malformed)));
}

#[test]
fn plan_errors() {
    assert!(matches!(plan_load(0, vec![]), Err(LoadError::NoLoadSegment)));
    assert!(matches!(plan_load(0, vec![(2, 0, 0, 0, 0)]), Err(LoadError::NoLoadSegment)));
    assert!(matches!(plan_load(0, vec![(PT_LOAD, 0, u64::MAX, 0, 2)]), Err(LoadError::AddressOverflow)));
    assert!(matches!(plan_load(0, vec![(PT_LOAD, 0, 0x1000, 0x20, 0x10)]), Err(LoadError::FileSizeExceedsMemSize)));
}

#[test]
fn copy_errors_leave_region_untouched() {
    let plan = plan_load(0, vec![(PT_LOAD, 0x10, 0x1000, 0x20, 0x40)]).unwrap();
    let file = vec![7u8; 0x20];
    let mut region = vec![1u8; 0x40];
    assert_eq!(load_segments(&plan, &file, &mut region), Err(LoadError::SegmentOutsideFile));
    assert!(region.iter().all(|b| *b == 1));
    let mut small = vec![1u8; 0x3f];
    assert_eq!(load_segments(&plan, &vec![7u8; 0x30], &mut small), Err(LoadError::RegionTooSmall));
    assert!(small.iter().all(|b| *b == 1));
}
