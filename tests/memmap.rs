use nucleus::memmap::{memmap_line, MEMMAP_HEADER};

#[test]
fn memmap_header_columns() {
    assert_eq!(MEMMAP_HEADER, "Index, Type, Type(name), PhysicalStart, NumberOfPages, Attribute\n");
}

#[test]
fn memmap_line_format() {
    let line = memmap_line(12, 7, "CONVENTIONAL", 0x10_0000, 0x1f0, 0xf_0000_000f);
    assert_eq!(String::from_utf8(line).unwrap(), "12, 7, CONVENTIONAL, 00100000, 1f0, f\n");
}

#[test]
fn memmap_line_wide_values() {
    let line = memmap_line(0, 0xb, "MMIO", 0x1_2345_6789a, 0, 0x8000_0000_000f_ffff);
    assert_eq!(String::from_utf8(line).unwrap(), "0, b, MMIO, 123456789a, 0, fffff\n");
}
