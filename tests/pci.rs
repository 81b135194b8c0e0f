use nucleus::pci::{ClassCode, ConfigSpace, Device, Pci, CAPACITY};

fn function_regs(vendor: u16, class: (u8, u8, u8), header_type: u8, secondary_bus: u8) -> Vec<u32> {
    let mut regs = vec![0u32; 64];
    regs[0] = vendor as u32 | (0x1234u32 << 16);
    regs[2] = ((class.0 as u32) << 24) | ((class.1 as u32) << 16) | ((class.2 as u32) << 8);
    regs[3] = (header_type as u32) << 16;
    regs[6] = (secondary_bus as u32) << 8;
    regs
}

fn add(space: &mut ConfigSpace, b: u8, d: u8, f: u8, regs: Vec<u32>) {
    space.add_function(b, d, f, &regs);
}

#[test]
fn address_encoding() {
    assert_eq!(Pci::address(0, 0, 0, 0), 0x8000_0000);
    assert_eq!(Pci::address(0xff, 31, 7, 0xff), 0x80ff_fffc);
    assert_eq!(Pci::address(3, 2, 1, 0x13), 0x8000_0000 | (3 << 16) | (2 << 11) | (1 << 8) | 0x10);
    for bus in [0u8, 1, 0x80, 0xff] {
        for device in [0u8, 5, 31] {
            for function in [0u8, 3, 7] {
                for reg in [0u8, 0x04, 0x3d, 0xfe] {
                    let expected = 0x8000_0000u32
                        | ((bus as u32) << 16)
                        | ((device as u32) << 11)
                        | ((function as u32) << 8)
                        | ((reg as u32) & 0xfc);
                    assert_eq!(Pci::address(bus, device, function, reg), expected);
                }
            }
        }
    }
}

#[test]
fn absent_function_reads_all_ones() {
    let space = ConfigSpace::new();
    assert_eq!(Pci::vendor_id(&space, 0, 0, 0), 0xffff);
    assert_eq!(space.read(Pci::address(1, 2, 3, 0x10)), 0xffff_ffff);
}

#[test]
fn scan_reports_topology_in_dfs_order() {
    let mut space = ConfigSpace::new();
    add(&mut space, 0, 0, 0, function_regs(0x8086, (0x06, 0x00, 0x00), 0x00, 0));
    add(&mut space, 0, 1, 0, function_regs(0x1af4, (0x02, 0x00, 0x00), 0x00, 0));
    add(&mut space, 0, 2, 0, function_regs(0x8086, (0x06, 0x04, 0x00), 0x01, 1));
    add(&mut space, 1, 0, 0, function_regs(0x1b36, (0x0c, 0x03, 0x30), 0x00, 0));
    let (n, devices) = Pci::scan(&space);
    assert_eq!(n, 4);
    assert_eq!(
        devices,
        vec![Device::new(0, 0, 0), Device::new(0, 1, 0), Device::new(0, 2, 0), Device::new(1, 0, 0)]
    );
}

#[test]
fn scan_descends_before_continuing() {
    let mut space = ConfigSpace::new();
    add(&mut space, 0, 0, 0, function_regs(0x8086, (0x06, 0x00, 0x00), 0x00, 0));
    add(&mut space, 0, 1, 0, function_regs(0x8086, (0x06, 0x04, 0x00), 0x01, 2));
    add(&mut space, 0, 3, 0, function_regs(0x1af4, (0x01, 0x06, 0x01), 0x00, 0));
    add(&mut space, 2, 4, 0, function_regs(0x1af4, (0x02, 0x00, 0x00), 0x00, 0));
    let (n, devices) = Pci::scan(&space);
    assert_eq!(n, 4);
    assert_eq!(
        devices,
        vec![Device::new(0, 0, 0), Device::new(0, 1, 0), Device::new(2, 4, 0), Device::new(0, 3, 0)]
    );
}

#[test]
fn scan_multi_function_device() {
    let mut space = ConfigSpace::new();
    add(&mut space, 0, 0, 0, function_regs(0x8086, (0x06, 0x00, 0x00), 0x00, 0));
    add(&mut space, 0, 4, 0, function_regs(0x8086, (0x01, 0x01, 0x80), 0x80, 0));
    add(&mut space, 0, 4, 2, function_regs(0x8086, (0x0c, 0x05, 0x00), 0x00, 0));
    let (n, devices) = Pci::scan(&space);
    assert_eq!(n, 3);
    assert_eq!(devices, vec![Device::new(0, 0, 0), Device::new(0, 4, 0), Device::new(0, 4, 2)]);
}

#[test]
fn scan_multi_function_host_bridge_scans_named_buses() {
    let mut space = ConfigSpace::new();
    add(&mut space, 0, 0, 0, function_regs(0x8086, (0x06, 0x00, 0x00), 0x80, 0));
    add(&mut space, 0, 0, 1, function_regs(0x8086, (0x06, 0x00, 0x00), 0x00, 0));
    add(&mut space, 1, 7, 0, function_regs(0x1af4, (0x02, 0x00, 0x00), 0x00, 0));
    let (n, devices) = Pci::scan(&space);
    assert_eq!(n, 1);
    assert_eq!(devices, vec![Device::new(1, 7, 0)]);
}

#[test]
fn scan_stops_at_capacity() {
    let mut space = ConfigSpace::new();
    add(&mut space, 0, 0, 0, function_regs(0x8086, (0x06, 0x04, 0x00), 0x00, 0));
    let (n, devices) = Pci::scan(&space);
    assert_eq!(n, CAPACITY);
    assert_eq!(devices.len(), CAPACITY);
    assert!(devices.iter().all(|d| *d == Device::new(0, 0, 0)));
}

#[test]
fn device_registers() {
    let mut space = ConfigSpace::new();
    add(&mut space, 0, 3, 0, function_regs(0x8086, (0x0c, 0x03, 0x30), 0x00, 0));
    let dev = Device::new(0, 3, 0);
    assert_eq!(dev.vendor_id(&space), 0x8086);
    assert_eq!(dev.class_code(&space), ClassCode::new(0x0c, 0x03, 0x30));
    assert_eq!(dev.header_type(&space), 0);
    dev.write(&mut space, 0x40, 0xdead_beef);
    assert_eq!(dev.read(&space, 0x40), 0xdead_beef);
    assert_eq!(dev.read(&space, 0x41), 0xdead_beef);
    assert_eq!(space.take_writes(), vec![(Pci::address(0, 3, 0, 0x40), 0xdead_beef)]);
    assert!(space.take_writes().is_empty());
}

fn bar_space(bars: [u32; 6]) -> ConfigSpace {
    let mut regs = function_regs(0x8086, (0x0c, 0x03, 0x30), 0x00, 0);
    for (i, b) in bars.iter().enumerate() {
        regs[4 + i] = *b;
    }
    let mut space = ConfigSpace::new();
    space.add_function(0, 1, 0, &regs);
    space
}

#[test]
fn bar_32_bit() {
    let space = bar_space([0xfebf_0000, 0, 0, 0, 0, 0xfe00_0008]);
    let dev = Device::new(0, 1, 0);
    assert_eq!(dev.bar(&space, 0), Ok(0xfebf_0000));
    assert_eq!(dev.bar(&space, 5), Ok(0xfe00_0008));
}

#[test]
fn bar_64_bit() {
    let space = bar_space([0xf000_0004, 0x0000_0001, 0, 0, 0, 0]);
    let dev = Device::new(0, 1, 0);
    assert_eq!(dev.bar(&space, 0), Ok(0x1_f000_0004));
    assert_eq!(dev.bar(&space, 0).unwrap() & !0xf, 0x1_f000_0000);
}

#[test]
fn bar_index_out_of_range() {
    let space = bar_space([0, 0, 0, 0, 0, 0xf000_0004]);
    let dev = Device::new(0, 1, 0);
    assert!(dev.bar(&space, 6).is_err());
    assert!(dev.bar(&space, 5).is_err());
}

fn msi_space(header: u32, with_msix: bool) -> ConfigSpace {
    let mut regs = function_regs(0x8086, (0x0c, 0x03, 0x30), 0x00, 0);
    regs[0x34 / 4] = 0x70;
    regs[0x70 / 4] = if with_msix { 0x11 | (0x50 << 8) } else { 0x01 | (0x50 << 8) };
    regs[0x50 / 4] = header;
    let mut space = ConfigSpace::new();
    space.add_function(0, 2, 0, &regs);
    space
}

#[test]
fn msi_programming() {
    // MSI at 0x50: multi_msg_capable = 3, 64-bit capable, no per-vector masking.
    let header = 0x05 | (3 << 17) | (1 << 23);
    let mut space = msi_space(header, false);
    let dev = Device::new(0, 2, 0);
    assert_eq!(dev.configure_msi(&mut space, 0xfee0_1000, 0xc040, 1), Ok(()));
    let cap = dev.msi_capability_structure(&space, 0x50);
    assert_eq!(cap.multi_msg_enable(), 1);
    assert!(cap.msi_enable());
    assert_eq!(cap.multi_msg_capable(), 3);
    assert!(cap.addr_64_capable());
    assert!(!cap.per_vector_mask_capable());
    assert_eq!(cap.msg_addr, 0xfee0_1000);
    assert_eq!(cap.msg_upper_addr, 0);
    assert_eq!(cap.msg_data, 0xc040);
    assert_eq!(dev.read(&space, 0x50), header | (1 << 16) | (1 << 20));
    let writes = space.take_writes();
    let expected = vec![
        (Pci::address(0, 2, 0, 0x50), header | (1 << 16) | (1 << 20)),
        (Pci::address(0, 2, 0, 0x54), 0xfee0_1000),
        (Pci::address(0, 2, 0, 0x58), 0),
        (Pci::address(0, 2, 0, 0x5c), 0xc040),
    ];
    assert_eq!(writes, expected);
    // Reading back and writing back the record leaves it unchanged.
    dev.set_msi_capability_structure(&mut space, 0x50, cap);
    assert_eq!(dev.msi_capability_structure(&space, 0x50), cap);
}

#[test]
fn msi_enable_capped_by_capability() {
    let header = 0x05 | (1 << 17) | (1 << 24);
    let mut space = msi_space(header, false);
    let dev = Device::new(0, 2, 0);
    assert_eq!(dev.configure_msi(&mut space, 0xfee0_0000, 0xc041, 5), Ok(()));
    let cap = dev.msi_capability_structure(&space, 0x50);
    assert_eq!(cap.multi_msg_enable(), 1);
    assert!(cap.per_vector_mask_capable());
    assert_eq!(dev.read(&space, 0x54), 0xfee0_0000);
    assert_eq!(dev.read(&space, 0x58), 0xc041);
    assert_eq!(space.take_writes().len(), 5);
}

#[test]
fn msix_only_device_is_accepted_unchanged() {
    let mut space = msi_space(0x0, true);
    let dev = Device::new(0, 2, 0);
    assert_eq!(dev.configure_msi(&mut space, 0xfee0_0000, 0xc040, 0), Ok(()));
    assert!(space.take_writes().is_empty());
}

#[test]
fn no_msi_capability_is_an_error() {
    let mut space = msi_space(0x0, false);
    let dev = Device::new(0, 2, 0);
    assert!(dev.configure_msi(&mut space, 0xfee0_0000, 0xc040, 0).is_err());
    assert!(space.take_writes().is_empty());
}

#[test]
fn msi_capability_setters() {
    let mut cap = nucleus::pci::MSICapability::zeroed();
    cap.header = 0x1105 | (7 << 20);
    assert_eq!(cap.capability_id(), 0x05);
    assert_eq!(cap.next_pointer(), 0x11);
    cap.set_msi_enable();
    assert!(cap.msi_enable());
    cap.clear_msi_enable();
    assert!(!cap.msi_enable());
    cap.set_multi_msg_enable(2);
    assert_eq!(cap.multi_msg_enable(), 2);
}

#[test]
fn select_prefers_intel_xhci() {
    let mut space = ConfigSpace::new();
    add(&mut space, 0, 1, 0, function_regs(0x1b36, (0x0c, 0x03, 0x30), 0x00, 0));
    add(&mut space, 0, 2, 0, function_regs(0x8086, (0x0c, 0x03, 0x30), 0x00, 0));
    add(&mut space, 0, 3, 0, function_regs(0x8086, (0x0c, 0x03, 0x20), 0x00, 0));
    let devices = vec![Device::new(0, 3, 0), Device::new(0, 1, 0), Device::new(0, 2, 0)];
    assert_eq!(nucleus::pci::select_xhci(&space, &devices), Some(Device::new(0, 2, 0)));
    let others = vec![Device::new(0, 3, 0), Device::new(0, 1, 0)];
    assert_eq!(nucleus::pci::select_xhci(&space, &others), Some(Device::new(0, 1, 0)));
    let none = vec![Device::new(0, 3, 0)];
    assert_eq!(nucleus::pci::select_xhci(&space, &none), None);
}

#[test]
fn error_messages() {
    let space = bar_space([0; 6]);
    assert_eq!(Device::new(0, 1, 0).bar(&space, 6), Err("Index out of bounds"));
    let mut space = msi_space(0x0, false);
    assert_eq!(Device::new(0, 2, 0).configure_msi(&mut space, 0, 0, 0), Err("No MSI Capability"));
}

#[test]
fn device_listing_line() {
    let mut space = ConfigSpace::new();
    add(&mut space, 0x1a, 3, 2, function_regs(0x8086, (0x0c, 0x03, 0x30), 0x80, 0));
    let line = Device::new(0x1a, 3, 2).describe(&space);
    assert_eq!(String::from_utf8(line).unwrap(), "1a.03.02: vend 8086, class 0c0330, head 80\n");
}
