use vstd::prelude::*;
use crate::memmap::{digits_spec, zero_padded, push_hex_padded};

verus! {

/// Number of devices the enumeration table holds.
pub const CAPACITY: usize = 256;

/// Number of device slots on one bus.
pub const MAX_DEVICE: u8 = 32;

/// Number of functions of one device.
pub const MAX_FUNCTION: u8 = 8;

/// Number of 32-bit registers in one function's configuration space.
pub const FUNCTION_DWORDS: usize = 64;

/// Upper bound on the length of a capability list: the capability area
/// 0x40..0x100 holds at most 48 dword-aligned entries.
pub const MAX_CAPABILITIES: u32 = 48;

/// Vendor ID read from a function that does not exist.
pub const ABSENT_VENDOR: u16 = 0xffff;

/// The CONFIG_ADDRESS value selecting one dword of a function's configuration space.
pub open spec fn config_address(bus: u8, device: u8, function: u8, reg_addr: u8) -> u32 {
    0x8000_0000u32 | ((bus as u32) << 16u32) | ((device as u32) << 11u32) | ((function as u32)
        << 8u32) | ((reg_addr as u32) & 0xfcu32)
}

/// The dword-aligned form of a CONFIG_ADDRESS value.
pub open spec fn aligned(address: u32) -> u32 {
    address & 0xffff_fffcu32
}

/// The part of a CONFIG_ADDRESS value that names the function.
pub open spec fn function_base(address: u32) -> u32 {
    address & 0xffff_ff00u32
}

/// What a read of `address` returns from configuration space `m`
/// (a map from dword-aligned addresses of present functions to their values).
pub open spec fn read_spec(m: Map<u32, u32>, address: u32) -> u32 {
    if m.contains_key(aligned(address)) {
        m[aligned(address)]
    } else {
        0xffff_ffffu32
    }
}

/// The configuration space after a write of `value` at `address`;
/// writes to a function that is not present are lost.
pub open spec fn write_spec(m: Map<u32, u32>, address: u32, value: u32) -> Map<u32, u32> {
    if m.contains_key(aligned(address)) {
        m.insert(aligned(address), value)
    } else {
        m
    }
}

/// The configuration space after a sequence of writes, in order.
pub open spec fn apply_writes(m: Map<u32, u32>, ws: Seq<(u32, u32)>) -> Map<u32, u32>
    decreases ws.len(),
{
    if ws.len() == 0 {
        m
    } else {
        write_spec(apply_writes(m, ws.drop_last()), ws.last().0, ws.last().1)
    }
}

/// Configuration space `m` with the function whose base address is `key`
/// holding `dwords`.
pub open spec fn with_function(m: Map<u32, u32>, key: u32, dwords: Seq<u32>) -> Map<u32, u32> {
    Map::new(
        |a: u32| m.contains_key(a) || (aligned(a) == a && function_base(a) == key),
        |a: u32|
            if function_base(a) == key {
                dwords[dword_index(a)]
            } else {
                m[a]
            },
    )
}

/// Index of the last occurrence of `key` in `keys`, or -1.
pub open spec fn slot_of(keys: Seq<u32>, key: u32) -> int
    decreases keys.len(),
{
    if keys.len() == 0 {
        -1
    } else if keys.last() == key {
        keys.len() - 1
    } else {
        slot_of(keys.drop_last(), key)
    }
}

proof fn lemma_slot_bounds(keys: Seq<u32>, key: u32)
    ensures
        -1 <= slot_of(keys, key) < keys.len(),
        slot_of(keys, key) >= 0 ==> keys[slot_of(keys, key)] == key,
    decreases keys.len(),
{
    if keys.len() > 0 && keys.last() != key {
        lemma_slot_bounds(keys.drop_last(), key);
    }
}

proof fn lemma_slot_push(keys: Seq<u32>, new_key: u32, key: u32)
    ensures
        slot_of(keys.push(new_key), key) == if key == new_key {
            keys.len() as int
        } else {
            slot_of(keys, key)
        },
{
    assert(keys.push(new_key).drop_last() =~= keys);
}

/// The register index of an address within its function.
pub open spec fn dword_index(address: u32) -> int {
    ((address & 0xffu32) / 4) as int
}

proof fn lemma_address_parts(a: u32, b: u32)
    ensures
        (a & 0xffu32) / 4 < 64,
        aligned(a) & 0xffff_ff00u32 == a & 0xffff_ff00u32,
        (aligned(a) & 0xffu32) / 4 == (a & 0xffu32) / 4,
        aligned(aligned(a)) == aligned(a),
        (aligned(a) == aligned(b)) <==> (a & 0xffff_ff00u32 == b & 0xffff_ff00u32 && (a & 0xffu32)
            / 4 == (b & 0xffu32) / 4),
{
    assert((a & 0xffu32) / 4 < 64) by (bit_vector);
    assert(aligned(a) & 0xffff_ff00u32 == a & 0xffff_ff00u32) by (bit_vector);
    assert((aligned(a) & 0xffu32) / 4 == (a & 0xffu32) / 4) by (bit_vector);
    assert(aligned(aligned(a)) == aligned(a)) by (bit_vector);
    assert((a & 0xffff_fffcu32 == b & 0xffff_fffcu32) <==> (a & 0xffff_ff00u32 == b
        & 0xffff_ff00u32 && (a & 0xffu32) / 4 == (b & 0xffu32) / 4)) by (bit_vector);
}

/// A snapshot of PCI configuration space: for each present function, its 64
/// dwords. Reads of absent functions return all ones. Writes update the
/// snapshot and are recorded, in order, so that they can be replayed on the
/// hardware ports.
pub struct ConfigSpace {
    keys: Vec<u32>,
    regs: Vec<u32>,
    log: Vec<(u32, u32)>,
}

impl ConfigSpace {
    pub closed spec fn wf(&self) -> bool {
        self.regs@.len() == FUNCTION_DWORDS * self.keys@.len()
    }

    /// The dword-aligned addresses of the present functions, with their values.
    pub closed spec fn view(&self) -> Map<u32, u32> {
        Map::new(
            |a: u32| aligned(a) == a && slot_of(self.keys@, function_base(a)) >= 0,
            |a: u32| self.regs@[FUNCTION_DWORDS * slot_of(self.keys@, function_base(a)) + dword_index(a)],
        )
    }

    /// The writes made so far and not yet taken.
    pub closed spec fn writes(&self) -> Seq<(u32, u32)> {
        self.log@
    }

    pub fn new() -> (r: ConfigSpace)
        ensures
            r.wf(),
            r@ == Map::<u32, u32>::empty(),
            r.writes().len() == 0,
    {
        let r = ConfigSpace { keys: Vec::new(), regs: Vec::new(), log: Vec::new() };
        assert(r@ =~= Map::<u32, u32>::empty());
        r
    }

    /// Adds (or replaces) a present function with its 64 configuration dwords.
    #[verifier::rlimit(30)]
    pub fn add_function(&mut self, bus: u8, device: u8, function: u8, dwords: &Vec<u32>)
        requires
            old(self).wf(),
            dwords@.len() == FUNCTION_DWORDS,
            device < MAX_DEVICE,
            function < MAX_FUNCTION,
        ensures
            final(self).wf(),
            final(self).writes() == old(self).writes(),
            final(self)@ == with_function(old(self)@, config_address(bus, device, function, 0), dwords@),
    {
        let key = Pci::address(bus, device, function, 0);
        let ghost old_keys = self.keys@;
        let ghost old_regs = self.regs@;
        let mut i: usize = 0;
        while i < FUNCTION_DWORDS
            invariant
                i <= FUNCTION_DWORDS,
                dwords@.len() == FUNCTION_DWORDS,
                self.keys@ == old_keys,
                self.log@ == old(self).log@,
                self.regs@.len() == old_regs.len() + i,
                old_regs.len() == FUNCTION_DWORDS * old_keys.len(),
                forall|j: int| 0 <= j < old_regs.len() ==> self.regs@[j] == old_regs[j],
                forall|j: int| 0 <= j < i ==> self.regs@[old_regs.len() + j] == dwords@[j],
            decreases FUNCTION_DWORDS - i,
        {
            self.regs.push(dwords[i]);
            i = i + 1;
        }
        self.keys.push(key);
        assert(function_base(key) == key) by {
            let b = bus;
            let d = device;
            let f = function;
            assert(((0x8000_0000u32 | ((b as u32) << 16u32) | ((d as u32) << 11u32) | ((f as u32)
                << 8u32) | ((0u8 as u32) & 0xfcu32)) & 0xffff_ff00u32) == (0x8000_0000u32 | ((
            b as u32) << 16u32) | ((d as u32) << 11u32) | ((f as u32) << 8u32) | ((0u8 as u32)
                & 0xfcu32))) by (bit_vector);
        }
        assert forall|a: u32| #![trigger self@.contains_key(a)]
            self@.contains_key(a) == with_function(old(self)@, key, dwords@).contains_key(a) && (
            self@.contains_key(a) ==> self@[a] == with_function(old(self)@, key, dwords@)[a]) by {
            lemma_slot_push(old_keys, key, function_base(a));
            lemma_slot_bounds(old_keys, function_base(a));
            lemma_address_parts(a, a);
            if function_base(a) != key && slot_of(old_keys, function_base(a)) >= 0 {
                let s = slot_of(old_keys, function_base(a));
                assert(FUNCTION_DWORDS * s + dword_index(a) < old_regs.len()) by (nonlinear_arith)
                    requires
                        0 <= s < old_keys.len(),
                        0 <= dword_index(a) < 64,
                        old_regs.len() == FUNCTION_DWORDS * old_keys.len(),
                ;
            }
        }
        assert(self@ =~= with_function(old(self)@, key, dwords@));
    }

    /// Reads the dword at `address`.
    pub fn read(&self, address: u32) -> (r: u32)
        requires
            self.wf(),
        ensures
            r == read_spec(self@, address),
    {
        let base = address & 0xffff_ff00;
        let index = ((address & 0xff) / 4) as usize;
        proof {
            lemma_address_parts(address, address);
        }
        let mut i = self.keys.len();
        assert(self.keys@.subrange(0, i as int) =~= self.keys@);
        while i > 0
            invariant
                i <= self.keys@.len(),
                self.wf(),
                index == dword_index(address),
                index < 64,
                base == function_base(address),
                slot_of(self.keys@, base) == slot_of(self.keys@.subrange(0, i as int), base),
            decreases i,
        {
            assert(self.keys@.subrange(0, i as int).drop_last() =~= self.keys@.subrange(
                0,
                i - 1,
            ));
            if self.keys[i - 1] == base {
                let n = self.regs.len();
                proof {
                    lemma_address_parts(address, address);
                    assert(self.keys@.subrange(0, i as int).last() == base);
                    let s = slot_of(self.keys@, base);
                    assert(s == i - 1);
                    assert(FUNCTION_DWORDS * s + index < self.regs@.len()) by (nonlinear_arith)
                        requires
                            0 <= s < self.keys@.len(),
                            0 <= index < 64,
                            self.regs@.len() == FUNCTION_DWORDS * self.keys@.len(),
                    ;
                    assert(self@.contains_key(aligned(address)));
                }
                return self.regs[FUNCTION_DWORDS * (i - 1) + index];
            }
            i = i - 1;
        }
        assert(self.keys@.subrange(0, 0) =~= Seq::<u32>::empty());
        assert(!self@.contains_key(aligned(address)));
        0xffff_ffff
    }

    /// Writes `value` at `address` and records the write.
    pub fn write(&mut self, address: u32, value: u32)
        requires
            old(self).wf(),
        ensures
            final(self).wf(),
            final(self)@ == write_spec(old(self)@, address, value),
            final(self).writes() == old(self).writes().push((aligned(address), value)),
    {
        let base = address & 0xffff_ff00;
        let index = ((address & 0xff) / 4) as usize;
        proof {
            lemma_address_parts(address, address);
        }
        let aligned_address = address & 0xffff_fffc;
        self.log.push((aligned_address, value));
        let mut i = self.keys.len();
        assert(self.keys@.subrange(0, i as int) =~= self.keys@);
        while i > 0
            invariant
                i <= self.keys@.len(),
                index == dword_index(address),
                index < 64,
                base == function_base(address),
                aligned_address == aligned(address),
                self.log@ == old(self).log@.push((aligned(address), value)),
                self.keys@ == old(self).keys@,
                self.regs@ == old(self).regs@,
                self.wf(),
                slot_of(self.keys@, base) == slot_of(self.keys@.subrange(0, i as int), base),
            decreases i,
        {
            assert(self.keys@.subrange(0, i as int).drop_last() =~= self.keys@.subrange(
                0,
                i - 1,
            ));
            if self.keys[i - 1] == base {
                let ghost s = i - 1;
                let n = self.regs.len();
                proof {
                    lemma_address_parts(address, address);
                    assert(self.keys@.subrange(0, i as int).last() == base);
                    assert(slot_of(self.keys@, base) == s);
                    assert(FUNCTION_DWORDS * s + index < self.regs@.len()) by (nonlinear_arith)
                        requires
                            0 <= s < self.keys@.len(),
                            0 <= index < 64,
                            self.regs@.len() == FUNCTION_DWORDS * self.keys@.len(),
                    ;
                }
                self.regs.set(FUNCTION_DWORDS * (i - 1) + index, value);
                proof {
                    assert(old(self)@.contains_key(aligned(address)));
                    assert forall|a: u32| #![auto]
                        self@.contains_key(a) == write_spec(old(self)@, address, value).contains_key(a)
                        && (self@.contains_key(a) ==> self@[a] == write_spec(
                            old(self)@,
                            address,
                            value,
                        )[a]) by {
                        lemma_address_parts(a, address);
                        lemma_slot_bounds(self.keys@, function_base(a));
                        if self@.contains_key(a) {
                            let t = slot_of(self.keys@, function_base(a));
                            assert(FUNCTION_DWORDS * t + dword_index(a) < self.regs@.len())
                                by (nonlinear_arith)
                                requires
                                    0 <= t < self.keys@.len(),
                                    0 <= dword_index(a) < 64,
                                    self.regs@.len() == FUNCTION_DWORDS * self.keys@.len(),
                            ;
                            if a != aligned(address) {
                                assert(FUNCTION_DWORDS * t + dword_index(a) != FUNCTION_DWORDS * s
                                    + index) by (nonlinear_arith)
                                    requires
                                        0 <= t,
                                        0 <= s,
                                        0 <= dword_index(a) < 64,
                                        0 <= index < 64,
                                        t != s || dword_index(a) != index,
                                ;
                            }
                        }
                    }
                    assert(self@ =~= write_spec(old(self)@, address, value));
                }
                return ;
            }
            i = i - 1;
        }
        assert(self.keys@.subrange(0, 0) =~= Seq::<u32>::empty());
        assert(self@ =~= old(self)@);
    }

    /// Hands out the recorded writes, oldest first, and forgets them.
    pub fn take_writes(&mut self) -> (r: Vec<(u32, u32)>)
        requires
            old(self).wf(),
        ensures
            final(self).wf(),
            r@ == old(self).writes(),
            final(self)@ == old(self)@,
            final(self).writes().len() == 0,
    {
        let mut out: Vec<(u32, u32)> = Vec::new();
        std::mem::swap(&mut out, &mut self.log);
        out
    }
}

/// Vendor ID of a function.
pub open spec fn vendor_spec(m: Map<u32, u32>, bus: u8, device: u8, function: u8) -> u16 {
    (read_spec(m, config_address(bus, device, function, 0x00)) & 0xffffu32) as u16
}

/// Header type of a function.
pub open spec fn header_type_spec(m: Map<u32, u32>, bus: u8, device: u8, function: u8) -> u8 {
    (read_spec(m, config_address(bus, device, function, 0x0c)) >> 16u32) as u8
}

/// Whether bit 7 of the header type (multi-function) is clear.
pub open spec fn single_function_spec(m: Map<u32, u32>, bus: u8, device: u8, function: u8) -> bool {
    header_type_spec(m, bus, device, function) & 0x80u8 == 0
}

/// Whether a function is a PCI-to-PCI bridge (base class 0x06, subclass 0x04).
pub open spec fn is_bridge_spec(m: Map<u32, u32>, bus: u8, device: u8, function: u8) -> bool {
    let reg = read_spec(m, config_address(bus, device, function, 0x08));
    (reg >> 24u32) as u8 == 0x06u8 && (reg >> 16u32) as u8 == 0x04u8
}

/// Secondary bus number of a bridge.
pub open spec fn secondary_bus_spec(m: Map<u32, u32>, bus: u8, device: u8, function: u8) -> u8 {
    (read_spec(m, config_address(bus, device, function, 0x18)) >> 8u32) as u8
}

/// `r` when it extends `acc` within the capacity, else `acc`.
pub open spec fn grow(acc: Seq<Device>, r: Seq<Device>) -> Seq<Device> {
    if acc.len() <= r.len() && r.len() <= CAPACITY {
        r
    } else {
        acc
    }
}

/// The devices found by scanning bus `bus` from device `dev` on, appended to `acc`.
pub open spec fn scan_bus_from(m: Map<u32, u32>, bus: u8, dev: int, acc: Seq<Device>) -> Seq<
    Device,
>
    decreases CAPACITY - acc.len(), 3int, 32 - dev,
{
    if acc.len() >= CAPACITY || dev < 0 || dev >= MAX_DEVICE {
        acc
    } else {
        let r = if vendor_spec(m, bus, dev as u8, 0) != ABSENT_VENDOR {
            scan_device_spec(m, bus, dev as u8, acc)
        } else {
            acc
        };
        scan_bus_from(m, bus, dev + 1, grow(acc, r))
    }
}

/// The devices found by scanning one device: function 0, then functions 1..8
/// that are present when the device is multi-function.
pub open spec fn scan_device_spec(m: Map<u32, u32>, bus: u8, device: u8, acc: Seq<Device>) -> Seq<
    Device,
>
    decreases CAPACITY - acc.len(), 2int, 0int,
{
    let r = scan_function_spec(m, bus, device, 0, acc);
    if single_function_spec(m, bus, device, 0) {
        r
    } else {
        scan_functions_from(m, bus, device, 1, grow(acc, r))
    }
}

/// The devices found by scanning functions `function..8` of one device.
pub open spec fn scan_functions_from(
    m: Map<u32, u32>,
    bus: u8,
    device: u8,
    function: int,
    acc: Seq<Device>,
) -> Seq<Device>
    decreases CAPACITY - acc.len(), 1int, 8 - function,
{
    if acc.len() >= CAPACITY || function < 0 || function >= MAX_FUNCTION {
        acc
    } else {
        let r = if vendor_spec(m, bus, device, function as u8) != ABSENT_VENDOR {
            scan_function_spec(m, bus, device, function as u8, acc)
        } else {
            acc
        };
        scan_functions_from(m, bus, device, function + 1, grow(acc, r))
    }
}

/// The devices found by scanning one function: the function itself, then,
/// for a bridge, its secondary bus. Nothing is added once the table is full.
pub open spec fn scan_function_spec(
    m: Map<u32, u32>,
    bus: u8,
    device: u8,
    function: u8,
    acc: Seq<Device>,
) -> Seq<Device>
    decreases CAPACITY - acc.len(), 0int, 0int,
{
    if acc.len() >= CAPACITY {
        acc
    } else {
        let acc2 = acc.push(Device { bus, device, function });
        if is_bridge_spec(m, bus, device, function) {
            scan_bus_from(m, secondary_bus_spec(m, bus, device, function), 0, acc2)
        } else {
            acc2
        }
    }
}

/// The buses `function..8` named by the functions of a multi-function host bridge.
pub open spec fn scan_roots_from(m: Map<u32, u32>, function: int, acc: Seq<Device>) -> Seq<Device>
    decreases CAPACITY - acc.len(), 4int, 8 - function,
{
    if acc.len() >= CAPACITY || function < 0 || function >= MAX_FUNCTION {
        acc
    } else {
        let r = if vendor_spec(m, 0, 0, function as u8) != ABSENT_VENDOR {
            scan_bus_from(m, function as u8, 0, acc)
        } else {
            acc
        };
        scan_roots_from(m, function + 1, grow(acc, r))
    }
}

/// The enumeration of configuration space `m`, depth first from bus 0.
pub open spec fn scan_spec(m: Map<u32, u32>) -> Seq<Device> {
    if single_function_spec(m, 0, 0, 0) {
        scan_bus_from(m, 0, 0, Seq::empty())
    } else {
        scan_roots_from(m, 1, Seq::empty())
    }
}

/// The table of functions found by a scan.
pub struct Pci {
    pub devices: Vec<Device>,
    pub num_device: usize,
}

impl Pci {
    pub closed spec fn wf(&self) -> bool {
        self.num_device == self.devices@.len() && self.num_device <= CAPACITY
    }

    /// Enumerates the functions of `space`, depth first from bus 0; returns
    /// the number found and the devices in the order found.
    pub fn scan(space: &ConfigSpace) -> (r: (usize, Vec<Device>))
        requires
            space.wf(),
        ensures
            r.1@ == scan_spec(space@),
            r.0 == r.1@.len(),
            r.0 <= CAPACITY,
    {
        let mut this = Pci { devices: Vec::new(), num_device: 0 };
        if Self::is_single_function(space, 0, 0, 0) {
            this.scan_bus(space, 0);
        } else {
            let mut function: u8 = 1;
            while function < MAX_FUNCTION && this.num_device < CAPACITY
                invariant
                    space.wf(),
                    this.wf(),
                    1 <= function <= MAX_FUNCTION,
                    scan_roots_from(space@, function as int, this.devices@) == scan_roots_from(
                        space@,
                        1,
                        Seq::empty(),
                    ),
                decreases MAX_FUNCTION - function,
            {
                let ghost acc = this.devices@;
                if Self::vendor_id(space, 0, 0, function) != ABSENT_VENDOR {
                    this.scan_bus(space, function);
                }
                assert(grow(acc, this.devices@) == this.devices@);
                function = function + 1;
            }
            assert(scan_roots_from(space@, function as int, this.devices@) == this.devices@);
        }
        (this.num_device, this.devices)
    }

    fn scan_bus(&mut self, space: &ConfigSpace, bus: u8)
        requires
            old(self).wf(),
            space.wf(),
        ensures
            final(self).wf(),
            final(self).devices@ == scan_bus_from(space@, bus, 0, old(self).devices@),
            final(self).devices@.len() >= old(self).devices@.len(),
        decreases CAPACITY - old(self).devices@.len(), 3int, 33int,
    {
        let ghost start = self.devices@;
        let mut device: u8 = 0;
        while device < MAX_DEVICE
            invariant
                space.wf(),
                self.wf(),
                device <= MAX_DEVICE,
                start == old(self).devices@,
                self.devices@.len() >= start.len(),
                scan_bus_from(space@, bus, device as int, self.devices@) == scan_bus_from(
                    space@,
                    bus,
                    0,
                    start,
                ),
            decreases MAX_DEVICE - device,
        {
            if self.num_device >= CAPACITY {
                assert(scan_bus_from(space@, bus, device as int, self.devices@) == self.devices@);
                return ;
            }
            let ghost acc = self.devices@;
            if Self::vendor_id(space, bus, device, 0) != ABSENT_VENDOR {
                self.scan_device(space, bus, device);
            }
            assert(grow(acc, self.devices@) == self.devices@);
            device = device + 1;
        }
        assert(scan_bus_from(space@, bus, device as int, self.devices@) == self.devices@);
    }

    fn scan_device(&mut self, space: &ConfigSpace, bus: u8, device: u8)
        requires
            old(self).wf(),
            space.wf(),
        ensures
            final(self).wf(),
            final(self).devices@ == scan_device_spec(space@, bus, device, old(self).devices@),
            final(self).devices@.len() >= old(self).devices@.len(),
        decreases CAPACITY - old(self).devices@.len(), 2int, 0int,
    {
        self.scan_function(space, bus, device, 0);
        if Self::is_single_function(space, bus, device, 0) {
            return ;
        }
        let ghost first = self.devices@;
        assert(grow(old(self).devices@, first) == first);
        assert(scan_device_spec(space@, bus, device, old(self).devices@) == scan_functions_from(
            space@,
            bus,
            device,
            1,
            first,
        ));
        let mut function: u8 = 1;
        while function < MAX_FUNCTION
            invariant
                space.wf(),
                self.wf(),
                1 <= function <= MAX_FUNCTION,
                self.devices@.len() >= first.len(),
                first.len() >= old(self).devices@.len(),
                scan_device_spec(space@, bus, device, old(self).devices@) == scan_functions_from(
                    space@,
                    bus,
                    device,
                    1,
                    first,
                ),
                scan_functions_from(space@, bus, device, function as int, self.devices@)
                    == scan_functions_from(space@, bus, device, 1, first),
            decreases MAX_FUNCTION - function,
        {
            if self.num_device >= CAPACITY {
                assert(scan_functions_from(space@, bus, device, function as int, self.devices@)
                    == self.devices@);
                return ;
            }
            let ghost acc = self.devices@;
            if Self::vendor_id(space, bus, device, function) != ABSENT_VENDOR {
                self.scan_function(space, bus, device, function);
            }
            assert(grow(acc, self.devices@) == self.devices@);
            function = function + 1;
        }
        assert(scan_functions_from(space@, bus, device, function as int, self.devices@)
            == self.devices@);
    }

    fn scan_function(&mut self, space: &ConfigSpace, bus: u8, device: u8, function: u8)
        requires
            old(self).wf(),
            space.wf(),
        ensures
            final(self).wf(),
            final(self).devices@ == scan_function_spec(
                space@,
                bus,
                device,
                function,
                old(self).devices@,
            ),
            final(self).devices@.len() >= old(self).devices@.len(),
        decreases CAPACITY - old(self).devices@.len(), 0int, 0int,
    {
        if self.num_device >= CAPACITY {
            return ;
        }
        self.add_device(bus, device, function);
        let class_code = Self::class_code(space, bus, device, function);
        let base = (class_code >> 24) as u8;
        let sub = (class_code >> 16) as u8;
        if base == 0x06 && sub == 0x04 {
            let bus_numbers = Self::bus_numbers(space, bus, device, function);
            let secondary_bus = (bus_numbers >> 8) as u8;
            self.scan_bus(space, secondary_bus);
        }
    }

    fn add_device(&mut self, bus: u8, device: u8, function: u8)
        requires
            old(self).wf(),
        ensures
            final(self).wf(),
            final(self).devices@ == if old(self).devices@.len() < CAPACITY {
                old(self).devices@.push(Device { bus, device, function })
            } else {
                old(self).devices@
            },
    {
        if self.num_device == CAPACITY {
            return ;
        }
        self.devices.push(Device::new(bus, device, function));
        self.num_device = self.num_device + 1;
    }

    /// The CONFIG_ADDRESS value for register `reg_addr` of a function:
    /// enable bit, bus, device, function and the dword-aligned offset.
    pub fn address(bus: u8, device: u8, function: u8, reg_addr: u8) -> (r: u32)
        ensures
            r == config_address(bus, device, function, reg_addr),
    {
        0x8000_0000u32 | ((bus as u32) << 16u32) | ((device as u32) << 11u32) | ((function as u32)
            << 8u32) | ((reg_addr as u32) & 0xfc)
    }

    /// Vendor ID of a function (0xffff when it is absent).
    pub fn vendor_id(space: &ConfigSpace, bus: u8, device: u8, function: u8) -> (r: u16)
        requires
            space.wf(),
        ensures
            r == vendor_spec(space@, bus, device, function),
    {
        let address = Self::address(bus, device, function, 0x00);
        (space.read(address) & 0xffff) as u16
    }

    /// The class code register (0x08) of a function.
    pub fn class_code(space: &ConfigSpace, bus: u8, device: u8, function: u8) -> (r: u32)
        requires
            space.wf(),
        ensures
            r == read_spec(space@, config_address(bus, device, function, 0x08)),
    {
        let address = Self::address(bus, device, function, 0x08);
        space.read(address)
    }

    /// Header type of a function.
    pub fn header_type(space: &ConfigSpace, bus: u8, device: u8, function: u8) -> (r: u8)
        requires
            space.wf(),
        ensures
            r == header_type_spec(space@, bus, device, function),
    {
        let address = Self::address(bus, device, function, 0x0c);
        (space.read(address) >> 16) as u8
    }

    /// The bus number register (0x18) of a bridge.
    pub fn bus_numbers(space: &ConfigSpace, bus: u8, device: u8, function: u8) -> (r: u32)
        requires
            space.wf(),
        ensures
            r == read_spec(space@, config_address(bus, device, function, 0x18)),
    {
        let address = Self::address(bus, device, function, 0x18);
        space.read(address)
    }

    /// Whether a function's header type has the multi-function bit clear.
    pub fn is_single_function(space: &ConfigSpace, bus: u8, device: u8, function: u8) -> (r: bool)
        requires
            space.wf(),
        ensures
            r == single_function_spec(space@, bus, device, function),
    {
        Self::header_type(space, bus, device, function) & 0x80 == 0
    }
}

/// One PCI function, by bus, device and function number.
#[derive(Clone, Copy, PartialEq, Eq, Debug, Structural)]
pub struct Device {
    pub bus: u8,
    pub device: u8,
    pub function: u8,
}

/// The address of register `offset` of device `d`.
pub open spec fn dev_addr(d: Device, offset: u8) -> u32 {
    config_address(d.bus, d.device, d.function, offset)
}

/// What reading register `offset` of `d` returns.
pub open spec fn dev_read(m: Map<u32, u32>, d: Device, offset: u8) -> u32 {
    read_spec(m, dev_addr(d, offset))
}

/// The decoded value of base address register `index`, or `None` when the
/// index is out of range or a 64-bit BAR would run past the last register.
pub open spec fn bar_spec(m: Map<u32, u32>, d: Device, index: u8) -> Option<u64> {
    if index >= 6 {
        None
    } else {
        let low = dev_read(m, d, (0x10 + 4 * index) as u8);
        if low & 0x4u32 == 0 {
            Some(low as u64)
        } else if index >= 5 {
            None
        } else {
            Some((low as u64) | ((dev_read(m, d, (0x14 + 4 * index) as u8) as u64) << 32u64))
        }
    }
}

/// Capability ID of the MSI capability.
pub const MSI_ID: u8 = 0x05;

/// Capability ID of the MSI-X capability.
pub const MSIX_ID: u8 = 0x11;

/// Walks at most `fuel` entries of the capability list from `ptr`, and gives
/// the offsets of the last MSI and MSI-X capabilities met (0 where none).
pub open spec fn cap_walk(m: Map<u32, u32>, d: Device, ptr: u8, fuel: nat, msi: u8, msix: u8) -> (
    u8,
    u8,
)
    decreases fuel,
{
    if ptr == 0 || fuel == 0 {
        (msi, msix)
    } else {
        let c = dev_read(m, d, ptr);
        let id = c as u8;
        let next = ((c >> 8u32) as u8) & 0xfcu8;
        cap_walk(
            m,
            d,
            next,
            (fuel - 1) as nat,
            if id == MSI_ID {
                ptr
            } else {
                msi
            },
            if id == MSIX_ID {
                ptr
            } else {
                msix
            },
        )
    }
}

/// The offsets of the MSI and MSI-X capabilities of `d` (0 where absent).
pub open spec fn capability_scan(m: Map<u32, u32>, d: Device) -> (u8, u8) {
    cap_walk(m, d, (dev_read(m, d, 0x34) as u8) & 0xfcu8, MAX_CAPABILITIES as nat, 0, 0)
}

/// Offset of the message data register of an MSI capability at `a`.
pub open spec fn msi_data_offset(header: u32, a: u8) -> u8 {
    if (header >> 23u32) & 1u32 != 0 {
        a.wrapping_add(12)
    } else {
        a.wrapping_add(8)
    }
}

/// The MSI capability structure of `d` at offset `a`, as read field by field.
pub open spec fn msi_read_spec(m: Map<u32, u32>, d: Device, a: u8) -> MSICapability {
    let header = dev_read(m, d, a);
    let data_off = msi_data_offset(header, a);
    let pvm = (header >> 24u32) & 1u32 != 0;
    MSICapability {
        header,
        msg_addr: dev_read(m, d, a.wrapping_add(4)),
        msg_upper_addr: if (header >> 23u32) & 1u32 != 0 {
            dev_read(m, d, a.wrapping_add(8))
        } else {
            0
        },
        msg_data: dev_read(m, d, data_off),
        mask_bits: if pvm {
            dev_read(m, d, data_off.wrapping_add(4))
        } else {
            0
        },
        pending_bits: if pvm {
            dev_read(m, d, data_off.wrapping_add(8))
        } else {
            0
        },
    }
}

/// The writes that store `cap` at offset `a` of `d`, in the order made.
pub open spec fn msi_writes(d: Device, a: u8, cap: MSICapability) -> Seq<(u32, u32)> {
    let data_off = msi_data_offset(cap.header, a);
    let head = seq![(dev_addr(d, a), cap.header), (dev_addr(d, a.wrapping_add(4)), cap.msg_addr)];
    let upper = if (cap.header >> 23u32) & 1u32 != 0 {
        seq![(dev_addr(d, a.wrapping_add(8)), cap.msg_upper_addr)]
    } else {
        Seq::empty()
    };
    let data = seq![(dev_addr(d, data_off), cap.msg_data)];
    let masks = if (cap.header >> 24u32) & 1u32 != 0 {
        seq![
            (dev_addr(d, data_off.wrapping_add(4)), cap.mask_bits),
            (dev_addr(d, data_off.wrapping_add(8)), cap.pending_bits),
        ]
    } else {
        Seq::empty()
    };
    head + upper + data + masks
}

/// The smaller of two values.
pub open spec fn min_u8(a: u8, b: u8) -> u8 {
    if a <= b {
        a
    } else {
        b
    }
}

/// `cap` programmed for delivery: multi-message enable set to the smaller of
/// the capable count and the requested exponent, MSI enabled, message
/// address (upper half zero when 64-bit capable) and data assigned.
pub open spec fn msi_configured(cap: MSICapability, msg_addr: u32, msg_data: u32, exponent: u8) -> MSICapability {
    let mme = min_u8(((cap.header >> 17u32) as u8) & 7u8, exponent);
    MSICapability {
        header: ((cap.header & !(7u32 << 20u32)) | (((mme as u32) & 7u32) << 20u32)) | (1u32
            << 16u32),
        msg_addr,
        msg_upper_addr: if (cap.header >> 23u32) & 1u32 != 0 {
            0
        } else {
            cap.msg_upper_addr
        },
        msg_data,
        ..cap
    }
}

proof fn lemma_apply_push(m: Map<u32, u32>, ws: Seq<(u32, u32)>, w: (u32, u32))
    ensures
        apply_writes(m, ws.push(w)) == write_spec(apply_writes(m, ws), w.0, w.1),
{
    assert(ws.push(w).drop_last() =~= ws);
}

proof fn lemma_config_address_aligned(bus: u8, device: u8, function: u8, reg: u8)
    ensures
        aligned(config_address(bus, device, function, reg)) == config_address(
            bus,
            device,
            function,
            reg,
        ),
{
    assert((0x8000_0000u32 | ((bus as u32) << 16u32) | ((device as u32) << 11u32) | ((
    function as u32) << 8u32) | ((reg as u32) & 0xfcu32)) & 0xffff_fffcu32 == (0x8000_0000u32 | ((
    bus as u32) << 16u32) | ((device as u32) << 11u32) | ((function as u32) << 8u32) | ((
    reg as u32) & 0xfcu32))) by (bit_vector);
}

proof fn lemma_dev_addr_distinct(d: Device, r1: u8, r2: u8)
    ensures
        (dev_addr(d, r1) == dev_addr(d, r2)) <==> (r1 & 0xfcu8 == r2 & 0xfcu8),
{
    let b = d.bus;
    let v = d.device;
    let f = d.function;
    assert(((0x8000_0000u32 | ((b as u32) << 16u32) | ((v as u32) << 11u32) | ((f as u32) << 8u32)
        | ((r1 as u32) & 0xfcu32)) == (0x8000_0000u32 | ((b as u32) << 16u32) | ((v as u32)
        << 11u32) | ((f as u32) << 8u32) | ((r2 as u32) & 0xfcu32))) <==> (r1 & 0xfcu8 == r2
        & 0xfcu8)) by (bit_vector);
}

proof fn lemma_fields_distinct(d: Device, a: u8, k1: u8, k2: u8)
    requires
        a & 3u8 == 0,
        a <= 0xe8u8,
        k1 % 4 == 0,
        k2 % 4 == 0,
        k1 < k2 <= 20,
    ensures
        dev_addr(d, a.wrapping_add(k1)) != dev_addr(d, a.wrapping_add(k2)),
{
    lemma_dev_addr_distinct(d, a.wrapping_add(k1), a.wrapping_add(k2));
    assert(k1 % 4 == 0 ==> k1 & 3u8 == 0) by (bit_vector);
    assert(k2 % 4 == 0 ==> k2 & 3u8 == 0) by (bit_vector);
    let x1 = a.wrapping_add(k1);
    let x2 = a.wrapping_add(k2);
    assert(x1 == a + k1 && x2 == a + k2);
    assert(x1 & 0xfcu8 != x2 & 0xfcu8) by (bit_vector)
        requires
            x1 == a + k1,
            x2 == a + k2,
            a & 3u8 == 0,
            k1 & 3u8 == 0,
            k2 & 3u8 == 0,
            k1 < k2,
            k2 <= 20,
            a <= 0xe8u8,
    ;
}

/// Reading back an MSI capability that was programmed in place gives the
/// programmed record, for a present function whose capability lies wholly
/// within its configuration space.
pub proof fn msi_readback(
    m: Map<u32, u32>,
    d: Device,
    a: u8,
    msg_addr: u32,
    msg_data: u32,
    exponent: u8,
)
    requires
        a & 3u8 == 0,
        a <= 0xe8u8,
        forall|k: u8| #![trigger dev_addr(d, k)] m.contains_key(dev_addr(d, k)),
    ensures
        ({
            let c = msi_configured(msi_read_spec(m, d, a), msg_addr, msg_data, exponent);
            msi_read_spec(apply_writes(m, msi_writes(d, a, c)), d, a) == c
        }),
{
    let c0 = msi_read_spec(m, d, a);
    let c = msi_configured(c0, msg_addr, msg_data, exponent);
    let h = c0.header;
    let x = min_u8(((h >> 17u32) as u8) & 7u8, exponent) as u32;
    assert(((((h & !(7u32 << 20u32)) | ((x & 7u32) << 20u32)) | (1u32 << 16u32)) >> 23u32) & 1u32
        == (h >> 23u32) & 1u32) by (bit_vector);
    assert(((((h & !(7u32 << 20u32)) | ((x & 7u32) << 20u32)) | (1u32 << 16u32)) >> 24u32) & 1u32
        == (h >> 24u32) & 1u32) by (bit_vector);
    let ws = msi_writes(d, a, c);
    assert forall|k: u8| #![trigger dev_addr(d, k)] aligned(dev_addr(d, k)) == dev_addr(d, k) by {
        lemma_config_address_aligned(d.bus, d.device, d.function, k);
    }
    assert(a.wrapping_add(0) == a);
    let p0 = dev_addr(d, a.wrapping_add(0));
    let p4 = dev_addr(d, a.wrapping_add(4));
    let p8 = dev_addr(d, a.wrapping_add(8));
    let p12 = dev_addr(d, a.wrapping_add(12));
    let p16 = dev_addr(d, a.wrapping_add(16));
    let p20 = dev_addr(d, a.wrapping_add(20));
    lemma_fields_distinct(d, a, 0, 4);
    lemma_fields_distinct(d, a, 0, 8);
    lemma_fields_distinct(d, a, 0, 12);
    lemma_fields_distinct(d, a, 0, 16);
    lemma_fields_distinct(d, a, 0, 20);
    lemma_fields_distinct(d, a, 4, 8);
    lemma_fields_distinct(d, a, 4, 12);
    lemma_fields_distinct(d, a, 4, 16);
    lemma_fields_distinct(d, a, 4, 20);
    lemma_fields_distinct(d, a, 8, 12);
    lemma_fields_distinct(d, a, 8, 16);
    lemma_fields_distinct(d, a, 8, 20);
    lemma_fields_distinct(d, a, 12, 16);
    lemma_fields_distinct(d, a, 12, 20);
    lemma_fields_distinct(d, a, 16, 20);
    assert(p0 == dev_addr(d, a));
    assert(a.wrapping_add(8).wrapping_add(4) == a.wrapping_add(12));
    assert(a.wrapping_add(8).wrapping_add(8) == a.wrapping_add(16));
    assert(a.wrapping_add(12).wrapping_add(4) == a.wrapping_add(16));
    assert(a.wrapping_add(12).wrapping_add(8) == a.wrapping_add(20));
    let head = seq![(p0, c.header), (p4, c.msg_addr)];
    let m2 = m.insert(p0, c.header).insert(p4, c.msg_addr);
    lemma_apply_push(m, seq![(p0, c.header)], (p4, c.msg_addr));
    lemma_apply_push(m, Seq::empty(), (p0, c.header));
    assert(seq![(p0, c.header)] =~= Seq::<(u32, u32)>::empty().push((p0, c.header)));
    assert(head =~= seq![(p0, c.header)].push((p4, c.msg_addr)));
    assert(apply_writes(m, head) == m2);
    let sixty_four = (h >> 23u32) & 1u32 != 0;
    let pvm = (h >> 24u32) & 1u32 != 0;
    let data_off = msi_data_offset(c.header, a);
    let pd = dev_addr(d, data_off);
    let upper = if sixty_four { seq![(p8, c.msg_upper_addr)] } else { Seq::empty() };
    let m3 = if sixty_four { m2.insert(p8, c.msg_upper_addr) } else { m2 };
    if sixty_four {
        lemma_apply_push(m, head, (p8, c.msg_upper_addr));
        assert(head + upper =~= head.push((p8, c.msg_upper_addr)));
    } else {
        assert(head + upper =~= head);
    }
    assert(apply_writes(m, head + upper) == m3);
    let m4 = m3.insert(pd, c.msg_data);
    lemma_apply_push(m, head + upper, (pd, c.msg_data));
    assert(head + upper + seq![(pd, c.msg_data)] =~= (head + upper).push((pd, c.msg_data)));
    let hud = head + upper + seq![(pd, c.msg_data)];
    assert(apply_writes(m, hud) == m4);
    if pvm {
        let pm = dev_addr(d, data_off.wrapping_add(4));
        let pp = dev_addr(d, data_off.wrapping_add(8));
        lemma_apply_push(m, hud, (pm, c.mask_bits));
        lemma_apply_push(m, hud.push((pm, c.mask_bits)), (pp, c.pending_bits));
        assert(ws =~= hud.push((pm, c.mask_bits)).push((pp, c.pending_bits)));
        assert(apply_writes(m, ws) == m4.insert(pm, c.mask_bits).insert(pp, c.pending_bits));
        assert(msi_read_spec(apply_writes(m, ws), d, a) =~= c);
    } else {
        assert(ws =~= hud);
        assert(msi_read_spec(apply_writes(m, ws), d, a) =~= c);
    }
}

impl Device {
    pub fn new(bus: u8, device: u8, function: u8) -> (r: Device)
        ensures
            r == (Device { bus, device, function }),
    {
        Device { bus, device, function }
    }

    /// Reads the dword at register offset `addr`.
    pub fn read(&self, space: &ConfigSpace, addr: u8) -> (r: u32)
        requires
            space.wf(),
        ensures
            r == dev_read(space@, *self, addr),
    {
        let address = Pci::address(self.bus, self.device, self.function, addr);
        space.read(address)
    }

    /// Writes the dword at register offset `addr`.
    pub fn write(&self, space: &mut ConfigSpace, addr: u8, value: u32)
        requires
            old(space).wf(),
        ensures
            final(space).wf(),
            final(space)@ == write_spec(old(space)@, dev_addr(*self, addr), value),
            final(space).writes() == old(space).writes().push((dev_addr(*self, addr), value)),
    {
        let address = Pci::address(self.bus, self.device, self.function, addr);
        proof {
            lemma_config_address_aligned(self.bus, self.device, self.function, addr);
        }
        space.write(address, value);
    }

    pub fn vendor_id(&self, space: &ConfigSpace) -> (r: u16)
        requires
            space.wf(),
        ensures
            r == (dev_read(space@, *self, 0x00) & 0xffffu32) as u16,
    {
        (self.read(space, 0x00) & 0xffff) as u16
    }

    pub fn class_code(&self, space: &ConfigSpace) -> (r: ClassCode)
        requires
            space.wf(),
        ensures
            r == (ClassCode {
                base: (dev_read(space@, *self, 0x08) >> 24u32) as u8,
                sub: (dev_read(space@, *self, 0x08) >> 16u32) as u8,
                interface: (dev_read(space@, *self, 0x08) >> 8u32) as u8,
            }),
    {
        let reg = self.read(space, 0x08);
        ClassCode::new((reg >> 24) as u8, (reg >> 16) as u8, (reg >> 8) as u8)
    }

    pub fn header_type(&self, space: &ConfigSpace) -> (r: u8)
        requires
            space.wf(),
        ensures
            r == (dev_read(space@, *self, 0x0c) >> 16u32) as u8,
    {
        (self.read(space, 0x0c) >> 16) as u8
    }

    /// Decodes base address register `bar_index`; the flag bits stay in the value.
    pub fn bar(&self, space: &ConfigSpace, bar_index: u8) -> (r: Result<u64, &'static str>)
        requires
            space.wf(),
        ensures
            match bar_spec(space@, *self, bar_index) {
                Some(v) => r is Ok && r->Ok_0 == v,
                None => r == Err::<u64, &'static str>("Index out of bounds"),
            },
    {
        if bar_index >= 6 {
            return Err("Index out of bounds");
        }
        let bar_addr = 0x10 + 4 * bar_index;
        let bar = self.read(space, bar_addr) as u64;
        if bar & 0x4 == 0 {
            return Ok(bar);
        }
        if bar_index >= 5 {
            return Err("Index out of bounds");
        }
        let bar_upper = self.read(space, bar_addr + 4) as u64;
        proof {
            let low = dev_read(space@, *self, bar_addr);
            assert((low as u64) & 4u64 == 0 <==> low & 4u32 == 0) by (bit_vector);
        }
        Ok(bar | bar_upper << 32)
    }

    /// The raw capabilities pointer (register 0x34).
    pub fn capability_pointer(&self, space: &ConfigSpace) -> (r: u8)
        requires
            space.wf(),
        ensures
            r == dev_read(space@, *self, 0x34) as u8,
    {
        self.read(space, 0x34) as u8
    }

    /// The header of the capability at offset `addr`.
    pub fn capability_structure(&self, space: &ConfigSpace, addr: u8) -> (r: Capability)
        requires
            space.wf(),
        ensures
            r.cap_id == dev_read(space@, *self, addr) as u8,
            r.next_ptr == (dev_read(space@, *self, addr) >> 8u32) as u8,
    {
        let cap = self.read(space, addr);
        Capability { cap_id: cap as u8, next_ptr: (cap >> 8) as u8 }
    }

    /// Reads the whole MSI capability at offset `addr`; which registers exist
    /// follows from its 64-bit and per-vector-mask flags.
    pub fn msi_capability_structure(&self, space: &ConfigSpace, addr: u8) -> (r: MSICapability)
        requires
            space.wf(),
        ensures
            r == msi_read_spec(space@, *self, addr),
    {
        let mut msi_cap = MSICapability::zeroed();
        msi_cap.header = self.read(space, addr);
        msi_cap.msg_addr = self.read(space, addr.wrapping_add(4));
        let mut msg_data_addr = addr.wrapping_add(8);
        if msi_cap.addr_64_capable() {
            msi_cap.msg_upper_addr = self.read(space, addr.wrapping_add(8));
            msg_data_addr = addr.wrapping_add(12);
        }
        msi_cap.msg_data = self.read(space, msg_data_addr);
        if msi_cap.per_vector_mask_capable() {
            msi_cap.mask_bits = self.read(space, msg_data_addr.wrapping_add(4));
            msi_cap.pending_bits = self.read(space, msg_data_addr.wrapping_add(8));
        }
        msi_cap
    }

    /// Writes the whole MSI capability back at offset `addr`, field by field.
    pub fn set_msi_capability_structure(&self, space: &mut ConfigSpace, addr: u8, msi_cap: MSICapability)
        requires
            old(space).wf(),
        ensures
            final(space).wf(),
            final(space)@ == apply_writes(old(space)@, msi_writes(*self, addr, msi_cap)),
            final(space).writes() == old(space).writes() + msi_writes(*self, addr, msi_cap),
    {
        let ghost m0 = space@;
        let ghost w0 = space.writes();
        let ghost mut acc: Seq<(u32, u32)> = Seq::empty();
        assert(w0 + acc =~= w0);
        self.write(space, addr, msi_cap.header);
        proof {
            lemma_apply_push(m0, acc, (dev_addr(*self, addr), msi_cap.header));
            acc = acc.push((dev_addr(*self, addr), msi_cap.header));
        }
        self.write(space, addr.wrapping_add(4), msi_cap.msg_addr);
        proof {
            lemma_apply_push(m0, acc, (dev_addr(*self, addr.wrapping_add(4)), msi_cap.msg_addr));
            acc = acc.push((dev_addr(*self, addr.wrapping_add(4)), msi_cap.msg_addr));
        }
        let mut msg_data_addr = addr.wrapping_add(8);
        if msi_cap.addr_64_capable() {
            self.write(space, addr.wrapping_add(8), msi_cap.msg_upper_addr);
            proof {
                lemma_apply_push(m0, acc, (dev_addr(*self, addr.wrapping_add(8)), msi_cap.msg_upper_addr));
                acc = acc.push((dev_addr(*self, addr.wrapping_add(8)), msi_cap.msg_upper_addr));
            }
            msg_data_addr = addr.wrapping_add(12);
        }
        self.write(space, msg_data_addr, msi_cap.msg_data);
        proof {
            lemma_apply_push(m0, acc, (dev_addr(*self, msg_data_addr), msi_cap.msg_data));
            acc = acc.push((dev_addr(*self, msg_data_addr), msi_cap.msg_data));
        }
        if msi_cap.per_vector_mask_capable() {
            self.write(space, msg_data_addr.wrapping_add(4), msi_cap.mask_bits);
            proof {
                lemma_apply_push(m0, acc, (dev_addr(*self, msg_data_addr.wrapping_add(4)), msi_cap.mask_bits));
                acc = acc.push((dev_addr(*self, msg_data_addr.wrapping_add(4)), msi_cap.mask_bits));
            }
            self.write(space, msg_data_addr.wrapping_add(8), msi_cap.pending_bits);
            proof {
                lemma_apply_push(m0, acc, (dev_addr(*self, msg_data_addr.wrapping_add(8)), msi_cap.pending_bits));
                acc = acc.push((dev_addr(*self, msg_data_addr.wrapping_add(8)), msi_cap.pending_bits));
            }
        }
        assert(acc =~= msi_writes(*self, addr, msi_cap));
    }

    /// Programs the device's MSI capability to deliver `msg_data` to
    /// `msg_addr` with `2^min(capable, num_vector_exponent)` vectors. A device
    /// with only MSI-X is accepted unchanged; one with neither is an error.
    pub fn configure_msi(
        &self,
        space: &mut ConfigSpace,
        msg_addr: u32,
        msg_data: u32,
        num_vector_exponent: u8,
    ) -> (r: Result<(), &'static str>)
        requires
            old(space).wf(),
        ensures
            final(space).wf(),
            ({
                let (msi, msix) = capability_scan(old(space)@, *self);
                let ws = msi_writes(
                    *self,
                    msi,
                    msi_configured(
                        msi_read_spec(old(space)@, *self, msi),
                        msg_addr,
                        msg_data,
                        num_vector_exponent,
                    ),
                );
                &&& msi != 0 ==> r is Ok && final(space)@ == apply_writes(old(space)@, ws)
                    && final(space).writes() == old(space).writes() + ws
                &&& msi == 0 ==> final(space)@ == old(space)@ && final(space).writes() == old(
                    space,
                ).writes()
                &&& msi == 0 && msix != 0 ==> r is Ok
                &&& msi == 0 && msix == 0 ==> r == Err::<(), &'static str>("No MSI Capability")
            }),
    {
        let mut msi_cap_addr: u8 = 0;
        let mut msix_cap_addr: u8 = 0;
        let mut cap_addr = self.capability_pointer(space) & 0xfc;
        let mut steps: u32 = 0;
        while cap_addr != 0 && steps < MAX_CAPABILITIES
            invariant
                space.wf(),
                steps <= MAX_CAPABILITIES,
                cap_walk(
                    space@,
                    *self,
                    cap_addr,
                    (MAX_CAPABILITIES - steps) as nat,
                    msi_cap_addr,
                    msix_cap_addr,
                ) == capability_scan(space@, *self),
            decreases MAX_CAPABILITIES - steps,
        {
            let cap = self.capability_structure(space, cap_addr);
            if cap.cap_id == MSI_ID {
                msi_cap_addr = cap_addr;
            } else if cap.cap_id == MSIX_ID {
                msix_cap_addr = cap_addr;
            }
            cap_addr = cap.next_ptr & 0xfc;
            steps = steps + 1;
        }
        if msi_cap_addr != 0 {
            return self._configure_msi(space, msi_cap_addr, msg_addr, msg_data, num_vector_exponent);
        } else if msix_cap_addr != 0 {
            return self._configure_msix(space, msix_cap_addr, msg_addr, msg_data, num_vector_exponent);
        }
        Err("No MSI Capability")
    }

    fn _configure_msi(
        &self,
        space: &mut ConfigSpace,
        cap_addr: u8,
        msg_addr: u32,
        msg_data: u32,
        num_vector_exponent: u8,
    ) -> (r: Result<(), &'static str>)
        requires
            old(space).wf(),
        ensures
            final(space).wf(),
            r is Ok,
            ({
                let ws = msi_writes(
                    *self,
                    cap_addr,
                    msi_configured(
                        msi_read_spec(old(space)@, *self, cap_addr),
                        msg_addr,
                        msg_data,
                        num_vector_exponent,
                    ),
                );
                final(space)@ == apply_writes(old(space)@, ws) && final(space).writes() == old(
                    space,
                ).writes() + ws
            }),
    {
        let mut msi_cap = self.msi_capability_structure(space, cap_addr);
        let capable = msi_cap.multi_msg_capable();
        msi_cap.set_multi_msg_enable(if capable <= num_vector_exponent {
            capable
        } else {
            num_vector_exponent
        });
        msi_cap.set_msi_enable();
        msi_cap.msg_addr = msg_addr;
        if msi_cap.addr_64_capable() {
            msi_cap.msg_upper_addr = 0;
        }
        msi_cap.msg_data = msg_data;
        proof {
            let h = msi_read_spec(space@, *self, cap_addr).header;
            let mme = min_u8(((h >> 17u32) as u8) & 7u8, num_vector_exponent);
            let x = mme as u32;
            assert(((((h & !(7u32 << 20u32)) | ((x & 7u32) << 20u32)) | (1u32 << 16u32)) >> 23u32)
                & 1u32 == (h >> 23u32) & 1u32) by (bit_vector);
            assert(((((h & !(7u32 << 20u32)) | ((x & 7u32) << 20u32)) | (1u32 << 16u32)) >> 24u32)
                & 1u32 == (h >> 24u32) & 1u32) by (bit_vector);
        }
        self.set_msi_capability_structure(space, cap_addr, msi_cap);
        Ok(())
    }

    /// MSI-X delivery is accepted without programming the table.
    fn _configure_msix(
        &self,
        space: &mut ConfigSpace,
        cap_addr: u8,
        msg_addr: u32,
        msg_data: u32,
        num_vector_exponent: u8,
    ) -> (r: Result<(), &'static str>)
        ensures
            r is Ok,
            *final(space) == *old(space),
    {
        Ok(())
    }
}

/// Base class, subclass and programming interface of a function.
#[derive(Clone, Copy, PartialEq, Eq, Debug, Structural)]
pub struct ClassCode {
    pub base: u8,
    pub sub: u8,
    pub interface: u8,
}

impl ClassCode {
    pub fn new(base: u8, sub: u8, interface: u8) -> (r: ClassCode)
        ensures
            r == (ClassCode { base, sub, interface }),
    {
        ClassCode { base, sub, interface }
    }
}

/// The two-byte header that every capability starts with.
pub struct Capability {
    pub cap_id: u8,
    pub next_ptr: u8,
}

/// The MSI capability structure. The header dword holds: capability ID
/// (bits 0-7), next pointer (8-15), MSI enable (16), multiple message
/// capable (17-19), multiple message enable (20-22), 64-bit address capable
/// (23) and per-vector masking capable (24).
#[derive(Clone, Copy, PartialEq, Eq, Debug, Structural)]
pub struct MSICapability {
    pub header: u32,
    pub msg_addr: u32,
    pub msg_upper_addr: u32,
    pub msg_data: u32,
    pub mask_bits: u32,
    pub pending_bits: u32,
}

impl MSICapability {
    pub open spec fn addr_64_capable_spec(&self) -> bool {
        (self.header >> 23u32) & 1u32 != 0
    }

    pub fn zeroed() -> (r: MSICapability)
        ensures
            r == (MSICapability {
                header: 0,
                msg_addr: 0,
                msg_upper_addr: 0,
                msg_data: 0,
                mask_bits: 0,
                pending_bits: 0,
            }),
    {
        MSICapability {
            header: 0,
            msg_addr: 0,
            msg_upper_addr: 0,
            msg_data: 0,
            mask_bits: 0,
            pending_bits: 0,
        }
    }

    pub fn capability_id(&self) -> (r: u8)
        ensures
            r == self.header as u8,
    {
        self.header as u8
    }

    pub fn next_pointer(&self) -> (r: u8)
        ensures
            r == (self.header >> 8u32) as u8,
    {
        (self.header >> 8) as u8
    }

    pub fn msi_enable(&self) -> (r: bool)
        ensures
            r == ((self.header >> 16u32) & 1u32 != 0),
    {
        (self.header >> 16) & 0b1 != 0
    }

    pub fn multi_msg_capable(&self) -> (r: u8)
        ensures
            r == ((self.header >> 17u32) as u8) & 7u8,
    {
        (self.header >> 17) as u8 & 0b111
    }

    pub fn multi_msg_enable(&self) -> (r: u8)
        ensures
            r == ((self.header >> 20u32) as u8) & 7u8,
    {
        (self.header >> 20) as u8 & 0b111
    }

    pub fn addr_64_capable(&self) -> (r: bool)
        ensures
            r == self.addr_64_capable_spec(),
    {
        (self.header >> 23) & 0b1 != 0
    }

    pub fn per_vector_mask_capable(&self) -> (r: bool)
        ensures
            r == ((self.header >> 24u32) & 1u32 != 0),
    {
        (self.header >> 24) & 0b1 != 0
    }

    pub fn set_msi_enable(&mut self)
        ensures
            *final(self) == (MSICapability { header: old(self).header | (1u32 << 16u32), ..*old(self) }),
    {
        self.header = self.header | (0b1u32 << 16);
    }

    pub fn clear_msi_enable(&mut self)
        ensures
            *final(self) == (MSICapability { header: old(self).header & !(1u32 << 16u32), ..*old(self) }),
    {
        self.header = self.header & !(0b1u32 << 16);
    }

    /// Sets the multiple message enable field to the low three bits of `val`.
    pub fn set_multi_msg_enable(&mut self, val: u8)
        ensures
            *final(self) == (MSICapability {
                header: (old(self).header & !(7u32 << 20u32)) | (((val as u32) & 7u32) << 20u32),
                ..*old(self)
            }),
    {
        self.header = (self.header & !(0b111u32 << 20)) | ((val as u32 & 0b111) << 20);
    }
}

/// Whether `d` is an xHCI controller (class 0x0c, subclass 0x03, interface 0x30).
pub open spec fn is_xhci(m: Map<u32, u32>, d: Device) -> bool {
    let reg = dev_read(m, d, 0x08);
    (reg >> 24u32) as u8 == 0x0cu8 && (reg >> 16u32) as u8 == 0x03u8 && (reg >> 8u32) as u8 == 0x30u8
}

/// Whether `d` is made by Intel.
pub open spec fn is_intel(m: Map<u32, u32>, d: Device) -> bool {
    (dev_read(m, d, 0x00) & 0xffffu32) as u16 == 0x8086u16
}

/// Picks the xHCI controller among `devices`: the first Intel one if there
/// is one, else the first one; `None` when there is none.
pub fn select_xhci(space: &ConfigSpace, devices: &Vec<Device>) -> (r: Option<Device>)
    requires
        space.wf(),
    ensures
        match r {
            None => forall|i: int| 0 <= i < devices@.len() ==> !is_xhci(space@, #[trigger] devices@[i]),
            Some(d) => exists|i: int|
                0 <= i < devices@.len() && devices@[i] == d && is_xhci(space@, d) && (
                if is_intel(space@, d) {
                    forall|k: int| 0 <= k < i ==> !(is_xhci(space@, #[trigger] devices@[k]) && is_intel(space@, devices@[k]))
                } else {
                    (forall|k: int| 0 <= k < devices@.len() ==> !(is_xhci(space@, #[trigger] devices@[k]) && is_intel(space@, devices@[k])))
                    && forall|k: int| 0 <= k < i ==> !is_xhci(space@, #[trigger] devices@[k])
                }),
        },
{
    let xhci_class = ClassCode::new(0x0c, 0x03, 0x30);
    let mut first: Option<Device> = None;
    let ghost mut first_index: int = 0;
    let mut i: usize = 0;
    while i < devices.len()
        invariant
            i <= devices@.len(),
            space.wf(),
            xhci_class == (ClassCode { base: 0x0c, sub: 0x03, interface: 0x30 }),
            forall|k: int| 0 <= k < i ==> !(is_xhci(space@, #[trigger] devices@[k]) && is_intel(space@, devices@[k])),
            match first {
                None => forall|k: int| 0 <= k < i ==> !is_xhci(space@, #[trigger] devices@[k]),
                Some(d) => 0 <= first_index < i && devices@[first_index] == d && is_xhci(space@, d)
                    && !is_intel(space@, d)
                    && forall|k: int| 0 <= k < first_index ==> !is_xhci(space@, #[trigger] devices@[k]),
            },
        decreases devices@.len() - i,
    {
        let d = devices[i];
        if d.class_code(space) == xhci_class {
            if d.vendor_id(space) == 0x8086 {
                return Some(d);
            }
            if first.is_none() {
                first = Some(d);
                proof {
                    first_index = i as int;
                }
            }
        }
        i = i + 1;
    }
    first
}

/// Two-digit lower-case hex of a byte.
pub open spec fn hex2(b: u8) -> Seq<u8> {
    zero_padded(digits_spec(b as nat, 16), 2)
}

/// The listing line of a function: "bb.dd.ff: vend vvvv, class ccsspp, head hh" and a newline.
pub open spec fn device_line_spec(d: Device, vendor: u16, class: ClassCode, header: u8) -> Seq<u8> {
    hex2(d.bus) + seq![46u8] + hex2(d.device) + seq![46u8] + hex2(d.function)
        + seq![58u8, 32u8, 118u8, 101u8, 110u8, 100u8, 32u8]
        + zero_padded(digits_spec(vendor as nat, 16), 4)
        + seq![44u8, 32u8, 99u8, 108u8, 97u8, 115u8, 115u8, 32u8]
        + hex2(class.base) + hex2(class.sub) + hex2(class.interface)
        + seq![44u8, 32u8, 104u8, 101u8, 97u8, 100u8, 32u8]
        + hex2(header) + seq![10u8]
}

fn push_bytes(out: &mut Vec<u8>, b: &[u8])
    ensures
        final(out)@ == old(out)@ + b@,
{
    let mut i: usize = 0;
    while i < b.len()
        invariant
            i <= b@.len(),
            out@ == old(out)@ + b@.subrange(0, i as int),
        decreases b@.len() - i,
    {
        out.push(b[i]);
        i = i + 1;
        assert(out@ =~= old(out)@ + b@.subrange(0, i as int));
    }
    assert(b@.subrange(0, i as int) =~= b@);
}

impl Device {
    /// The line that lists this function: its address, vendor ID, class
    /// code and header type, in hex.
    pub fn describe(&self, space: &ConfigSpace) -> (r: Vec<u8>)
        requires
            space.wf(),
        ensures
            r@ == device_line_spec(
                *self,
                (dev_read(space@, *self, 0x00) & 0xffffu32) as u16,
                ClassCode {
                    base: (dev_read(space@, *self, 0x08) >> 24u32) as u8,
                    sub: (dev_read(space@, *self, 0x08) >> 16u32) as u8,
                    interface: (dev_read(space@, *self, 0x08) >> 8u32) as u8,
                },
                (dev_read(space@, *self, 0x0c) >> 16u32) as u8,
            ),
    {
        let vendor = self.vendor_id(space);
        let class = self.class_code(space);
        let header = self.header_type(space);
        let mut out: Vec<u8> = Vec::new();
        push_hex_padded(&mut out, self.bus as u64, 2);
        out.push(46);
        push_hex_padded(&mut out, self.device as u64, 2);
        out.push(46);
        push_hex_padded(&mut out, self.function as u64, 2);
        let vend: [u8; 7] = [58, 32, 118, 101, 110, 100, 32];
        push_bytes(&mut out, &vend);
        push_hex_padded(&mut out, vendor as u64, 4);
        let cls: [u8; 8] = [44, 32, 99, 108, 97, 115, 115, 32];
        push_bytes(&mut out, &cls);
        push_hex_padded(&mut out, class.base as u64, 2);
        push_hex_padded(&mut out, class.sub as u64, 2);
        push_hex_padded(&mut out, class.interface as u64, 2);
        let head: [u8; 7] = [44, 32, 104, 101, 97, 100, 32];
        push_bytes(&mut out, &head);
        push_hex_padded(&mut out, header as u64, 2);
        out.push(10);
        proof {
            assert(vend@ =~= seq![58u8, 32u8, 118u8, 101u8, 110u8, 100u8, 32u8]);
            assert(cls@ =~= seq![44u8, 32u8, 99u8, 108u8, 97u8, 115u8, 115u8, 32u8]);
            assert(head@ =~= seq![44u8, 32u8, 104u8, 101u8, 97u8, 100u8, 32u8]);
        }
        assert(out@ =~= device_line_spec(*self, vendor, class, header));
        out
    }
}

} // verus!
