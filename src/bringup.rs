use vstd::prelude::*;

verus! {

/// Number of device slots the controller is configured to enable.
pub const DEVICE_SIZE: u8 = 8;

/// Interrupt vector that the controller's MSI messages raise.
pub const XHCI_VECTOR: u32 = 0x40;

/// Base of the local APIC's MSI delivery window.
pub const MSI_ADDRESS_BASE: u32 = 0xfee0_0000;

/// One entry of an Event Ring Segment Table.
#[derive(Clone, Copy, PartialEq, Eq, Debug, Structural)]
pub struct EventRingSegmentTableEntry {
    pub segment_base_addr: u64,
    pub segment_size: u16,
}

impl EventRingSegmentTableEntry {
    pub fn new(segment_base_addr: u64, segment_size: u16) -> (r: EventRingSegmentTableEntry)
        ensures
            r == (EventRingSegmentTableEntry { segment_base_addr, segment_size }),
    {
        EventRingSegmentTableEntry { segment_base_addr, segment_size }
    }

    /// The entry's 16 bytes as four little-endian dwords: base address low
    /// and high halves, segment size, reserved zero.
    pub fn to_words(&self) -> (r: [u32; 4])
        ensures
            r@ == seq![
                (self.segment_base_addr % 0x1_0000_0000) as u32,
                (self.segment_base_addr / 0x1_0000_0000) as u32,
                self.segment_size as u32,
                0u32,
            ],
    {
        let r = [
            (self.segment_base_addr % 0x1_0000_0000) as u32,
            (self.segment_base_addr / 0x1_0000_0000) as u32,
            self.segment_size as u32,
            0u32,
        ];
        assert(r@ =~= seq![
            (self.segment_base_addr % 0x1_0000_0000) as u32,
            (self.segment_base_addr / 0x1_0000_0000) as u32,
            self.segment_size as u32,
            0u32,
        ]);
        r
    }
}

/// The number of device slots to enable: `DEVICE_SIZE`, but never more
/// than the controller's `max_slots`.
pub open spec fn slots_enabled_spec(max_slots: u8) -> u8 {
    if max_slots < DEVICE_SIZE {
        max_slots
    } else {
        DEVICE_SIZE
    }
}

/// The number of device slots to enable: `DEVICE_SIZE`, but never more
/// than the controller's `max_slots`.
pub fn slots_enabled(max_slots: u8) -> (r: u8)
    ensures
        r == slots_enabled_spec(max_slots),
        r <= max_slots,
        r <= DEVICE_SIZE,
{
    if max_slots < DEVICE_SIZE {
        max_slots
    } else {
        DEVICE_SIZE
    }
}

/// The MSI message address that targets the local APIC `apic_id`.
pub open spec fn msi_address_spec(apic_id: u8) -> u32 {
    MSI_ADDRESS_BASE | ((apic_id as u32) << 12u32)
}

/// The MSI message address that targets the local APIC `apic_id`.
pub fn msi_address(apic_id: u8) -> (r: u32)
    ensures
        r == msi_address_spec(apic_id),
{
    MSI_ADDRESS_BASE | ((apic_id as u32) << 12)
}

/// The MSI message data: edge triggered, fixed delivery, vector `XHCI_VECTOR`.
pub open spec fn msi_data_spec() -> u32 {
    0xc000u32 | XHCI_VECTOR
}

/// Where the bring-up sequence stands.
#[derive(Clone, Copy, PartialEq, Eq, Debug, Structural)]
pub enum Phase {
    Idle,
    CheckHalted,
    Stopping,
    WaitHalted,
    Resetting,
    WaitReset,
    ReadingCaps,
    SlotsSet,
    CommandRingSet,
    ErstSizeSet,
    DequeueSet,
    ErstBaseSet,
    InterrupterEnabled,
    InterruptsEnabled,
    ReadingApic,
    MsiConfiguring,
    Starting,
    WaitRunning,
    Running,
    Failed,
}

/// What the host reports back after performing an action.
#[derive(Clone, Copy, PartialEq, Eq, Debug, Structural)]
pub enum Event {
    /// Bring-up begins with the physical addresses of the zeroed Command
    /// Ring, the Event Ring segment and the Event Ring Segment Table, and
    /// the segment's size in TRBs.
    Start { command_ring: u64, event_ring: u64, erst: u64, event_ring_size: u16 },
    /// USBSTS.HCH, USBSTS.CNR and USBCMD.HCRST as read.
    Status { halted: bool, not_ready: bool, resetting: bool },
    /// HCSPARAMS1 as read.
    Capabilities { max_ports: u8, max_slots: u8 },
    /// The requested register write was made.
    Written,
    /// The bootstrap processor's local APIC ID.
    ApicId(u8),
    /// Whether MSI could be configured.
    MsiResult(bool),
}

/// A register access or other step for the host to perform.
#[derive(Clone, Copy, PartialEq, Eq, Debug, Structural)]
pub enum Action {
    /// Read USBSTS and USBCMD and report `Event::Status`.
    ReadStatus,
    /// In USBCMD clear INTE and HSEE, and R/S when `clear_run_stop`; write USBCMD.
    Stop { clear_run_stop: bool },
    /// Set USBCMD.HCRST.
    Reset,
    /// Read HCSPARAMS1 and report `Event::Capabilities`.
    ReadCapabilities,
    /// Set CONFIG.MaxSlotsEn (never above the reported slot count).
    SetMaxSlotsEnabled(u8),
    /// Write CRCR with the ring's base and the ring cycle state.
    SetCommandRing { base: u64, cycle: bool },
    /// Write the primary interrupter's ERSTSZ.
    SetErstSize(u16),
    /// Write the primary interrupter's ERDP.
    SetDequeuePointer(u64),
    /// Write the primary interrupter's ERSTBA.
    SetErstBase(u64),
    /// In the primary interrupter's IMAN set IE and clear IP.
    EnableInterrupter,
    /// Set USBCMD.INTE.
    EnableInterrupts,
    /// Read the local APIC ID and report `Event::ApicId`.
    ReadApicId,
    /// Configure the controller's MSI capability and report `Event::MsiResult`.
    ConfigureMsi { msg_addr: u32, msg_data: u32, num_vector_exponent: u8 },
    /// Set USBCMD.R/S.
    Run,
    /// The controller runs; nothing more to do.
    Done,
    /// Bring-up failed.
    Fail,
}

/// Bring-up progress and the ring addresses it programs.
#[derive(Clone, Copy, PartialEq, Eq, Debug, Structural)]
pub struct BringUp {
    pub phase: Phase,
    pub command_ring: u64,
    pub event_ring: u64,
    pub erst: u64,
    pub event_ring_size: u16,
    pub max_ports: u8,
    pub max_slots: u8,
}

/// The next state and action after `e` is reported in state `s`; an event
/// that does not fit the phase fails the bring-up.
pub open spec fn step_spec(s: BringUp, e: Event) -> (BringUp, Action) {
    let fail = (BringUp { phase: Phase::Failed, ..s }, Action::Fail);
    match s.phase {
        Phase::Idle => match e {
            Event::Start { command_ring, event_ring, erst, event_ring_size } => (
                BringUp { phase: Phase::CheckHalted, command_ring, event_ring, erst, event_ring_size, ..s },
                Action::ReadStatus,
            ),
            _ => fail,
        },
        Phase::CheckHalted => match e {
            Event::Status { halted, .. } => (
                BringUp { phase: Phase::Stopping, ..s },
                Action::Stop { clear_run_stop: !halted },
            ),
            _ => fail,
        },
        Phase::Stopping => match e {
            Event::Written => (BringUp { phase: Phase::WaitHalted, ..s }, Action::ReadStatus),
            _ => fail,
        },
        Phase::WaitHalted => match e {
            Event::Status { halted, .. } => if halted {
                (BringUp { phase: Phase::Resetting, ..s }, Action::Reset)
            } else {
                (s, Action::ReadStatus)
            },
            _ => fail,
        },
        Phase::Resetting => match e {
            Event::Written => (BringUp { phase: Phase::WaitReset, ..s }, Action::ReadStatus),
            _ => fail,
        },
        Phase::WaitReset => match e {
            Event::Status { not_ready, resetting, .. } => if !resetting && !not_ready {
                (BringUp { phase: Phase::ReadingCaps, ..s }, Action::ReadCapabilities)
            } else {
                (s, Action::ReadStatus)
            },
            _ => fail,
        },
        Phase::ReadingCaps => match e {
            Event::Capabilities { max_ports, max_slots } => (
                BringUp { phase: Phase::SlotsSet, max_ports, max_slots, ..s },
                Action::SetMaxSlotsEnabled(slots_enabled_spec(max_slots)),
            ),
            _ => fail,
        },
        Phase::SlotsSet => match e {
            Event::Written => (
                BringUp { phase: Phase::CommandRingSet, ..s },
                Action::SetCommandRing { base: s.command_ring, cycle: true },
            ),
            _ => fail,
        },
        Phase::CommandRingSet => match e {
            Event::Written => (BringUp { phase: Phase::ErstSizeSet, ..s }, Action::SetErstSize(1)),
            _ => fail,
        },
        Phase::ErstSizeSet => match e {
            Event::Written => (
                BringUp { phase: Phase::DequeueSet, ..s },
                Action::SetDequeuePointer(s.event_ring),
            ),
            _ => fail,
        },
        Phase::DequeueSet => match e {
            Event::Written => (BringUp { phase: Phase::ErstBaseSet, ..s }, Action::SetErstBase(s.erst)),
            _ => fail,
        },
        Phase::ErstBaseSet => match e {
            Event::Written => (BringUp { phase: Phase::InterrupterEnabled, ..s }, Action::EnableInterrupter),
            _ => fail,
        },
        Phase::InterrupterEnabled => match e {
            Event::Written => (BringUp { phase: Phase::InterruptsEnabled, ..s }, Action::EnableInterrupts),
            _ => fail,
        },
        Phase::InterruptsEnabled => match e {
            Event::Written => (BringUp { phase: Phase::ReadingApic, ..s }, Action::ReadApicId),
            _ => fail,
        },
        Phase::ReadingApic => match e {
            Event::ApicId(id) => (
                BringUp { phase: Phase::MsiConfiguring, ..s },
                Action::ConfigureMsi {
                    msg_addr: msi_address_spec(id),
                    msg_data: msi_data_spec(),
                    num_vector_exponent: 0,
                },
            ),
            _ => fail,
        },
        Phase::MsiConfiguring => match e {
            Event::MsiResult(ok) => if ok {
                (BringUp { phase: Phase::Starting, ..s }, Action::Run)
            } else {
                fail
            },
            _ => fail,
        },
        Phase::Starting => match e {
            Event::Written => (BringUp { phase: Phase::WaitRunning, ..s }, Action::ReadStatus),
            _ => fail,
        },
        Phase::WaitRunning => match e {
            Event::Status { halted, .. } => if !halted {
                (BringUp { phase: Phase::Running, ..s }, Action::Done)
            } else {
                (s, Action::ReadStatus)
            },
            _ => fail,
        },
        Phase::Running => (s, Action::Done),
        Phase::Failed => (s, Action::Fail),
    }
}

impl BringUp {
    pub fn new() -> (r: BringUp)
        ensures
            r == BringUp::initial(),
    {
        BringUp {
            phase: Phase::Idle,
            command_ring: 0,
            event_ring: 0,
            erst: 0,
            event_ring_size: 0,
            max_ports: 0,
            max_slots: 0,
        }
    }

    pub open spec fn initial() -> BringUp {
        BringUp {
            phase: Phase::Idle,
            command_ring: 0,
            event_ring: 0,
            erst: 0,
            event_ring_size: 0,
            max_ports: 0,
            max_slots: 0,
        }
    }

    /// Takes in what the host observed after the last action and decides
    /// the next one.
    pub fn step(&self, e: Event) -> (r: (BringUp, Action))
        ensures
            r == step_spec(*self, e),
    {
        let s = *self;
        let fail = (BringUp { phase: Phase::Failed, ..s }, Action::Fail);
        match s.phase {
            Phase::Idle => match e {
                Event::Start { command_ring, event_ring, erst, event_ring_size } => (
                    BringUp { phase: Phase::CheckHalted, command_ring, event_ring, erst, event_ring_size, ..s },
                    Action::ReadStatus,
                ),
                _ => fail,
            },
            Phase::CheckHalted => match e {
                Event::Status { halted, .. } => (
                    BringUp { phase: Phase::Stopping, ..s },
                    Action::Stop { clear_run_stop: !halted },
                ),
                _ => fail,
            },
            Phase::Stopping => match e {
                Event::Written => (BringUp { phase: Phase::WaitHalted, ..s }, Action::ReadStatus),
                _ => fail,
            },
            Phase::WaitHalted => match e {
                Event::Status { halted, .. } => if halted {
                    (BringUp { phase: Phase::Resetting, ..s }, Action::Reset)
                } else {
                    (s, Action::ReadStatus)
                },
                _ => fail,
            },
            Phase::Resetting => match e {
                Event::Written => (BringUp { phase: Phase::WaitReset, ..s }, Action::ReadStatus),
                _ => fail,
            },
            Phase::WaitReset => match e {
                Event::Status { not_ready, resetting, .. } => if !resetting && !not_ready {
                    (BringUp { phase: Phase::ReadingCaps, ..s }, Action::ReadCapabilities)
                } else {
                    (s, Action::ReadStatus)
                },
                _ => fail,
            },
            Phase::ReadingCaps => match e {
                Event::Capabilities { max_ports, max_slots } => (
                    BringUp { phase: Phase::SlotsSet, max_ports, max_slots, ..s },
                    Action::SetMaxSlotsEnabled(slots_enabled(max_slots)),
                ),
                _ => fail,
            },
            Phase::SlotsSet => match e {
                Event::Written => (
                    BringUp { phase: Phase::CommandRingSet, ..s },
                    Action::SetCommandRing { base: s.command_ring, cycle: true },
                ),
                _ => fail,
            },
            Phase::CommandRingSet => match e {
                Event::Written => (BringUp { phase: Phase::ErstSizeSet, ..s }, Action::SetErstSize(1)),
                _ => fail,
            },
            Phase::ErstSizeSet => match e {
                Event::Written => (
                    BringUp { phase: Phase::DequeueSet, ..s },
                    Action::SetDequeuePointer(s.event_ring),
                ),
                _ => fail,
            },
            Phase::DequeueSet => match e {
                Event::Written => (BringUp { phase: Phase::ErstBaseSet, ..s }, Action::SetErstBase(s.erst)),
                _ => fail,
            },
            Phase::ErstBaseSet => match e {
                Event::Written => (BringUp { phase: Phase::InterrupterEnabled, ..s }, Action::EnableInterrupter),
                _ => fail,
            },
            Phase::InterrupterEnabled => match e {
                Event::Written => (BringUp { phase: Phase::InterruptsEnabled, ..s }, Action::EnableInterrupts),
                _ => fail,
            },
            Phase::InterruptsEnabled => match e {
                Event::Written => (BringUp { phase: Phase::ReadingApic, ..s }, Action::ReadApicId),
                _ => fail,
            },
            Phase::ReadingApic => match e {
                Event::ApicId(id) => (
                    BringUp { phase: Phase::MsiConfiguring, ..s },
                    Action::ConfigureMsi {
                        msg_addr: msi_address(id),
                        msg_data: 0xc000u32 | XHCI_VECTOR,
                        num_vector_exponent: 0,
                    },
                ),
                _ => fail,
            },
            Phase::MsiConfiguring => match e {
                Event::MsiResult(ok) => if ok {
                    (BringUp { phase: Phase::Starting, ..s }, Action::Run)
                } else {
                    fail
                },
                _ => fail,
            },
            Phase::Starting => match e {
                Event::Written => (BringUp { phase: Phase::WaitRunning, ..s }, Action::ReadStatus),
                _ => fail,
            },
            Phase::WaitRunning => match e {
                Event::Status { halted, .. } => if !halted {
                    (BringUp { phase: Phase::Running, ..s }, Action::Done)
                } else {
                    (s, Action::ReadStatus)
                },
                _ => fail,
            },
            Phase::Running => (s, Action::Done),
            Phase::Failed => (s, Action::Fail),
        }
    }
}

/// The state reached and the actions decided when `events` are reported in
/// turn from state `s`; action `i` answers event `i`.
pub open spec fn run(s: BringUp, events: Seq<Event>) -> (BringUp, Seq<Action>)
    decreases events.len(),
{
    if events.len() == 0 {
        (s, Seq::empty())
    } else {
        let prev = run(s, events.drop_last());
        let next = step_spec(prev.0, events.last());
        (next.0, prev.1.push(next.1))
    }
}

/// Position of a phase in the bring-up sequence.
pub open spec fn rank(p: Phase) -> int {
    match p {
        Phase::Idle => 0,
        Phase::CheckHalted => 1,
        Phase::Stopping => 2,
        Phase::WaitHalted => 3,
        Phase::Resetting => 4,
        Phase::WaitReset => 5,
        Phase::ReadingCaps => 6,
        Phase::SlotsSet => 7,
        Phase::CommandRingSet => 8,
        Phase::ErstSizeSet => 9,
        Phase::DequeueSet => 10,
        Phase::ErstBaseSet => 11,
        Phase::InterrupterEnabled => 12,
        Phase::InterruptsEnabled => 13,
        Phase::ReadingApic => 14,
        Phase::MsiConfiguring => 15,
        Phase::Starting => 16,
        Phase::WaitRunning => 17,
        Phase::Running => 18,
        Phase::Failed => 0,
    }
}

/// Whether `e` reports the controller halted.
pub open spec fn reports_halted(e: Event) -> bool {
    match e {
        Event::Status { halted, .. } => halted,
        _ => false,
    }
}

pub open spec fn stop_before(t: Seq<Action>, j: int) -> bool {
    exists|i: int| 0 <= i < j && (#[trigger] t[i]) is Stop
}

pub open spec fn erst_size_before(t: Seq<Action>, j: int) -> bool {
    exists|i: int| 0 <= i < j && (#[trigger] t[i]) is SetErstSize
}

pub open spec fn dequeue_before(t: Seq<Action>, j: int) -> bool {
    exists|i: int| 0 <= i < j && (#[trigger] t[i]) is SetDequeuePointer
}

pub open spec fn interrupts_before(t: Seq<Action>, j: int) -> bool {
    exists|i: int| 0 <= i < j && (#[trigger] t[i]) is EnableInterrupts
}

/// The register-ordering rules of controller bring-up, over the actions `t`
/// decided for the events `events`.
pub open spec fn ordered(events: Seq<Event>, t: Seq<Action>) -> bool {
    &&& forall|j: int| 0 <= j < t.len() && (#[trigger] t[j]) is Reset ==> stop_before(t, j)
        && reports_halted(events[j])
    &&& forall|j: int| 0 <= j < t.len() && (#[trigger] t[j]) is SetErstBase ==> erst_size_before(t, j)
        && dequeue_before(t, j)
    &&& forall|j: int| 0 <= j < t.len() && (#[trigger] t[j]) is Run ==> interrupts_before(t, j)
}

spec fn progress(s: BringUp, t: Seq<Action>) -> bool {
    &&& rank(s.phase) >= 2 ==> stop_before(t, t.len() as int)
    &&& rank(s.phase) >= 9 ==> erst_size_before(t, t.len() as int)
    &&& rank(s.phase) >= 10 ==> dequeue_before(t, t.len() as int)
    &&& rank(s.phase) >= 13 ==> interrupts_before(t, t.len() as int)
}

proof fn lemma_run_ordered(events: Seq<Event>)
    ensures
        run(BringUp::initial(), events).1.len() == events.len(),
        ordered(events, run(BringUp::initial(), events).1),
        progress(run(BringUp::initial(), events).0, run(BringUp::initial(), events).1),
    decreases events.len(),
{
    if events.len() > 0 {
        let ev = events.drop_last();
        lemma_run_ordered(ev);
        let prev = run(BringUp::initial(), ev);
        let next = step_spec(prev.0, events.last());
        let t1 = prev.1;
        let t = t1.push(next.1);
        let n = t1.len() as int;
        assert forall|i: int| 0 <= i < n implies t[i] == t1[i] by {}
        assert forall|i: int| 0 <= i < n implies events[i] == ev[i] by {}
        if stop_before(t1, n) {
            let i = choose|i: int| 0 <= i < n && (#[trigger] t1[i]) is Stop;
            assert(t[i] is Stop);
        }
        if erst_size_before(t1, n) {
            let i = choose|i: int| 0 <= i < n && (#[trigger] t1[i]) is SetErstSize;
            assert(t[i] is SetErstSize);
        }
        if dequeue_before(t1, n) {
            let i = choose|i: int| 0 <= i < n && (#[trigger] t1[i]) is SetDequeuePointer;
            assert(t[i] is SetDequeuePointer);
        }
        if interrupts_before(t1, n) {
            let i = choose|i: int| 0 <= i < n && (#[trigger] t1[i]) is EnableInterrupts;
            assert(t[i] is EnableInterrupts);
        }
        assert(t[n] == next.1);
        assert forall|j: int| 0 <= j < t.len() && (#[trigger] t[j]) is Reset implies stop_before(t, j)
            && reports_halted(events[j]) by {
            if j < n {
                assert(t1[j] is Reset);
                let i = choose|i: int| 0 <= i < j && (#[trigger] t1[i]) is Stop;
                assert(t[i] is Stop);
            }
        }
        assert forall|j: int| 0 <= j < t.len() && (#[trigger] t[j]) is SetErstBase implies erst_size_before(t, j)
            && dequeue_before(t, j) by {
            if j < n {
                assert(t1[j] is SetErstBase);
                let i = choose|i: int| 0 <= i < j && (#[trigger] t1[i]) is SetErstSize;
                assert(t[i] is SetErstSize);
                let k = choose|k: int| 0 <= k < j && (#[trigger] t1[k]) is SetDequeuePointer;
                assert(t[k] is SetDequeuePointer);
            }
        }
        assert forall|j: int| 0 <= j < t.len() && (#[trigger] t[j]) is Run implies interrupts_before(t, j) by {
            if j < n {
                assert(t1[j] is Run);
                let i = choose|i: int| 0 <= i < j && (#[trigger] t1[i]) is EnableInterrupts;
                assert(t[i] is EnableInterrupts);
            }
        }
        if next.1 is Stop {
            assert(t[n] is Stop);
        }
        if next.1 is SetErstSize {
            assert(t[n] is SetErstSize);
        }
        if next.1 is SetDequeuePointer {
            assert(t[n] is SetDequeuePointer);
        }
        if next.1 is EnableInterrupts {
            assert(t[n] is EnableInterrupts);
        }
    }
}

/// Whatever the controller reports, bring-up resets the controller only
/// after stopping it and seeing it halted, programs ERSTBA only after ERSTSZ
/// and ERDP, and sets R/S only after enabling interrupts.
pub proof fn bring_up_order(events: Seq<Event>)
    ensures
        run(BringUp::initial(), events).1.len() == events.len(),
        ordered(events, run(BringUp::initial(), events).1),
{
    lemma_run_ordered(events);
}

} // verus!
