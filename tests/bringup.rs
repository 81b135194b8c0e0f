use nucleus::bringup::{msi_address, Action, BringUp, Event, EventRingSegmentTableEntry, Phase, DEVICE_SIZE};

fn status(halted: bool) -> Event {
    Event::Status { halted, not_ready: false, resetting: false }
}

#[test]
fn bring_up_sequence() {
    let mut s = BringUp::new();
    let mut actions = Vec::new();
    let events = [
        Event::Start { command_ring: 0x10_0000, event_ring: 0x10_1000, erst: 0x10_2000, event_ring_size: 32 },
        status(false),
        Event::Written,
        status(false),
        status(true),
        Event::Written,
        Event::Status { halted: true, not_ready: true, resetting: true },
        Event::Status { halted: true, not_ready: true, resetting: false },
        status(true),
        Event::Capabilities { max_ports: 4, max_slots: 64 },
        Event::Written,
        Event::Written,
        Event::Written,
        Event::Written,
        Event::Written,
        Event::Written,
        Event::Written,
        Event::ApicId(2),
        Event::MsiResult(true),
        Event::Written,
        status(true),
        status(false),
    ];
    for e in events {
        let (next, a) = s.step(e);
        s = next;
        actions.push(a);
    }
    let expected = vec![
        Action::ReadStatus,
        Action::Stop { clear_run_stop: true },
        Action::ReadStatus,
        Action::ReadStatus,
        Action::Reset,
        Action::ReadStatus,
        Action::ReadStatus,
        Action::ReadStatus,
        Action::ReadCapabilities,
        Action::SetMaxSlotsEnabled(DEVICE_SIZE),
        Action::SetCommandRing { base: 0x10_0000, cycle: true },
        Action::SetErstSize(1),
        Action::SetDequeuePointer(0x10_1000),
        Action::SetErstBase(0x10_2000),
        Action::EnableInterrupter,
        Action::EnableInterrupts,
        Action::ReadApicId,
        Action::ConfigureMsi { msg_addr: 0xfee0_2000, msg_data: 0xc040, num_vector_exponent: 0 },
        Action::Run,
        Action::ReadStatus,
        Action::ReadStatus,
        Action::Done,
    ];
    assert_eq!(actions, expected);
    assert_eq!(s.phase, Phase::Running);
    assert_eq!((s.max_ports, s.max_slots), (4, 64));
    // R/S is cleared before HCRST; ERSTBA follows ERSTSZ and ERDP; R/S follows INTE.
    let pos = |a: Action| actions.iter().position(|x| *x == a).unwrap();
    assert!(pos(Action::Stop { clear_run_stop: true }) < pos(Action::Reset));
    assert!(pos(Action::SetErstSize(1)) < pos(Action::SetErstBase(0x10_2000)));
    assert!(pos(Action::SetDequeuePointer(0x10_1000)) < pos(Action::SetErstBase(0x10_2000)));
    assert!(pos(Action::EnableInterrupts) < pos(Action::Run));
}

#[test]
fn halted_controller_is_not_stopped_again() {
    let s = BringUp::new();
    let (s, _) = s.step(Event::Start { command_ring: 0, event_ring: 0, erst: 0, event_ring_size: 32 });
    let (_, a) = s.step(status(true));
    assert_eq!(a, Action::Stop { clear_run_stop: false });
}

#[test]
fn unexpected_event_fails() {
    let s = BringUp::new();
    let (s, a) = s.step(Event::Written);
    assert_eq!(a, Action::Fail);
    assert_eq!(s.phase, Phase::Failed);
    let (_, a) = s.step(status(true));
    assert_eq!(a, Action::Fail);
}

#[test]
fn msi_failure_fails() {
    let mut s = BringUp::new();
    s.phase = Phase::MsiConfiguring;
    let (s, a) = s.step(Event::MsiResult(false));
    assert_eq!(a, Action::Fail);
    assert_eq!(s.phase, Phase::Failed);
}

#[test]
fn msi_address_targets_apic() {
    assert_eq!(msi_address(0), 0xfee0_0000);
    assert_eq!(msi_address(0xff), 0xfeef_f000);
}

#[test]
fn erst_entry_layout() {
    let e = EventRingSegmentTableEntry::new(0x1_2345_6780, 32);
    assert_eq!(e.to_words(), [0x2345_6780, 0x1, 32, 0]);
}

#[test]
fn slots_enabled_never_exceed_controller() {
    let s = BringUp::new();
    let (s, _) = s.step(Event::Start { command_ring: 0, event_ring: 0, erst: 0, event_ring_size: 32 });
    let (s, _) = s.step(status(true));
    let (s, _) = s.step(Event::Written);
    let (s, _) = s.step(status(true));
    let (s, _) = s.step(Event::Written);
    let (s, _) = s.step(status(true));
    let (_, a) = s.step(Event::Capabilities { max_ports: 2, max_slots: 4 });
    assert_eq!(a, Action::SetMaxSlotsEnabled(4));
    assert_eq!(nucleus::bringup::slots_enabled(4), 4);
    assert_eq!(nucleus::bringup::slots_enabled(8), 8);
    assert_eq!(nucleus::bringup::slots_enabled(255), 8);
}
