use oxin::park::{Park, ParkError};

struct FakeServer {
    gap: i32,
    spawned: Vec<String>,
}

#[test]
fn a_host_call_outside_a_drive_is_an_error_not_a_crash() {
    let mut slot: Park<FakeServer> = Park::new();
    assert_eq!(
        slot.with_parked(|s: FakeServer| {
            let gap = s.gap;
            (s, gap)
        })
        .unwrap_err(),
        ParkError::NotParked,
    );
}

#[test]
fn a_nested_host_borrow_is_refused() {
    let mut slot: Park<FakeServer> = Park::new();
    slot.park(FakeServer { gap: 4, spawned: Vec::new() });
    let outer = slot.borrow().unwrap();
    // A host fn re-entering another host fn while it still holds the host.
    let inner = slot.borrow().map(|_| ()).unwrap_err();
    slot.release(outer);
    assert_eq!(inner, ParkError::Reentered);
    assert!(slot.unpark().is_some());
}

#[test]
fn parking_is_restored_after_the_drive_ends() {
    let mut slot: Park<FakeServer> = Park::new();
    slot.park(FakeServer { gap: 1, spawned: Vec::new() });
    let back = slot.unpark().unwrap();
    assert_eq!(back.gap, 1);
    assert_eq!(
        slot.with_parked(|s: FakeServer| {
            let gap = s.gap;
            (s, gap)
        })
        .unwrap_err(),
        ParkError::NotParked,
        "the value must not stay parked after the drive returns",
    );
    assert!(!slot.is_parked());
}

#[test]
fn a_callback_reads_and_mutates_the_parked_host() {
    let mut slot: Park<FakeServer> = Park::new();
    slot.park(FakeServer { gap: 4, spawned: Vec::new() });
    let seen = slot
        .with_parked(|mut s: FakeServer| {
            s.spawned.push("kitty".to_string());
            let text = format!("gap is {}", s.gap);
            s.spawned.push(text);
            (s, 1)
        })
        .unwrap();
    assert_eq!(seen, 1);
    let server = slot.unpark().unwrap();
    assert_eq!(server.spawned, vec!["kitty", "gap is 4"]);
}

#[test]
fn nested_drives_restore_the_outer_host() {
    let mut slot: Park<i32> = Park::new();
    slot.park(1);
    slot.park(2);
    assert_eq!(slot.unpark(), Some(2));
    assert!(slot.is_parked());
    assert_eq!(slot.with_parked(|v: i32| (v, v * 10)), Ok(10));
    assert_eq!(slot.unpark(), Some(1));
    assert!(!slot.is_parked());
}

#[test]
fn park_errors_have_script_facing_messages() {
    assert_eq!(
        ParkError::NotParked.message(),
        "oxin: host call outside a compositor callback"
    );
    assert!(ParkError::Reentered.message().contains("nested host call"));
}

#[test]
fn a_nested_drive_restores_the_outer_value() {
    let mut slot: Park<FakeServer> = Park::new();
    slot.park(FakeServer { gap: 1, spawned: Vec::new() });
    slot.park(FakeServer { gap: 2, spawned: Vec::new() });
    let changed = slot.with_parked(|mut s: FakeServer| {
        s.gap = 3;
        (s, ())
    });
    assert!(changed.is_ok());
    assert_eq!(slot.unpark().map(|s| s.gap), Some(3), "the inner drive gets its value back, as changed");
    assert!(slot.is_parked(), "the outer drive is still in progress");
    assert_eq!(slot.with_parked(|s: FakeServer| {
        let gap = s.gap;
        (s, gap)
    }), Ok(1));
    assert_eq!(slot.unpark().map(|s| s.gap), Some(1));
    assert!(!slot.is_parked());
}
