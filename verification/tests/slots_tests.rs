use fieldparse::slots::{Handle, Slots};

#[test]
fn handles_count_up_from_zero() {
    let mut slots = Slots::new();
    assert_eq!(slots.len(), 0);
    assert_eq!(slots.add_str("a"), Handle { index: 0 });
    assert_eq!(slots.add_i32(-4), Handle { index: 1 });
    assert_eq!(slots.add_f64("0"), Handle { index: 2 });
    assert_eq!(slots.add_u8(9), Handle { index: 3 });
    assert_eq!(slots.len(), 4);
}

#[test]
fn a_destination_holds_its_initial_value() {
    let mut slots = Slots::new();
    let s = slots.add_str("text");
    let i = slots.add_i32(-4);
    let f = slots.add_f64("1.5");
    let u = slots.add_u8(9);
    assert_eq!(slots.get_str(s), Some("text"));
    assert_eq!(slots.get_i32(i), Some(-4));
    assert_eq!(slots.get_f64(f), Some("1.5"));
    assert_eq!(slots.get_u8(u), Some(9));
}

#[test]
fn a_getter_of_another_kind_finds_nothing() {
    let mut slots = Slots::new();
    let s = slots.add_str("text");
    let i = slots.add_i32(-4);
    let f = slots.add_f64("1.5");
    let u = slots.add_u8(9);
    assert_eq!(slots.get_str(f), None);
    assert_eq!(slots.get_f64(s), None);
    assert_eq!(slots.get_i32(u), None);
    assert_eq!(slots.get_u8(i), None);
    assert_eq!(slots.get_str(Handle { index: 4 }), None);
    assert_eq!(slots.get_i32(Handle { index: usize::MAX }), None);
}

#[test]
fn a_setter_replaces_the_value() {
    let mut slots = Slots::new();
    let s = slots.add_str("old");
    let i = slots.add_i32(1);
    let f = slots.add_f64("0");
    let u = slots.add_u8(2);
    assert!(slots.set_str(s, "new"));
    assert!(slots.set_i32(i, -7));
    assert!(slots.set_f64(f, "2.5"));
    assert!(slots.set_u8(u, 200));
    assert_eq!(slots.get_str(s), Some("new"));
    assert_eq!(slots.get_i32(i), Some(-7));
    assert_eq!(slots.get_f64(f), Some("2.5"));
    assert_eq!(slots.get_u8(u), Some(200));
    assert_eq!(slots.len(), 4);
}

#[test]
fn a_setter_of_another_kind_changes_nothing() {
    let mut slots = Slots::new();
    let s = slots.add_str("old");
    let i = slots.add_i32(1);
    assert!(!slots.set_i32(s, 5));
    assert!(!slots.set_str(i, "x"));
    assert!(!slots.set_f64(s, "1.0"));
    assert!(!slots.set_u8(i, 1));
    assert!(!slots.set_u8(Handle { index: 2 }, 1));
    assert_eq!(slots.get_str(s), Some("old"));
    assert_eq!(slots.get_i32(i), Some(1));
    assert_eq!(slots.len(), 2);
}

#[test]
fn a_snapshot_is_a_copy() {
    let mut slots = Slots::new();
    let s = slots.add_str("old");
    let i = slots.add_i32(1);
    let mut copy = slots.snapshot();
    assert!(copy.set_str(s, "new"));
    assert!(slots.set_i32(i, 2));
    assert_eq!(slots.get_str(s), Some("old"));
    assert_eq!(slots.get_i32(i), Some(2));
    assert_eq!(copy.get_str(s), Some("new"));
    assert_eq!(copy.get_i32(i), Some(1));
}
