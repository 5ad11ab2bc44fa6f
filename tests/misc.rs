use faery::cycle::CycleInt;
use faery::placard::{GameLibrary, Placard, PlacardLine};

#[test]
fn cycle_wraps_both_ways() {
    let mut c = CycleInt::new(3);
    assert_eq!(c.dec(), 3);
    assert_eq!(c.inc(), 0);
    assert_eq!(c.inc(), 1);
    assert_eq!(c.set(7), 3);
    c.modify(true);
    assert_eq!(c.value, 0);
    c.modify(false);
    assert_eq!(c.value, 3);
}

fn placard(name: &str) -> Placard {
    Placard {
        name: name.to_string(),
        lines: vec![PlacardLine { x: 10, y: 20, text: "hello".to_string() }],
    }
}

#[test]
fn library_finds_placards_by_name() {
    let lib = GameLibrary { placards: vec![placard("intro"), placard("end"), placard("end")] };
    assert_eq!(lib.get_placard_count(), 3);
    assert_eq!(lib.find_placard("end"), Some(1));
    assert_eq!(lib.find_placard("none"), None);
    assert!(lib.placards[0].is_named("intro"));
    assert!(!lib.placards[0].is_named("intr"));
    assert_eq!(lib.placards[0].get_name(), "intro");
    assert!(lib.get_placard(3).is_none());
}
