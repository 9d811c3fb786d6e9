use jebediah_explorer::explorer::bag::JebBag;
use jebediah_explorer::explorer::resources::{BasicKind, ComplexKind};

#[test]
fn a_new_bag_is_empty() {
    let bag = JebBag::new();
    assert_eq!(bag.count_basic(BasicKind::Oxygen), 0);
    assert_eq!(bag.count_basic(BasicKind::Silicon), 0);
    assert_eq!(bag.count_complex(ComplexKind::Water), 0);
    assert_eq!(bag.count_complex(ComplexKind::AIPartner), 0);
    assert!(bag.summarize().is_empty());
}

#[test]
fn the_default_bag_is_empty() {
    let bag = JebBag::default();
    assert!(bag.summarize().is_empty());
}

#[test]
fn kinds_keep_their_places() {
    assert_eq!(BasicKind::at(BasicKind::Carbon.slot()), BasicKind::Carbon);
    assert_eq!(ComplexKind::at(ComplexKind::Dolphin.slot()), ComplexKind::Dolphin);
    assert_eq!(BasicKind::Hydrogen.slot(), 1);
    assert_eq!(ComplexKind::Robot.slot(), 3);
}
