use std::collections::BTreeSet;

use stagehand::data_structures::show::{IpAddress, Output, Show};

#[test]
fn default_show() {
    let show = Show::default();
    assert_eq!(show.universes, BTreeSet::from([1, 2, 3]));
    assert!(matches!(show.output.address, IpAddress::V4([127, 0, 0, 1])));
    assert!(show.runtime.showfile.is_none());
    assert!(show.runtime.set_addresses.is_empty());
}

#[test]
fn show_from_universes_checks_range() {
    let out = Output { address: IpAddress::V4([10, 0, 0, 1]) };
    let show = Show::from_universes(&vec![5, 1, 5, 63999], out).unwrap();
    assert_eq!(show.universes, BTreeSet::from([1, 5, 63999]));
    assert!(show.runtime.set_addresses.is_empty());
    assert!(Show::from_universes(&vec![1, 0], out).is_none());
    assert!(Show::from_universes(&vec![64000], out).is_none());
    assert!(Show::from_universes(&vec![], out).unwrap().universes.is_empty());
}
