use std::collections::BTreeSet;

use stagehand::controller::{
    clear_address, generate_levels, save_target, set_address, single_level_pairs,
    universes_in_order,
};
use stagehand::data_structures::address::{Address, AddressRange, AddressSet};
use stagehand::data_structures::index::Index;
use stagehand::data_structures::level::Level;
use stagehand::data_structures::show::Show;
use stagehand::data_structures::universe::Universe;

fn idx(i: u16) -> Index {
    Index::new(i).unwrap()
}

fn uni(u: u16) -> Universe {
    Universe::new(u).unwrap()
}

fn level_of(show: &Show, u: u16, i: usize) -> u8 {
    let levels = generate_levels(show);
    let (_, l) = levels.iter().find(|(x, _)| u16::from(*x) == u).unwrap();
    u8::from(l[i - 1])
}

#[test]
fn universes_in_increasing_order() {
    let set = BTreeSet::from([9, 1, 300, 2]);
    assert_eq!(universes_in_order(&set), vec![1, 2, 9, 300]);
    assert_eq!(universes_in_order(&BTreeSet::new()), Vec::<u16>::new());
}

#[test]
fn generate_levels_of_default_show() {
    let show = Show::default();
    let levels = generate_levels(&show);
    assert_eq!(levels.len(), 3);
    for (k, (u, ls)) in levels.iter().enumerate() {
        assert_eq!(u16::from(*u), k as u16 + 1);
        assert!(ls.iter().all(|l| u8::from(*l) == 0));
    }
}

#[test]
fn set_then_generate_reads_back() {
    let mut show = Show::default();
    let res = set_address(&mut show, uni(2), vec![(idx(1), Level::new(10)), (idx(512), Level::full())]);
    assert_eq!(res, Ok(String::new()));
    assert_eq!(level_of(&show, 2, 1), 10);
    assert_eq!(level_of(&show, 2, 512), 255);
    assert_eq!(level_of(&show, 2, 2), 0);
    assert_eq!(level_of(&show, 1, 1), 0);
    assert_eq!(show.runtime.set_addresses.len(), 2);
}

#[test]
fn later_pair_for_an_index_wins() {
    let mut show = Show::default();
    set_address(&mut show, uni(1), vec![(idx(4), Level::new(10)), (idx(4), Level::new(20))]).unwrap();
    assert_eq!(level_of(&show, 1, 4), 20);
}

#[test]
fn set_on_missing_universe_is_refused() {
    let mut show = Show::default();
    let res = set_address(&mut show, uni(7), vec![(idx(1), Level::new(10))]);
    assert_eq!(res, Err("Universe 7 is not enabled, enabled universes: 1, 2, 3".to_string()));
    assert!(show.runtime.set_addresses.is_empty());
}

#[test]
fn not_enabled_message_with_one_or_no_universe() {
    let out = Show::default().output;
    let mut show = Show::from_universes(&vec![40], out).unwrap();
    assert_eq!(
        set_address(&mut show, uni(1), vec![]),
        Err("Universe 1 is not enabled, enabled universes: 40".to_string())
    );
    let mut empty = Show::from_universes(&vec![], out).unwrap();
    assert_eq!(
        clear_address(&mut empty, &AddressSet::all(uni(1))),
        Err("Universe 1 is not enabled, enabled universes: ".to_string())
    );
}

#[test]
fn clear_undoes_set() {
    let mut show = Show::default();
    set_address(&mut show, uni(3), vec![(idx(5), Level::new(1)), (idx(6), Level::new(2))]).unwrap();
    set_address(&mut show, uni(1), vec![(idx(5), Level::new(3))]).unwrap();
    let range = AddressSet::Range(AddressRange::new(uni(3), idx(1), idx(10)).unwrap());
    assert_eq!(clear_address(&mut show, &range), Ok(String::new()));
    assert_eq!(level_of(&show, 3, 5), 0);
    assert_eq!(level_of(&show, 3, 6), 0);
    assert_eq!(level_of(&show, 1, 5), 3);
    let one = AddressSet::Single(Address { universe: uni(1), index: idx(5) });
    clear_address(&mut show, &one).unwrap();
    assert!(show.runtime.set_addresses.is_empty());
}

#[test]
fn clear_on_missing_universe_is_refused() {
    let mut show = Show::default();
    set_address(&mut show, uni(1), vec![(idx(5), Level::new(3))]).unwrap();
    let res = clear_address(&mut show, &AddressSet::all(uni(4)));
    assert_eq!(res, Err("Universe 4 is not enabled, enabled universes: 1, 2, 3".to_string()));
    assert_eq!(level_of(&show, 1, 5), 3);
}

#[test]
fn save_target_choice() {
    let mut show = Show::default();
    assert_eq!(save_target(&show, None), Err("no path set".to_string()));
    assert_eq!(save_target(&show, Some("a.toml".to_string())), Ok("a.toml".to_string()));
    show.runtime.showfile = Some("b.toml".to_string());
    assert_eq!(save_target(&show, None), Ok("b.toml".to_string()));
    assert_eq!(save_target(&show, Some("a.toml".to_string())), Ok("a.toml".to_string()));
}

#[test]
fn single_level_on_a_stepped_range() {
    let range = AddressRange::with_step(uni(3), idx(2), idx(9), 3).unwrap();
    let pairs = single_level_pairs(&AddressSet::Range(range), Level::new(77));
    let view: Vec<(u16, u8)> = pairs.iter().map(|(i, l)| (u16::from(*i), u8::from(*l))).collect();
    assert_eq!(view, vec![(2, 77), (5, 77), (8, 77)]);
}

#[test]
fn set_one_level_then_read_back() {
    let mut show = Show::default();
    let set = AddressSet::Range(AddressRange::new(uni(2), idx(10), idx(12)).unwrap());
    let res = set_address(&mut show, uni(2), single_level_pairs(&set, Level::new(128)));
    assert_eq!(res, Ok(String::new()));
    for i in 10..=12 {
        assert_eq!(level_of(&show, 2, i), 128);
    }
    assert_eq!(level_of(&show, 2, 9), 0);
    assert_eq!(level_of(&show, 2, 13), 0);
    assert_eq!(level_of(&show, 1, 10), 0);
}
