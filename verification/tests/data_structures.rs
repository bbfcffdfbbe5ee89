use stagehand::data_structures::address::{Address, AddressRange, AddressSet};
use stagehand::data_structures::index::Index;
use stagehand::data_structures::level::Level;
use stagehand::data_structures::universe::{IntoUniverseError, Universe, E131_MAX_MULTICAST_UNIVERSE};
use stagehand::data_structures::CHANNELS_PER_UNIVERSE;

fn idx(i: u16) -> Index {
    Index::new(i).unwrap()
}

fn uni(u: u16) -> Universe {
    Universe::new(u).unwrap()
}

#[test]
fn constants_match_sacn() {
    assert_eq!(E131_MAX_MULTICAST_UNIVERSE, sacn::packet::E131_MAX_MULTICAST_UNIVERSE);
    assert_eq!(CHANNELS_PER_UNIVERSE, sacn::packet::UNIVERSE_CHANNEL_CAPACITY - 1);
}

#[test]
fn universe_bounds() {
    assert!(Universe::new(0).is_none());
    assert_eq!(Universe::new(1).map(u16::from), Some(1));
    assert_eq!(Universe::new(63999).map(u16::from), Some(63999));
    assert!(Universe::new(64000).is_none());
    assert!(Universe::new(u16::MAX).is_none());
    assert_eq!(u16::from(Universe::one()), 1);
    assert_eq!(uni(42).get(), 42);
}

#[test]
fn universe_try_from_matches_new() {
    for u in [0u16, 1, 2, 500, 63999, 64000, 65535] {
        match Universe::try_from(u) {
            Ok(x) => assert_eq!(Some(x), Universe::new(u)),
            Err(e) => {
                assert!(Universe::new(u).is_none());
                assert_eq!(e, IntoUniverseError::OutOfBounds(u));
            }
        }
    }
}

#[test]
fn universe_error_message() {
    assert_eq!(IntoUniverseError::OutOfBounds(0).to_string(), "universe 0 is out of bounds");
    assert_eq!(
        IntoUniverseError::OutOfBounds(64000).to_string(),
        "universe 64000 is out of bounds"
    );
}

#[test]
fn universe_display() {
    assert_eq!(uni(1).to_string(), "1");
    assert_eq!(uni(63999).to_string(), "63999");
    assert_eq!(uni(120).to_string(), "120");
}

#[test]
fn index_bounds() {
    assert!(Index::new(0).is_none());
    assert_eq!(Index::new(1).map(u16::from), Some(1));
    assert_eq!(Index::new(512).map(u16::from), Some(512));
    assert!(Index::new(513).is_none());
    assert_eq!(u16::from(Index::min_value()), 1);
    assert_eq!(u16::from(Index::max_value()), 512);
    assert_eq!(idx(17).to_string(), "17");
}

#[test]
fn index_range_is_every_index_in_order() {
    let r = Index::range();
    assert_eq!(r.len(), 512);
    for (k, i) in r.iter().enumerate() {
        assert_eq!(u16::from(*i), k as u16 + 1);
    }
}

#[test]
fn level_values_and_text() {
    assert_eq!(u8::from(Level::new(7)), 7);
    assert_eq!(Level::out().get(), 0);
    assert_eq!(Level::full().get(), 255);
    assert_eq!(Level::out().to_string(), "O");
    assert_eq!(Level::full().to_string(), "F");
    assert_eq!(Level::new(1).to_string(), "1");
    assert_eq!(Level::new(128).to_string(), "128");
    assert_eq!(Level::new(254).to_string(), "254");
}

#[test]
fn address_display() {
    let a = Address { universe: uni(2), index: idx(17) };
    assert_eq!(a.to_string(), "2/17");
}

#[test]
fn address_range_new_refuses_backwards() {
    assert!(AddressRange::new(uni(1), idx(5), idx(4)).is_none());
    let r = AddressRange::new(uni(1), idx(5), idx(5)).unwrap();
    assert_eq!(r.universe(), uni(1));
    assert_eq!(r.indexes(), vec![idx(5)]);
}

#[test]
fn address_range_with_step_refuses_zero_step() {
    assert!(AddressRange::with_step(uni(1), idx(1), idx(10), 0).is_none());
    assert!(AddressRange::with_step(uni(1), idx(10), idx(1), 2).is_none());
    assert!(AddressRange::with_step(uni(1), idx(1), idx(10), 2).is_some());
}

#[test]
fn address_range_indexes_step() {
    let r = AddressRange::with_step(uni(3), idx(1), idx(10), 3).unwrap();
    let got: Vec<u16> = r.indexes().into_iter().map(u16::from).collect();
    assert_eq!(got, vec![1, 4, 7, 10]);
    let r = AddressRange::with_step(uni(3), idx(2), idx(10), 3).unwrap();
    let got: Vec<u16> = r.indexes().into_iter().map(u16::from).collect();
    assert_eq!(got, vec![2, 5, 8]);
    let r = AddressRange::with_step(uni(3), idx(1), idx(512), usize::MAX).unwrap();
    let got: Vec<u16> = r.indexes().into_iter().map(u16::from).collect();
    assert_eq!(got, vec![1]);
    let r = AddressRange::new(uni(3), idx(510), idx(512)).unwrap();
    let got: Vec<u16> = r.indexes().into_iter().map(u16::from).collect();
    assert_eq!(got, vec![510, 511, 512]);
}

#[test]
fn address_range_indexes_count_formula() {
    for start in [1u16, 2, 7, 100] {
        for end in [start, start + 1, start + 13, 512] {
            for step in [1usize, 2, 3, 5, 511, 1000] {
                let r = AddressRange::with_step(uni(1), idx(start), idx(end), step).unwrap();
                let got = r.indexes();
                assert_eq!(got.len(), (end - start) as usize / step + 1);
                assert_eq!(u16::from(got[0]), start);
                for w in got.windows(2) {
                    assert_eq!(u16::from(w[1]) as usize, u16::from(w[0]) as usize + step);
                }
                let last = u16::from(*got.last().unwrap()) as usize;
                assert!(last <= end as usize && last + step > end as usize);
            }
        }
    }
}

#[test]
fn address_set_single_and_all() {
    let s = AddressSet::Single(Address { universe: uni(9), index: idx(3) });
    assert_eq!(s.universe(), uni(9));
    assert_eq!(s.indexes(), vec![idx(3)]);
    let all = AddressSet::all(uni(4));
    assert_eq!(all.universe(), uni(4));
    assert_eq!(all.indexes(), Index::range());
    assert_eq!(all, AddressSet::Range(AddressRange::new(uni(4), idx(1), idx(512)).unwrap()));
}

#[test]
fn range_indexes_ascend_and_are_never_empty() {
    let u = Universe::new(4).unwrap();
    let one = AddressSet::Range(AddressRange::new(u, Index::new(7).unwrap(), Index::new(7).unwrap()).unwrap());
    assert_eq!(one.indexes().iter().map(|i| u16::from(*i)).collect::<Vec<_>>(), vec![7]);
    let wide = AddressRange::with_step(u, Index::new(1).unwrap(), Index::new(512).unwrap(), 1000).unwrap();
    assert_eq!(wide.indexes().iter().map(|i| u16::from(*i)).collect::<Vec<_>>(), vec![1]);
    let stepped = AddressRange::with_step(u, Index::new(3).unwrap(), Index::new(20).unwrap(), 5).unwrap();
    assert_eq!(stepped.indexes().iter().map(|i| u16::from(*i)).collect::<Vec<_>>(), vec![3, 8, 13, 18]);
}
