use vstd::prelude::*;

use std::collections::BTreeSet;
use vstd::std_specs::iter::IteratorSpec;
use vstd::std_specs::cmp::OrdSpec;

use crate::data_structures::address::{set_indexes, set_universe, AddressSet};
use crate::data_structures::index::Index;
use crate::data_structures::level::Level;
use crate::data_structures::show::{ascending, enumerates_ascending, lemma_ascending, Show};
use crate::data_structures::universe::Universe;
use crate::data_structures::CHANNELS_PER_UNIVERSE;
use crate::text::{decimal, push_decimal};

verus! {

broadcast use {
    vstd::laws_cmp::group_laws_cmp,
    vstd::std_specs::btree::group_btree_axioms,
    crate::data_structures::level::lemma_level_view_injective,
};

/// The numbers of `set`, in increasing order.
pub fn universes_in_order(set: &BTreeSet<u16>) -> (res: Vec<u16>)
    ensures
        res@ == ascending(set@),
        enumerates_ascending(res@, set@),
{
    let mut res: Vec<u16> = Vec::new();
    assert(vstd::laws_cmp::obeys_cmp::<u16>());
    assert(vstd::std_specs::btree::key_obeys_cmp_spec::<u16>());
    for u in it: set.iter()
        invariant
            res@ == it.seq().unref().take(it.index()),
            it.seq() == vstd::std_specs::btree::spec_btree_keys_iter(set).remaining(),
    {
        res.push(*u);
    }
    proof {
        let q = vstd::std_specs::btree::spec_btree_keys_iter(set).remaining();
        assert(res@ =~= q.unref());
        assert(vstd::laws_cmp::obeys_cmp::<&u16>());
        assert(vstd::std_specs::btree::increasing_seq(q));
        assert forall|i: int, j: int| 0 <= i < j < res@.len() implies res@[i] < res@[j] by {
            assert((&q[i]).cmp_spec(&&q[j]) is Less);
        }
        lemma_ascending(res@, set@);
    }
    res
}

/// The level that the show gives address `i` of universe `u`: the level set there, or 0.
pub open spec fn level_at(m: Map<(u16, u16), u8>, u: u16, i: u16) -> u8 {
    if m.contains_key((u, i)) {
        m[(u, i)]
    } else {
        0
    }
}

/// The levels of every universe of a show, in increasing order of universe, each with one
/// level per index.
pub fn generate_levels(show: &Show) -> (res: Vec<(Universe, [Level; CHANNELS_PER_UNIVERSE])>)
    requires
        show.wf(),
    ensures
        res@.len() == ascending(show.universes@).len(),
        forall|j: int| 0 <= j < res@.len() ==> (#[trigger] res@[j]).0@ == ascending(show.universes@)[j],
        forall|j: int, k: int|
            0 <= j < res@.len() && 0 <= k < CHANNELS_PER_UNIVERSE ==> (#[trigger] res@[j].1@[k])@
                == level_at(show.runtime.set_addresses@, res@[j].0@, (k + 1) as u16),
{
    let order = universes_in_order(&show.universes);
    let mut res: Vec<(Universe, [Level; CHANNELS_PER_UNIVERSE])> = Vec::new();
    let mut j: usize = 0;
    while j < order.len()
        invariant
            show.wf(),
            order@ == ascending(show.universes@),
            enumerates_ascending(order@, show.universes@),
            j <= order@.len(),
            res@.len() == j,
            forall|m: int| 0 <= m < j ==> (#[trigger] res@[m]).0@ == order@[m],
            forall|m: int, k: int|
                0 <= m < j && 0 <= k < CHANNELS_PER_UNIVERSE ==> (#[trigger] res@[m].1@[k])@
                    == level_at(show.runtime.set_addresses@, res@[m].0@, (k + 1) as u16),
        decreases order@.len() - j,
    {
        let u = order[j];
        proof {
            assert(order@.to_set().contains(u));
        }
        let universe = Universe::from_valid(u);
        let mut levels = [Level::out(); CHANNELS_PER_UNIVERSE];
        let mut k: usize = 0;
        while k < CHANNELS_PER_UNIVERSE
            invariant
                k <= CHANNELS_PER_UNIVERSE,
                universe@ == u,
                forall|n: int| 0 <= n < CHANNELS_PER_UNIVERSE ==> (#[trigger] levels@[n])@
                    == if n < k {
                    level_at(show.runtime.set_addresses@, u, (n + 1) as u16)
                } else {
                    0
                },
            decreases CHANNELS_PER_UNIVERSE - k,
        {
            let index = (k + 1) as u16;
            match show.runtime.set_addresses.get(&(u, index)) {
                Some(v) => {
                    levels[k] = Level::new(*v);
                },
                None => {
                    levels[k] = Level::out();
                },
            }
            k = k + 1;
        }
        res.push((universe, levels));
        j = j + 1;
    }
    res
}

/// The numbers of a sequence in decimal, separated by `, `.
pub open spec fn join_decimals(s: Seq<u16>) -> Seq<char>
    decreases s.len(),
{
    if s.len() == 0 {
        seq![]
    } else if s.len() == 1 {
        decimal(s[0] as nat)
    } else {
        join_decimals(s.drop_last()) + ", "@ + decimal(s.last() as nat)
    }
}

/// The answer to a command on universe `u` where the show does not have it.
pub open spec fn not_enabled_message(u: u16, universes: Set<u16>) -> Seq<char> {
    "Universe "@ + decimal(u as nat) + " is not enabled, enabled universes: "@ + join_decimals(
        ascending(universes),
    )
}

fn not_enabled(u: u16, universes: &BTreeSet<u16>) -> (res: String)
    ensures
        res@ == not_enabled_message(u, universes@),
{
    let order = universes_in_order(universes);
    let mut s = String::new();
    s.append("Universe ");
    push_decimal(&mut s, u as u64);
    s.append(" is not enabled, enabled universes: ");
    let ghost prefix = s@;
    let mut j: usize = 0;
    while j < order.len()
        invariant
            j <= order@.len(),
            s@ == prefix + join_decimals(order@.take(j as int)),
        decreases order@.len() - j,
    {
        let ghost before = s@;
        if j > 0 {
            s.append(", ");
        }
        push_decimal(&mut s, order[j] as u64);
        proof {
            let t = order@.take(j + 1);
            assert(t.drop_last() =~= order@.take(j as int));
            assert(t.last() == order@[j as int]);
            if j == 0 {
                assert(join_decimals(t) == decimal(order@[0] as nat));
                assert(join_decimals(order@.take(0)) =~= seq![]);
            }
            assert(s@ =~= prefix + join_decimals(t));
        }
        j = j + 1;
    }
    proof {
        assert(order@.take(order@.len() as int) =~= order@);
    }
    s
}

/// The addresses of `u` given levels by `pairs` of (index, level), one after another, so
/// that a later pair for an index wins.
pub open spec fn with_levels(m: Map<(u16, u16), u8>, u: u16, pairs: Seq<(u16, u8)>) -> Map<
    (u16, u16),
    u8,
>
    decreases pairs.len(),
{
    if pairs.len() == 0 {
        m
    } else {
        with_levels(m, u, pairs.drop_last()).insert((u, pairs.last().0), pairs.last().1)
    }
}

/// The (index, level) numbers of a sequence of pairs.
pub open spec fn pairs_view(v: Seq<(Index, Level)>) -> Seq<(u16, u8)> {
    v.map_values(|p: (Index, Level)| (p.0@, p.1@))
}

/// The (index, level) pairs that give each index of `idx` the level `l`.
pub open spec fn same_level_pairs(idx: Seq<int>, l: u8) -> Seq<(u16, u8)> {
    idx.map_values(|i: int| (i as u16, l))
}

/// Pairs each index of `address_set`, in order, with `level`: what setting one level on the
/// set writes.
pub fn single_level_pairs(address_set: &AddressSet, level: Level) -> (res: Vec<(Index, Level)>)
    ensures
        pairs_view(res@) == same_level_pairs(set_indexes(address_set@), level@),
{
    let indexes = address_set.indexes();
    let ghost idx = set_indexes(address_set@);
    let mut res: Vec<(Index, Level)> = Vec::new();
    let mut j: usize = 0;
    while j < indexes.len()
        invariant
            j <= indexes@.len(),
            indexes@.len() == idx.len(),
            forall|k: int| 0 <= k < indexes@.len() ==> (#[trigger] indexes@[k])@ as int == idx[k],
            res@.len() == j,
            forall|k: int| 0 <= k < j ==> (#[trigger] res@[k]) == (indexes@[k], level),
        decreases indexes@.len() - j,
    {
        res.push((indexes[j], level));
        j = j + 1;
    }
    proof {
        assert(pairs_view(res@) =~= same_level_pairs(idx, level@));
    }
    res
}

/// Gives each index of `universe` in `index_levels` its level.
///
/// Where the show does not have `universe`, nothing changes and the answer is an error that
/// lists the universes it has.
pub fn set_address(show: &mut Show, universe: Universe, index_levels: Vec<(Index, Level)>) -> (res:
    Result<String, String>)
    requires
        old(show).wf(),
    ensures
        final(show).wf(),
        final(show).universes@ == old(show).universes@,
        final(show).output == old(show).output,
        final(show).runtime.showfile == old(show).runtime.showfile,
        old(show).universes@.contains(universe@) ==> (res matches Ok(m) && m@ == Seq::<
            char,
        >::empty() && final(show).runtime.set_addresses@ == with_levels(
            old(show).runtime.set_addresses@,
            universe@,
            pairs_view(index_levels@),
        )),
        !old(show).universes@.contains(universe@) ==> (res matches Err(m) && m@
            == not_enabled_message(universe@, old(show).universes@)
            && final(show).runtime.set_addresses@ == old(show).runtime.set_addresses@),
{
    let u = universe.get();
    if !show.universes.contains(&u) {
        return Err(not_enabled(u, &show.universes));
    }
    let ghost m0 = show.runtime.set_addresses@;
    let mut j: usize = 0;
    while j < index_levels.len()
        invariant
            j <= index_levels@.len(),
            show.wf(),
            show.universes@.contains(u),
            u == universe@,
            show.universes@ == old(show).universes@,
            show.output == old(show).output,
            show.runtime.showfile == old(show).runtime.showfile,
            m0 == old(show).runtime.set_addresses@,
            show.runtime.set_addresses@ == with_levels(m0, u, pairs_view(index_levels@).take(j as int)),
        decreases index_levels@.len() - j,
    {
        let (index, level) = index_levels[j];
        let i = index.get();
        show.runtime.set_addresses.insert((u, i), level.get());
        proof {
            let t = pairs_view(index_levels@).take(j + 1);
            assert(t.drop_last() =~= pairs_view(index_levels@).take(j as int));
        }
        j = j + 1;
    }
    proof {
        assert(pairs_view(index_levels@).take(index_levels@.len() as int) =~= pairs_view(index_levels@));
    }
    Ok(String::new())
}

/// The addresses of `u` at the indexes `idx` cleared, one after another.
pub open spec fn without_indexes(m: Map<(u16, u16), u8>, u: u16, idx: Seq<int>) -> Map<
    (u16, u16),
    u8,
>
    decreases idx.len(),
{
    if idx.len() == 0 {
        m
    } else {
        without_indexes(m, u, idx.drop_last()).remove((u, idx.last() as u16))
    }
}

/// Clears the addresses of `address_set`, so that they go back to level 0.
///
/// Where the show does not have the set's universe, nothing changes and the answer is an
/// error that lists the universes it has.
pub fn clear_address(show: &mut Show, address_set: &AddressSet) -> (res: Result<String, String>)
    requires
        old(show).wf(),
    ensures
        final(show).wf(),
        final(show).universes@ == old(show).universes@,
        final(show).output == old(show).output,
        final(show).runtime.showfile == old(show).runtime.showfile,
        old(show).universes@.contains(set_universe(address_set@)) ==> (res matches Ok(m) && m@
            == Seq::<char>::empty() && final(show).runtime.set_addresses@ == without_indexes(
            old(show).runtime.set_addresses@,
            set_universe(address_set@),
            set_indexes(address_set@),
        )),
        !old(show).universes@.contains(set_universe(address_set@)) ==> (res matches Err(m) && m@
            == not_enabled_message(set_universe(address_set@), old(show).universes@)
            && final(show).runtime.set_addresses@ == old(show).runtime.set_addresses@),
{
    let u = address_set.universe().get();
    let indexes = address_set.indexes();
    if !show.universes.contains(&u) {
        return Err(not_enabled(u, &show.universes));
    }
    let ghost m0 = show.runtime.set_addresses@;
    let ghost idx = set_indexes(address_set@);
    let mut j: usize = 0;
    while j < indexes.len()
        invariant
            j <= indexes@.len(),
            indexes@.len() == idx.len(),
            forall|k: int| 0 <= k < indexes@.len() ==> (#[trigger] indexes@[k])@ as int == idx[k],
            show.wf(),
            u == set_universe(address_set@),
            show.universes@ == old(show).universes@,
            show.output == old(show).output,
            show.runtime.showfile == old(show).runtime.showfile,
            m0 == old(show).runtime.set_addresses@,
            show.runtime.set_addresses@ == without_indexes(m0, u, idx.take(j as int)),
        decreases indexes@.len() - j,
    {
        let i = indexes[j].get();
        show.runtime.set_addresses.remove(&(u, i));
        proof {
            let t = idx.take(j + 1);
            assert(t.drop_last() =~= idx.take(j as int));
            assert(t.last() == idx[j as int]);
        }
        j = j + 1;
    }
    proof {
        assert(idx.take(indexes@.len() as int) =~= idx);
    }
    Ok(String::new())
}

/// Where `save` writes the show: the path given, or else the file the show came from.
/// Without either, the answer is the error `no path set`.
pub fn save_target(show: &Show, new_path: Option<String>) -> (res: Result<String, String>)
    ensures
        match (show.runtime.showfile, new_path) {
            (_, Some(p)) => res matches Ok(r) && r@ == p@,
            (Some(p), None) => res matches Ok(r) && r@ == p@,
            (None, None) => res matches Err(m) && m@ == "no path set"@,
        },
{
    match new_path {
        Some(path) => Ok(path),
        None => match &show.runtime.showfile {
            Some(path) => Ok(path.clone()),
            None => Err("no path set".to_owned()),
        },
    }
}

/// The level that the last pair for index `i` gives, if any pair is for `i`.
pub open spec fn last_level_for(pairs: Seq<(u16, u8)>, i: u16) -> Option<u8>
    decreases pairs.len(),
{
    if pairs.len() == 0 {
        None
    } else if pairs.last().0 == i {
        Some(pairs.last().1)
    } else {
        last_level_for(pairs.drop_last(), i)
    }
}

/// After levels are set in universe `u`, an address of `u` reads as the level of the last
/// pair for its index, where there is one; every other address reads as before.
pub proof fn lemma_set_then_read(m: Map<(u16, u16), u8>, u: u16, pairs: Seq<(u16, u8)>, w: u16, i: u16)
    ensures
        level_at(with_levels(m, u, pairs), w, i) == if w == u && last_level_for(pairs, i) is Some {
            last_level_for(pairs, i)->0
        } else {
            level_at(m, w, i)
        },
    decreases pairs.len(),
{
    if pairs.len() > 0 {
        lemma_set_then_read(m, u, pairs.drop_last(), w, i);
    }
}

/// After addresses of universe `u` are cleared, each of them reads as 0; every other address
/// reads as before.
pub proof fn lemma_clear_then_read(m: Map<(u16, u16), u8>, u: u16, idx: Seq<int>, w: u16, i: u16)
    requires
        forall|k: int| 0 <= k < idx.len() ==> 0 <= #[trigger] idx[k] <= u16::MAX,
    ensures
        level_at(without_indexes(m, u, idx), w, i) == if w == u && idx.contains(i as int) {
            0
        } else {
            level_at(m, w, i)
        },
    decreases idx.len(),
{
    if idx.len() > 0 {
        let d = idx.drop_last();
        lemma_clear_then_read(m, u, d, w, i);
        assert(idx.contains(i as int) <==> d.contains(i as int) || idx.last() == i) by {
            if idx.contains(i as int) {
                let k = choose|k: int| 0 <= k < idx.len() && idx[k] == i;
                if k < d.len() {
                    assert(d[k] == i);
                }
            }
            if d.contains(i as int) {
                let k = choose|k: int| 0 <= k < d.len() && d[k] == i;
                assert(idx[k] == i);
            }
        }
    }
}

/// Clearing a set of addresses after setting levels on some of them leaves every address
/// reading as if only the clearing had happened.
pub proof fn lemma_clear_undoes_set(
    m: Map<(u16, u16), u8>,
    u: u16,
    pairs: Seq<(u16, u8)>,
    idx: Seq<int>,
    w: u16,
    i: u16,
)
    requires
        forall|k: int| 0 <= k < idx.len() ==> 0 <= #[trigger] idx[k] <= u16::MAX,
        forall|j: int| 0 <= j < pairs.len() ==> idx.contains((#[trigger] pairs[j]).0 as int),
    ensures
        level_at(without_indexes(with_levels(m, u, pairs), u, idx), w, i) == level_at(
            without_indexes(m, u, idx),
            w,
            i,
        ),
{
    lemma_clear_then_read(with_levels(m, u, pairs), u, idx, w, i);
    lemma_clear_then_read(m, u, idx, w, i);
    lemma_set_then_read(m, u, pairs, w, i);
    if w == u && !idx.contains(i as int) {
        lemma_last_level_for_some(pairs, i);
    }
}

/// Where some pair is for index `i`, that index is one of the pairs' indexes.
pub proof fn lemma_last_level_for_some(pairs: Seq<(u16, u8)>, i: u16)
    ensures
        last_level_for(pairs, i) is Some ==> exists|j: int| 0 <= j < pairs.len() && pairs[j].0 == i,
    decreases pairs.len(),
{
    if pairs.len() > 0 {
        lemma_last_level_for_some(pairs.drop_last(), i);
        if last_level_for(pairs.drop_last(), i) is Some && pairs.last().0 != i {
            let j = choose|j: int| 0 <= j < pairs.drop_last().len() && pairs.drop_last()[j].0 == i;
            assert(pairs[j].0 == i);
        }
    }
}

/// After one level is set on indexes `idx` of universe `u`, each of those addresses reads as
/// that level; every other address reads as before.
pub proof fn lemma_set_level_then_read(
    m: Map<(u16, u16), u8>,
    u: u16,
    idx: Seq<int>,
    l: u8,
    w: u16,
    i: u16,
)
    requires
        forall|k: int| 0 <= k < idx.len() ==> 0 <= #[trigger] idx[k] <= u16::MAX,
    ensures
        level_at(with_levels(m, u, same_level_pairs(idx, l)), w, i) == if w == u && idx.contains(
            i as int,
        ) {
            l
        } else {
            level_at(m, w, i)
        },
    decreases idx.len(),
{
    if idx.len() > 0 {
        let d = idx.drop_last();
        assert(same_level_pairs(idx, l).drop_last() =~= same_level_pairs(d, l));
        lemma_set_level_then_read(m, u, d, l, w, i);
        assert(idx.contains(i as int) <==> d.contains(i as int) || idx.last() == i) by {
            if idx.contains(i as int) {
                let k = choose|k: int| 0 <= k < idx.len() && idx[k] == i;
                if k < d.len() {
                    assert(d[k] == i);
                }
            }
            if d.contains(i as int) {
                let k = choose|k: int| 0 <= k < d.len() && d[k] == i;
                assert(idx[k] == i);
            }
        }
    }
}

/// `a` and `b` agree at `key`: both set it, to the same level, or neither does.
pub open spec fn same_at(a: Map<(u16, u16), u8>, b: Map<(u16, u16), u8>, key: (u16, u16)) -> bool {
    &&& a.contains_key(key) == b.contains_key(key)
    &&& b.contains_key(key) ==> a[key] == b[key]
}

/// `i` is the index of some pair of `pairs`.
pub open spec fn pair_index(pairs: Seq<(u16, u8)>, i: u16) -> bool {
    exists|j: int| 0 <= j < pairs.len() && pairs[j].0 == i
}

/// `j` is the last pair of `pairs` for its index.
pub open spec fn last_pair_for_index(pairs: Seq<(u16, u8)>, j: int) -> bool {
    forall|k: int| j < k < pairs.len() ==> pairs[k].0 != pairs[j].0
}

/// Setting levels by `pairs` in universe `u` records every pair's address as set, to the
/// level of the last pair for its index, whatever that level is (0 included); every other
/// address keeps what it had, set or not set.
pub proof fn lemma_set_records_every_pair(m: Map<(u16, u16), u8>, u: u16, pairs: Seq<(u16, u8)>)
    ensures
        forall|j: int|
            0 <= j < pairs.len() ==> with_levels(m, u, pairs).contains_key(
                (u, (#[trigger] pairs[j]).0),
            ),
        forall|j: int|
            0 <= j < pairs.len() && last_pair_for_index(pairs, j) ==> with_levels(m, u, pairs)[(
                u,
                (#[trigger] pairs[j]).0,
            )] == pairs[j].1,
        forall|key: (u16, u16)|
            !(key.0 == u && pair_index(pairs, key.1)) ==> #[trigger] same_at(
                with_levels(m, u, pairs),
                m,
                key,
            ),
    decreases pairs.len(),
{
    if pairs.len() > 0 {
        let d = pairs.drop_last();
        let n = pairs.len() - 1;
        lemma_set_records_every_pair(m, u, d);
        let prev = with_levels(m, u, d);
        let cur = with_levels(m, u, pairs);
        assert(cur == prev.insert((u, pairs[n].0), pairs[n].1));
        assert forall|j: int| 0 <= j < pairs.len() implies cur.contains_key(
            (u, (#[trigger] pairs[j]).0),
        ) by {
            if j < n {
                assert(d[j] == pairs[j]);
            }
        }
        assert forall|j: int| 0 <= j < pairs.len() && last_pair_for_index(pairs, j) implies cur[(
            u,
            (#[trigger] pairs[j]).0,
        )] == pairs[j].1 by {
            if j < n {
                assert(d[j] == pairs[j]);
                assert(pairs[n].0 != pairs[j].0);
                assert(last_pair_for_index(d, j)) by {
                    assert forall|k: int| j < k < d.len() implies d[k].0 != d[j].0 by {
                        assert(d[k] == pairs[k]);
                    }
                }
            }
        }
        assert forall|key: (u16, u16)| !(key.0 == u && pair_index(pairs, key.1)) implies #[trigger] same_at(
            cur,
            m,
            key,
        ) by {
            if key.0 == u && pair_index(d, key.1) {
                let j = choose|j: int| 0 <= j < d.len() && d[j].0 == key.1;
                assert(pairs[j].0 == key.1);
            }
            if key == (u, pairs[n].0) {
                assert(pairs[n].0 == key.1);
            }
            assert(same_at(prev, m, key));
        }
    }
}

/// Clearing indexes `idx` of universe `u` leaves none of those addresses set, whatever
/// level they held (0 included); every other address keeps what it had, set or not set.
pub proof fn lemma_clear_removes_every_index(m: Map<(u16, u16), u8>, u: u16, idx: Seq<int>)
    requires
        forall|k: int| 0 <= k < idx.len() ==> 0 <= #[trigger] idx[k] <= u16::MAX,
    ensures
        forall|k: int|
            0 <= k < idx.len() ==> !without_indexes(m, u, idx).contains_key(
                (u, (#[trigger] idx[k]) as u16),
            ),
        forall|key: (u16, u16)|
            !(key.0 == u && idx.contains(key.1 as int)) ==> #[trigger] same_at(
                without_indexes(m, u, idx),
                m,
                key,
            ),
    decreases idx.len(),
{
    if idx.len() > 0 {
        let d = idx.drop_last();
        let n = idx.len() - 1;
        lemma_clear_removes_every_index(m, u, d);
        let prev = without_indexes(m, u, d);
        let cur = without_indexes(m, u, idx);
        assert(cur == prev.remove((u, idx[n] as u16)));
        assert forall|k: int| 0 <= k < idx.len() implies !cur.contains_key(
            (u, (#[trigger] idx[k]) as u16),
        ) by {
            if k < n {
                assert(d[k] == idx[k]);
            }
        }
        assert forall|key: (u16, u16)| !(key.0 == u && idx.contains(key.1 as int)) implies #[trigger] same_at(
            cur,
            m,
            key,
        ) by {
            if key.0 == u && d.contains(key.1 as int) {
                let k = choose|k: int| 0 <= k < d.len() && d[k] == key.1 as int;
                assert(idx[k] == key.1 as int);
            }
            if key == (u, idx[n] as u16) {
                assert(idx[n] == key.1 as int);
            }
            assert(same_at(prev, m, key));
        }
    }
}

} // verus!
