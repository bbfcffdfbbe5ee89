use vstd::prelude::*;

use std::collections::{BTreeMap, BTreeSet};

use crate::data_structures::index::valid_index;
use crate::data_structures::universe::valid_universe;

verus! {

broadcast use {vstd::laws_cmp::group_laws_cmp, vstd::std_specs::btree::group_btree_axioms};

/// An IP address, as its octets (version 4) or its segments (version 6).
#[derive(Copy, Clone, Debug)]
pub enum IpAddress {
    V4([u8; 4]),
    V6([u16; 8]),
}

/// Where the show's DMX output is sent from.
#[derive(Copy, Clone, Debug)]
pub struct Output {
    pub address: IpAddress,
}

/// What belongs to a running show and is not saved with it: the file it was loaded from or
/// last saved to, and the levels that commands have set, keyed by (universe, index).
#[derive(Debug)]
pub struct Runtime {
    pub showfile: Option<String>,
    pub set_addresses: BTreeMap<(u16, u16), u8>,
}

/// A show: the universes it uses, where its output goes, and its runtime state.
#[derive(Debug)]
pub struct Show {
    pub universes: BTreeSet<u16>,
    pub output: Output,
    pub runtime: Runtime,
}

impl Show {
    /// Every universe of the show is in range, and every set address lies in one of the
    /// show's universes and has an index in range.
    pub open spec fn wf(&self) -> bool {
        &&& forall|u: u16| #[trigger] self.universes@.contains(u) ==> valid_universe(u as int)
        &&& forall|k: (u16, u16)| #[trigger]
            self.runtime.set_addresses@.contains_key(k) ==> self.universes@.contains(k.0)
                && valid_index(k.1 as int)
    }
}

impl Show {
    /// The show with `universes` and `output`, nothing set and no file; or `None` where a
    /// universe is out of range, as when a show file is read.
    pub fn from_universes(universes: &Vec<u16>, output: Output) -> (res: Option<Show>)
        ensures
            res is Some <==> forall|k: int|
                0 <= k < universes@.len() ==> valid_universe(#[trigger] universes@[k] as int),
            res matches Some(show) ==> {
                &&& show.universes@ == universes@.to_set()
                &&& show.output == output
                &&& show.runtime.showfile is None
                &&& show.runtime.set_addresses@ == Map::<(u16, u16), u8>::empty()
                &&& show.wf()
            },
    {
        let mut set: BTreeSet<u16> = BTreeSet::new();
        let mut k: usize = 0;
        while k < universes.len()
            invariant
                k <= universes@.len(),
                set@ == universes@.take(k as int).to_set(),
                forall|m: int| 0 <= m < k ==> valid_universe(#[trigger] universes@[m] as int),
            decreases universes@.len() - k,
        {
            let u = universes[k];
            if u < 1 || u > crate::data_structures::universe::E131_MAX_MULTICAST_UNIVERSE {
                return None;
            }
            set.insert(u);
            proof {
                let t = universes@.take(k + 1);
                assert(t =~= universes@.take(k as int).push(u));
                assert(set@ =~= t.to_set()) by {
                    assert forall|x: u16| #[trigger] set@.contains(x) == t.to_set().contains(x) by {
                        if x == u {
                            assert(t[k as int] == x);
                        }
                        if t.contains(x) && x != u {
                            let i = choose|i: int| 0 <= i < t.len() && t[i] == x;
                            assert(universes@.take(k as int)[i] == x);
                        }
                    }
                }
            }
            k = k + 1;
        }
        proof {
            assert(universes@.take(universes@.len() as int) =~= universes@);
        }
        let show = Show {
            universes: set,
            output,
            runtime: Runtime { showfile: None, set_addresses: BTreeMap::new() },
        };
        assert forall|u: u16| #[trigger] show.universes@.contains(u) implies valid_universe(u as int) by {
            let i = choose|i: int| 0 <= i < universes@.len() && universes@[i] == u;
        }
        Some(show)
    }
}

impl Default for Show {
    /// The show used where no show file is given: universes 1, 2 and 3, output from
    /// 127.0.0.1, nothing set and no file.
    fn default() -> (res: Self)
        ensures
            res.universes@ == set![1u16, 2u16, 3u16],
            res.output.address == IpAddress::V4([127, 0, 0, 1]),
            res.runtime.showfile is None,
            res.runtime.set_addresses@ == Map::<(u16, u16), u8>::empty(),
            res.wf(),
    {
        let mut universes: BTreeSet<u16> = BTreeSet::new();
        universes.insert(1);
        universes.insert(2);
        universes.insert(3);
        assert(universes@ =~= set![1u16, 2u16, 3u16]);
        Show {
            universes,
            output: Output { address: IpAddress::V4([127, 0, 0, 1]) },
            runtime: Runtime { showfile: None, set_addresses: BTreeMap::new() },
        }
    }
}

/// `q` holds the numbers of `s` in strictly increasing order.
pub open spec fn enumerates_ascending(q: Seq<u16>, s: Set<u16>) -> bool {
    &&& q.to_set() == s
    &&& forall|i: int, j: int| 0 <= i < j < q.len() ==> q[i] < q[j]
}

/// The numbers of a finite set in increasing order.
pub open spec fn ascending(s: Set<u16>) -> Seq<u16> {
    choose|q: Seq<u16>| enumerates_ascending(q, s)
}

/// Only one sequence holds the numbers of a set in strictly increasing order.
pub proof fn lemma_ascending_unique(a: Seq<u16>, b: Seq<u16>)
    requires
        forall|i: int, j: int| 0 <= i < j < a.len() ==> a[i] < a[j],
        forall|i: int, j: int| 0 <= i < j < b.len() ==> b[i] < b[j],
        a.to_set() == b.to_set(),
    ensures
        a == b,
    decreases a.len(),
{
    if a.len() == 0 {
        if b.len() > 0 {
            assert(b.to_set().contains(b[0]));
        }
        assert(a =~= b);
    } else {
        assert(a.to_set().contains(a[0]));
        assert(b.len() > 0);
        assert(b.to_set().contains(b[0]));
        let ja = choose|j: int| 0 <= j < b.len() && b[j] == a[0];
        let jb = choose|j: int| 0 <= j < a.len() && a[j] == b[0];
        assert(b[0] <= a[0]) by {
            if ja > 0 {
                assert(b[0] < b[ja]);
            }
        }
        assert(a[0] <= b[0]) by {
            if jb > 0 {
                assert(a[0] < a[jb]);
            }
        }
        let a1 = a.drop_first();
        let b1 = b.drop_first();
        assert(a1.to_set() =~= b1.to_set()) by {
            assert forall|x: u16| a1.to_set().contains(x) implies b1.to_set().contains(x) by {
                let i = choose|i: int| 0 <= i < a1.len() && a1[i] == x;
                assert(a.to_set().contains(x)) by {
                    assert(a[i + 1] == x);
                }
                let j = choose|j: int| 0 <= j < b.len() && b[j] == x;
                if j == 0 {
                    assert(a[0] < a[i + 1]);
                } else {
                    assert(b1[j - 1] == x);
                }
            }
            assert forall|x: u16| b1.to_set().contains(x) implies a1.to_set().contains(x) by {
                let i = choose|i: int| 0 <= i < b1.len() && b1[i] == x;
                assert(b.to_set().contains(x)) by {
                    assert(b[i + 1] == x);
                }
                let j = choose|j: int| 0 <= j < a.len() && a[j] == x;
                if j == 0 {
                    assert(b[0] < b[i + 1]);
                } else {
                    assert(a1[j - 1] == x);
                }
            }
        }
        lemma_ascending_unique(a1, b1);
        assert(a =~= b) by {
            assert forall|i: int| 0 <= i < a.len() implies a[i] == b[i] by {
                if i > 0 {
                    assert(a1[i - 1] == b1[i - 1]);
                }
            }
        }
    }
}

/// A sequence that holds a set's numbers in increasing order is [`ascending`] of that set.
pub proof fn lemma_ascending(q: Seq<u16>, s: Set<u16>)
    requires
        enumerates_ascending(q, s),
    ensures
        ascending(s) == q,
{
    let c = ascending(s);
    assert(enumerates_ascending(c, s));
    lemma_ascending_unique(c, q);
}

} // verus!
