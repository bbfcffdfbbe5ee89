use vstd::prelude::*;

use crate::data_structures::CHANNELS_PER_UNIVERSE;
use crate::text::{decimal, decimal_string};

verus! {

/// An index (channel number) is valid when it lies in `1..=CHANNELS_PER_UNIVERSE`.
pub open spec fn valid_index(i: int) -> bool {
    1 <= i <= CHANNELS_PER_UNIVERSE
}

/// A DMX channel within a universe, numbered from 1.
#[derive(Copy, Clone, Debug, PartialEq, Eq, Structural, PartialOrd, Ord, Hash)]
pub struct Index(pub(crate) u16);

impl View for Index {
    type V = u16;

    closed spec fn view(&self) -> u16 {
        self.0
    }
}

/// Two indexes are equal exactly when their numbers are.
pub broadcast proof fn lemma_index_view_injective(a: Index, b: Index)
    ensures
        (#[trigger] a@) == (#[trigger] b@) ==> a == b,
{
}

impl Index {
    #[verifier::type_invariant]
    pub(crate) closed spec fn inv(self) -> bool {
        valid_index(self.0 as int)
    }

    /// The index numbered `v`, meaningful where `v` is in range.
    pub closed spec fn spec_from_valid(v: u16) -> Index {
        Index(v)
    }

    /// The index built from a number has that number.
    pub broadcast proof fn lemma_spec_from_valid(v: u16)
        ensures
            (#[trigger] Index::spec_from_valid(v))@ == v,
    {
    }

    /// Returns the index numbered `index`, or `None` where that number is out of range.
    pub fn new(index: u16) -> (res: Option<Index>)
        ensures
            res is Some <==> valid_index(index as int),
            res matches Some(i) ==> i@ == index,
    {
        if index < 1 || index as usize > CHANNELS_PER_UNIVERSE {
            None
        } else {
            Some(Index(index))
        }
    }

    /// Builds an index from a number already known to be in range.
    pub(crate) fn from_valid(index: u16) -> (res: Index)
        requires
            valid_index(index as int),
        ensures
            res@ == index,
    {
        Index(index)
    }

    /// Every index of a universe, from 1 up to `CHANNELS_PER_UNIVERSE`, in order.
    pub fn range() -> (res: Vec<Index>)
        ensures
            res@.len() == CHANNELS_PER_UNIVERSE,
            forall|k: int| 0 <= k < res@.len() ==> (#[trigger] res@[k])@ == k + 1,
    {
        let mut res: Vec<Index> = Vec::new();
        let mut i: u16 = 1;
        while i as usize <= CHANNELS_PER_UNIVERSE
            invariant
                1 <= i <= CHANNELS_PER_UNIVERSE + 1,
                res@.len() == i - 1,
                forall|k: int| 0 <= k < res@.len() ==> (#[trigger] res@[k])@ == k + 1,
            decreases CHANNELS_PER_UNIVERSE + 1 - i,
        {
            res.push(Index(i));
            i = i + 1;
        }
        res
    }

    /// The lowest index, 1.
    pub fn min_value() -> (res: Index)
        ensures
            res@ == 1,
    {
        Index(1)
    }

    /// The highest index, `CHANNELS_PER_UNIVERSE`.
    pub fn max_value() -> (res: Index)
        ensures
            res@ == CHANNELS_PER_UNIVERSE,
    {
        Index(512)
    }

    /// The index's number, which is always in range.
    pub fn get(&self) -> (res: u16)
        ensures
            res == self@,
            valid_index(res as int),
    {
        proof {
            use_type_invariant(self);
        }
        self.0
    }

    /// The index's number in decimal.
    pub fn to_string(&self) -> (res: String)
        ensures
            res@ == decimal(self@ as nat),
    {
        decimal_string(self.0 as u64)
    }
}

impl From<Index> for u16 {
    fn from(value: Index) -> (res: u16) {
        value.0
    }
}

impl vstd::std_specs::convert::FromSpecImpl<Index> for u16 {
    open spec fn obeys_from_spec() -> bool {
        true
    }

    open spec fn from_spec(v: Index) -> u16 {
        v@
    }
}

} // verus!
