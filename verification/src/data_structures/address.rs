use vstd::prelude::*;

use crate::data_structures::index::{valid_index, Index};
use crate::data_structures::universe::{valid_universe, Universe};
use crate::data_structures::CHANNELS_PER_UNIVERSE;
use crate::text::{decimal, push_decimal};

verus! {

broadcast use {
    crate::data_structures::index::lemma_index_view_injective,
    crate::data_structures::universe::lemma_universe_view_injective,
};

/// One DMX address: a channel of a universe.
#[derive(Copy, Clone, Debug, PartialEq, Eq, Structural, PartialOrd, Ord, Hash)]
pub struct Address {
    pub universe: Universe,
    pub index: Index,
}

impl View for Address {
    type V = (u16, u16);

    open spec fn view(&self) -> (u16, u16) {
        (self.universe@, self.index@)
    }
}

impl Address {
    /// The address as shown to the user, as `2/17`.
    pub fn to_string(&self) -> (res: String)
        ensures
            res@ == decimal(self.universe@ as nat) + seq!['/'] + decimal(self.index@ as nat),
    {
        let mut s = String::new();
        push_decimal(&mut s, self.universe.get() as u64);
        proof {
            reveal_strlit("/");
        }
        s.append("/");
        push_decimal(&mut s, self.index.get() as u64);
        s
    }
}

/// The indexes from `start` to `end` taken every `step`: `start`, `start + step`, ...
pub open spec fn stepped_indexes(start: int, end: int, step: int) -> Seq<int>
    recommends
        start <= end,
        step >= 1,
{
    Seq::new(((end - start) / step + 1) as nat, |k: int| start + k * step)
}

/// What an [`AddressRange`] holds.
pub struct AddressRangeView {
    pub universe: u16,
    pub start: u16,
    pub end: u16,
    pub step: Option<usize>,
}

/// The step that a range of addresses advances by: its own, or 1 where it has none.
pub open spec fn step_of(step: Option<usize>) -> int {
    match step {
        Some(s) => s as int,
        None => 1,
    }
}

/// A range of addresses in one universe, from `start` to `end` inclusive, every `step`.
#[derive(Copy, Clone, Debug, PartialEq, Eq, Structural)]
pub struct AddressRange {
    universe: Universe,
    start: Index,
    end: Index,
    step: Option<usize>,
}

impl View for AddressRange {
    type V = AddressRangeView;

    closed spec fn view(&self) -> AddressRangeView {
        AddressRangeView {
            universe: self.universe@,
            start: self.start@,
            end: self.end@,
            step: self.step,
        }
    }
}

/// A range view is well formed when it could come from [`AddressRange::new`] or
/// [`AddressRange::with_step`].
pub open spec fn range_view_wf(r: AddressRangeView) -> bool {
    &&& valid_universe(r.universe as int)
    &&& valid_index(r.start as int)
    &&& valid_index(r.end as int)
    &&& r.start <= r.end
    &&& r.step != Some(0usize)
}

impl AddressRange {
    #[verifier::type_invariant]
    closed spec fn inv(self) -> bool {
        self.start@ <= self.end@ && self.step != Some(0usize)
    }

    /// The range from `start` to `end` with no step, or `None` where `start` comes after `end`.
    pub fn new(universe: Universe, start: Index, end: Index) -> (res: Option<Self>)
        ensures
            res is Some <==> start@ <= end@,
            res matches Some(r) ==> r@ == (AddressRangeView {
                universe: universe@,
                start: start@,
                end: end@,
                step: None,
            }),
    {
        if start.get() > end.get() {
            None
        } else {
            Some(AddressRange { universe, start, end, step: None })
        }
    }

    /// The range from `start` to `end` taking every `step`-th index, or `None` where
    /// `step` is 0 or `start` comes after `end`.
    pub fn with_step(universe: Universe, start: Index, end: Index, step: usize) -> (res: Option<
        Self,
    >)
        ensures
            res is Some <==> step != 0 && start@ <= end@,
            res matches Some(r) ==> r@ == (AddressRangeView {
                universe: universe@,
                start: start@,
                end: end@,
                step: Some(step),
            }),
    {
        if step == 0 {
            None
        } else {
            match Self::new(universe, start, end) {
                Some(base) => Some(AddressRange { step: Some(step), ..base }),
                None => None,
            }
        }
    }

    /// The universe of the range.
    pub fn universe(&self) -> (res: Universe)
        ensures
            res@ == self@.universe,
    {
        self.universe
    }

    /// The indexes of the range, in increasing order: `start`, `start + step`, ... up to `end`.
    /// There is at least one, and the range is well formed.
    pub fn indexes(&self) -> (res: Vec<Index>)
        ensures
            range_view_wf(self@),
            res@.len() >= 1,
            forall|i: int, j: int| 0 <= i < j < res@.len() ==> res@[i]@ < res@[j]@,
            res@.len() == stepped_indexes(
                self@.start as int,
                self@.end as int,
                step_of(self@.step),
            ).len(),
            forall|k: int|
                0 <= k < res@.len() ==> (#[trigger] res@[k])@ as int == stepped_indexes(
                    self@.start as int,
                    self@.end as int,
                    step_of(self@.step),
                )[k],
    {
        proof {
            use_type_invariant(self);
        }
        // Reading the universe's number shows that it is in range.
        let _universe: u16 = self.universe.get();
        let start = self.start.get() as usize;
        let end = self.end.get() as usize;
        let step: usize = match self.step {
            Some(s) => s,
            None => 1,
        };
        let ghost count: int = (end - start) / (step as int) + 1;
        let mut res: Vec<Index> = Vec::new();
        let mut cur: usize = start;
        loop
            invariant_except_break
                start <= cur <= end,
                cur == start + res@.len() * step,
                res@.len() < count,
            invariant
                end <= CHANNELS_PER_UNIVERSE,
                valid_index(start as int),
                start <= end,
                step >= 1,
                step as int == step_of(self@.step),
                start == self@.start,
                end == self@.end,
                count == (end - start) / (step as int) + 1,
                forall|k: int| 0 <= k < res@.len() ==> (#[trigger] res@[k])@ as int == start + k * step,
            ensures
                res@.len() == count,
                forall|k: int| 0 <= k < res@.len() ==> (#[trigger] res@[k])@ as int == start + k * step,
            decreases end - cur,
        {
            res.push(Index::from_valid(cur as u16));
            if end - cur < step {
                proof {
                    let n = res@.len() - 1;
                    assert((end - start) / (step as int) == n) by (nonlinear_arith)
                        requires
                            cur == start + n * step,
                            end - cur < step,
                            start <= cur <= end,
                            step >= 1,
                            n >= 0,
                    ;
                }
                break;
            }
            proof {
                let n = res@.len() - 1;
                assert(n + 1 < (end - start) / (step as int) + 1) by (nonlinear_arith)
                    requires
                        cur == start + n * step,
                        end - cur >= step,
                        start <= cur <= end,
                        step >= 1,
                        n >= 0,
                ;
                assert(cur + step == start + (n + 1) * step) by (nonlinear_arith)
                    requires
                        cur == start + n * step,
                ;
            }
            cur = cur + step;
        }
        proof {
            lemma_stepped_indexes(start as int, end as int, step as int);
            let s = stepped_indexes(start as int, end as int, step as int);
            assert forall|k: int| 0 <= k < res@.len() implies #[trigger] res@[k]@ as int == s[k] by {
                assert(res@.len() == s.len());
            }
        }
        res
    }
}

/// What an [`AddressSet`] holds.
pub enum AddressSetView {
    Single { universe: u16, index: u16 },
    Range(AddressRangeView),
}

/// The universe that an address set lies in.
pub open spec fn set_universe(s: AddressSetView) -> u16 {
    match s {
        AddressSetView::Single { universe, index } => universe,
        AddressSetView::Range(r) => r.universe,
    }
}

/// The indexes that an address set covers, in order.
pub open spec fn set_indexes(s: AddressSetView) -> Seq<int> {
    match s {
        AddressSetView::Single { universe, index } => seq![index as int],
        AddressSetView::Range(r) => stepped_indexes(r.start as int, r.end as int, step_of(r.step)),
    }
}

/// One address, or a range of addresses in one universe.
#[derive(Copy, Clone, Debug, PartialEq, Eq, Structural)]
pub enum AddressSet {
    Single(Address),
    Range(AddressRange),
}

impl View for AddressSet {
    type V = AddressSetView;

    open spec fn view(&self) -> AddressSetView {
        match self {
            AddressSet::Single(a) => AddressSetView::Single {
                universe: a.universe@,
                index: a.index@,
            },
            AddressSet::Range(r) => AddressSetView::Range(r@),
        }
    }
}

impl AddressSet {
    /// The universe the addresses lie in.
    pub fn universe(&self) -> (res: Universe)
        ensures
            res@ == set_universe(self@),
    {
        match self {
            AddressSet::Single(Address { universe, index: _ }) => *universe,
            AddressSet::Range(address_range) => address_range.universe(),
        }
    }

    /// The indexes of the addresses, in increasing order; there is at least one.
    pub fn indexes(&self) -> (res: Vec<Index>)
        ensures
            res@.len() >= 1,
            forall|i: int, j: int| 0 <= i < j < res@.len() ==> res@[i]@ < res@[j]@,
            res@.len() == set_indexes(self@).len(),
            forall|k: int|
                0 <= k < res@.len() ==> (#[trigger] res@[k])@ as int == set_indexes(self@)[k],
    {
        match self {
            AddressSet::Single(Address { universe: _, index }) => {
                let mut v = Vec::new();
                v.push(*index);
                v
            },
            AddressSet::Range(address_range) => address_range.indexes(),
        }
    }

    /// Every address of `universe`, from index 1 to the last.
    pub fn all(universe: Universe) -> (res: Self)
        ensures
            res@ == AddressSetView::Range(
                AddressRangeView {
                    universe: universe@,
                    start: 1,
                    end: CHANNELS_PER_UNIVERSE as u16,
                    step: None,
                },
            ),
    {
        AddressSet::Range(
            AddressRange::new(universe, Index::min_value(), Index::max_value()).unwrap(),
        )
    }
}

/// The indexes of a range from `start` to `end` every `step` begin at `start`, rise by
/// `step`, stay within `start..=end`, and stop at the last index before `end` is passed.
pub proof fn lemma_stepped_indexes(start: int, end: int, step: int)
    requires
        start <= end,
        step >= 1,
    ensures
        ({
            let s = stepped_indexes(start, end, step);
            &&& s.len() >= 1
            &&& s[0] == start
            &&& forall|k: int| 0 <= k < s.len() ==> start <= #[trigger] s[k] <= end
            &&& forall|k: int| 0 <= k < s.len() - 1 ==> #[trigger] s[k + 1] == s[k] + step
            &&& forall|i: int, j: int| 0 <= i < j < s.len() ==> s[i] < s[j]
            &&& s[s.len() - 1] + step > end
        }),
{
    let s = stepped_indexes(start, end, step);
    let n = (end - start) / step;
    assert(n >= 0) by (nonlinear_arith)
        requires
            start <= end,
            step >= 1,
            n == (end - start) / step,
    ;
    assert(n * step <= end - start < n * step + step) by (nonlinear_arith)
        requires
            start <= end,
            step >= 1,
            n == (end - start) / step,
    ;
    assert forall|k: int| 0 <= k < s.len() implies start <= #[trigger] s[k] <= end by {
        assert(0 <= k * step <= n * step) by (nonlinear_arith)
            requires
                0 <= k <= n,
                step >= 1,
        ;
    }
    assert forall|k: int| 0 <= k < s.len() - 1 implies #[trigger] s[k + 1] == s[k] + step by {
        assert((k + 1) * step == k * step + step) by (nonlinear_arith);
    }
    assert forall|i: int, j: int| 0 <= i < j < s.len() implies s[i] < s[j] by {
        assert(i * step < j * step) by (nonlinear_arith)
            requires
                0 <= i < j,
                step >= 1,
        ;
    }
}

/// The indexes of all the addresses of a universe are 1, 2, ... up to the last index.
pub proof fn lemma_all_indexes(universe: u16)
    ensures
        set_indexes(
            AddressSetView::Range(
                AddressRangeView {
                    universe,
                    start: 1,
                    end: CHANNELS_PER_UNIVERSE as u16,
                    step: None,
                },
            ),
        ) =~= Seq::new(CHANNELS_PER_UNIVERSE as nat, |k: int| k + 1),
{
}

} // verus!
