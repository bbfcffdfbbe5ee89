use vstd::prelude::*;

use crate::text::{decimal, decimal_string};

verus! {

/// A DMX level, from 0 (out) to 255 (full).
#[derive(Copy, Clone, Debug, PartialEq, Eq, Structural)]
pub struct Level(pub(crate) u8);

impl View for Level {
    type V = u8;

    closed spec fn view(&self) -> u8 {
        self.0
    }
}

/// Two levels are equal exactly when their values are.
pub broadcast proof fn lemma_level_view_injective(a: Level, b: Level)
    ensures
        (#[trigger] a@) == (#[trigger] b@) ==> a == b,
{
}

/// How a level is shown: `O` for out, `F` for full, otherwise its value in decimal.
pub open spec fn level_text(l: u8) -> Seq<char> {
    if l == 0 {
        seq!['O']
    } else if l == 255 {
        seq!['F']
    } else {
        decimal(l as nat)
    }
}

impl Level {
    /// The level with value `v`, meaningful for every `v`.
    pub closed spec fn spec_new(v: u8) -> Level {
        Level(v)
    }

    /// The level built from a value has that value.
    pub broadcast proof fn lemma_spec_new(v: u8)
        ensures
            (#[trigger] Level::spec_new(v))@ == v,
    {
    }

    /// The level with value `level`.
    pub fn new(level: u8) -> (res: Self)
        ensures
            res@ == level,
    {
        Level(level)
    }

    /// The lowest level, 0.
    pub fn out() -> (res: Self)
        ensures
            res@ == 0,
    {
        Level(0)
    }

    /// The highest level, 255.
    pub fn full() -> (res: Self)
        ensures
            res@ == 255,
    {
        Level(255)
    }

    /// The level's value.
    pub fn get(&self) -> (res: u8)
        ensures
            res == self@,
    {
        self.0
    }

    /// The level as shown to the user: `O`, `F` or its value in decimal.
    pub fn to_string(&self) -> (res: String)
        ensures
            res@ == level_text(self@),
    {
        if self.0 == 0 {
            proof {
                reveal_strlit("O");
            }
            "O".to_owned()
        } else if self.0 == 255 {
            proof {
                reveal_strlit("F");
            }
            "F".to_owned()
        } else {
            decimal_string(self.0 as u64)
        }
    }
}

impl From<Level> for u8 {
    fn from(value: Level) -> (res: u8) {
        value.0
    }
}

impl vstd::std_specs::convert::FromSpecImpl<Level> for u8 {
    open spec fn obeys_from_spec() -> bool {
        true
    }

    open spec fn from_spec(v: Level) -> u8 {
        v@
    }
}

/// One level, or a range of levels to fade across a set of addresses.
#[derive(Copy, Clone, Debug, PartialEq, Eq, Structural)]
pub enum LevelSet {
    Single(Level),
    Range(LevelRange),
}

/// A range of levels, from `start` at the first address to `end` at the last.
#[derive(Copy, Clone, Debug, PartialEq, Eq, Structural)]
pub struct LevelRange {
    pub start: Level,
    pub end: Level,
}

/// What a [`LevelSet`] holds.
pub enum LevelSetView {
    Single(u8),
    Range(u8, u8),
}

impl View for LevelSet {
    type V = LevelSetView;

    open spec fn view(&self) -> LevelSetView {
        match self {
            LevelSet::Single(l) => LevelSetView::Single(l@),
            LevelSet::Range(r) => LevelSetView::Range(r.start@, r.end@),
        }
    }
}

} // verus!
