use vstd::prelude::*;

use crate::text::{decimal, decimal_string, push_decimal};

verus! {

/// The highest universe number that sACN allows for multicast output.
pub const E131_MAX_MULTICAST_UNIVERSE: u16 = 63999;

/// A universe number is valid when it lies in `1..=E131_MAX_MULTICAST_UNIVERSE`.
pub open spec fn valid_universe(u: int) -> bool {
    1 <= u <= E131_MAX_MULTICAST_UNIVERSE
}

/// A DMX universe number, always within the range that sACN accepts.
#[derive(Copy, Clone, Debug, PartialEq, Eq, Structural, PartialOrd, Ord, Hash)]
pub struct Universe(pub(crate) u16);

impl View for Universe {
    type V = u16;

    closed spec fn view(&self) -> u16 {
        self.0
    }
}

/// Two universes are equal exactly when their numbers are.
pub broadcast proof fn lemma_universe_view_injective(a: Universe, b: Universe)
    ensures
        (#[trigger] a@) == (#[trigger] b@) ==> a == b,
{
}

impl Universe {
    #[verifier::type_invariant]
    pub(crate) closed spec fn inv(self) -> bool {
        valid_universe(self.0 as int)
    }

    /// Returns the universe numbered `universe`, or `None` where that number is out of range.
    pub fn new(universe: u16) -> (res: Option<Self>)
        ensures
            res is Some <==> valid_universe(universe as int),
            res matches Some(u) ==> u@ == universe,
    {
        if universe < 1 || universe > E131_MAX_MULTICAST_UNIVERSE {
            None
        } else {
            Some(Universe(universe))
        }
    }

    /// Builds a universe from a number already known to be in range.
    pub(crate) fn from_valid(universe: u16) -> (res: Self)
        requires
            valid_universe(universe as int),
        ensures
            res@ == universe,
    {
        Universe(universe)
    }

    /// Universe 1, the universe of addresses that name none.
    pub fn one() -> (res: Self)
        ensures
            res@ == 1,
    {
        Universe(1)
    }

    /// The universe's number, which is always in range.
    pub fn get(&self) -> (res: u16)
        ensures
            res == self@,
            valid_universe(res as int),
    {
        proof {
            use_type_invariant(self);
        }
        self.0
    }

    /// The universe's number in decimal.
    pub fn to_string(&self) -> (res: String)
        ensures
            res@ == decimal(self@ as nat),
    {
        decimal_string(self.0 as u64)
    }
}

/// Why a number could not be turned into a universe.
#[derive(Copy, Clone, Debug, PartialEq, Eq, Structural)]
pub enum IntoUniverseError {
    OutOfBounds(u16),
}

/// The message of an [`IntoUniverseError`].
pub open spec fn into_universe_error_message(e: IntoUniverseError) -> Seq<char> {
    match e {
        IntoUniverseError::OutOfBounds(u) => seq!['u', 'n', 'i', 'v', 'e', 'r', 's', 'e', ' ']
            + decimal(u as nat) + seq![
            ' ',
            'i',
            's',
            ' ',
            'o',
            'u',
            't',
            ' ',
            'o',
            'f',
            ' ',
            'b',
            'o',
            'u',
            'n',
            'd',
            's',
        ],
    }
}

impl IntoUniverseError {
    /// The message that describes the error, as `universe 0 is out of bounds`.
    pub fn to_string(&self) -> (res: String)
        ensures
            res@ == into_universe_error_message(*self),
    {
        let IntoUniverseError::OutOfBounds(u) = *self;
        let mut s = String::new();
        proof {
            reveal_strlit("universe ");
            reveal_strlit(" is out of bounds");
        }
        s.append("universe ");
        push_decimal(&mut s, u as u64);
        s.append(" is out of bounds");
        s
    }
}

impl TryFrom<u16> for Universe {
    type Error = IntoUniverseError;

    fn try_from(value: u16) -> (res: Result<Self, Self::Error>) {
        match Universe::new(value) {
            Some(u) => Ok(u),
            None => Err(IntoUniverseError::OutOfBounds(value)),
        }
    }
}

impl vstd::std_specs::convert::TryFromSpecImpl<u16> for Universe {
    open spec fn obeys_try_from_spec() -> bool {
        true
    }

    open spec fn try_from_spec(v: u16) -> Result<Self, Self::Error> {
        if valid_universe(v as int) {
            Ok(Universe::spec_from_valid(v))
        } else {
            Err(IntoUniverseError::OutOfBounds(v))
        }
    }
}

impl Universe {
    /// The universe numbered `v`, meaningful where `v` is in range.
    pub closed spec fn spec_from_valid(v: u16) -> Universe {
        Universe(v)
    }

    /// The universe built from a number has that number.
    pub broadcast proof fn lemma_spec_from_valid(v: u16)
        ensures
            (#[trigger] Universe::spec_from_valid(v))@ == v,
    {
    }
}

impl From<Universe> for u16 {
    fn from(value: Universe) -> (res: u16) {
        value.0
    }
}

impl vstd::std_specs::convert::FromSpecImpl<Universe> for u16 {
    open spec fn obeys_from_spec() -> bool {
        true
    }

    open spec fn from_spec(v: Universe) -> u16 {
        v@
    }
}

} // verus!
