use vstd::prelude::*;

use crate::data_structures::address::{
    Address,
    AddressRange,
    AddressRangeView,
    AddressSet,
    AddressSetView,
};
use crate::data_structures::index::{valid_index, Index};
use crate::data_structures::level::{level_text, Level, LevelRange, LevelSet, LevelSetView};
use crate::data_structures::universe::{valid_universe, Universe};
use crate::data_structures::CHANNELS_PER_UNIVERSE;
use crate::text::{decimal, digit_char, push_decimal};

verus! {

broadcast use {
    crate::data_structures::index::lemma_index_view_injective,
    crate::data_structures::universe::lemma_universe_view_injective,
    crate::data_structures::level::lemma_level_view_injective,
};

// ---------------------------------------------------------------------------
// Errors
// ---------------------------------------------------------------------------

/// The step of the grammar at which a command failed to parse.
#[derive(Copy, Clone, Debug, PartialEq, Eq, Structural)]
pub enum ErrorKind {
    /// A command name (one or more ASCII letters) was expected.
    Alpha,
    /// A decimal number in range was expected.
    Digit,
    /// The end of the text was expected.
    Eof,
    /// A value was read but is not acceptable.
    MapRes,
}

/// The name of an [`ErrorKind`] as shown in messages.
pub open spec fn error_kind_name(k: ErrorKind) -> Seq<char> {
    match k {
        ErrorKind::Alpha => "Alpha"@,
        ErrorKind::Digit => "Digit"@,
        ErrorKind::Eof => "Eof"@,
        ErrorKind::MapRes => "MapRes"@,
    }
}

/// The name of `k`.
fn error_kind_str(k: ErrorKind) -> (res: &'static str)
    ensures
        res@ == error_kind_name(k),
{
    match k {
        ErrorKind::Alpha => "Alpha",
        ErrorKind::Digit => "Digit",
        ErrorKind::Eof => "Eof",
        ErrorKind::MapRes => "MapRes",
    }
}

/// A failure of the grammar itself: what was left of the text, and what was expected there.
#[derive(Debug)]
pub struct NomError {
    pub input: String,
    pub code: ErrorKind,
}

/// Why a command could not be parsed.
#[derive(Debug)]
pub enum ParseCommandError {
    Nom(NomError),
    InvalidUniverse(u16),
    InvalidIndex(u16),
    InvalidAddressRange(Index, Index, Option<usize>),
    InvalidLevelRange(Level, Level),
    /// A value was read at `.0` but refused; `.2` says why.
    External(String, ErrorKind, String),
}

/// What a [`ParseCommandError`] holds.
pub enum ParseFailure {
    Nom(Seq<char>, ErrorKind),
    InvalidUniverse(u16),
    InvalidIndex(u16),
    InvalidAddressRange(u16, u16, Option<usize>),
    InvalidLevelRange(u8, u8),
    External(Seq<char>, ErrorKind, Seq<char>),
}

impl View for ParseCommandError {
    type V = ParseFailure;

    open spec fn view(&self) -> ParseFailure {
        match self {
            ParseCommandError::Nom(e) => ParseFailure::Nom(e.input@, e.code),
            ParseCommandError::InvalidUniverse(u) => ParseFailure::InvalidUniverse(*u),
            ParseCommandError::InvalidIndex(i) => ParseFailure::InvalidIndex(*i),
            ParseCommandError::InvalidAddressRange(a, b, s) => ParseFailure::InvalidAddressRange(
                a@,
                b@,
                *s,
            ),
            ParseCommandError::InvalidLevelRange(a, b) => ParseFailure::InvalidLevelRange(a@, b@),
            ParseCommandError::External(i, k, m) => ParseFailure::External(i@, *k, m@),
        }
    }
}

/// An optional step as shown in messages: `Some(3)` or `None`.
pub open spec fn step_text(o: Option<usize>) -> Seq<char> {
    match o {
        Some(s) => "Some("@ + decimal(s as nat) + ")"@,
        None => "None"@,
    }
}

/// The message shown for a parse failure.
pub open spec fn failure_message(f: ParseFailure) -> Seq<char> {
    match f {
        ParseFailure::Nom(input, k) => "error "@ + error_kind_name(k) + " at: "@ + input,
        ParseFailure::InvalidUniverse(u) => "invalid universe: "@ + decimal(u as nat),
        ParseFailure::InvalidIndex(i) => "invalid index: "@ + decimal(i as nat),
        ParseFailure::InvalidAddressRange(a, b, s) => "invalid address range: "@ + decimal(
            a as nat,
        ) + "-"@ + decimal(b as nat) + " (step: "@ + step_text(s) + ")"@,
        ParseFailure::InvalidLevelRange(a, b) => "invalid level range: "@ + level_text(a) + "-"@
            + level_text(b),
        ParseFailure::External(_, _, m) => m,
    }
}

impl ParseCommandError {
    /// The message that describes the error.
    pub fn to_string(&self) -> (res: String)
        ensures
            res@ == failure_message(self@),
    {
        let mut s = String::new();
        match self {
            ParseCommandError::Nom(e) => {
                s.append("error ");
                s.append(error_kind_str(e.code));
                s.append(" at: ");
                s.append(e.input.as_str());
            },
            ParseCommandError::InvalidUniverse(u) => {
                s.append("invalid universe: ");
                push_decimal(&mut s, *u as u64);
            },
            ParseCommandError::InvalidIndex(i) => {
                s.append("invalid index: ");
                push_decimal(&mut s, *i as u64);
            },
            ParseCommandError::InvalidAddressRange(a, b, step) => {
                s.append("invalid address range: ");
                push_decimal(&mut s, a.get() as u64);
                s.append("-");
                push_decimal(&mut s, b.get() as u64);
                s.append(" (step: ");
                match step {
                    Some(st) => {
                        s.append("Some(");
                        push_decimal(&mut s, *st as u64);
                        s.append(")");
                    },
                    None => {
                        s.append("None");
                    },
                }
                s.append(")");
            },
            ParseCommandError::InvalidLevelRange(a, b) => {
                s.append("invalid level range: ");
                let at = a.to_string();
                s.append(at.as_str());
                s.append("-");
                let bt = b.to_string();
                s.append(bt.as_str());
            },
            ParseCommandError::External(_, _, m) => {
                s.append(m.as_str());
            },
        }
        s
    }
}

// ---------------------------------------------------------------------------
// Characters and scanning
// ---------------------------------------------------------------------------

/// The characters that Unicode gives the White_Space property.
pub open spec fn is_white_space(c: char) -> bool {
    let x = c as u32;
    ||| 0x9 <= x <= 0xd
    ||| x == 0x20
    ||| x == 0x85
    ||| x == 0xa0
    ||| x == 0x1680
    ||| 0x2000 <= x <= 0x200a
    ||| x == 0x2028
    ||| x == 0x2029
    ||| x == 0x202f
    ||| x == 0x205f
    ||| x == 0x3000
}

/// The classes of characters that the grammar reads runs of.
#[derive(Copy, Clone, Debug, PartialEq, Eq, Structural)]
pub enum CharClass {
    /// ASCII letters.
    Alpha,
    /// Spaces and tabs.
    Blank,
    /// ASCII decimal digits.
    Digit,
    /// Anything but white space.
    NotWhiteSpace,
    /// Anything but a double quote.
    NotQuote,
}

/// `c` belongs to the class `k`.
pub open spec fn in_class(c: char, k: CharClass) -> bool {
    let x = c as u32;
    match k {
        CharClass::Alpha => (0x41 <= x <= 0x5a) || (0x61 <= x <= 0x7a),
        CharClass::Blank => x == 0x20 || x == 0x9,
        CharClass::Digit => 0x30 <= x <= 0x39,
        CharClass::NotWhiteSpace => !is_white_space(c),
        CharClass::NotQuote => x != 0x22,
    }
}

/// The end of the run of characters of class `k` that starts at `i`.
pub open spec fn scan(s: Seq<char>, i: nat, k: CharClass) -> nat
    decreases s.len() - i,
{
    if i < s.len() && in_class(s[i as int], k) {
        scan(s, i + 1, k)
    } else {
        i
    }
}

/// A scan from `i` ends within the text, passes only characters of the class, and stops at
/// the end or at a character outside it.
pub proof fn lemma_scan(s: Seq<char>, i: nat, k: CharClass)
    requires
        i <= s.len(),
    ensures
        i <= scan(s, i, k) <= s.len(),
        forall|j: int| i <= j < scan(s, i, k) ==> in_class(#[trigger] s[j], k),
        scan(s, i, k) < s.len() ==> !in_class(s[scan(s, i, k) as int], k),
    decreases s.len() - i,
{
    if i < s.len() && in_class(s[i as int], k) {
        lemma_scan(s, i + 1, k);
    }
}

/// Whether `c` belongs to the class `k`.
fn char_in_class(c: char, k: CharClass) -> (res: bool)
    ensures
        res == in_class(c, k),
{
    let x = c as u32;
    match k {
        CharClass::Alpha => (0x41 <= x && x <= 0x5a) || (0x61 <= x && x <= 0x7a),
        CharClass::Blank => x == 0x20 || x == 0x9,
        CharClass::Digit => 0x30 <= x && x <= 0x39,
        CharClass::NotWhiteSpace => !((0x9 <= x && x <= 0xd) || x == 0x20 || x == 0x85 || x
            == 0xa0 || x == 0x1680 || (0x2000 <= x && x <= 0x200a) || x == 0x2028 || x == 0x2029
            || x == 0x202f || x == 0x205f || x == 0x3000),
        CharClass::NotQuote => x != 0x22,
    }
}

/// Where the run of characters of class `k` from `i` ends.
fn scan_chars(s: &Vec<char>, i: usize, k: CharClass) -> (res: usize)
    requires
        i <= s@.len(),
    ensures
        res == scan(s@, i as nat, k),
{
    let mut j = i;
    while j < s.len() && char_in_class(s[j], k)
        invariant
            i <= j <= s@.len(),
            scan(s@, j as nat, k) == scan(s@, i as nat, k),
        decreases s@.len() - j,
    {
        j = j + 1;
    }
    j
}

/// The characters of `i`, in order.
fn to_chars(i: &str) -> (res: Vec<char>)
    ensures
        res@ == i@,
{
    let mut res: Vec<char> = Vec::new();
    for c in it: i.chars()
        invariant
            res@ == it.seq().take(it.index()),
            it.seq() == i@,
    {
        res.push(c);
    }
    res
}

/// The text of `i` from character `from` to its end.
fn rest_of(i: &str, from: usize) -> (res: String)
    requires
        from <= i@.len(),
    ensures
        res@ == i@.subrange(from as int, i@.len() as int),
{
    i.substring_char(from, i.unicode_len()).to_owned()
}

// ---------------------------------------------------------------------------
// Decimal numbers
// ---------------------------------------------------------------------------

/// The value of the decimal digit `c`.
pub open spec fn digit_value(c: char) -> nat {
    ((c as u32) - 48) as nat
}

/// The value of the decimal digits `s[i..j]`.
pub open spec fn digits_value(s: Seq<char>, i: nat, j: nat) -> nat
    decreases j,
{
    if j <= i {
        0
    } else {
        digits_value(s, i, (j - 1) as nat) * 10 + digit_value(s[j - 1])
    }
}

/// More digits never read as a smaller number.
proof fn lemma_digits_value_monotone(s: Seq<char>, i: nat, j: nat, e: nat)
    requires
        i <= j <= e <= s.len(),
    ensures
        digits_value(s, i, j) <= digits_value(s, i, e),
    decreases e,
{
    if e > j {
        lemma_digits_value_monotone(s, i, j, (e - 1) as nat);
    }
}

/// Reads the run of digits at `i` as a number of at most `max`: its value and its end,
/// or `None` where there is no digit at `i` or the number exceeds `max`.
pub open spec fn parse_uint(s: Seq<char>, i: nat, max: nat) -> Option<(nat, nat)> {
    let e = scan(s, i, CharClass::Digit);
    if e == i || digits_value(s, i, e) > max {
        None
    } else {
        Some((digits_value(s, i, e), e))
    }
}

/// Reads a number of at most `max` at `i`, as [`parse_uint`] does.
fn read_uint(s: &Vec<char>, i: usize, max: usize) -> (res: Option<(usize, usize)>)
    requires
        i <= s@.len(),
    ensures
        res is Some <==> parse_uint(s@, i as nat, max as nat) is Some,
        res matches Some((v, e)) ==> parse_uint(s@, i as nat, max as nat) == Some(
            (v as nat, e as nat),
        ) && i < e <= s@.len(),
{
    let e = scan_chars(s, i, CharClass::Digit);
    proof {
        lemma_scan(s@, i as nat, CharClass::Digit);
    }
    if e == i {
        return None;
    }
    let mut value: usize = 0;
    let mut j = i;
    while j < e
        invariant
            i <= j <= e <= s@.len(),
            e == scan(s@, i as nat, CharClass::Digit),
            forall|m: int| i <= m < e ==> in_class(#[trigger] s@[m], CharClass::Digit),
            value == digits_value(s@, i as nat, j as nat),
            value <= max,
        decreases e - j,
    {
        let d = (s[j] as u32 - 48) as usize;
        proof {
            assert(in_class(s@[j as int], CharClass::Digit));
            assert(digits_value(s@, i as nat, (j + 1) as nat) == value * 10 + d);
            lemma_digits_value_monotone(s@, i as nat, (j + 1) as nat, e as nat);
        }
        match value.checked_mul(10) {
            None => {
                return None;
            },
            Some(v10) => match v10.checked_add(d) {
                None => {
                    return None;
                },
                Some(nv) => {
                    if nv > max {
                        return None;
                    }
                    value = nv;
                },
            },
        }
        j = j + 1;
    }
    Some((value, e))
}

// ---------------------------------------------------------------------------
// Command name and arguments
// ---------------------------------------------------------------------------

/// Reads the argument that starts at `j`: a text in double quotes (without them), or else
/// the run of characters up to the next white space. Gives the argument and where it ends.
pub open spec fn parse_arg(s: Seq<char>, j: nat) -> (Seq<char>, nat) {
    let q = scan(s, j + 1, CharClass::NotQuote);
    if j < s.len() && s[j as int] == '"' && q < s.len() {
        (s.subrange(j + 1 as int, q as int), q + 1)
    } else {
        let e = scan(s, j, CharClass::NotWhiteSpace);
        (s.subrange(j as int, e as int), e)
    }
}

/// An argument read from `j` ends within the text, no earlier than `j`.
pub proof fn lemma_parse_arg(s: Seq<char>, j: nat)
    requires
        j <= s.len(),
    ensures
        j <= parse_arg(s, j).1 <= s.len(),
{
    lemma_scan(s, j, CharClass::NotWhiteSpace);
    if j < s.len() {
        lemma_scan(s, j + 1, CharClass::NotQuote);
    }
}

/// Reads the arguments from `i` on, each after one or more spaces or tabs. Gives them and
/// where the last one ends.
pub open spec fn parse_arg_list(s: Seq<char>, i: nat) -> (Seq<Seq<char>>, nat)
    decreases s.len() - i,
{
    let j = scan(s, i, CharClass::Blank);
    if i >= s.len() || j == i {
        (seq![], i)
    } else {
        let (a, k) = parse_arg(s, j);
        proof {
            lemma_scan(s, i, CharClass::Blank);
            lemma_parse_arg(s, j);
        }
        let (rest, e) = parse_arg_list(s, k);
        (seq![a] + rest, e)
    }
}

/// The grammar of a command line: a name of ASCII letters, then its arguments, then the end.
pub open spec fn spec_parse_args(s: Seq<char>) -> Result<(Seq<char>, Seq<Seq<char>>), ParseFailure> {
    let a = scan(s, 0, CharClass::Alpha);
    if a == 0 {
        Err(ParseFailure::Nom(s, ErrorKind::Alpha))
    } else {
        let (args, e) = parse_arg_list(s, a);
        if e == s.len() {
            Ok((s.subrange(0, a as int), args))
        } else {
            Err(ParseFailure::Nom(s.subrange(e as int, s.len() as int), ErrorKind::Eof))
        }
    }
}

/// The texts of a sequence of strings.
pub open spec fn texts_of(v: Seq<&str>) -> Seq<Seq<char>> {
    v.map_values(|x: &str| x@)
}

/// Where the argument at `j` starts, where it ends, and where reading goes on.
fn read_arg(s: &Vec<char>, j: usize) -> (res: (usize, usize, usize))
    requires
        j <= s@.len(),
    ensures
        res.0 <= res.1 <= s@.len(),
        j <= res.2 <= s@.len(),
        parse_arg(s@, j as nat).0 == s@.subrange(res.0 as int, res.1 as int),
        parse_arg(s@, j as nat).1 == res.2,
{
    proof {
        lemma_parse_arg(s@, j as nat);
        lemma_scan(s@, j as nat, CharClass::NotWhiteSpace);
    }
    if j < s.len() && s[j] == '"' {
        let q = scan_chars(s, j + 1, CharClass::NotQuote);
        proof {
            lemma_scan(s@, (j + 1) as nat, CharClass::NotQuote);
        }
        if q < s.len() {
            return (j + 1, q, q + 1);
        }
    }
    let e = scan_chars(s, j, CharClass::NotWhiteSpace);
    (j, e, e)
}

/// Splits a command line into its name and its arguments.
///
/// The name is one or more ASCII letters. Each argument follows one or more spaces or tabs,
/// and is either a text in double quotes, given without them, or the characters up to the
/// next white space (possibly none). The line must end after the last argument.
pub fn parse_args<'a>(i: &'a str) -> (res: Result<(&'a str, Vec<&'a str>), ParseCommandError>)
    ensures
        match spec_parse_args(i@) {
            Ok((name, args)) => res matches Ok((n, v)) && n@ == name && texts_of(v@) == args,
            Err(f) => res matches Err(e) && e@ == f,
        },
{
    let s = to_chars(i);
    let len = s.len();
    let a = scan_chars(&s, 0, CharClass::Alpha);
    proof {
        lemma_scan(s@, 0, CharClass::Alpha);
    }
    if a == 0 {
        return Err(ParseCommandError::Nom(NomError { input: i.to_owned(), code: ErrorKind::Alpha }));
    }
    let mut args: Vec<&'a str> = Vec::new();
    let mut pos = a;
    let ghost full = parse_arg_list(s@, a as nat);
    loop
        invariant
            a <= pos <= len,
            len == s@.len(),
            s@ == i@,
            full == parse_arg_list(s@, a as nat),
            full.0 == texts_of(args@) + parse_arg_list(s@, pos as nat).0,
            full.1 == parse_arg_list(s@, pos as nat).1,
        ensures
            a <= pos <= len,
            full.0 == texts_of(args@),
            full.1 == pos,
        decreases len - pos,
    {
        let j = scan_chars(&s, pos, CharClass::Blank);
        proof {
            lemma_scan(s@, pos as nat, CharClass::Blank);
        }
        if pos >= len || j == pos {
            proof {
                assert(texts_of(args@) + seq![] =~= texts_of(args@));
            }
            break;
        }
        let (st, en, next) = read_arg(&s, j);
        let arg = i.substring_char(st, en);
        let ghost old_args = args@;
        args.push(arg);
        proof {
            let rest = parse_arg_list(s@, next as nat).0;
            assert(parse_arg_list(s@, pos as nat).0 == seq![arg@] + rest);
            assert(texts_of(args@) =~= texts_of(old_args).push(arg@));
            assert(texts_of(old_args) + (seq![arg@] + rest) =~= texts_of(args@) + rest);
        }
        pos = next;
    }
    if pos == len {
        Ok((i.substring_char(0, a), args))
    } else {
        Err(ParseCommandError::Nom(NomError { input: rest_of(i, pos), code: ErrorKind::Eof }))
    }
}

// ---------------------------------------------------------------------------
// Addresses
// ---------------------------------------------------------------------------

/// The highest value of a `u16`.
pub open spec fn u16_max() -> nat {
    0xffff
}

/// The optional `universe/` that an address set starts with: the universe and where the
/// index starts. Without a valid one, universe 1 and the start of the text.
pub open spec fn universe_prefix(a: Seq<char>) -> (nat, nat) {
    match parse_uint(a, 0, u16_max()) {
        Some((u, e)) => if valid_universe(u as int) && e < a.len() && a[e as int] == '/' {
            (u, e + 1)
        } else {
            (1, 0)
        },
        None => (1, 0),
    }
}

/// The optional `-end` after the index that ends at `e`: the end index and where it ends.
pub open spec fn range_end(a: Seq<char>, e: nat) -> Option<(nat, nat)> {
    if e < a.len() && a[e as int] == '-' {
        match parse_uint(a, e + 1, u16_max()) {
            Some((y, f)) => if valid_index(y as int) {
                Some((y, f))
            } else {
                None
            },
            None => None,
        }
    } else {
        None
    }
}

/// The optional `|step` after the end index that ends at `f`: the step and where it ends.
pub open spec fn range_step(a: Seq<char>, f: nat) -> (Option<usize>, nat) {
    if f < a.len() && a[f as int] == '|' {
        match parse_uint(a, f + 1, usize::MAX as nat) {
            Some((st, g)) => (Some(st as usize), g),
            None => (None, f),
        }
    } else {
        (None, f)
    }
}

/// The grammar of an address set: `[universe/]index[-end[|step]]`, with nothing after it.
pub open spec fn spec_parse_address_set(a: Seq<char>) -> Result<AddressSetView, ParseFailure> {
    let (u, p) = universe_prefix(a);
    match parse_uint(a, p, u16_max()) {
        None => Err(ParseFailure::Nom(a.subrange(p as int, a.len() as int), ErrorKind::Digit)),
        Some((x, e)) => if !valid_index(x as int) {
            Err(
                ParseFailure::External(
                    a.subrange(p as int, a.len() as int),
                    ErrorKind::MapRes,
                    failure_message(ParseFailure::InvalidIndex(x as u16)),
                ),
            )
        } else {
            match range_end(a, e) {
                None => if e == a.len() {
                    Ok(AddressSetView::Single { universe: u as u16, index: x as u16 })
                } else {
                    Err(ParseFailure::Nom(a.subrange(e as int, a.len() as int), ErrorKind::Eof))
                },
                Some((y, f)) => {
                    let (step, r) = range_step(a, f);
                    if step == Some(0usize) || x > y {
                        Err(
                            ParseFailure::External(
                                a,
                                ErrorKind::MapRes,
                                failure_message(
                                    ParseFailure::InvalidAddressRange(x as u16, y as u16, step),
                                ),
                            ),
                        )
                    } else if r == a.len() {
                        Ok(
                            AddressSetView::Range(
                                AddressRangeView {
                                    universe: u as u16,
                                    start: x as u16,
                                    end: y as u16,
                                    step,
                                },
                            ),
                        )
                    } else {
                        Err(
                            ParseFailure::Nom(
                                a.subrange(r as int, a.len() as int),
                                ErrorKind::Eof,
                            ),
                        )
                    }
                },
            }
        }
    }
}

/// What a result of reading an address set holds.
pub open spec fn address_result_view(r: Result<AddressSet, ParseCommandError>) -> Result<
    AddressSetView,
    ParseFailure,
> {
    match r {
        Ok(a) => Ok(a@),
        Err(e) => Err(e@),
    }
}

/// Reads the address set that `a` holds in full.
fn parse_address_set(a: &str) -> (res: Result<AddressSet, ParseCommandError>)
    ensures
        address_result_view(res) == spec_parse_address_set(a@),
{
    let s = to_chars(a);
    let len = s.len();
    let mut universe = Universe::one();
    let mut p: usize = 0;
    match read_uint(&s, 0, 0xffff) {
        Some((u, e)) => {
            if e < len && s[e] == '/' {
                match Universe::new(u as u16) {
                    Some(uv) => {
                        universe = uv;
                        p = e + 1;
                    },
                    None => {},
                }
            }
        },
        None => {},
    }
    assert(universe@ as nat == universe_prefix(s@).0 && p as nat == universe_prefix(s@).1);
    let (x, e) = match read_uint(&s, p, 0xffff) {
        None => {
            return Err(
                ParseCommandError::Nom(NomError { input: rest_of(a, p), code: ErrorKind::Digit }),
            );
        },
        Some(v) => v,
    };
    let start = match Index::new(x as u16) {
        None => {
            let inner = ParseCommandError::InvalidIndex(x as u16);
            return Err(
                ParseCommandError::External(rest_of(a, p), ErrorKind::MapRes, inner.to_string()),
            );
        },
        Some(ix) => ix,
    };
    let mut end_opt: Option<(Index, usize)> = None;
    if e < len && s[e] == '-' {
        match read_uint(&s, e + 1, 0xffff) {
            Some((y, f)) => match Index::new(y as u16) {
                Some(iy) => {
                    end_opt = Some((iy, f));
                },
                None => {},
            },
            None => {},
        }
    }
    assert(match range_end(s@, e as nat) {
        None => end_opt is None,
        Some((y, f)) => end_opt matches Some((iy, f2)) && iy@ == y && f2 == f,
    });
    match end_opt {
        None => {
            if e == len {
                Ok(AddressSet::Single(Address { universe, index: start }))
            } else {
                Err(ParseCommandError::Nom(NomError { input: rest_of(a, e), code: ErrorKind::Eof }))
            }
        },
        Some((end, f)) => {
            let mut step: Option<usize> = None;
            let mut r = f;
            if f < len && s[f] == '|' {
                match read_uint(&s, f + 1, usize::MAX) {
                    Some((st, g)) => {
                        step = Some(st);
                        r = g;
                    },
                    None => {},
                }
            }
            assert(range_step(s@, f as nat) == (step, r as nat));
            let range = match step {
                Some(st) => AddressRange::with_step(universe, start, end, st),
                None => AddressRange::new(universe, start, end),
            };
            match range {
                None => {
                    let inner = ParseCommandError::InvalidAddressRange(start, end, step);
                    Err(ParseCommandError::External(a.to_owned(), ErrorKind::MapRes, inner.to_string()))
                },
                Some(rg) => {
                    if r == len {
                        Ok(AddressSet::Range(rg))
                    } else {
                        Err(
                            ParseCommandError::Nom(
                                NomError { input: rest_of(a, r), code: ErrorKind::Eof },
                            ),
                        )
                    }
                },
            }
        },
    }
}

// ---------------------------------------------------------------------------
// Levels
// ---------------------------------------------------------------------------

/// The level that `p` percent stands for: `p * 255 / 100` rounded to the nearest whole
/// number (halves up), and at most 255.
pub open spec fn percent_level(p: nat) -> nat {
    let v = (p * 255 + 50) / 100;
    if v > 255 {
        255
    } else {
        v
    }
}

/// Reads one level at `i`: `o` (out), `f` (full), a percentage such as `50%`, or a value
/// from 0 to 255. Gives the level and where it ends.
pub open spec fn parse_single_level(a: Seq<char>, i: nat) -> Option<(nat, nat)> {
    if i < a.len() && a[i as int] == 'o' {
        Some((0, i + 1))
    } else if i < a.len() && a[i as int] == 'f' {
        Some((255, i + 1))
    } else {
        match parse_uint(a, i, 255) {
            Some((p, e)) => if e < a.len() && a[e as int] == '%' {
                Some((percent_level(p), e + 1))
            } else {
                Some((p, e))
            },
            None => None,
        }
    }
}

/// The grammar of a level set: a level, optionally followed by `-` and a second level,
/// with nothing after it.
pub open spec fn spec_parse_level_set(a: Seq<char>) -> Result<LevelSetView, ParseFailure> {
    match parse_single_level(a, 0) {
        None => Err(ParseFailure::Nom(a, ErrorKind::Digit)),
        Some((l, e)) => {
            let (set, r) = if e < a.len() && a[e as int] == '-' {
                match parse_single_level(a, e + 1) {
                    Some((m, f)) => (LevelSetView::Range(l as u8, m as u8), f),
                    None => (LevelSetView::Single(l as u8), e),
                }
            } else {
                (LevelSetView::Single(l as u8), e)
            };
            if r == a.len() {
                Ok(set)
            } else {
                Err(ParseFailure::Nom(a.subrange(r as int, a.len() as int), ErrorKind::Eof))
            }
        },
    }
}

/// What a result of reading a level set holds.
pub open spec fn level_result_view(r: Result<LevelSet, ParseCommandError>) -> Result<
    LevelSetView,
    ParseFailure,
> {
    match r {
        Ok(l) => Ok(l@),
        Err(e) => Err(e@),
    }
}

/// Reads one level at `i`, as [`parse_single_level`] does.
fn read_single_level(s: &Vec<char>, i: usize) -> (res: Option<(Level, usize)>)
    requires
        i <= s@.len(),
    ensures
        res is Some <==> parse_single_level(s@, i as nat) is Some,
        res matches Some((l, e)) ==> parse_single_level(s@, i as nat) == Some(
            (l@ as nat, e as nat),
        ) && i < e <= s@.len(),
{
    if i < s.len() && s[i] == 'o' {
        return Some((Level::out(), i + 1));
    }
    if i < s.len() && s[i] == 'f' {
        return Some((Level::full(), i + 1));
    }
    match read_uint(s, i, 255) {
        Some((p, e)) => {
            if e < s.len() && s[e] == '%' {
                let v = (p * 255 + 50) / 100;
                let l = if v > 255 {
                    255u8
                } else {
                    v as u8
                };
                Some((Level::new(l), e + 1))
            } else {
                Some((Level::new(p as u8), e))
            }
        },
        None => None,
    }
}

/// Reads the level set that `a` holds in full.
fn parse_level_set(a: &str) -> (res: Result<LevelSet, ParseCommandError>)
    ensures
        level_result_view(res) == spec_parse_level_set(a@),
{
    let s = to_chars(a);
    let len = s.len();
    let (start, e) = match read_single_level(&s, 0) {
        None => {
            return Err(
                ParseCommandError::Nom(NomError { input: a.to_owned(), code: ErrorKind::Digit }),
            );
        },
        Some(v) => v,
    };
    let mut set = LevelSet::Single(start);
    let mut r = e;
    if e < len && s[e] == '-' {
        match read_single_level(&s, e + 1) {
            Some((end, f)) => {
                set = LevelSet::Range(LevelRange { start, end });
                r = f;
            },
            None => {},
        }
    }
    if r == len {
        Ok(set)
    } else {
        Err(ParseCommandError::Nom(NomError { input: rest_of(a, r), code: ErrorKind::Eof }))
    }
}

// ---------------------------------------------------------------------------
// Commands
// ---------------------------------------------------------------------------

/// A command typed by the user.
#[derive(Debug)]
pub enum Command {
    Quit,
    Save { path: Option<String> },
    SetAddress { address_set: AddressSet, level_set: LevelSet },
    ClearAddress { address_set: AddressSet },
}

/// What a [`Command`] holds.
pub enum CommandView {
    Quit,
    Save { path: Option<Seq<char>> },
    SetAddress { address_set: AddressSetView, level_set: LevelSetView },
    ClearAddress { address_set: AddressSetView },
}

impl View for Command {
    type V = CommandView;

    open spec fn view(&self) -> CommandView {
        match self {
            Command::Quit => CommandView::Quit,
            Command::Save { path } => CommandView::Save {
                path: match path {
                    Some(p) => Some(p@),
                    None => None,
                },
            },
            Command::SetAddress { address_set, level_set } => CommandView::SetAddress {
                address_set: address_set@,
                level_set: level_set@,
            },
            Command::ClearAddress { address_set } => CommandView::ClearAddress {
                address_set: address_set@,
            },
        }
    }
}

/// What a result of reading a command holds.
pub open spec fn command_result_view(r: Result<Command, ParseCommandError>) -> Result<
    CommandView,
    ParseFailure,
> {
    match r {
        Ok(c) => Ok(c@),
        Err(e) => Err(e@),
    }
}

/// Every address of universe 1: what `clear` without an argument clears.
pub open spec fn all_of_universe_one() -> AddressSetView {
    AddressSetView::Range(
        AddressRangeView {
            universe: 1,
            start: 1,
            end: CHANNELS_PER_UNIVERSE as u16,
            step: None,
        },
    )
}

/// What a command line means.
///
/// `set ADDRESSES LEVELS` sets addresses, `clear [ADDRESSES]` clears them (all of universe 1
/// by default) and `save [PATH]` saves the show. Arguments past those are not read.
/// Lines in [`command_unhandled`] are outside what the reader answers; the value given here
/// for them is only a placeholder.
pub open spec fn spec_parse_command(s: Seq<char>) -> Result<CommandView, ParseFailure> {
    match spec_parse_args(s) {
        Err(f) => Err(f),
        Ok((name, args)) => if name == "set"@ {
            match spec_parse_address_set(args[0]) {
                Err(f) => Err(f),
                Ok(address_set) => match spec_parse_level_set(args[1]) {
                    Err(f) => Err(f),
                    Ok(level_set) => Ok(CommandView::SetAddress { address_set, level_set }),
                },
            }
        } else if name == "clear"@ {
            if args.len() == 0 {
                Ok(CommandView::ClearAddress { address_set: all_of_universe_one() })
            } else {
                match spec_parse_address_set(args[0]) {
                    Err(f) => Err(f),
                    Ok(address_set) => Ok(CommandView::ClearAddress { address_set }),
                }
            }
        } else if name == "save"@ {
            Ok(
                CommandView::Save {
                    path: if args.len() == 0 {
                        None
                    } else {
                        Some(args[0])
                    },
                },
            )
        } else {
            Ok(CommandView::Quit)
        },
    }
}

/// The command lines that the command reader has no answer for: a name other than `set`,
/// `clear` and `save`, or `set` without an address set, or `set` with a well-formed address
/// set but no level set.
pub open spec fn command_unhandled(s: Seq<char>) -> bool {
    match spec_parse_args(s) {
        Err(_) => false,
        Ok((name, args)) => if name == "set"@ {
            args.len() == 0 || (args.len() == 1 && spec_parse_address_set(args[0]) is Ok)
        } else {
            name != "clear"@ && name != "save"@
        },
    }
}

/// Whether `name` is the text `word`.
fn name_is(name: &str, word: &str) -> (res: bool)
    ensures
        res == (name@ == word@),
{
    let n = name.unicode_len();
    if n != word.unicode_len() {
        return false;
    }
    let mut k: usize = 0;
    while k < n
        invariant
            n == name@.len() == word@.len(),
            k <= n,
            forall|m: int| 0 <= m < k ==> name@[m] == word@[m],
        decreases n - k,
    {
        if name.get_char(k) != word.get_char(k) {
            return false;
        }
        k = k + 1;
    }
    assert(name@ =~= word@);
    true
}

/// Whether the command reader has an answer for the command line `i`.
pub fn is_handled_command(i: &str) -> (res: bool)
    ensures
        res == !command_unhandled(i@),
{
    match parse_args(i) {
        Err(_) => true,
        Ok((name, args)) => {
            if name_is(name, "set") {
                if args.len() == 0 {
                    false
                } else if args.len() == 1 {
                    parse_address_set(args[0]).is_err()
                } else {
                    true
                }
            } else {
                name_is(name, "clear") || name_is(name, "save")
            }
        },
    }
}

/// Reads a command line.
///
/// The command line must be one that the reader has an answer for
/// (see [`is_handled_command`]).
pub fn parse_command(i: &str) -> (res: Result<Command, ParseCommandError>)
    requires
        !command_unhandled(i@),
    ensures
        command_result_view(res) == spec_parse_command(i@),
{
    let (name, args) = match parse_args(i) {
        Err(e) => {
            return Err(e);
        },
        Ok(v) => v,
    };
    if name_is(name, "set") {
        let address_set = match parse_address_set(args[0]) {
            Err(e) => {
                return Err(e);
            },
            Ok(a) => a,
        };
        let level_set = match parse_level_set(args[1]) {
            Err(e) => {
                return Err(e);
            },
            Ok(l) => l,
        };
        Ok(Command::SetAddress { address_set, level_set })
    } else if name_is(name, "clear") {
        if args.len() == 0 {
            Ok(Command::ClearAddress { address_set: AddressSet::all(Universe::one()) })
        } else {
            match parse_address_set(args[0]) {
                Err(e) => Err(e),
                Ok(address_set) => Ok(Command::ClearAddress { address_set }),
            }
        }
    } else {
        let path = if args.len() == 0 {
            None
        } else {
            Some(args[0].to_owned())
        };
        Ok(Command::Save { path })
    }
}

// ---------------------------------------------------------------------------
// Reading back what is written
// ---------------------------------------------------------------------------

/// A run of characters of class `k` from `i` to `e`, followed by the end or by a character
/// of another class, is what [`scan`] finds.
pub proof fn lemma_scan_run(s: Seq<char>, i: nat, e: nat, k: CharClass)
    requires
        i <= e <= s.len(),
        forall|j: int| i <= j < e ==> in_class(#[trigger] s[j], k),
        e == s.len() || !in_class(s[e as int], k),
    ensures
        scan(s, i, k) == e,
    decreases e - i,
{
    if i < e {
        lemma_scan_run(s, i + 1, e, k);
    }
}

/// The value of digits depends only on those digits.
pub proof fn lemma_digits_value_shift(s: Seq<char>, i: nat, j: nat)
    requires
        i + j <= s.len(),
    ensures
        digits_value(s, i, i + j) == digits_value(s.subrange(i as int, (i + j) as int), 0, j),
    decreases j,
{
    if j > 0 {
        lemma_digits_value_shift(s, i, (j - 1) as nat);
        let t = s.subrange(i as int, (i + j) as int);
        let t1 = s.subrange(i as int, (i + j - 1) as int);
        assert(t1 =~= t.subrange(0, j - 1));
        lemma_digits_value_prefix(t, t1, (j - 1) as nat);
    }
}

/// The value of the first `j` digits is the same in two texts that agree on them.
pub proof fn lemma_digits_value_prefix(s: Seq<char>, t: Seq<char>, j: nat)
    requires
        j <= s.len(),
        j <= t.len(),
        forall|m: int| 0 <= m < j ==> s[m] == t[m],
    ensures
        digits_value(s, 0, j) == digits_value(t, 0, j),
    decreases j,
{
    if j > 0 {
        lemma_digits_value_prefix(s, t, (j - 1) as nat);
    }
}

/// The decimal rendering of a number is a non-empty run of digits whose value is the number.
pub proof fn lemma_decimal_digits(n: nat)
    ensures
        decimal(n).len() >= 1,
        forall|m: int| 0 <= m < decimal(n).len() ==> in_class(#[trigger] decimal(n)[m], CharClass::Digit),
        digits_value(decimal(n), 0, decimal(n).len()) == n,
    decreases n,
{
    let d = decimal(n);
    if n < 10 {
        assert(digit_char(n) as u32 == 48 + n);
        assert(digits_value(d, 0, 1) == digits_value(d, 0, 0) * 10 + digit_value(d[0]));
    } else {
        lemma_decimal_digits(n / 10);
        let p = decimal(n / 10);
        assert(digit_char(n % 10) as u32 == 48 + n % 10);
        assert(d == p.push(digit_char(n % 10)));
        lemma_digits_value_prefix(d, p, p.len());
        assert(digits_value(d, 0, d.len()) == digits_value(d, 0, p.len()) * 10 + digit_value(
            d[p.len() as int],
        ));
    }
}

/// A number written in decimal at `i`, and not followed by a digit, reads back as that
/// number where it is within `max`.
pub proof fn lemma_parse_uint_decimal(s: Seq<char>, i: nat, n: nat, max: nat)
    requires
        i + decimal(n).len() <= s.len(),
        s.subrange(i as int, (i + decimal(n).len()) as int) == decimal(n),
        i + decimal(n).len() == s.len() || !in_class(s[(i + decimal(n).len()) as int], CharClass::Digit),
        n <= max,
    ensures
        parse_uint(s, i, max) == Some((n, i + decimal(n).len())),
{
    let d = decimal(n);
    let e = i + d.len();
    lemma_decimal_digits(n);
    assert forall|j: int| i <= j < e implies in_class(#[trigger] s[j], CharClass::Digit) by {
        assert(s[j] == d[j - i]);
    }
    lemma_scan_run(s, i, e, CharClass::Digit);
    lemma_digits_value_shift(s, i, d.len());
}

/// How an address set is written: `universe/index`, or `universe/start-end`, followed by
/// `|step` where the range has a step.
pub open spec fn address_set_text(v: AddressSetView) -> Seq<char> {
    match v {
        AddressSetView::Single { universe, index } => decimal(universe as nat) + seq!['/']
            + decimal(index as nat),
        AddressSetView::Range(r) => decimal(r.universe as nat) + seq!['/'] + decimal(
            r.start as nat,
        ) + seq!['-'] + decimal(r.end as nat) + match r.step {
            Some(st) => seq!['|'] + decimal(st as nat),
            None => seq![],
        },
    }
}

/// An address set that could be built reads back from its text.
pub open spec fn address_set_wf(v: AddressSetView) -> bool {
    match v {
        AddressSetView::Single { universe, index } => valid_universe(universe as int) && valid_index(
            index as int,
        ),
        AddressSetView::Range(r) => crate::data_structures::address::range_view_wf(r),
    }
}

/// Writing an address set and reading the text back gives the same address set.
pub proof fn lemma_address_set_round_trip(v: AddressSetView)
    requires
        address_set_wf(v),
    ensures
        spec_parse_address_set(address_set_text(v)) == Ok::<AddressSetView, ParseFailure>(v),
{
    let a = address_set_text(v);
    let (u, first) = match v {
        AddressSetView::Single { universe, index } => (universe, index),
        AddressSetView::Range(r) => (r.universe, r.start),
    };
    let du = decimal(u as nat);
    let dx = decimal(first as nat);
    lemma_decimal_digits(u as nat);
    lemma_decimal_digits(first as nat);
    let p = du.len() + 1;
    assert(a.subrange(0, du.len() as int) =~= du);
    assert(a[du.len() as int] == '/');
    lemma_parse_uint_decimal(a, 0, u as nat, u16_max());
    assert(universe_prefix(a) == (u as nat, p));
    assert(a.subrange(p as int, (p + dx.len()) as int) =~= dx);
    let e = p + dx.len();
    match v {
        AddressSetView::Single { universe, index } => {
            assert(a.len() == e);
            lemma_parse_uint_decimal(a, p, first as nat, u16_max());
            assert(range_end(a, e) is None);
            assert(a.subrange(e as int, a.len() as int) =~= Seq::<char>::empty());
        },
        AddressSetView::Range(r) => {
            let dy = decimal(r.end as nat);
            lemma_decimal_digits(r.end as nat);
            assert(a[e as int] == '-');
            lemma_parse_uint_decimal(a, p, first as nat, u16_max());
            assert(a.subrange((e + 1) as int, (e + 1 + dy.len()) as int) =~= dy);
            let f = e + 1 + dy.len();
            match r.step {
                None => {
                    assert(a.len() == f);
                    lemma_parse_uint_decimal(a, e + 1, r.end as nat, u16_max());
                    assert(range_end(a, e) == Some((r.end as nat, f)));
                    assert(range_step(a, f) == (None::<usize>, f));
                },
                Some(st) => {
                    let ds = decimal(st as nat);
                    lemma_decimal_digits(st as nat);
                    assert(a[f as int] == '|');
                    lemma_parse_uint_decimal(a, e + 1, r.end as nat, u16_max());
                    assert(range_end(a, e) == Some((r.end as nat, f)));
                    assert(a.subrange((f + 1) as int, (f + 1 + ds.len()) as int) =~= ds);
                    assert(a.len() == f + 1 + ds.len());
                    lemma_parse_uint_decimal(a, f + 1, st as nat, usize::MAX as nat);
                    assert(range_step(a, f) == (Some(st), a.len() as nat));
                },
            }
        },
    }
}

/// How a level is typed: `o` for 0, `f` for 255, otherwise its value in decimal.
pub open spec fn level_input_text(l: u8) -> Seq<char> {
    if l == 0 {
        seq!['o']
    } else if l == 255 {
        seq!['f']
    } else {
        decimal(l as nat)
    }
}

/// A level typed at `i`, and followed by the end or by `-`, reads back as that level.
pub proof fn lemma_single_level_round_trip(a: Seq<char>, i: nat, l: u8)
    requires
        i + level_input_text(l).len() <= a.len(),
        a.subrange(i as int, (i + level_input_text(l).len()) as int) == level_input_text(l),
        i + level_input_text(l).len() == a.len() || a[(i + level_input_text(l).len()) as int]
            == '-',
    ensures
        parse_single_level(a, i) == Some((l as nat, i + level_input_text(l).len())),
{
    let t = level_input_text(l);
    if l == 0 {
        assert(a[i as int] == t[0]);
    } else if l == 255 {
        assert(a[i as int] == t[0]);
    } else {
        lemma_decimal_digits(l as nat);
        assert(a[i as int] == t[0]);
        assert(in_class(t[0], CharClass::Digit));
        lemma_parse_uint_decimal(a, i, l as nat, 255);
    }
}

/// Typing a level, or two levels joined by `-`, and reading the text back gives the same
/// level set.
pub proof fn lemma_level_set_round_trip(v: LevelSetView)
    ensures
        spec_parse_level_set(
            match v {
                LevelSetView::Single(l) => level_input_text(l),
                LevelSetView::Range(l, m) => level_input_text(l) + seq!['-'] + level_input_text(m),
            },
        ) == Ok::<LevelSetView, ParseFailure>(v),
{
    match v {
        LevelSetView::Single(l) => {
            let a = level_input_text(l);
            assert(a.subrange(0, a.len() as int) =~= a);
            lemma_single_level_round_trip(a, 0, l);
        },
        LevelSetView::Range(l, m) => {
            let tl = level_input_text(l);
            let tm = level_input_text(m);
            let a = tl + seq!['-'] + tm;
            assert(a.subrange(0, tl.len() as int) =~= tl);
            assert(a[tl.len() as int] == '-');
            lemma_single_level_round_trip(a, 0, l);
            assert(a.subrange((tl.len() + 1) as int, a.len() as int) =~= tm);
            lemma_single_level_round_trip(a, tl.len() + 1, m);
        },
    }
}

/// The text of a command's arguments: each after one space.
pub open spec fn args_text(args: Seq<Seq<char>>) -> Seq<char>
    decreases args.len(),
{
    if args.len() == 0 {
        seq![]
    } else {
        seq![' '] + args[0] + args_text(args.drop_first())
    }
}

/// An argument that needs no quotes: not empty, not starting with a double quote, and
/// without white space.
pub open spec fn plain_arg(a: Seq<char>) -> bool {
    &&& a.len() >= 1
    &&& a[0] != '"'
    &&& forall|k: int| 0 <= k < a.len() ==> !is_white_space(#[trigger] a[k])
}

/// Plain arguments written after `p`, each after a space, read back as those arguments.
pub proof fn lemma_arg_list_round_trip(p: Seq<char>, args: Seq<Seq<char>>)
    requires
        forall|k: int| 0 <= k < args.len() ==> plain_arg(#[trigger] args[k]),
    ensures
        parse_arg_list(p + args_text(args), p.len()) == (args, (p + args_text(args)).len()),
    decreases args.len(),
{
    let s = p + args_text(args);
    let i = p.len();
    if args.len() == 0 {
        assert(s =~= p);
        assert(args =~= Seq::<Seq<char>>::empty());
    } else {
        let a0 = args[0];
        let rest = args.drop_first();
        let p1 = p + seq![' '] + a0;
        assert(s =~= p1 + args_text(rest));
        assert(plain_arg(a0));
        assert(s[i as int] == ' ');
        assert(s[i + 1 as int] == a0[0]);
        assert(!is_white_space(a0[0]));
        lemma_scan_run(s, i, i + 1, CharClass::Blank);
        let j = i + 1;
        let e = j + a0.len();
        assert forall|m: int| j <= m < e implies in_class(#[trigger] s[m], CharClass::NotWhiteSpace) by {
            assert(s[m] == a0[m - j]);
        }
        if e < s.len() {
            if rest.len() > 0 {
                assert(s[e as int] == ' ');
            } else {
                assert(s.len() == e);
            }
        }
        lemma_scan_run(s, j, e, CharClass::NotWhiteSpace);
        assert(s.subrange(j as int, e as int) =~= a0);
        assert(parse_arg(s, j) == (a0, e));
        assert forall|k: int| 0 <= k < rest.len() implies plain_arg(#[trigger] rest[k]) by {
            assert(rest[k] == args[k + 1]);
        }
        lemma_arg_list_round_trip(p1, rest);
        assert(p1.len() == e);
        assert(args =~= seq![a0] + rest);
    }
}

/// A command name of letters followed by plain arguments, each after a space, reads back as
/// that name and those arguments.
pub proof fn lemma_args_round_trip(name: Seq<char>, args: Seq<Seq<char>>)
    requires
        name.len() >= 1,
        forall|k: int| 0 <= k < name.len() ==> in_class(#[trigger] name[k], CharClass::Alpha),
        forall|k: int| 0 <= k < args.len() ==> plain_arg(#[trigger] args[k]),
    ensures
        spec_parse_args(name + args_text(args)) == Ok::<(Seq<char>, Seq<Seq<char>>), ParseFailure>(
            (name, args),
        ),
{
    let s = name + args_text(args);
    assert forall|k: int| 0 <= k < name.len() implies in_class(#[trigger] s[k], CharClass::Alpha) by {
        assert(s[k] == name[k]);
    }
    if args.len() > 0 {
        assert(s[name.len() as int] == ' ');
    } else {
        assert(s =~= name);
    }
    lemma_scan_run(s, 0, name.len(), CharClass::Alpha);
    lemma_arg_list_round_trip(name, args);
    assert(s.subrange(0, name.len() as int) =~= name);
}

/// The text of an address set needs no quotes.
pub proof fn lemma_address_set_text_plain(v: AddressSetView)
    ensures
        plain_arg(address_set_text(v)),
{
    let t = address_set_text(v);
    let (u, x) = match v {
        AddressSetView::Single { universe, index } => (universe, index),
        AddressSetView::Range(r) => (r.universe, r.start),
    };
    lemma_decimal_digits(u as nat);
    lemma_decimal_digits(x as nat);
    assert(t[0] == decimal(u as nat)[0]);
    match v {
        AddressSetView::Single { universe, index } => {
            assert forall|k: int| 0 <= k < t.len() implies !is_white_space(#[trigger] t[k]) by {
                let du = decimal(u as nat);
                if k < du.len() {
                    assert(t[k] == du[k]);
                } else if k > du.len() {
                    assert(t[k] == decimal(x as nat)[k - du.len() - 1]);
                }
            }
        },
        AddressSetView::Range(r) => {
            lemma_decimal_digits(r.end as nat);
            let du = decimal(u as nat);
            let dx = decimal(x as nat);
            let dy = decimal(r.end as nat);
            let tail = match r.step {
                Some(st) => seq!['|'] + decimal(st as nat),
                None => seq![],
            };
            if let Some(st) = r.step {
                lemma_decimal_digits(st as nat);
            }
            assert forall|k: int| 0 <= k < tail.len() implies !is_white_space(#[trigger] tail[k]) by {
                if let Some(st) = r.step {
                    if k > 0 {
                        assert(tail[k] == decimal(st as nat)[k - 1]);
                    }
                }
            }
            let head = du + seq!['/'] + dx + seq!['-'] + dy;
            assert(t =~= head + tail);
            assert forall|k: int| 0 <= k < t.len() implies !is_white_space(#[trigger] t[k]) by {
                if k < du.len() {
                    assert(t[k] == du[k]);
                } else if k == du.len() {
                } else if k < du.len() + 1 + dx.len() {
                    assert(t[k] == dx[k - du.len() - 1]);
                } else if k == du.len() + 1 + dx.len() {
                } else if k < head.len() {
                    assert(t[k] == dy[k - du.len() - 2 - dx.len()]);
                } else {
                    assert(t[k] == tail[k - head.len()]);
                }
            }
        },
    }
}

/// How a level set is typed: a level, or two joined by `-`.
pub open spec fn level_set_text(v: LevelSetView) -> Seq<char> {
    match v {
        LevelSetView::Single(l) => level_input_text(l),
        LevelSetView::Range(l, m) => level_input_text(l) + seq!['-'] + level_input_text(m),
    }
}

/// The text of a level set needs no quotes.
pub proof fn lemma_level_set_text_plain(v: LevelSetView)
    ensures
        plain_arg(level_set_text(v)),
{
    let t = level_set_text(v);
    match v {
        LevelSetView::Single(l) => {
            lemma_level_text_plain(l);
        },
        LevelSetView::Range(l, m) => {
            lemma_level_text_plain(l);
            lemma_level_text_plain(m);
            let tl = level_input_text(l);
            assert forall|k: int| 0 <= k < t.len() implies !is_white_space(#[trigger] t[k]) by {
                if k < tl.len() {
                    assert(t[k] == tl[k]);
                } else if k > tl.len() {
                    assert(t[k] == level_input_text(m)[k - tl.len() - 1]);
                }
            }
            assert(t[0] == tl[0]);
        },
    }
}

/// The text of a level needs no quotes.
pub proof fn lemma_level_text_plain(l: u8)
    ensures
        plain_arg(level_input_text(l)),
{
    if l != 0 && l != 255 {
        lemma_decimal_digits(l as nat);
    }
}

/// Typing `set`, an address set and a level set gives the command that sets them.
#[verifier::rlimit(40)]
pub proof fn lemma_set_command_round_trip(v: AddressSetView, l: LevelSetView)
    requires
        address_set_wf(v),
    ensures
        spec_parse_command(
            seq!['s', 'e', 't'] + args_text(seq![address_set_text(v), level_set_text(l)]),
        ) == Ok::<CommandView, ParseFailure>(CommandView::SetAddress { address_set: v, level_set: l }),
{
    let c = seq!['s', 'e', 't'];
    let args = seq![address_set_text(v), level_set_text(l)];
    let s = c + args_text(args);
    lemma_address_set_text_plain(v);
    lemma_level_set_text_plain(l);
    lemma_args_round_trip(c, args);
    reveal_strlit("set");
    assert(c =~= "set"@);
    lemma_address_set_round_trip(v);
    lemma_level_set_round_trip(l);
    let pa = spec_parse_address_set(args[0]);
    let pl = spec_parse_level_set(args[1]);
    assert(pa == Ok::<AddressSetView, ParseFailure>(v));
    assert(pl == Ok::<LevelSetView, ParseFailure>(l));
    assert(spec_parse_args(s) == Ok::<(Seq<char>, Seq<Seq<char>>), ParseFailure>((c, args)));
}

/// Typing `clear` and an address set gives the command that clears it; `clear` alone clears
/// every address of universe 1.
pub proof fn lemma_clear_command_round_trip(v: AddressSetView)
    requires
        address_set_wf(v),
    ensures
        spec_parse_command(seq!['c', 'l', 'e', 'a', 'r'] + args_text(seq![address_set_text(v)]))
            == Ok::<CommandView, ParseFailure>(CommandView::ClearAddress { address_set: v }),
        spec_parse_command(seq!['c', 'l', 'e', 'a', 'r']) == Ok::<CommandView, ParseFailure>(
            CommandView::ClearAddress { address_set: all_of_universe_one() },
        ),
{
    let c = seq!['c', 'l', 'e', 'a', 'r'];
    lemma_address_set_text_plain(v);
    lemma_args_round_trip(c, seq![address_set_text(v)]);
    lemma_args_round_trip(c, seq![]);
    assert(c + args_text(seq![]) =~= c);
    reveal_strlit("set");
    reveal_strlit("clear");
    assert(c =~= "clear"@);
    assert(c != "set"@);
    lemma_address_set_round_trip(v);
}

/// Typing `save` and a path without white space gives the command that saves there; `save`
/// alone saves where the show came from.
pub proof fn lemma_save_command_round_trip(path: Seq<char>)
    requires
        plain_arg(path),
    ensures
        spec_parse_command(seq!['s', 'a', 'v', 'e'] + args_text(seq![path])) == Ok::<
            CommandView,
            ParseFailure,
        >(CommandView::Save { path: Some(path) }),
        spec_parse_command(seq!['s', 'a', 'v', 'e']) == Ok::<CommandView, ParseFailure>(
            CommandView::Save { path: None },
        ),
{
    let c = seq!['s', 'a', 'v', 'e'];
    lemma_args_round_trip(c, seq![path]);
    lemma_args_round_trip(c, seq![]);
    assert(c + args_text(seq![]) =~= c);
    reveal_strlit("set");
    reveal_strlit("clear");
    reveal_strlit("save");
    assert(c =~= "save"@);
    assert(c != "set"@);
    assert(c != "clear"@);
}

/// A level typed as its decimal number, followed by the end or by `-` or `%`, reads as that
/// number at `i`, then goes on after it.
proof fn lemma_decimal_level_at(a: Seq<char>, i: nat, n: nat)
    requires
        n <= 255,
        i + decimal(n).len() <= a.len(),
        a.subrange(i as int, (i + decimal(n).len()) as int) == decimal(n),
        i + decimal(n).len() == a.len() || a[(i + decimal(n).len()) as int] == '-' || a[(i
            + decimal(n).len()) as int] == '%',
    ensures
        parse_uint(a, i, 255) == Some((n, i + decimal(n).len())),
        a[i as int] != 'o' && a[i as int] != 'f',
{
    let t = decimal(n);
    lemma_decimal_digits(n);
    assert(a[i as int] == t[0]);
    assert(in_class(t[0], CharClass::Digit));
    lemma_parse_uint_decimal(a, i, n, 255);
}

/// Every level from 0 to 255 typed as its decimal number reads back as that level, 255
/// included.
pub proof fn lemma_decimal_level_round_trip(n: u8)
    ensures
        spec_parse_level_set(decimal(n as nat)) == Ok::<LevelSetView, ParseFailure>(
            LevelSetView::Single(n),
        ),
{
    let a = decimal(n as nat);
    assert(a.subrange(0, a.len() as int) =~= a);
    lemma_decimal_level_at(a, 0, n as nat);
}

/// Two levels typed as decimal numbers joined by `-`, any from 0 to 255, read back as the
/// range between them.
pub proof fn lemma_decimal_level_range_round_trip(l: u8, m: u8)
    ensures
        spec_parse_level_set(decimal(l as nat) + seq!['-'] + decimal(m as nat)) == Ok::<
            LevelSetView,
            ParseFailure,
        >(LevelSetView::Range(l, m)),
{
    let tl = decimal(l as nat);
    let tm = decimal(m as nat);
    let a = tl + seq!['-'] + tm;
    assert(a.subrange(0, tl.len() as int) =~= tl);
    assert(a[tl.len() as int] == '-');
    lemma_decimal_level_at(a, 0, l as nat);
    assert(a.subrange((tl.len() + 1) as int, a.len() as int) =~= tm);
    lemma_decimal_level_at(a, tl.len() + 1, m as nat);
}

/// A percentage `p%` from 0 to 100 reads as the level nearest to `p` hundredths of 255
/// (halves up); one above 100, up to 255, reads as full.
pub proof fn lemma_percent_level_reads(p: u8)
    ensures
        spec_parse_level_set(decimal(p as nat) + seq!['%']) matches Ok(LevelSetView::Single(l)) && (
        p <= 100 ==> 100 * l <= 255 * p + 50 < 100 * l + 100) && (p > 100 ==> l == 255),
{
    let t = decimal(p as nat);
    let a = t + seq!['%'];
    assert(a.subrange(0, t.len() as int) =~= t);
    assert(a[t.len() as int] == '%');
    lemma_decimal_level_at(a, 0, p as nat);
}

} // verus!
