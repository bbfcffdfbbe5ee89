use vstd::prelude::*;

use crate::controller::universes_in_order;
use crate::data_structures::index::Index;
use crate::data_structures::level::{level_text, Level};
use crate::data_structures::show::{ascending, enumerates_ascending, Show};
use crate::data_structures::CHANNELS_PER_UNIVERSE;
use crate::text::{decimal, decimal_string};
use crate::tui::{Event, KeyCode};

verus! {

broadcast use {
    vstd::std_specs::btree::group_btree_axioms,
    crate::data_structures::level::lemma_level_view_injective,
};

/// Which addresses the tombstones show: all of the universe, or only those set.
#[derive(Copy, Clone, Debug, PartialEq, Eq, Structural)]
pub enum Filter {
    All,
    Active,
}

/// How the tombstones show levels: as values, or as percentages of full.
#[derive(Copy, Clone, Debug, PartialEq, Eq, Structural)]
pub enum Mode {
    Decimal,
    Percentage,
}

impl Filter {
    /// The filter after this one.
    pub fn next(self) -> (res: Filter)
        ensures
            res == (if self == Filter::All {
                Filter::Active
            } else {
                Filter::All
            }),
    {
        match self {
            Filter::All => Filter::Active,
            Filter::Active => Filter::All,
        }
    }

    /// The filter's name.
    pub fn to_string(&self) -> (res: String)
        ensures
            res@ == (if *self == Filter::All {
                "All"@
            } else {
                "Active"@
            }),
    {
        match self {
            Filter::All => "All".to_owned(),
            Filter::Active => "Active".to_owned(),
        }
    }
}

impl Mode {
    /// The mode after this one.
    pub fn next(self) -> (res: Mode)
        ensures
            res == (if self == Mode::Decimal {
                Mode::Percentage
            } else {
                Mode::Decimal
            }),
    {
        match self {
            Mode::Decimal => Mode::Percentage,
            Mode::Percentage => Mode::Decimal,
        }
    }

    /// The mode's name.
    pub fn to_string(&self) -> (res: String)
        ensures
            res@ == (if *self == Mode::Decimal {
                "Decimal"@
            } else {
                "Percentage"@
            }),
    {
        match self {
            Mode::Decimal => "Decimal".to_owned(),
            Mode::Percentage => "Percentage".to_owned(),
        }
    }
}

/// The grid of "tombstones" that shows the level of each address of one universe.
#[derive(Copy, Clone, Debug, PartialEq, Eq, Structural)]
pub struct TombstonesWidget {
    pub universe_index: usize,
    pub mode: Mode,
    pub filter: Filter,
    pub scroll: usize,
}

/// A key press that the tombstones cannot answer with `universe_count` universes: F1 or F2
/// where there are none, or where stepping the universe would overflow.
pub open spec fn tombstones_key_fails(w: TombstonesWidget, event: Event, universe_count: nat) -> bool {
    match event {
        Event::Key(k) => k.modifiers_none && k.press && match k.code {
            KeyCode::F(1) => universe_count == 0 || w.universe_index + universe_count
                > usize::MAX,
            KeyCode::F(2) => universe_count == 0 || w.universe_index + 1 > usize::MAX,
            _ => false,
        },
        Event::Other => false,
    }
}

/// The tombstones after `event`: PageDown and PageUp scroll by one row, F1 and F2 step to
/// the previous and next universe (round the end), F3 changes the filter and F4 the mode.
pub open spec fn tombstones_step(w: TombstonesWidget, event: Event, universe_count: nat) -> TombstonesWidget {
    match event {
        Event::Key(k) => if !k.modifiers_none || !k.press {
            w
        } else {
            match k.code {
                KeyCode::PageDown => TombstonesWidget {
                    scroll: if w.scroll == usize::MAX {
                        w.scroll
                    } else {
                        (w.scroll + 1) as usize
                    },
                    ..w
                },
                KeyCode::PageUp => TombstonesWidget {
                    scroll: if w.scroll == 0 {
                        0
                    } else {
                        (w.scroll - 1) as usize
                    },
                    ..w
                },
                KeyCode::F(1) => TombstonesWidget {
                    universe_index: ((w.universe_index + universe_count - 1) % (
                    universe_count as int)) as usize,
                    ..w
                },
                KeyCode::F(2) => TombstonesWidget {
                    universe_index: ((w.universe_index + 1) % (universe_count as int)) as usize,
                    ..w
                },
                KeyCode::F(3) => TombstonesWidget {
                    filter: if w.filter == Filter::All {
                        Filter::Active
                    } else {
                        Filter::All
                    },
                    ..w
                },
                KeyCode::F(4) => TombstonesWidget {
                    mode: if w.mode == Mode::Decimal {
                        Mode::Percentage
                    } else {
                        Mode::Decimal
                    },
                    ..w
                },
                _ => w,
            }
        },
        Event::Other => w,
    }
}

/// The addresses of `u` up to index `n` that have a level set, in order of index, each with
/// its level.
pub open spec fn active_upto(m: Map<(u16, u16), u8>, u: u16, n: nat) -> Seq<(u16, Option<u8>)>
    decreases n,
{
    if n == 0 {
        seq![]
    } else {
        let prev = active_upto(m, u, (n - 1) as nat);
        if m.contains_key((u, n as u16)) {
            prev.push((n as u16, Some(m[(u, n as u16)])))
        } else {
            prev
        }
    }
}

/// Every index of universe `u` up to `n`, each with its level where one is set.
pub open spec fn all_upto(m: Map<(u16, u16), u8>, u: u16, n: nat) -> Seq<(u16, Option<u8>)> {
    Seq::new(
        n,
        |k: int|
            (
                (k + 1) as u16,
                if m.contains_key((u, (k + 1) as u16)) {
                    Some(m[(u, (k + 1) as u16)])
                } else {
                    None
                },
            ),
    )
}

/// The (index, level) numbers of a list of tombstones.
pub open spec fn stones_view(v: Seq<(Index, Option<Level>)>) -> Seq<(u16, Option<u8>)> {
    v.map_values(
        |p: (Index, Option<Level>)|
            (
                p.0@,
                match p.1 {
                    Some(l) => Some(l@),
                    None => None,
                },
            ),
    )
}

/// `l` as a whole percentage of full, rounded to the nearest.
pub open spec fn level_percent(l: u8) -> nat {
    ((l as nat) * 200 + 255) / 510
}

/// The text of a tombstone: `-` where no level is set, else the level as a value or as a
/// percentage, by mode.
pub open spec fn stone_text(mode: Mode, level: Option<u8>) -> Seq<char> {
    match level {
        None => "-"@,
        Some(l) => if mode == Mode::Decimal {
            level_text(l)
        } else {
            decimal(level_percent(l)) + "%"@
        },
    }
}

/// The number of rows needed for `count` tombstones `columns` to a row.
pub open spec fn rows_for(count: nat, columns: nat) -> nat
    recommends
        columns > 0,
{
    ((count + columns - 1) / (columns as int)) as nat
}

/// A sequence that holds a set's numbers in increasing order is as long as the set.
pub proof fn lemma_ascending_len(q: Seq<u16>, s: Set<u16>)
    requires
        enumerates_ascending(q, s),
    ensures
        q.len() == s.len(),
{
    assert(q.no_duplicates()) by {
        assert forall|i: int, j: int| 0 <= i < q.len() && 0 <= j < q.len() && i != j implies q[i]
            != q[j] by {
            if i < j {
                assert(q[i] < q[j]);
            } else {
                assert(q[j] < q[i]);
            }
        }
    }
    q.unique_seq_to_set();
}

/// The colour a tombstone's level shows in: red at 0, green at 255, blue between, grey
/// where no level is set.
#[derive(Copy, Clone, Debug, PartialEq, Eq, Structural)]
pub enum StoneColor {
    Red,
    Green,
    Blue,
    Gray,
}

/// The colour of a tombstone with `level`.
pub open spec fn stone_color_of(level: Option<u8>) -> StoneColor {
    match level {
        Some(l) => if l == 0 {
            StoneColor::Red
        } else if l == 255 {
            StoneColor::Green
        } else {
            StoneColor::Blue
        },
        None => StoneColor::Gray,
    }
}

/// The colour of a tombstone with `level`; see [`stone_color_of`].
pub fn stone_color(level: Option<Level>) -> (res: StoneColor)
    ensures
        res == stone_color_of(
            match level {
                Some(l) => Some(l@),
                None => None,
            },
        ),
{
    match level {
        Some(l) => {
            let v = l.get();
            if v == 0 {
                StoneColor::Red
            } else if v == 255 {
                StoneColor::Green
            } else {
                StoneColor::Blue
            }
        },
        None => StoneColor::Gray,
    }
}

/// The tombstones on a page of `rows` rows of `columns`, scrolled down by `scroll` rows: those
/// from position `scroll * columns` on, as many as fill the page or as there are, in reading
/// order. The `k`-th of them goes in row `k / columns`, column `k % columns`.
pub open spec fn page_stones<T>(stones: Seq<T>, scroll: int, rows: int, columns: int) -> Seq<T> {
    let first = scroll * columns;
    if rows == 0 || columns == 0 || first >= stones.len() {
        seq![]
    } else {
        let end = first + rows * columns;
        stones.subrange(first, if end < stones.len() { end } else { stones.len() as int })
    }
}

/// The tombstones at start: the first universe, values, only set addresses, at the top.
pub open spec fn initial_tombstones() -> TombstonesWidget {
    TombstonesWidget { universe_index: 0, mode: Mode::Decimal, filter: Filter::Active, scroll: 0 }
}

impl TombstonesWidget {
    /// The first universe, every address shown as a value, only set addresses, at the top.
    pub fn new() -> (res: Self)
        ensures
            res == initial_tombstones(),
    {
        TombstonesWidget { universe_index: 0, mode: Mode::Decimal, filter: Filter::Active, scroll: 0 }
    }

    /// Handles a key press; see [`tombstones_step`].
    pub fn handle_event(&mut self, event: &Event, show: &Show)
        requires
            !tombstones_key_fails(*old(self), *event, show.universes@.len()),
        ensures
            *final(self) == tombstones_step(*old(self), *event, show.universes@.len()),
    {
        let code = match event {
            Event::Key(k) => {
                if !k.modifiers_none || !k.press {
                    return ;
                }
                k.code
            },
            Event::Other => {
                return ;
            },
        };
        assert(vstd::std_specs::btree::key_obeys_cmp_spec::<u16>()) by {
            broadcast use vstd::laws_cmp::group_laws_cmp;
        }
        match code {
            KeyCode::PageDown => {
                self.scroll = self.scroll.saturating_add(1);
            },
            KeyCode::PageUp => {
                self.scroll = self.scroll.saturating_sub(1);
            },
            KeyCode::F(1) => {
                let n = show.universes.len();
                self.universe_index = (self.universe_index + n - 1) % n;
            },
            KeyCode::F(2) => {
                let n = show.universes.len();
                self.universe_index = (self.universe_index + 1) % n;
            },
            KeyCode::F(3) => {
                self.filter = self.filter.next();
            },
            KeyCode::F(4) => {
                self.mode = self.mode.next();
            },
            _ => {},
        }
    }

    /// The tombstones to show for the selected universe: every index of it with its level,
    /// or only the set ones, by filter, in order of index.
    pub fn levels(&self, show: &Show) -> (res: Vec<(Index, Option<Level>)>)
        requires
            show.wf(),
            self.universe_index < show.universes@.len(),
        ensures
            ({
                let u = ascending(show.universes@)[self.universe_index as int];
                let m = show.runtime.set_addresses@;
                stones_view(res@) == if self.filter == Filter::All {
                    all_upto(m, u, CHANNELS_PER_UNIVERSE as nat)
                } else {
                    active_upto(m, u, CHANNELS_PER_UNIVERSE as nat)
                }
            }),
    {
        let order = universes_in_order(&show.universes);
        proof {
            lemma_ascending_len(order@, show.universes@);
        }
        let u = order[self.universe_index];
        let ghost m = show.runtime.set_addresses@;
        let mut res: Vec<(Index, Option<Level>)> = Vec::new();
        let mut i: u16 = 1;
        while i as usize <= CHANNELS_PER_UNIVERSE
            invariant
                1 <= i <= CHANNELS_PER_UNIVERSE + 1,
                m == show.runtime.set_addresses@,
                stones_view(res@) == if self.filter == Filter::All {
                    all_upto(m, u, (i - 1) as nat)
                } else {
                    active_upto(m, u, (i - 1) as nat)
                },
            decreases CHANNELS_PER_UNIVERSE + 1 - i,
        {
            let ghost before = res@;
            let found = show.runtime.set_addresses.get(&(u, i));
            let level = match found {
                Some(v) => Some(Level::new(*v)),
                None => None,
            };
            match self.filter {
                Filter::All => {
                    res.push((Index::from_valid(i), level));
                    proof {
                        assert(stones_view(res@) =~= stones_view(before).push(
                            (i, if m.contains_key((u, i)) { Some(m[(u, i)]) } else { None }),
                        ));
                        assert(all_upto(m, u, i as nat) =~= all_upto(m, u, (i - 1) as nat).push(
                            (i, if m.contains_key((u, i)) { Some(m[(u, i)]) } else { None }),
                        ));
                    }
                },
                Filter::Active => {
                    if level.is_some() {
                        res.push((Index::from_valid(i), level));
                        proof {
                            assert(stones_view(res@) =~= stones_view(before).push(
                                (i, Some(m[(u, i)])),
                            ));
                        }
                    }
                },
            }
            i = i + 1;
        }
        res
    }

    /// The tombstones of `levels` that the page shows: `rows` rows of `columns`, from the
    /// scrolled-to row on; see [`page_stones`].
    pub fn page(&self, levels: &Vec<(Index, Option<Level>)>, rows: usize, columns: usize) -> (res:
        Vec<(Index, Option<Level>)>)
        requires
            rows > 0 && columns > 0 ==> self.scroll * columns <= usize::MAX,
        ensures
            res@ == page_stones(levels@, self.scroll as int, rows as int, columns as int),
    {
        let mut res: Vec<(Index, Option<Level>)> = Vec::new();
        if rows == 0 || columns == 0 {
            return res;
        }
        let first = self.scroll * columns;
        let len = levels.len();
        if first >= len {
            return res;
        }
        let avail = len - first;
        proof {
            let r = rows as int;
            let c = columns as int;
            let a = avail as int;
            if r <= a / c {
                assert(r * c <= a) by (nonlinear_arith)
                    requires
                        r <= a / c,
                        c > 0,
                        a >= 0,
                ;
            } else {
                assert(r * c > a) by (nonlinear_arith)
                    requires
                        r > a / c,
                        c > 0,
                        a >= 0,
                ;
            }
        }
        let take = if rows <= avail / columns {
            rows * columns
        } else {
            avail
        };
        let ghost want = page_stones(levels@, self.scroll as int, rows as int, columns as int);
        assert(want =~= levels@.subrange(first as int, (first + take) as int));
        let mut k: usize = 0;
        while k < take
            invariant
                k <= take,
                first + take <= levels@.len(),
                levels@.len() <= usize::MAX,
                res@ =~= levels@.subrange(first as int, (first + k) as int),
            decreases take - k,
        {
            res.push(levels[first + k]);
            k = k + 1;
        }
        res
    }

    /// Keeps the scroll within the rows there are: with `count` tombstones `columns` to a
    /// row and `page_rows` rows on a page, the scroll goes no further than the last page.
    /// Gives the furthest scroll.
    pub fn clamp_scroll(&mut self, count: usize, columns: usize, page_rows: usize) -> (res: usize)
        requires
            columns > 0,
        ensures
            res == (if rows_for(count as nat, columns as nat) > page_rows {
                rows_for(count as nat, columns as nat) - page_rows
            } else {
                0
            }),
            final(self).scroll == (if old(self).scroll > res {
                res
            } else {
                old(self).scroll
            }),
            final(self).universe_index == old(self).universe_index,
            final(self).mode == old(self).mode,
            final(self).filter == old(self).filter,
    {
        assert(count % columns != 0 ==> count / columns < usize::MAX) by (nonlinear_arith)
            requires
                columns > 0,
        {
            if count % columns != 0 {
                assert(columns >= 2);
                assert(count == columns * (count / columns) + count % columns);
            }
        }
        let max_rows = count / columns + if count % columns == 0 {
            0
        } else {
            1
        };
        proof {
            let c = columns as int;
            let q = count as int / c;
            let r = count as int % c;
            vstd::arithmetic::div_mod::lemma_fundamental_div_mod(count as int, c);
            if r == 0 {
                vstd::arithmetic::div_mod::lemma_div_multiples_vanish_fancy(q, c - 1, c);
                assert(count + c - 1 == c * q + (c - 1));
            } else {
                vstd::arithmetic::div_mod::lemma_div_multiples_vanish_fancy(q + 1, r - 1, c);
                assert(c * (q + 1) == c * q + c) by (nonlinear_arith);
                assert(count + c - 1 == c * (q + 1) + (r - 1));
            }
        }
        let max_scroll = max_rows.saturating_sub(page_rows);
        if self.scroll > max_scroll {
            self.scroll = max_scroll;
        }
        max_scroll
    }

    /// The selected universe's number, or `-` where there is no such universe.
    pub fn universe_label(&self, show: &Show) -> (res: String)
        ensures
            self.universe_index < show.universes@.len() ==> res@ == decimal(
                ascending(show.universes@)[self.universe_index as int] as nat,
            ),
            self.universe_index >= show.universes@.len() ==> res@ == "-"@,
    {
        let order = universes_in_order(&show.universes);
        proof {
            lemma_ascending_len(order@, show.universes@);
        }
        if self.universe_index < order.len() {
            decimal_string(order[self.universe_index] as u64)
        } else {
            "-".to_owned()
        }
    }

    /// The text of a tombstone with `level`; see [`stone_text`].
    pub fn stone_text(&self, level: Option<Level>) -> (res: String)
        ensures
            res@ == stone_text(
                self.mode,
                match level {
                    Some(l) => Some(l@),
                    None => None,
                },
            ),
    {
        match level {
            None => "-".to_owned(),
            Some(l) => match self.mode {
                Mode::Decimal => l.to_string(),
                Mode::Percentage => {
                    let p = (l.get() as u64 * 200 + 255) / 510;
                    let mut s = decimal_string(p);
                    s.append("%");
                    s
                },
            },
        }
    }
}

impl Default for TombstonesWidget {
    fn default() -> (res: Self)
        ensures
            res == initial_tombstones(),
    {
        Self::new()
    }
}

/// The plain press of `code`.
pub open spec fn press(code: KeyCode) -> Event {
    Event::Key(crate::tui::KeyEvent { code, modifiers_none: true, press: true })
}

/// F3 twice, or F4 twice, leaves the tombstones as they were.
pub proof fn lemma_toggle_twice(w: TombstonesWidget, n: nat)
    ensures
        tombstones_step(tombstones_step(w, press(KeyCode::F(3)), n), press(KeyCode::F(3)), n) == w,
        tombstones_step(tombstones_step(w, press(KeyCode::F(4)), n), press(KeyCode::F(4)), n) == w,
{
}

/// F1 after F2 comes back to the universe that was shown.
pub proof fn lemma_previous_undoes_next(w: TombstonesWidget, n: nat)
    requires
        w.universe_index < n,
        n <= usize::MAX,
    ensures
        tombstones_step(tombstones_step(w, press(KeyCode::F(2)), n), press(KeyCode::F(1)), n) == w,
{
    let i = w.universe_index as int;
    let j = (i + 1) % (n as int);
    if i + 1 == n {
        vstd::arithmetic::div_mod::lemma_mod_self_0(n as int);
        assert(j == 0);
        vstd::arithmetic::div_mod::lemma_small_mod((n - 1) as nat, n);
        assert((j + n - 1) % (n as int) == i);
    } else {
        vstd::arithmetic::div_mod::lemma_small_mod((i + 1) as nat, n);
        assert(j == i + 1);
        vstd::arithmetic::div_mod::lemma_mod_add_multiples_vanish(i, n as int);
        vstd::arithmetic::div_mod::lemma_small_mod(i as nat, n);
        assert((j + n - 1) % (n as int) == i);
    }
}

/// PageUp after PageDown comes back to the same scroll.
pub proof fn lemma_page_up_undoes_page_down(w: TombstonesWidget, n: nat)
    requires
        w.scroll < usize::MAX,
    ensures
        tombstones_step(tombstones_step(w, press(KeyCode::PageDown), n), press(KeyCode::PageUp), n)
            == w,
{
}

/// The tombstones of the Active filter up to index `n` are exactly the set addresses of
/// universe `u` up to `n`, whatever level they hold (0 included), each with its level, in
/// increasing order of index.
pub proof fn lemma_active_lists_every_set_address(m: Map<(u16, u16), u8>, u: u16, n: nat)
    requires
        n <= u16::MAX,
    ensures
        forall|i: u16|
            1 <= i <= n && m.contains_key((u, i)) ==> active_upto(m, u, n).contains(
                (i, Some(#[trigger] m[(u, i)])),
            ),
        forall|k: int|
            0 <= k < active_upto(m, u, n).len() ==> {
                let e = #[trigger] active_upto(m, u, n)[k];
                &&& 1 <= e.0 <= n
                &&& m.contains_key((u, e.0))
                &&& e.1 == Some(m[(u, e.0)])
            },
        forall|a: int, b: int|
            0 <= a < b < active_upto(m, u, n).len() ==> (#[trigger] active_upto(m, u, n)[a]).0
                < (#[trigger] active_upto(m, u, n)[b]).0,
    decreases n,
{
    if n > 0 {
        let p = (n - 1) as nat;
        lemma_active_lists_every_set_address(m, u, p);
        let prev = active_upto(m, u, p);
        let s = active_upto(m, u, n);
        assert forall|i: u16| 1 <= i <= n && m.contains_key((u, i)) implies s.contains(
            (i, Some(#[trigger] m[(u, i)])),
        ) by {
            if i < n {
                let k = choose|k: int| 0 <= k < prev.len() && prev[k] == (i, Some(m[(u, i)]));
                assert(s[k] == prev[k]);
            } else {
                assert(s[prev.len() as int] == (i, Some(m[(u, i)])));
            }
        }
        assert forall|k: int| 0 <= k < s.len() implies {
            let e = #[trigger] s[k];
            &&& 1 <= e.0 <= n
            &&& m.contains_key((u, e.0))
            &&& e.1 == Some(m[(u, e.0)])
        } by {
            if k < prev.len() {
                assert(s[k] == prev[k]);
            }
        }
        assert forall|a: int, b: int| 0 <= a < b < s.len() implies (#[trigger] s[a]).0
            < (#[trigger] s[b]).0 by {
            assert(s[a] == prev[a]);
            if b < prev.len() {
                assert(s[b] == prev[b]);
            }
        }
    }
}

} // verus!
