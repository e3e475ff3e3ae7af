//! Appearance settings and per-condition color tables.

use vstd::prelude::*;
use crate::geom::Side;
use crate::scale::Hsva;

verus! {

/// Colors keyed by condition label, with a declared color for every label
/// that has no entry of its own.
pub struct ColorTable {
    pub default: Hsva,
    pub entries: Vec<(String, Hsva)>,
}

pub open spec fn entry_keys(e: Seq<(String, Hsva)>) -> Seq<Seq<char>> {
    e.map_values(|p: (String, Hsva)| p.0@)
}

/// The color of the first entry keyed `key`, else the default.
pub open spec fn lookup_spec(t: ColorTable, key: Seq<char>) -> Hsva {
    let ks = entry_keys(t.entries@);
    if exists|i: int| 0 <= i < ks.len() && ks[i] == key {
        t.entries@[choose|i: int|
            0 <= i < ks.len() && ks[i] == key && forall|k: int| 0 <= k < i ==> ks[k] != key].1
    } else {
        t.default
    }
}

/// The key under which a condition's colors are kept: the label, or the
/// empty label for data that applies to every condition.
pub open spec fn key_of(c: Option<String>) -> Seq<char> {
    match c {
        Some(s) => s@,
        None => Seq::empty(),
    }
}

impl ColorTable {
    pub open spec fn wf(&self) -> bool {
        &&& self.default.wf()
        &&& forall|i: int| 0 <= i < self.entries@.len() ==> (#[trigger] self.entries@[i]).1.wf()
    }

    /// A table with no entries.
    pub fn new(default: Hsva) -> (r: ColorTable)
        ensures
            r.default == default,
            r.entries@.len() == 0,
    {
        ColorTable { default, entries: Vec::new() }
    }

    /// The color kept for `key`, or the declared default.
    pub fn lookup(&self, key: &String) -> (r: Hsva)
        requires
            self.wf(),
        ensures
            r == lookup_spec(*self, key@),
            r.wf(),
    {
        let ghost ks = entry_keys(self.entries@);
        let mut i: usize = 0;
        while i < self.entries.len()
            invariant
                0 <= i <= self.entries@.len(),
                self.wf(),
                ks == entry_keys(self.entries@),
                forall|k: int| 0 <= k < i ==> ks[k] != key@,
            decreases self.entries@.len() - i,
        {
            if self.entries[i].0 == *key {
                proof {
                    assert(ks[i as int] == key@);
                    let c = choose|j: int|
                        0 <= j < ks.len() && ks[j] == key@ && forall|k: int| 0 <= k < j ==> ks[k] != key@;
                    assert(0 <= c < ks.len() && ks[c] == key@);
                    if c < i {
                        assert(ks[c] != key@);
                    }
                    if c > i {
                        assert(ks[i as int] != key@);
                    }
                    assert(self.entries@[i as int].1.wf());
                }
                return self.entries[i].1;
            }
            i += 1;
        }
        proof {
            assert(!exists|k: int| 0 <= k < ks.len() && ks[k] == key@);
        }
        self.default
    }

    /// The color kept for a condition (the empty label when there is none).
    pub fn lookup_condition(&self, c: &Option<String>) -> (r: Hsva)
        requires
            self.wf(),
        ensures
            r == lookup_spec(*self, key_of(*c)),
            r.wf(),
    {
        match c {
            Some(s) => self.lookup(s),
            None => self.lookup(&String::new()),
        }
    }
}

/// The index of the entry for `key` in `table`, after adding one with the
/// default color when there was none, so that the color of a condition can
/// be edited in place.
pub fn or_color(key: &String, table: &mut ColorTable) -> (r: usize)
    requires
        old(table).wf(),
    ensures
        final(table).wf(),
        final(table).default == old(table).default,
        r < final(table).entries@.len(),
        entry_keys(final(table).entries@)[r as int] == key@,
        lookup_spec(*final(table), key@) == lookup_spec(*old(table), key@),
        entry_keys(old(table).entries@).contains(key@) ==> final(table).entries@ == old(table).entries@,
        !entry_keys(old(table).entries@).contains(key@) ==> final(table).entries@ == old(table).entries@.push(
            (final(table).entries@.last().0, old(table).default),
        ) && r == old(table).entries@.len(),
{
    let ghost ks = entry_keys(table.entries@);
    let mut i: usize = 0;
    while i < table.entries.len()
        invariant
            0 <= i <= table.entries@.len(),
            ks == entry_keys(table.entries@),
            *table == *old(table),
            table.wf(),
            forall|k: int| 0 <= k < i ==> ks[k] != key@,
        decreases table.entries@.len() - i,
    {
        if table.entries[i].0 == *key {
            proof {
                assert(ks[i as int] == key@);
                let c = choose|j: int|
                    0 <= j < ks.len() && ks[j] == key@ && forall|k: int| 0 <= k < j ==> ks[k] != key@;
                assert(0 <= c < ks.len() && ks[c] == key@);
                if c < i {
                    assert(ks[c] != key@);
                }
                if c > i {
                    assert(ks[i as int] != key@);
                }
            }
            return i;
        }
        i += 1;
    }
    proof {
        assert(!ks.contains(key@)) by {
            if ks.contains(key@) {
                let k = choose|k: int| 0 <= k < ks.len() && ks[k] == key@;
                assert(ks[k] != key@);
            }
        }
    }
    let d = table.default;
    table.entries.push((key.clone(), d));
    proof {
        let ks2 = entry_keys(table.entries@);
        assert(ks2 =~= ks.push(key@));
        assert(ks2[ks.len() as int] == key@);
        let c = choose|j: int|
            0 <= j < ks2.len() && ks2[j] == key@ && forall|k: int| 0 <= k < j ==> ks2[k] != key@;
        assert(0 <= c < ks2.len() && ks2[c] == key@ && forall|k: int| 0 <= k < c ==> ks2[k] != key@) by {
            assert(0 <= ks.len() < ks2.len() && ks2[ks.len() as int] == key@ && forall|k: int| 0 <= k < ks.len() ==> ks2[k] != key@);
        }
        if c < ks.len() {
            assert(ks2[c] == ks[c]);
        }
        assert(c == ks.len());
    }
    i
}

/// Appearance settings: scale bounds and colors of each channel, target
/// heights and colors of side plots, and the active condition.
pub struct UiState {
    pub min_reaction: i64,
    pub max_reaction: i64,
    pub zero_white: bool,
    pub min_reaction_color: Hsva,
    pub max_reaction_color: Hsva,
    pub min_metabolite: i64,
    pub max_metabolite: i64,
    pub min_metabolite_color: Hsva,
    pub max_metabolite_color: Hsva,
    pub max_left: u64,
    pub max_right: u64,
    pub max_top: u64,
    pub color_left: ColorTable,
    pub color_right: ColorTable,
    pub color_top: ColorTable,
    pub condition: String,
    pub conditions: Vec<String>,
    pub save_path: String,
    pub map_path: String,
    pub data_path: String,
}

impl UiState {
    pub open spec fn wf(&self) -> bool {
        &&& self.min_reaction_color.wf()
        &&& self.max_reaction_color.wf()
        &&& self.min_metabolite_color.wf()
        &&& self.max_metabolite_color.wf()
        &&& self.color_left.wf()
        &&& self.color_right.wf()
        &&& self.color_top.wf()
    }

    pub open spec fn side_table(&self, side: Side) -> ColorTable {
        match side {
            Side::Left => self.color_left,
            Side::Right => self.color_right,
            Side::Up => self.color_top,
        }
    }

    pub open spec fn target_height(&self, side: Side) -> u64 {
        match side {
            Side::Left => self.max_left,
            Side::Right => self.max_right,
            Side::Up => self.max_top,
        }
    }

    /// The fill color of side plots at `side` for a condition.
    pub fn side_color(&self, side: Side, c: &Option<String>) -> (r: Hsva)
        requires
            self.wf(),
        ensures
            r == lookup_spec(self.side_table(side), key_of(*c)),
            r.wf(),
    {
        match side {
            Side::Left => self.color_left.lookup_condition(c),
            Side::Right => self.color_right.lookup_condition(c),
            Side::Up => self.color_top.lookup_condition(c),
        }
    }

    /// The height that the tallest bar of a side plot at `side` is scaled to.
    pub fn side_height(&self, side: Side) -> (r: u64)
        ensures
            r == self.target_height(side),
    {
        match side {
            Side::Left => self.max_left,
            Side::Right => self.max_right,
            Side::Up => self.max_top,
        }
    }
}

impl Default for UiState {
    /// Escher's default palette, widths and radii between 20 and 60, side
    /// plots 100 units tall, and no condition selected yet.
    fn default() -> (r: UiState)
        ensures
            r.wf(),
            r.min_reaction == 20 && r.max_reaction == 60,
            r.min_metabolite == 20 && r.max_metabolite == 60,
            r.max_left == 100 && r.max_right == 100 && r.max_top == 100,
            !r.zero_white,
            r.min_reaction_color == (Hsva { h: 2162, s: 293, v: 910, a: 1000 }),
            r.max_reaction_color == (Hsva { h: 2162, s: 770, v: 718, a: 1000 }),
            r.min_metabolite_color == (Hsva { h: 289, s: 770, v: 718, a: 1000 }),
            r.max_metabolite_color == (Hsva { h: 288, s: 392, v: 729, a: 1000 }),
            r.color_left.default == (Hsva { h: 108, s: 381, v: 855, a: 486 }),
            r.color_right.default == (Hsva { h: 1042, s: 534, v: 808, a: 486 }),
            r.color_top.default == (Hsva { h: 2598, s: 380, v: 847, a: 486 }),
            r.color_left.entries@.len() == 0,
            r.color_right.entries@.len() == 0,
            r.color_top.entries@.len() == 0,
            r.condition@.len() == 0,
            r.conditions@.len() == 1 && r.conditions@[0]@.len() == 0,
    {
        let mut conditions: Vec<String> = Vec::new();
        conditions.push(String::new());
        UiState {
            min_reaction: 20,
            max_reaction: 60,
            zero_white: false,
            min_reaction_color: Hsva { h: 2162, s: 293, v: 910, a: 1000 },
            max_reaction_color: Hsva { h: 2162, s: 770, v: 718, a: 1000 },
            min_metabolite: 20,
            max_metabolite: 60,
            min_metabolite_color: Hsva { h: 289, s: 770, v: 718, a: 1000 },
            max_metabolite_color: Hsva { h: 288, s: 392, v: 729, a: 1000 },
            max_left: 100,
            max_right: 100,
            max_top: 100,
            color_left: ColorTable::new(Hsva { h: 108, s: 381, v: 855, a: 486 }),
            color_right: ColorTable::new(Hsva { h: 1042, s: 534, v: 808, a: 486 }),
            color_top: ColorTable::new(Hsva { h: 2598, s: 380, v: 847, a: 486 }),
            condition: String::new(),
            conditions,
            save_path: "this_map.json".to_owned(),
            map_path: "my_map.json".to_owned(),
            data_path: "my_data.metabolism.json".to_owned(),
        }
    }
}

} // verus!
