use vstd::prelude::*;
use std::collections::BTreeMap;
use vstd::std_specs::cmp::OrdSpec;
use vstd::std_specs::iter::IteratorSpec;

use crate::iv::{iv_all, iv_at, iv_index, lemma_iv_at_roundtrip, IV, IV_COUNT};

verus! {

/// Lowest level of a ranking, counted in half levels (level 1).
pub const MIN_HALF_LEVEL: u32 = 2;

/// Highest level of a ranking, counted in half levels (level 50).
pub const MAX_HALF_LEVEL: u32 = 100;

/// Number of levels from 1 to 50 in steps of one half.
pub const LEVEL_COUNT: usize = 99;

/// Position of a level, counted in half levels, in the table of levels that
/// starts at level 1: level 1 is at 0, level 1.5 at 1, level 50 at 98.
pub fn get_level(half_level: u32) -> (index: usize)
    requires
        MIN_HALF_LEVEL <= half_level,
    ensures
        index == half_level - 2,
{
    let index: u32 = half_level - MIN_HALF_LEVEL;
    index as usize
}

/// A combination of individual values placed at a level (in half levels),
/// with its combat power there.
#[derive(Debug, Clone, Copy, PartialEq, Eq, Structural)]
pub struct PvpIV {
    pub iv: IV,
    pub level: u32,
    pub cp: u16,
}

/// An exact quotient of two integers, `numerator / denominator`, as the
/// percentage of a ranking is defined.
#[derive(Debug, Clone, Copy, PartialEq, Eq, Structural)]
pub struct Ratio {
    pub numerator: u32,
    pub denominator: u32,
}

/// The quotient 0 / 1.
pub open spec fn zero_ratio() -> Ratio {
    Ratio { numerator: 0, denominator: 1 }
}

/// One place of a ranking: its rank, its percentage and the combinations of
/// individual values that hold it. In an ordered ranking the rank is the stat
/// product shared by the combinations; in the answer for one Pokémon it is
/// the position (from 1) of that place.
#[derive(Debug)]
pub struct Response {
    pub rank: u32,
    pub percentage: Ratio,
    pub ivs: Vec<PvpIV>,
}

/// What a place is: rank, percentage and combinations.
pub type ResponseView = (u32, Ratio, Seq<PvpIV>);

impl View for Response {
    type V = ResponseView;

    open spec fn view(&self) -> ResponseView {
        (self.rank, self.percentage, self.ivs@)
    }
}

/// Combat power and stat product of every combination of individual values
/// at every level from 1 to 50, for the base stats of one Pokémon.
/// `cp[i][j]` and `value[i][j]` belong to the combination `iv_at(i)` at half
/// level `j + 2`.
pub struct LevelTable {
    pub cp: Vec<Vec<u16>>,
    pub value: Vec<Vec<u32>>,
}

impl LevelTable {
    /// Both tables have a row for each of the 4096 combinations and a column
    /// for each of the 99 levels.
    pub open spec fn wf(&self) -> bool {
        &&& self.cp@.len() == IV_COUNT
        &&& self.value@.len() == IV_COUNT
        &&& forall|i: int| 0 <= i < IV_COUNT ==> #[trigger] self.cp@[i]@.len() == LEVEL_COUNT
        &&& forall|i: int| 0 <= i < IV_COUNT ==> #[trigger] self.value@[i]@.len() == LEVEL_COUNT
    }

    /// Combat power of combination `i` at half level `h`.
    pub open spec fn cp_at(&self, i: int, h: int) -> u16 {
        self.cp@[i]@[h - 2]
    }

    /// Stat product of combination `i` at half level `h`.
    pub open spec fn value_at(&self, i: int, h: int) -> u32 {
        self.value@[i]@[h - 2]
    }

    /// Builds a table from its two parts; `None` unless both have 4096 rows
    /// of 99 entries.
    pub fn new(cp: Vec<Vec<u16>>, value: Vec<Vec<u32>>) -> (table: Option<LevelTable>)
        ensures
            match table {
                Some(t) => t.wf() && t.cp == cp && t.value == value,
                None => !(LevelTable { cp, value }).wf(),
            },
    {
        if cp.len() != IV_COUNT || value.len() != IV_COUNT {
            return None;
        }
        let mut i: usize = 0;
        while i < IV_COUNT
            invariant
                cp@.len() == IV_COUNT,
                value@.len() == IV_COUNT,
                i <= IV_COUNT,
                forall|k: int| 0 <= k < i ==> #[trigger] cp@[k]@.len() == LEVEL_COUNT,
                forall|k: int| 0 <= k < i ==> #[trigger] value@[k]@.len() == LEVEL_COUNT,
            decreases IV_COUNT - i,
        {
            if cp[i].len() != LEVEL_COUNT || value[i].len() != LEVEL_COUNT {
                return None;
            }
            i = i + 1;
        }
        Some(LevelTable { cp, value })
    }
}

/// Combat power below level 1: with no multiplier known there, it is the
/// least combat power there is.
pub const LEAST_CP: u16 = 10;

/// Combat power of combination `i` at half level `h`; below level 1 the
/// least combat power.
pub open spec fn cp_of(t: LevelTable, i: int, h: int) -> u16 {
    if h < 2 {
        LEAST_CP
    } else {
        t.cp_at(i, h)
    }
}

/// Stat product of combination `i` at half level `h`; 0 below level 1.
pub open spec fn value_of(t: LevelTable, i: int, h: int) -> u32 {
    if h < 2 {
        0
    } else {
        t.value_at(i, h)
    }
}

/// The highest half level at or below `h`, and at least one half level, at
/// which combination `i` stays within `cap`; 0 when there is none.
pub open spec fn best_level_from(t: LevelTable, i: int, cap: u16, h: int) -> int
    decreases h,
{
    if h < 1 {
        0
    } else if cp_of(t, i, h) <= cap {
        h
    } else {
        best_level_from(t, i, cap, h - 1)
    }
}

/// The highest level, in half levels from 50 down to one half, at which
/// combination `i` stays within `cap`; 0 when there is none.
pub open spec fn best_level(t: LevelTable, i: int, cap: u16) -> int {
    best_level_from(t, i, cap, MAX_HALF_LEVEL as int)
}

proof fn lemma_best_level_from_bounds(t: LevelTable, i: int, cap: u16, h: int)
    requires
        h >= 0,
    ensures
        0 <= best_level_from(t, i, cap, h) <= h,
        best_level_from(t, i, cap, h) > 0 ==> cp_of(t, i, best_level_from(t, i, cap, h)) <= cap,
        forall|g: int| best_level_from(t, i, cap, h) < g <= h ==> #[trigger] cp_of(t, i, g) > cap,
    decreases h,
{
    if h >= 1 && cp_of(t, i, h) > cap {
        lemma_best_level_from_bounds(t, i, cap, h - 1);
    }
}

/// A combination placed in a ranking sits at most at level 50, and its
/// combat power there is within the cap.
pub proof fn lemma_entry_within_cap(t: LevelTable, i: int, cap: u16)
    ensures
        0 <= best_level(t, i, cap) <= MAX_HALF_LEVEL,
        is_placed(t, i, cap) ==> entry_iv(t, i, cap).level <= MAX_HALF_LEVEL && entry_iv(t, i, cap).cp
            <= cap,
{
    lemma_best_level_from_bounds(t, i, cap, MAX_HALF_LEVEL as int);
}

/// Combination `i` has a level within `cap`, and so a place in the ranking.
pub open spec fn is_placed(t: LevelTable, i: int, cap: u16) -> bool {
    best_level(t, i, cap) > 0
}

/// Combination `i` placed at its highest level within `cap`.
pub open spec fn entry_iv(t: LevelTable, i: int, cap: u16) -> PvpIV {
    let h = best_level(t, i, cap);
    PvpIV { iv: iv_at(i), level: h as u32, cp: cp_of(t, i, h) }
}

/// Stat product of combination `i` at its highest level within `cap`.
pub open spec fn entry_value(t: LevelTable, i: int, cap: u16) -> u32 {
    value_of(t, i, best_level(t, i, cap))
}

/// The placed combinations among the first `n` whose stat product is `v`,
/// in enumeration order.
pub open spec fn ivs_with_value(t: LevelTable, cap: u16, n: int, v: u32) -> Seq<PvpIV>
    decreases n,
{
    if n <= 0 {
        Seq::empty()
    } else {
        let prev = ivs_with_value(t, cap, n - 1, v);
        if is_placed(t, n - 1, cap) && entry_value(t, n - 1, cap) == v {
            prev.push(entry_iv(t, n - 1, cap))
        } else {
            prev
        }
    }
}

/// The highest half level up to 50 at which combination `i` stays within
/// `cap`, searched downwards from level 50, with the combat power there;
/// level 0 when none is.
fn highest_level_within(table: &LevelTable, i: usize, cap: u16) -> (found: (u32, u16))
    requires
        table.wf(),
        i < IV_COUNT,
    ensures
        found.0 == best_level(*table, i as int, cap),
        found.0 > 0 ==> found.1 == cp_of(*table, i as int, found.0 as int),
        found.0 <= 100,
{
    let mut level: u32 = MAX_HALF_LEVEL;
    while level >= MIN_HALF_LEVEL
        invariant
            table.wf(),
            i < IV_COUNT,
            1 <= level <= 100,
            best_level(*table, i as int, cap) == best_level_from(*table, i as int, cap, level as int),
        decreases level,
    {
        let cp = table.cp[i][get_level(level)];
        if cp <= cap {
            return (level, cp);
        }
        level = level - 1;
    }
    assert(level == 1);
    assert(best_level_from(*table, i as int, cap, 0) == 0);
    if LEAST_CP <= cap {
        (1, LEAST_CP)
    } else {
        (0, 0)
    }
}


/// `u32` keys of a `BTreeMap` are ordered as integers are.
proof fn lemma_u32_key_order()
    ensures
        vstd::laws_cmp::obeys_cmp::<u32>(),
{
    broadcast use vstd::laws_cmp::group_laws_cmp;

}

proof fn lemma_ivs_with_value_step(t: LevelTable, cap: u16, n: int, v: u32)
    requires
        n >= 0,
    ensures
        ivs_with_value(t, cap, n + 1, v) == (if is_placed(t, n, cap) && entry_value(t, n, cap) == v {
            ivs_with_value(t, cap, n, v).push(entry_iv(t, n, cap))
        } else {
            ivs_with_value(t, cap, n, v)
        }),
{
}

/// Places every combination at its highest level within `cap` and gathers
/// the placed combinations by stat product.
fn group_by_value(table: &LevelTable, cap: u16) -> (groups: BTreeMap<u32, Vec<PvpIV>>)
    requires
        table.wf(),
    ensures
        forall|v: u32|
            #[trigger] groups@.contains_key(v) <==> ivs_with_value(*table, cap, 4096, v).len() > 0,
        forall|v: u32|
            #[trigger] groups@.contains_key(v) ==> groups@[v]@ == ivs_with_value(
                *table,
                cap,
                4096,
                v,
            ),
        groups@.dom().len() <= 4096,
{
    broadcast use vstd::std_specs::btree::group_btree_axioms;

    proof {
        lemma_u32_key_order();
    }
    let ivs = iv_all();
    let mut groups: BTreeMap<u32, Vec<PvpIV>> = BTreeMap::new();
    let mut i: usize = 0;
    while i < IV_COUNT
        invariant
            table.wf(),
            ivs@.len() == IV_COUNT,
            forall|k: int| 0 <= k < IV_COUNT ==> #[trigger] ivs@[k] == iv_at(k),
            i <= IV_COUNT,
            forall|v: u32|
                #[trigger] groups@.contains_key(v) <==> ivs_with_value(*table, cap, i as int, v).len()
                    > 0,
            forall|v: u32|
                #[trigger] groups@.contains_key(v) ==> groups@[v]@ == ivs_with_value(
                    *table,
                    cap,
                    i as int,
                    v,
                ),
            groups@.dom().finite(),
            groups@.dom().len() <= i,
        decreases IV_COUNT - i,
    {
        let iv = ivs[i];
        let (level, cp) = highest_level_within(table, i, cap);
        if level > 0 {
            let value = if level < MIN_HALF_LEVEL {
                0
            } else {
                table.value[i][get_level(level)]
            };
            let entry = PvpIV { iv, level, cp };
            assert(entry == entry_iv(*table, i as int, cap));
            assert(value == entry_value(*table, i as int, cap));
            match groups.remove(&value) {
                Some(mut group) => {
                    group.push(entry);
                    groups.insert(value, group);
                },
                None => {
                    let mut group: Vec<PvpIV> = Vec::new();
                    group.push(entry);
                    groups.insert(value, group);
                },
            }
        }
        assert forall|v: u32| #[trigger]
            groups@.contains_key(v) <==> ivs_with_value(*table, cap, i + 1, v).len() > 0 by {
            lemma_ivs_with_value_step(*table, cap, i as int, v);
        }
        assert forall|v: u32| #[trigger] groups@.contains_key(v) implies groups@[v]@
            == ivs_with_value(*table, cap, i + 1, v) by {
            lemma_ivs_with_value_step(*table, cap, i as int, v);
        }
        i = i + 1;
    }
    groups
}


/// `a` comes strictly before `b` in the order of `K`.
spec fn ordered_before<K: Ord>(a: K, b: K) -> bool {
    a.cmp_spec(&b) is Less
}

/// An increasing sequence of `u32` keys, as a `BTreeMap` yields them, is
/// strictly increasing as integers.
proof fn lemma_increasing_keys(keys: Seq<&u32>)
    requires
        vstd::std_specs::btree::increasing_seq(keys),
    ensures
        forall|i: int, j: int| 0 <= i < j < keys.len() ==> *keys[i] < *keys[j],
{
    broadcast use vstd::laws_cmp::lemma_ref_obeys_cmp_spec;

    lemma_u32_key_order();
    assert(vstd::laws_cmp::obeys_cmp::<&u32>());
    vstd::std_specs::btree::axiom_increasing_seq_meaning::<&u32>(keys);
    assert forall|i: int, j: int| 0 <= i < j < keys.len() implies *keys[i] < *keys[j] by {
        assert(ordered_before::<&u32>(keys[i], keys[j]));
    }
}

/// The keys of a map in increasing order.
fn ascending_keys(groups: &BTreeMap<u32, Vec<PvpIV>>) -> (keys: Vec<u32>)
    ensures
        forall|i: int, j: int| 0 <= i < j < keys@.len() ==> keys@[i] < keys@[j],
        forall|v: u32| groups@.contains_key(v) <==> keys@.contains(v),
        keys@.len() == groups@.dom().len(),
{
    broadcast use vstd::std_specs::btree::group_btree_axioms;

    proof {
        lemma_u32_key_order();
    }
    let ghost ks = vstd::std_specs::btree::spec_keys_iter(groups).remaining();
    proof {
        lemma_increasing_keys(ks);
    }
    let mut keys: Vec<u32> = Vec::new();
    for k in it: groups.keys()
        invariant
            it.seq() == ks,
            keys@.len() == it.index(),
            forall|j: int| 0 <= j < it.index() ==> keys@[j] == *ks[j],
    {
        keys.push(*k);
    }
    assert(keys@.len() == ks.len());
    assert forall|i: int, j: int| 0 <= i < j < keys@.len() implies keys@[i] < keys@[j] by {
        assert(keys@[i] == *ks[i] && keys@[j] == *ks[j]);
    }
    assert forall|v: u32| groups@.contains_key(v) implies keys@.contains(v) by {
        assert(ks.unref().to_set().contains(v));
        let j = choose|j: int| 0 <= j < ks.len() && *ks[j] == v;
        assert(keys@[j] == v);
    }
    assert forall|v: u32| keys@.contains(v) implies groups@.contains_key(v) by {
        let j = choose|j: int| 0 <= j < keys@.len() && keys@[j] == v;
        assert(ks.unref()[j] == v);
        assert(ks.unref().to_set().contains(v));
    }
    keys
}


/// All placed combinations whose stat product is `v`, in enumeration order.
pub open spec fn ivs_of_value(t: LevelTable, cap: u16, v: u32) -> Seq<PvpIV> {
    ivs_with_value(t, cap, 4096, v)
}

/// `ranking` is the ranking of the table under `cap`: one place per stat
/// product that some combination reaches at its highest level within the
/// cap, highest product first, each holding exactly the combinations with
/// that product, in enumeration order, and a percentage of zero.
pub open spec fn is_ordered_ranking(t: LevelTable, cap: u16, ranking: Seq<Response>) -> bool {
    &&& forall|j: int, k: int| 0 <= j < k < ranking.len() ==> ranking[j].rank > ranking[k].rank
    &&& forall|k: int| 0 <= k < ranking.len() ==> #[trigger] ranking[k].percentage == zero_ratio()
    &&& forall|k: int|
        0 <= k < ranking.len() ==> #[trigger] ranking[k].ivs@ == ivs_of_value(t, cap, ranking[k].rank)
    &&& forall|k: int| 0 <= k < ranking.len() ==> #[trigger] ranking[k].ivs@.len() > 0
    &&& forall|i: int|
        0 <= i < 4096 && is_placed(t, i, cap) ==> has_rank(ranking, #[trigger] entry_value(t, i, cap))
}

/// Some place of the ranking has rank `v`.
pub open spec fn has_rank(ranking: Seq<Response>, v: u32) -> bool {
    exists|k: int| 0 <= k < ranking.len() && ranking[k].rank == v
}

proof fn lemma_value_reached(t: LevelTable, cap: u16, n: int, i: int)
    requires
        0 <= i < n,
        is_placed(t, i, cap),
    ensures
        ivs_with_value(t, cap, n, entry_value(t, i, cap)).len() > 0,
    decreases n,
{
    if i < n - 1 {
        lemma_value_reached(t, cap, n - 1, i);
    }
}

/// Ranks every combination of individual values under a combat-power cap.
/// Each combination is placed at the highest level, from 50 down to one
/// half in half levels, at which its combat power stays within `cap`; below
/// level 1 its combat power is the least one and its stat product 0, and a
/// combination that no level fits is left out. The placed combinations are
/// gathered by their stat product there, and the places come out by
/// decreasing product.
pub fn get_pvp_values_ordered(table: &LevelTable, cap: u16) -> (ranking: Vec<Response>)
    requires
        table.wf(),
    ensures
        is_ordered_ranking(*table, cap, ranking@),
        ranking@.len() <= 4096,
{
    let mut groups = group_by_value(table, cap);
    let keys = ascending_keys(&groups);
    let ghost all_groups = groups@;
    let n = keys.len();
    assert forall|m: int| 0 <= m < n implies #[trigger] groups@.contains_key(keys@[m]) by {
        assert(keys@.contains(keys@[m]));
    }
    let mut ranking: Vec<Response> = Vec::new();
    let mut j = n;
    while j > 0
        invariant
            n == keys@.len(),
            j <= n,
            ranking@.len() == n - j,
            forall|a: int, b: int| 0 <= a < b < keys@.len() ==> keys@[a] < keys@[b],
            forall|v: u32| all_groups.contains_key(v) <==> keys@.contains(v),
            forall|v: u32|
                #[trigger] all_groups.contains_key(v) <==> ivs_of_value(*table, cap, v).len() > 0,
            forall|v: u32|
                #[trigger] all_groups.contains_key(v) ==> all_groups[v]@ == ivs_of_value(
                    *table,
                    cap,
                    v,
                ),
            forall|m: int|
                0 <= m < j ==> #[trigger] groups@.contains_key(keys@[m]) && groups@[keys@[m]]
                    == all_groups[keys@[m]],
            forall|m: int|
                0 <= m < ranking@.len() ==> #[trigger] ranking@[m].rank == keys@[n - 1 - m],
            forall|m: int| 0 <= m < ranking@.len() ==> #[trigger] ranking@[m].percentage == zero_ratio(),
            forall|m: int|
                0 <= m < ranking@.len() ==> #[trigger] ranking@[m].ivs@ == all_groups[ranking@[m].rank]@,
        decreases j,
    {
        j = j - 1;
        let value = keys[j];
        assert(groups@.contains_key(keys@[j as int]));
        let ivs = match groups.remove(&value) {
            Some(ivs) => ivs,
            None => Vec::new(),
        };
        assert(forall|m: int| 0 <= m < j ==> keys@[m] != value);
        ranking.push(Response { rank: value, percentage: Ratio { numerator: 0, denominator: 1 }, ivs });
        proof {
            broadcast use vstd::std_specs::btree::group_btree_axioms;

            lemma_u32_key_order();
        }
    }
    assert forall|a: int, b: int| 0 <= a < b < ranking@.len() implies ranking@[a].rank
        > ranking@[b].rank by {
        assert(ranking@[a].rank == keys@[n - 1 - a]);
        assert(ranking@[b].rank == keys@[n - 1 - b]);
    }
    assert forall|k: int| 0 <= k < ranking@.len() implies #[trigger] ranking@[k].ivs@.len() > 0 && ranking@[k].ivs@
        == ivs_of_value(*table, cap, ranking@[k].rank) by {
        assert(keys@[n - 1 - k] == ranking@[k].rank);
        assert(keys@.contains(ranking@[k].rank));
    }
    assert forall|i: int| 0 <= i < 4096 && is_placed(*table, i, cap) implies has_rank(
        ranking@,
        #[trigger] entry_value(*table, i, cap),
    ) by {
        let v = entry_value(*table, i, cap);
        lemma_value_reached(*table, cap, 4096, i);
        assert(all_groups.contains_key(v));
        let m = choose|m: int| 0 <= m < keys@.len() && keys@[m] == v;
        assert(ranking@[n - 1 - m].rank == v);
        assert(0 <= n - 1 - m < ranking@.len());
    }
    ranking
}


proof fn lemma_ivs_with_value_shape(t: LevelTable, cap: u16, n: int, v: u32)
    requires
        0 <= n <= 4096,
    ensures
        forall|j: int|
            0 <= j < ivs_with_value(t, cap, n, v).len() ==> {
                let x = #[trigger] ivs_with_value(t, cap, n, v)[j];
                &&& 0 <= iv_index(x.iv) < n
                &&& is_placed(t, iv_index(x.iv), cap)
                &&& entry_value(t, iv_index(x.iv), cap) == v
                &&& x == entry_iv(t, iv_index(x.iv), cap)
            },
        forall|j1: int, j2: int|
            0 <= j1 < j2 < ivs_with_value(t, cap, n, v).len() ==> iv_index(
                #[trigger] ivs_with_value(t, cap, n, v)[j1].iv,
            ) < iv_index(#[trigger] ivs_with_value(t, cap, n, v)[j2].iv),
        forall|i: int|
            0 <= i < n && is_placed(t, i, cap) && entry_value(t, i, cap) == v ==> #[trigger] ivs_with_value(
                t,
                cap,
                n,
                v,
            ).contains(entry_iv(t, i, cap)),
    decreases n,
{
    if n > 0 {
        lemma_ivs_with_value_shape(t, cap, n - 1, v);
        lemma_iv_at_roundtrip(n - 1);
        let prev = ivs_with_value(t, cap, n - 1, v);
        let cur = ivs_with_value(t, cap, n, v);
        if is_placed(t, n - 1, cap) && entry_value(t, n - 1, cap) == v {
            assert(cur == prev.push(entry_iv(t, n - 1, cap)));
            assert forall|i: int|
                0 <= i < n && is_placed(t, i, cap) && entry_value(t, i, cap) == v implies #[trigger] cur.contains(
                entry_iv(t, i, cap),
            ) by {
                if i < n - 1 {
                    assert(prev.contains(entry_iv(t, i, cap)));
                    let j = choose|j: int| 0 <= j < prev.len() && prev[j] == entry_iv(t, i, cap);
                    assert(cur[j] == entry_iv(t, i, cap));
                } else {
                    assert(cur[prev.len() as int] == entry_iv(t, i, cap));
                }
            }
        }
    }
}

/// Every combination with stat product `v` in a ranking's place is a
/// placed combination, at its highest level within the cap, with that
/// product; they come in enumeration order.
pub proof fn lemma_ivs_with_value_shape_public(t: LevelTable, cap: u16, v: u32)
    ensures
        forall|j: int|
            0 <= j < ivs_of_value(t, cap, v).len() ==> {
                let x = #[trigger] ivs_of_value(t, cap, v)[j];
                &&& 0 <= iv_index(x.iv) < 4096
                &&& is_placed(t, iv_index(x.iv), cap)
                &&& entry_value(t, iv_index(x.iv), cap) == v
                &&& x == entry_iv(t, iv_index(x.iv), cap)
            },
{
    lemma_ivs_with_value_shape(t, cap, 4096, v);
}

/// Every combination of individual values that some level fits is held by
/// exactly one place of an ordered ranking, once: the place whose rank is
/// the combination's stat product, where it sits at its highest level within
/// the cap. A combination that no level fits is held by none.
pub proof fn lemma_each_iv_placed_once(t: LevelTable, cap: u16, ranking: Seq<Response>, i: int)
    requires
        is_ordered_ranking(t, cap, ranking),
        0 <= i < 4096,
    ensures
        is_placed(t, i, cap) ==> exists|k: int|
            0 <= k < ranking.len() && ranking[k].rank == entry_value(t, i, cap)
                && #[trigger] ranking[k].ivs@.contains(entry_iv(t, i, cap)),
        forall|k: int, j: int|
            0 <= k < ranking.len() && 0 <= j < ranking[k].ivs@.len() && (#[trigger] ranking[k].ivs@[j]).iv
                == iv_at(i) ==> is_placed(t, i, cap) && ranking[k].rank == entry_value(t, i, cap)
                && ranking[k].ivs@[j] == entry_iv(t, i, cap),
        forall|k1: int, j1: int, k2: int, j2: int|
            0 <= k1 < ranking.len() && 0 <= j1 < ranking[k1].ivs@.len() && 0 <= k2 < ranking.len()
                && 0 <= j2 < ranking[k2].ivs@.len() && (#[trigger] ranking[k1].ivs@[j1]).iv == iv_at(i)
                && (#[trigger] ranking[k2].ivs@[j2]).iv == iv_at(i) ==> k1 == k2 && j1 == j2,
{
    lemma_iv_at_roundtrip(i);
    let v = entry_value(t, i, cap);
    if is_placed(t, i, cap) {
        assert(has_rank(ranking, v));
        let k = choose|k: int| 0 <= k < ranking.len() && ranking[k].rank == v;
        lemma_ivs_with_value_shape(t, cap, 4096, v);
        assert(ranking[k].ivs@.contains(entry_iv(t, i, cap)));
    }
    assert forall|k: int, j: int|
        0 <= k < ranking.len() && 0 <= j < ranking[k].ivs@.len() && (#[trigger] ranking[k].ivs@[j]).iv
            == iv_at(i) implies is_placed(t, i, cap) && ranking[k].rank == entry_value(t, i, cap)
        && ranking[k].ivs@[j] == entry_iv(t, i, cap) by {
        lemma_ivs_with_value_shape(t, cap, 4096, ranking[k].rank);
        assert(ranking[k].ivs@ == ivs_with_value(t, cap, 4096, ranking[k].rank));
    }
    assert forall|k1: int, j1: int, k2: int, j2: int|
        0 <= k1 < ranking.len() && 0 <= j1 < ranking[k1].ivs@.len() && 0 <= k2 < ranking.len()
            && 0 <= j2 < ranking[k2].ivs@.len() && (#[trigger] ranking[k1].ivs@[j1]).iv == iv_at(i)
            && (#[trigger] ranking[k2].ivs@[j2]).iv == iv_at(i) implies k1 == k2 && j1 == j2 by {
        lemma_ivs_with_value_shape(t, cap, 4096, ranking[k1].rank);
        assert(ranking[k1].ivs@ == ivs_with_value(t, cap, 4096, ranking[k1].rank));
        assert(ranking[k2].ivs@ == ivs_with_value(t, cap, 4096, ranking[k2].rank));
        assert(ranking[k1].rank == v && ranking[k2].rank == v);
        if k1 < k2 {
            assert(ranking[k1].rank > ranking[k2].rank);
        } else if k2 < k1 {
            assert(ranking[k2].rank > ranking[k1].rank);
        }
        if j1 < j2 {
            assert(iv_index(ranking[k1].ivs@[j1].iv) < iv_index(ranking[k1].ivs@[j2].iv));
        } else if j2 < j1 {
            assert(iv_index(ranking[k1].ivs@[j2].iv) < iv_index(ranking[k1].ivs@[j1].iv));
        }
    }
}


proof fn lemma_decreasing_same_members(a: Seq<u32>, b: Seq<u32>)
    requires
        forall|i: int, j: int| 0 <= i < j < a.len() ==> a[i] > a[j],
        forall|i: int, j: int| 0 <= i < j < b.len() ==> b[i] > b[j],
        forall|x: u32| a.contains(x) <==> b.contains(x),
    ensures
        a == b,
    decreases a.len(),
{
    if a.len() == 0 {
        if b.len() > 0 {
            assert(b.contains(b[0]));
        }
        assert(b =~= a);
    } else if b.len() == 0 {
        assert(a.contains(a[0]));
    } else {
        assert(a.contains(a[0]));
        assert(b.contains(b[0]));
        let jb = choose|j: int| 0 <= j < b.len() && b[j] == a[0];
        let ja = choose|j: int| 0 <= j < a.len() && a[j] == b[0];
        if jb > 0 {
            assert(b[0] > b[jb]);
        }
        if ja > 0 {
            assert(a[0] > a[ja]);
        }
        assert(a[0] == b[0]);
        let a1 = a.drop_first();
        let b1 = b.drop_first();
        assert forall|x: u32| a1.contains(x) implies b1.contains(x) by {
            let i = choose|i: int| 0 <= i < a1.len() && a1[i] == x;
            assert(a[i + 1] == x);
            assert(a.contains(x));
            let j = choose|j: int| 0 <= j < b.len() && b[j] == x;
            if j == 0 {
                assert(a[0] > a[i + 1]);
            }
            assert(b1[j - 1] == x);
        }
        assert forall|x: u32| b1.contains(x) implies a1.contains(x) by {
            let i = choose|i: int| 0 <= i < b1.len() && b1[i] == x;
            assert(b[i + 1] == x);
            assert(b.contains(x));
            let j = choose|j: int| 0 <= j < a.len() && a[j] == x;
            if j == 0 {
                assert(b[0] > b[i + 1]);
            }
            assert(a1[j - 1] == x);
        }
        lemma_decreasing_same_members(a1, b1);
        assert forall|i: int| 0 <= i < a.len() implies a[i] == b[i] by {
            if i > 0 {
                assert(a[i] == a1[i - 1]);
                assert(b[i] == b1[i - 1]);
            }
        }
        assert(a =~= b);
    }
}

/// The ordered ranking of a table under a cap is unique: any two have the
/// same places, with the same rank, percentage and combinations, in the same
/// order.
pub proof fn lemma_ordered_ranking_unique(t: LevelTable, cap: u16, r1: Seq<Response>, r2: Seq<Response>)
    requires
        is_ordered_ranking(t, cap, r1),
        is_ordered_ranking(t, cap, r2),
    ensures
        r1.len() == r2.len(),
        forall|k: int| 0 <= k < r1.len() ==> #[trigger] r1[k]@ == r2[k]@,
{
    let a = r1.map_values(|x: Response| x.rank);
    let b = r2.map_values(|x: Response| x.rank);
    assert forall|x: u32| a.contains(x) implies b.contains(x) by {
        let k = choose|k: int| 0 <= k < a.len() && a[k] == x;
        lemma_ivs_with_value_shape_public(t, cap, x);
        assert(r1[k].ivs@.len() > 0);
        let e = r1[k].ivs@[0];
        assert(r1[k].ivs@ == ivs_of_value(t, cap, x));
        assert(ivs_of_value(t, cap, x)[0] == e);
        let i = iv_index(e.iv);
        assert(has_rank(r2, entry_value(t, i, cap)));
        let k2 = choose|k2: int| 0 <= k2 < r2.len() && r2[k2].rank == entry_value(t, i, cap);
        assert(b[k2] == x);
    }
    assert forall|x: u32| b.contains(x) implies a.contains(x) by {
        let k = choose|k: int| 0 <= k < b.len() && b[k] == x;
        lemma_ivs_with_value_shape_public(t, cap, x);
        assert(r2[k].ivs@.len() > 0);
        let e = r2[k].ivs@[0];
        assert(r2[k].ivs@ == ivs_of_value(t, cap, x));
        assert(ivs_of_value(t, cap, x)[0] == e);
        let i = iv_index(e.iv);
        assert(has_rank(r1, entry_value(t, i, cap)));
        let k1 = choose|k1: int| 0 <= k1 < r1.len() && r1[k1].rank == entry_value(t, i, cap);
        assert(a[k1] == x);
    }
    assert forall|i: int, j: int| 0 <= i < j < a.len() implies a[i] > a[j] by {
        assert(r1[i].rank > r1[j].rank);
    }
    assert forall|i: int, j: int| 0 <= i < j < b.len() implies b[i] > b[j] by {
        assert(r2[i].rank > r2[j].rank);
    }
    lemma_decreasing_same_members(a, b);
    assert forall|k: int| 0 <= k < r1.len() implies #[trigger] r1[k]@ == r2[k]@ by {
        assert(a[k] == b[k]);
        assert(r1[k].percentage == zero_ratio());
        assert(r2[k].percentage == zero_ratio());
        assert(r1[k].ivs@ == ivs_of_value(t, cap, r1[k].rank));
        assert(r2[k].ivs@ == ivs_of_value(t, cap, r2[k].rank));
    }
}


/// Every combination in a place of an ordered ranking is read from the
/// table: it sits at a level from one half up to 50; from level 1 on, the
/// place's rank is the table's stat product for that combination at that
/// level and its combat power the table's combat power there; at level one
/// half its combat power is 10 and the rank 0. Its combat power is within
/// the cap, and at every higher level up to 50 the table's combat power
/// exceeds the cap.
pub proof fn lemma_places_read_the_table(t: LevelTable, cap: u16, ranking: Seq<Response>, k: int, j: int)
    requires
        is_ordered_ranking(t, cap, ranking),
        0 <= k < ranking.len(),
        0 <= j < ranking[k].ivs@.len(),
    ensures
        ({
            let x = ranking[k].ivs@[j];
            let i = iv_index(x.iv);
            &&& 0 <= i < 4096
            &&& iv_at(i) == x.iv
            &&& 1 <= x.level <= MAX_HALF_LEVEL
            &&& x.level >= 2 ==> ranking[k].rank == t.value@[i]@[x.level - 2] && x.cp == t.cp@[i]@[x.level
                - 2]
            &&& x.level == 1 ==> ranking[k].rank == 0 && x.cp == LEAST_CP
            &&& x.cp <= cap
            &&& forall|h: int| x.level < h <= MAX_HALF_LEVEL && h >= 2 ==> #[trigger] t.cp@[i]@[h - 2] > cap
        }),
{
    let x = ranking[k].ivs@[j];
    lemma_ivs_with_value_shape_public(t, cap, ranking[k].rank);
    assert(ranking[k].ivs@ == ivs_of_value(t, cap, ranking[k].rank));
    assert(ivs_of_value(t, cap, ranking[k].rank)[j] == x);
    let i = iv_index(x.iv);
    lemma_iv_at_roundtrip(i);
    lemma_best_level_from_bounds(t, i, cap, MAX_HALF_LEVEL as int);
    assert forall|h: int| x.level < h <= MAX_HALF_LEVEL && h >= 2 implies #[trigger] t.cp@[i]@[h - 2] > cap by {
        assert(cp_of(t, i, h) > cap);
    }
}


/// Every combination that fits the cap at some level from one half up to
/// 50 in the table (at one half its combat power is 10) has a place in an
/// ordered ranking, and a combination has a place only if it fits so.
pub proof fn lemma_fitting_combinations_are_placed(t: LevelTable, cap: u16, ranking: Seq<Response>, i: int)
    requires
        is_ordered_ranking(t, cap, ranking),
        0 <= i < 4096,
    ensures
        (LEAST_CP <= cap || exists|h: int| 2 <= h <= MAX_HALF_LEVEL && #[trigger] t.cp@[i]@[h - 2] <= cap)
            <==> exists|k: int, j: int|
            0 <= k < ranking.len() && 0 <= j < ranking[k].ivs@.len() && #[trigger] ranking[k].ivs@[j].iv
                == iv_at(i),
{
    lemma_best_level_from_bounds(t, i, cap, MAX_HALF_LEVEL as int);
    lemma_each_iv_placed_once(t, cap, ranking, i);
    lemma_iv_at_roundtrip(i);
    if LEAST_CP <= cap || exists|h: int| 2 <= h <= MAX_HALF_LEVEL && #[trigger] t.cp@[i]@[h - 2] <= cap {
        if LEAST_CP <= cap {
            assert(cp_of(t, i, 1) <= cap);
        } else {
            let h = choose|h: int| 2 <= h <= MAX_HALF_LEVEL && #[trigger] t.cp@[i]@[h - 2] <= cap;
            assert(cp_of(t, i, h) <= cap);
        }
        assert(is_placed(t, i, cap));
        let k = choose|k: int|
            0 <= k < ranking.len() && ranking[k].rank == entry_value(t, i, cap)
                && #[trigger] ranking[k].ivs@.contains(entry_iv(t, i, cap));
        let j = choose|j: int| 0 <= j < ranking[k].ivs@.len() && ranking[k].ivs@[j] == entry_iv(t, i, cap);
        assert(ranking[k].ivs@[j].iv == iv_at(i));
    }
    if exists|k: int, j: int|
        0 <= k < ranking.len() && 0 <= j < ranking[k].ivs@.len() && #[trigger] ranking[k].ivs@[j].iv
            == iv_at(i) {
        let (k, j) = choose|k: int, j: int|
            0 <= k < ranking.len() && 0 <= j < ranking[k].ivs@.len() && #[trigger] ranking[k].ivs@[j].iv
                == iv_at(i);
        lemma_places_read_the_table(t, cap, ranking, k, j);
        let x = ranking[k].ivs@[j];
        assert(iv_index(x.iv) == i);
        if x.level >= 2 {
            assert(t.cp@[i]@[x.level - 2] <= cap);
        }
    }
}


/// The shape of an ordered ranking: places by strictly decreasing rank,
/// each with percentage 0 / 1 and at least one combination; within a place
/// the combinations come in enumeration order; and no combination is held
/// twice in the whole ranking.
pub proof fn lemma_ordered_ranking_shape(t: LevelTable, cap: u16, ranking: Seq<Response>)
    requires
        is_ordered_ranking(t, cap, ranking),
    ensures
        forall|j: int, k: int| 0 <= j < k < ranking.len() ==> #[trigger] ranking[j].rank > #[trigger] ranking[k].rank,
        forall|k: int|
            0 <= k < ranking.len() ==> #[trigger] ranking[k].percentage == (Ratio { numerator: 0, denominator: 1 }),
        forall|k: int| 0 <= k < ranking.len() ==> #[trigger] ranking[k].ivs@.len() > 0,
        forall|k: int, j1: int, j2: int|
            0 <= k < ranking.len() && 0 <= j1 < j2 < ranking[k].ivs@.len() ==> iv_index(
                #[trigger] ranking[k].ivs@[j1].iv,
            ) < iv_index(#[trigger] ranking[k].ivs@[j2].iv),
        forall|k1: int, j1: int, k2: int, j2: int|
            0 <= k1 < ranking.len() && 0 <= j1 < ranking[k1].ivs@.len() && 0 <= k2 < ranking.len() && 0 <= j2
                < ranking[k2].ivs@.len() && (#[trigger] ranking[k1].ivs@[j1]).iv == (
            #[trigger] ranking[k2].ivs@[j2]).iv ==> k1 == k2 && j1 == j2,
{
    assert forall|k: int, j1: int, j2: int|
        0 <= k < ranking.len() && 0 <= j1 < j2 < ranking[k].ivs@.len() implies iv_index(
        #[trigger] ranking[k].ivs@[j1].iv,
    ) < iv_index(#[trigger] ranking[k].ivs@[j2].iv) by {
        lemma_ivs_with_value_shape(t, cap, 4096, ranking[k].rank);
        assert(ranking[k].ivs@ == ivs_with_value(t, cap, 4096, ranking[k].rank));
    }
    assert forall|k1: int, j1: int, k2: int, j2: int|
        0 <= k1 < ranking.len() && 0 <= j1 < ranking[k1].ivs@.len() && 0 <= k2 < ranking.len() && 0 <= j2
            < ranking[k2].ivs@.len() && (#[trigger] ranking[k1].ivs@[j1]).iv == (
        #[trigger] ranking[k2].ivs@[j2]).iv implies k1 == k2 && j1 == j2 by {
        lemma_places_read_the_table(t, cap, ranking, k1, j1);
        let i = iv_index(ranking[k1].ivs@[j1].iv);
        lemma_each_iv_placed_once(t, cap, ranking, i);
    }
}

} // verus!
