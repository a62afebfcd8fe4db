use vstd::prelude::*;

use crate::iv::{iv_at, iv_index, lemma_iv_index_roundtrip, IV};
use crate::league::League;
use crate::names::{
    lowercase, normalize, spec_contains, spec_normalize, str_contains, str_eq, to_lowercase, Gender,
};
use crate::ranking::{
    entry_iv, entry_value, get_pvp_values_ordered, is_ordered_ranking, is_placed, ivs_of_value,
    lemma_each_iv_placed_once, lemma_entry_within_cap, lemma_ordered_ranking_unique, lemma_ivs_with_value_shape_public, LevelTable,
    PvpIV, Ratio, Response, ResponseView, MAX_HALF_LEVEL,
};

verus! {

/// Base stats of a Pokémon, as the game master lists them.
#[derive(Debug, Clone, Copy, PartialEq, Eq, Structural)]
pub struct BaseStats {
    pub base_attack: u16,
    pub base_defense: u16,
    pub base_stamina: u16,
}

/// One evolution branch of a Pokémon in the game master.
#[derive(Debug)]
pub struct EvolutionBranch {
    pub evolution: Option<String>,
    pub form: Option<String>,
    pub gender_requirement: Option<String>,
}

/// The settings of one Pokémon (species and form) in the game master.
#[derive(Debug)]
pub struct PokemonSettings {
    pub unique_id: String,
    pub form: Option<String>,
    pub stats: BaseStats,
    pub evolution_branch: Option<Vec<EvolutionBranch>>,
}

/// The key of the stats and rankings: a normalized species name, an
/// optional normalized form name and an optional gender.
#[derive(Debug)]
pub struct PokemonWithFormAndGender {
    pub pokemon: String,
    pub form: Option<String>,
    pub gender: Option<Gender>,
}

/// What a key is: species name, form name and gender.
pub type KeyView = (Seq<char>, Option<Seq<char>>, Option<Gender>);

/// The characters of an optional string.
pub open spec fn opt_view(s: Option<String>) -> Option<Seq<char>> {
    match s {
        Some(s) => Some(s@),
        None => None,
    }
}

/// The normalized form of an optional name.
pub open spec fn normalize_opt(s: Option<Seq<char>>) -> Option<Seq<char>> {
    match s {
        Some(s) => Some(spec_normalize(s)),
        None => None,
    }
}

impl View for PokemonWithFormAndGender {
    type V = KeyView;

    open spec fn view(&self) -> KeyView {
        (self.pokemon@, opt_view(self.form), self.gender)
    }
}

/// The key under which a ranking or stats entry is looked up for a species
/// name and an optional form name.
pub open spec fn lookup_key(pokemon: Seq<char>, form: Option<Seq<char>>) -> KeyView {
    (spec_normalize(pokemon), normalize_opt(form), None)
}

fn normalize_option(s: Option<&str>) -> (n: Option<String>)
    ensures
        opt_view(n) == normalize_opt(match s {
            Some(s) => Some(s@),
            None => None,
        }),
{
    match s {
        Some(s) => Some(normalize(s)),
        None => None,
    }
}

fn as_deref(s: &Option<String>) -> (r: Option<&str>)
    ensures
        match r {
            Some(r) => opt_view(*s) == Some(r@),
            None => opt_view(*s) is None,
        },
{
    match s {
        Some(s) => Some(s.as_str()),
        None => None,
    }
}

/// The characters of an optional string slice.
pub open spec fn opt_str_view(s: Option<&str>) -> Option<Seq<char>> {
    match s {
        Some(s) => Some(s@),
        None => None,
    }
}

/// The key of an evolution branch: `None` when it names no evolution.
pub open spec fn branch_key(eb: EvolutionBranch) -> Option<KeyView> {
    match eb.evolution {
        Some(evolution) => Some(
            (
                spec_normalize(evolution@),
                normalize_opt(opt_view(eb.form)),
                match eb.gender_requirement {
                    Some(g) => Some(Gender::spec_from_str(g@)),
                    None => None,
                },
            ),
        ),
        None => None,
    }
}

/// The keys of those branches that name an evolution, in order.
pub open spec fn branch_keys(ebs: Seq<EvolutionBranch>) -> Seq<KeyView>
    decreases ebs.len(),
{
    if ebs.len() == 0 {
        Seq::empty()
    } else {
        let prev = branch_keys(ebs.drop_last());
        match branch_key(ebs.last()) {
            Some(k) => prev.push(k),
            None => prev,
        }
    }
}

impl PokemonWithFormAndGender {
    /// The key of a Pokémon's settings: its normalized id and form, no gender.
    pub fn from(p: &PokemonSettings) -> (key: PokemonWithFormAndGender)
        ensures
            key@ == lookup_key(p.unique_id@, opt_view(p.form)),
    {
        PokemonWithFormAndGender {
            pokemon: normalize(p.unique_id.as_str()),
            form: normalize_option(as_deref(&p.form)),
            gender: None,
        }
    }

    /// The key of an evolution branch: the normalized evolution and form, and
    /// the gender it requires; `Err` when the branch names no evolution.
    pub fn try_from(eb: &EvolutionBranch) -> (key: Result<PokemonWithFormAndGender, ()>)
        ensures
            match key {
                Ok(k) => branch_key(*eb) == Some(k@),
                Err(()) => branch_key(*eb) is None,
            },
    {
        let pokemon = match &eb.evolution {
            Some(e) => normalize(e.as_str()),
            None => {
                return Err(());
            },
        };
        let gender = match &eb.gender_requirement {
            Some(g) => Some(Gender::from_str(g.as_str())),
            None => None,
        };
        Ok(PokemonWithFormAndGender { pokemon, form: normalize_option(as_deref(&eb.form)), gender })
    }

    /// Whether two keys are the same.
    pub fn same_key(&self, other: &PokemonWithFormAndGender) -> (eq: bool)
        ensures
            eq == (self@ == other@),
    {
        if !(self.pokemon == other.pokemon) {
            return false;
        }
        let same_form = match (&self.form, &other.form) {
            (Some(a), Some(b)) => str_eq(a.as_str(), b.as_str()),
            (None, None) => true,
            _ => false,
        };
        let same_gender = match (self.gender, other.gender) {
            (Some(a), Some(b)) => a == b,
            (None, None) => true,
            _ => false,
        };
        same_form && same_gender
    }
}

/// The stats of one Pokémon and the keys of its evolutions.
#[derive(Debug)]
pub struct Stats {
    pub stats: BaseStats,
    pub evolutions: Option<Vec<PokemonWithFormAndGender>>,
}

/// What stats are: base stats, and the keys of the evolutions when the
/// settings list evolution branches.
pub type StatsView = (BaseStats, Option<Seq<KeyView>>);

impl View for Stats {
    type V = StatsView;

    open spec fn view(&self) -> StatsView {
        (
            self.stats,
            match self.evolutions {
                Some(e) => Some(e@.map_values(|k: PokemonWithFormAndGender| k@)),
                None => None,
            },
        )
    }
}

/// The stats that the settings of a Pokémon give.
pub open spec fn settings_stats(p: PokemonSettings) -> StatsView {
    (
        p.stats,
        match p.evolution_branch {
            Some(ebs) => Some(branch_keys(ebs@)),
            None => None,
        },
    )
}

impl Stats {
    /// The stats in a Pokémon's settings, with the keys of those evolution
    /// branches that name an evolution.
    pub fn from(p: &PokemonSettings) -> (s: Stats)
        ensures
            s@ == settings_stats(*p),
    {
        let evolutions = match &p.evolution_branch {
            Some(ebs) => {
                let mut keys: Vec<PokemonWithFormAndGender> = Vec::new();
                let mut i: usize = 0;
                while i < ebs.len()
                    invariant
                        i <= ebs@.len(),
                        keys@.map_values(|k: PokemonWithFormAndGender| k@) == branch_keys(
                            ebs@.take(i as int),
                        ),
                    decreases ebs@.len() - i,
                {
                    assert(ebs@.take(i + 1).drop_last() == ebs@.take(i as int));
                    match PokemonWithFormAndGender::try_from(&ebs[i]) {
                        Ok(k) => {
                            keys.push(k);
                        },
                        Err(()) => {},
                    }
                    i = i + 1;
                    assert(keys@.map_values(|k: PokemonWithFormAndGender| k@) =~= branch_keys(
                        ebs@.take(i as int),
                    ));
                }
                assert(ebs@.take(ebs@.len() as int) == ebs@);
                Some(keys)
            },
            None => None,
        };
        Stats { stats: p.stats, evolutions }
    }
}

/// Whether an evolution branch names an evolution.
pub open spec fn names_evolution(eb: EvolutionBranch) -> bool {
    eb.evolution is Some
}

/// The evolution keys read from settings: for every branch that names an
/// evolution, in the order listed, the evolution's normalized name, the
/// branch's normalized form and the gender it requires; branches that name
/// no evolution give no key.
pub proof fn lemma_settings_evolutions(ebs: Seq<EvolutionBranch>)
    ensures
        branch_keys(ebs) == ebs.filter(|eb: EvolutionBranch| names_evolution(eb)).map_values(
            |eb: EvolutionBranch|
                (
                    spec_normalize(eb.evolution->0@),
                    normalize_opt(opt_view(eb.form)),
                    match eb.gender_requirement {
                        Some(g) => Some(Gender::spec_from_str(g@)),
                        None => None,
                    },
                ),
        ),
        branch_keys(ebs).len() <= ebs.len(),
    decreases ebs.len(),
{
    reveal(Seq::filter);
    let f = |eb: EvolutionBranch|
        (
            spec_normalize(eb.evolution->0@),
            normalize_opt(opt_view(eb.form)),
            match eb.gender_requirement {
                Some(g) => Some(Gender::spec_from_str(g@)),
                None => None,
            },
        );
    let pred = |eb: EvolutionBranch| names_evolution(eb);
    if ebs.len() > 0 {
        lemma_settings_evolutions(ebs.drop_last());
        let prev = ebs.drop_last().filter(pred);
        if pred(ebs.last()) {
            assert(ebs.filter(pred) == prev.push(ebs.last()));
            assert(ebs.filter(pred).map_values(f) =~= prev.map_values(f).push(f(ebs.last())));
        } else {
            assert(ebs.filter(pred) == prev);
        }
    }
}

/// Stats read from settings keep the settings' base stats, field for
/// field, and, when the settings list evolution branches, the key of every
/// branch that names an evolution, in order.
pub proof fn lemma_settings_stats_fields(p: PokemonSettings)
    ensures
        settings_stats(p).0 == p.stats,
        settings_stats(p).0.base_attack == p.stats.base_attack,
        settings_stats(p).0.base_defense == p.stats.base_defense,
        settings_stats(p).0.base_stamina == p.stats.base_stamina,
        settings_stats(p).1 is Some <==> p.evolution_branch is Some,
        p.evolution_branch matches Some(ebs) ==> settings_stats(p).1 == Some(
            ebs@.filter(|eb: EvolutionBranch| names_evolution(eb)).map_values(
                |eb: EvolutionBranch|
                    (
                        spec_normalize(eb.evolution->0@),
                        normalize_opt(opt_view(eb.form)),
                        match eb.gender_requirement {
                            Some(g) => Some(Gender::spec_from_str(g@)),
                            None => None,
                        },
                    ),
            ),
        ),
{
    if let Some(ebs) = p.evolution_branch {
        lemma_settings_evolutions(ebs@);
    }
}

/// The value of the last entry with key `key`, as a map that was filled in
/// order keeps it.
pub open spec fn lookup<V>(entries: Seq<(KeyView, V)>, key: KeyView) -> Option<V>
    decreases entries.len(),
{
    if entries.len() == 0 {
        None
    } else if entries.last().0 == key {
        Some(entries.last().1)
    } else {
        lookup(entries.drop_last(), key)
    }
}


/// A lookup gives the value of the last entry listed under the key, as a
/// map filled in list order holds it, and nothing when no entry has the key.
pub proof fn lemma_lookup_meaning<V>(entries: Seq<(KeyView, V)>, key: KeyView)
    ensures
        lookup(entries, key) is None <==> forall|i: int| 0 <= i < entries.len() ==> #[trigger] entries[i].0 != key,
        lookup(entries, key) matches Some(v) ==> exists|i: int|
            0 <= i < entries.len() && #[trigger] entries[i] == (key, v) && forall|j: int|
                i < j < entries.len() ==> (#[trigger] entries[j]).0 != key,
    decreases entries.len(),
{
    if entries.len() > 0 {
        let d = entries.drop_last();
        lemma_lookup_meaning(d, key);
        let n = entries.len() - 1;
        if entries.last().0 == key {
            assert(entries[n] == (key, entries.last().1));
        } else {
            assert forall|i: int| 0 <= i < n implies #[trigger] entries[i] == d[i] by {}
            if let Some(v) = lookup(d, key) {
                let i = choose|i: int|
                    0 <= i < d.len() && #[trigger] d[i] == (key, v) && forall|j: int|
                        i < j < d.len() ==> (#[trigger] d[j]).0 != key;
                assert(entries[i] == (key, v));
                assert forall|j: int| i < j < entries.len() implies (#[trigger] entries[j]).0 != key by {
                    if j < n {
                        assert(entries[j] == d[j]);
                    }
                }
            } else {
                assert forall|i: int| 0 <= i < entries.len() implies #[trigger] entries[i].0 != key by {
                    if i < n {
                        assert(entries[i] == d[i]);
                    }
                }
            }
        }
    }
}

/// The key under which a species and form are looked up: the normalized
/// species name, the normalized form name (none without a form), and no
/// gender.
pub proof fn lemma_lookup_key_fields(pokemon: Seq<char>, form: Option<Seq<char>>)
    ensures
        lookup_key(pokemon, form).0 == spec_normalize(pokemon),
        form matches Some(f) ==> lookup_key(pokemon, form).1 == Some(spec_normalize(f)),
        form is None ==> lookup_key(pokemon, form).1 is None,
        lookup_key(pokemon, form).2 is None,
{
}

proof fn lemma_lookup_skips<V>(entries: Seq<(KeyView, V)>, key: KeyView, j: int)
    requires
        0 <= j <= entries.len(),
        forall|m: int| j <= m < entries.len() ==> #[trigger] entries[m].0 != key,
    ensures
        lookup(entries, key) == lookup(entries.take(j), key),
    decreases entries.len() - j,
{
    if j < entries.len() {
        lemma_lookup_skips(entries.drop_last(), key, j);
        assert(entries.drop_last().take(j) == entries.take(j));
    } else {
        assert(entries.take(j) == entries);
    }
}

proof fn lemma_lookup_some<V>(entries: Seq<(KeyView, V)>, key: KeyView, m: int)
    requires
        0 <= m < entries.len(),
        entries[m].0 == key,
    ensures
        lookup(entries, key) is Some,
    decreases entries.len(),
{
    if entries.last().0 != key {
        lemma_lookup_some(entries.drop_last(), key, m);
    }
}

/// Some combination of the place equals `iv` and sits at `level` or higher.
pub open spec fn holds_iv(place: Response, iv: IV, level: u32) -> bool {
    exists|j: int| 0 <= j < place.ivs@.len() && place.ivs@[j].iv == iv && place.ivs@[j].level >= level
}

/// Position of the first place, from `k` on, that holds `iv` at `level` or
/// higher.
pub open spec fn first_holding(ranking: Seq<Response>, iv: IV, level: u32, k: int) -> Option<int>
    decreases ranking.len() - k,
{
    if k < 0 || k >= ranking.len() {
        None
    } else if holds_iv(ranking[k], iv, level) {
        Some(k)
    } else {
        first_holding(ranking, iv, level, k + 1)
    }
}

/// The first combination equal to `iv`, alone; nothing if there is none.
pub open spec fn first_with_iv(ivs: Seq<PvpIV>, iv: IV) -> Seq<PvpIV>
    decreases ivs.len(),
{
    if ivs.len() == 0 {
        Seq::empty()
    } else if ivs[0].iv == iv {
        seq![ivs[0]]
    } else {
        first_with_iv(ivs.drop_first(), iv)
    }
}

/// The answer of a ranking for combination `iv` at level `level`: the first
/// place that holds it at that level or higher, ranked by its position from
/// 1, with the quotient of its stat product by the top one, and the
/// combination itself as it sits in that place.
pub open spec fn spec_pvp_stats(ranking: Seq<Response>, iv: IV, level: u32) -> Option<ResponseView> {
    match first_holding(ranking, iv, level, 0) {
        Some(k) => Some(
            (
                (k + 1) as u32,
                Ratio { numerator: ranking[k].rank, denominator: ranking[0].rank },
                first_with_iv(ranking[k].ivs@, iv),
            ),
        ),
        None => None,
    }
}

proof fn lemma_first_holding_bounds(ranking: Seq<Response>, iv: IV, level: u32, k: int)
    requires
        0 <= k,
    ensures
        first_holding(ranking, iv, level, k) matches Some(m) ==> k <= m < ranking.len() && holds_iv(
            ranking[m],
            iv,
            level,
        ),
    decreases ranking.len() - k,
{
    if k < ranking.len() && !holds_iv(ranking[k], iv, level) {
        lemma_first_holding_bounds(ranking, iv, level, k + 1);
    }
}

proof fn lemma_first_holding_is(ranking: Seq<Response>, iv: IV, level: u32, k: int, target: Option<int>)
    requires
        0 <= k,
        forall|m: int|
            0 <= m < ranking.len() ==> (holds_iv(#[trigger] ranking[m], iv, level) <==> target == Some(m)),
        target matches Some(m0) ==> k <= m0 < ranking.len(),
    ensures
        first_holding(ranking, iv, level, k) == target,
    decreases ranking.len() - k,
{
    if k < ranking.len() && !holds_iv(ranking[k], iv, level) {
        lemma_first_holding_is(ranking, iv, level, k + 1, target);
    }
}

/// In an ordered ranking a combination sits in one place, at one level: its
/// answer is the same for every level up to that one, and there is none
/// above it, nor for a combination that no level fits.
pub proof fn lemma_pvp_stats_by_level(
    t: LevelTable,
    cap: u16,
    ranking: Seq<Response>,
    iv: IV,
    level: u32,
    other: u32,
)
    requires
        is_ordered_ranking(t, cap, ranking),
        iv.is_valid(),
    ensures
        ({
            let i = iv_index(iv);
            let placed_at = entry_iv(t, i, cap).level;
            &&& is_placed(t, i, cap) && level <= placed_at ==> spec_pvp_stats(ranking, iv, level) is Some
            &&& is_placed(t, i, cap) && level <= placed_at && other <= placed_at ==> spec_pvp_stats(
                ranking,
                iv,
                level,
            ) == spec_pvp_stats(ranking, iv, other)
            &&& !is_placed(t, i, cap) || level > placed_at ==> spec_pvp_stats(ranking, iv, level) is None
        }),
{
    let i = iv_index(iv);
    lemma_iv_index_roundtrip(iv);
    lemma_each_iv_placed_once(t, cap, ranking, i);
    let e = entry_iv(t, i, cap);
    let target = |l: u32|
        if is_placed(t, i, cap) && l <= e.level {
            Some(choose|k: int| 0 <= k < ranking.len() && #[trigger] ranking[k].ivs@.contains(e) && ranking[k].rank == entry_value(t, i, cap))
        } else {
            None::<int>
        };
    assert forall|l: u32| first_holding(ranking, iv, l, 0) == target(l) by {
        if is_placed(t, i, cap) {
            let k0 = choose|k: int|
                0 <= k < ranking.len() && #[trigger] ranking[k].ivs@.contains(e) && ranking[k].rank
                    == entry_value(t, i, cap);
            assert forall|m: int| 0 <= m < ranking.len() implies (holds_iv(#[trigger] ranking[m], iv, l)
                <==> target(l) == Some(m)) by {
                if holds_iv(ranking[m], iv, l) {
                    let j = choose|j: int|
                        0 <= j < ranking[m].ivs@.len() && ranking[m].ivs@[j].iv == iv && ranking[m].ivs@[j].level
                            >= l;
                    assert(ranking[m].ivs@[j] == e);
                    let j0 = choose|j0: int| 0 <= j0 < ranking[k0].ivs@.len() && ranking[k0].ivs@[j0] == e;
                    assert(ranking[k0].ivs@[j0].iv == iv);
                }
                if target(l) == Some(m) {
                    let j0 = choose|j0: int| 0 <= j0 < ranking[k0].ivs@.len() && ranking[k0].ivs@[j0] == e;
                    assert(ranking[m].ivs@[j0].iv == iv && ranking[m].ivs@[j0].level >= l);
                }
            }
            lemma_first_holding_is(ranking, iv, l, 0, target(l));
        } else {
            assert forall|m: int| 0 <= m < ranking.len() implies (holds_iv(#[trigger] ranking[m], iv, l)
                <==> target(l) == Some(m)) by {
                if holds_iv(ranking[m], iv, l) {
                    let j = choose|j: int|
                        0 <= j < ranking[m].ivs@.len() && ranking[m].ivs@[j].iv == iv && ranking[m].ivs@[j].level
                            >= l;
                    assert(ranking[m].ivs@[j].iv == iv_at(i));
                }
            }
            lemma_first_holding_is(ranking, iv, l, 0, target(l));
        }
    }
    assert(first_holding(ranking, iv, level, 0) == target(level));
    assert(first_holding(ranking, iv, other, 0) == target(other));
}

fn place_holds(place: &Response, iv: IV, level: u32) -> (holds: bool)
    ensures
        holds == holds_iv(*place, iv, level),
{
    let mut j: usize = 0;
    while j < place.ivs.len()
        invariant
            j <= place.ivs@.len(),
            forall|m: int|
                0 <= m < j ==> !(place.ivs@[m].iv == iv && #[trigger] place.ivs@[m].level >= level),
        decreases place.ivs@.len() - j,
    {
        if place.ivs[j].iv == iv && place.ivs[j].level >= level {
            return true;
        }
        j = j + 1;
    }
    false
}

fn first_iv_entry(ivs: &Vec<PvpIV>, iv: IV) -> (found: Vec<PvpIV>)
    ensures
        found@ == first_with_iv(ivs@, iv),
{
    let mut j: usize = 0;
    assert(ivs@.skip(0) == ivs@);
    while j < ivs.len()
        invariant
            j <= ivs@.len(),
            first_with_iv(ivs@, iv) == first_with_iv(ivs@.skip(j as int), iv),
        decreases ivs@.len() - j,
    {
        assert(ivs@.skip(j as int).drop_first() == ivs@.skip(j + 1));
        if ivs[j].iv == iv {
            let mut found: Vec<PvpIV> = Vec::new();
            found.push(ivs[j]);
            assert(found@ =~= seq![ivs@[j as int]]);
            return found;
        }
        j = j + 1;
    }
    Vec::new()
}

/// The answer of a ranking for combination `iv` at level `level` (in half
/// levels): the first place holding `iv` at that level or higher, with its
/// position from 1 as rank, the quotient of its stat product by the top
/// product as percentage, and the first entry of `iv` in that place.
pub fn pvp_stats_from_ranking(ranking: &Vec<Response>, iv: IV, level: u32) -> (stats: Option<
    Response,
>)
    requires
        ranking@.len() <= u32::MAX,
    ensures
        match stats {
            Some(r) => spec_pvp_stats(ranking@, iv, level) == Some(r@),
            None => spec_pvp_stats(ranking@, iv, level) is None,
        },
{
    let mut k: usize = 0;
    while k < ranking.len()
        invariant
            ranking@.len() <= u32::MAX,
            k <= ranking@.len(),
            first_holding(ranking@, iv, level, 0) == first_holding(ranking@, iv, level, k as int),
        decreases ranking@.len() - k,
    {
        if place_holds(&ranking[k], iv, level) {
            let index: u32 = k as u32;
            let max = ranking[0].rank;
            let value = ranking[k].rank;
            return Some(
                Response {
                    rank: index + 1,
                    percentage: Ratio { numerator: value, denominator: max },
                    ivs: first_iv_entry(&ranking[k].ivs, iv),
                },
            );
        }
        k = k + 1;
    }
    None
}

proof fn lemma_first_holding_earlier(ranking: Seq<Response>, iv: IV, level: u32, s: int)
    requires
        0 <= s,
    ensures
        match first_holding(ranking, iv, level, s) {
            Some(m) => forall|k: int| s <= k < m ==> !holds_iv(#[trigger] ranking[k], iv, level),
            None => forall|k: int| s <= k < ranking.len() ==> !holds_iv(#[trigger] ranking[k], iv, level),
        },
    decreases ranking.len() - s,
{
    if s < ranking.len() && !holds_iv(ranking[s], iv, level) {
        lemma_first_holding_earlier(ranking, iv, level, s + 1);
    }
}

proof fn lemma_first_with_iv_first(ivs: Seq<PvpIV>, iv: IV)
    ensures
        (exists|j: int| 0 <= j < ivs.len() && #[trigger] ivs[j].iv == iv) ==> exists|j0: int|
            0 <= j0 < ivs.len() && #[trigger] ivs[j0].iv == iv && (forall|j2: int|
                0 <= j2 < j0 ==> (#[trigger] ivs[j2]).iv != iv) && first_with_iv(ivs, iv) == seq![ivs[j0]],
    decreases ivs.len(),
{
    if ivs.len() > 0 && ivs[0].iv != iv {
        let rest = ivs.drop_first();
        lemma_first_with_iv_first(rest, iv);
        if exists|j: int| 0 <= j < ivs.len() && #[trigger] ivs[j].iv == iv {
            let j = choose|j: int| 0 <= j < ivs.len() && #[trigger] ivs[j].iv == iv;
            assert(rest[j - 1].iv == iv);
            let j0 = choose|j0: int|
                0 <= j0 < rest.len() && #[trigger] rest[j0].iv == iv && (forall|j2: int|
                    0 <= j2 < j0 ==> (#[trigger] rest[j2]).iv != iv) && first_with_iv(rest, iv) == seq![rest[j0]];
            assert(ivs[j0 + 1].iv == iv);
            assert forall|j2: int| 0 <= j2 < j0 + 1 implies (#[trigger] ivs[j2]).iv != iv by {
                if j2 > 0 {
                    assert(ivs[j2] == rest[j2 - 1]);
                }
            }
        }
    } else if ivs.len() > 0 {
        assert(ivs[0].iv == iv);
    }
}

/// The answer of a ranking for a combination at a level (in half levels):
/// there is one exactly when some place holds the combination at that
/// level or higher. It then comes from the first such place `k`: its rank
/// is `k + 1`, its percentage the place's stat product over the top place's,
/// and it holds the first entry of the combination in that place, alone.
pub proof fn lemma_pvp_stats_meaning(ranking: Seq<Response>, iv: IV, level: u32)
    ensures
        spec_pvp_stats(ranking, iv, level) is Some <==> exists|k: int, j: int|
            0 <= k < ranking.len() && 0 <= j < ranking[k].ivs@.len() && #[trigger] ranking[k].ivs@[j].iv == iv
                && ranking[k].ivs@[j].level >= level,
        spec_pvp_stats(ranking, iv, level) matches Some(a) ==> exists|k: int, j: int|
            {
                &&& 0 <= k < ranking.len()
                &&& 0 <= j < ranking[k].ivs@.len()
                &&& #[trigger] ranking[k].ivs@[j].iv == iv
                &&& forall|j2: int| 0 <= j2 < j ==> (#[trigger] ranking[k].ivs@[j2]).iv != iv
                &&& exists|j3: int|
                    0 <= j3 < ranking[k].ivs@.len() && #[trigger] ranking[k].ivs@[j3].iv == iv
                        && ranking[k].ivs@[j3].level >= level
                &&& forall|k2: int, j2: int|
                    0 <= k2 < k && 0 <= j2 < ranking[k2].ivs@.len() && #[trigger] ranking[k2].ivs@[j2].iv
                        == iv ==> ranking[k2].ivs@[j2].level < level
                &&& a.0 == (k + 1) as u32
                &&& a.1 == Ratio { numerator: ranking[k].rank, denominator: ranking[0].rank }
                &&& a.2 == seq![ranking[k].ivs@[j]]
            },
{
    lemma_first_holding_bounds(ranking, iv, level, 0);
    lemma_first_holding_earlier(ranking, iv, level, 0);
    match first_holding(ranking, iv, level, 0) {
        Some(k) => {
            let place = ranking[k];
            assert(holds_iv(place, iv, level));
            let j3 = choose|j: int|
                0 <= j < place.ivs@.len() && place.ivs@[j].iv == iv && place.ivs@[j].level >= level;
            assert(ranking[k].ivs@[j3].iv == iv);
            lemma_first_with_iv_first(place.ivs@, iv);
            let j = choose|j0: int|
                0 <= j0 < place.ivs@.len() && #[trigger] place.ivs@[j0].iv == iv && (forall|j2: int|
                    0 <= j2 < j0 ==> (#[trigger] place.ivs@[j2]).iv != iv) && first_with_iv(place.ivs@, iv)
                    == seq![place.ivs@[j0]];
            assert forall|k2: int, j2: int|
                0 <= k2 < k && 0 <= j2 < ranking[k2].ivs@.len() && #[trigger] ranking[k2].ivs@[j2].iv
                    == iv implies ranking[k2].ivs@[j2].level < level by {
                assert(!holds_iv(ranking[k2], iv, level));
            }
            assert(ranking[k].ivs@[j].iv == iv);
        },
        None => {
            assert forall|k: int, j: int|
                0 <= k < ranking.len() && 0 <= j < ranking[k].ivs@.len() && #[trigger] ranking[k].ivs@[j].iv
                    == iv implies ranking[k].ivs@[j].level < level by {
                assert(!holds_iv(ranking[k], iv, level));
            }
        },
    }
}

/// An answer for combination `iv` at level `level` (in half levels) from a
/// league with cap `cap`: its rank is a position from 1 to 4096, its
/// percentage at most one, and it holds exactly one combination, `iv`,
/// placed at `level` or higher and at most at level 50, with a combat power
/// within the cap.
pub open spec fn is_sound_answer(answer: ResponseView, iv: IV, level: u32, cap: u16) -> bool {
    &&& 1 <= answer.0 <= 4096
    &&& answer.1.numerator <= answer.1.denominator
    &&& answer.2.len() == 1
    &&& answer.2[0].iv == iv
    &&& level <= answer.2[0].level <= MAX_HALF_LEVEL
    &&& answer.2[0].cp <= cap
}

proof fn lemma_first_with_iv(ivs: Seq<PvpIV>, iv: IV, j: int)
    requires
        0 <= j < ivs.len(),
        ivs[j].iv == iv,
        forall|m: int| 0 <= m < ivs.len() && m != j ==> (#[trigger] ivs[m]).iv != iv,
    ensures
        first_with_iv(ivs, iv) == seq![ivs[j]],
    decreases ivs.len(),
{
    if j > 0 {
        assert forall|m: int| 0 <= m < ivs.drop_first().len() && m != j - 1 implies (
        #[trigger] ivs.drop_first()[m]).iv != iv by {
            assert(ivs.drop_first()[m] == ivs[m + 1]);
        }
        lemma_first_with_iv(ivs.drop_first(), iv, j - 1);
    }
}

/// Every answer of a stored ranking is sound: a ranking that is the
/// ordered ranking of a table under `cap` answers any combination at any
/// level with one place whose rank, percentage and single combination stay
/// within the bounds of `is_sound_answer`.
pub proof fn lemma_sound_ranking_answers(ranking: Seq<Response>, cap: u16, iv: IV, level: u32)
    requires
        ranking_sound(ranking, cap),
    ensures
        spec_pvp_stats(ranking, iv, level) matches Some(answer) ==> is_sound_answer(answer, iv, level, cap),
{
    if let Some(answer) = spec_pvp_stats(ranking, iv, level) {
        let t = choose|t: LevelTable| t.wf() && #[trigger] is_ordered_ranking(t, cap, ranking);
        let k = first_holding(ranking, iv, level, 0)->0;
        lemma_first_holding_bounds(ranking, iv, level, 0);
        let place = ranking[k];
        assert(holds_iv(place, iv, level));
        let j = choose|j: int|
            0 <= j < place.ivs@.len() && place.ivs@[j].iv == iv && place.ivs@[j].level >= level;
        assert(place.ivs@ == ivs_of_value(t, cap, place.rank));
        lemma_ivs_with_value_shape_public(t, cap, place.rank);
        let i = iv_index(iv);
        assert(place.ivs@[j] == entry_iv(t, iv_index(place.ivs@[j].iv), cap));
        lemma_each_iv_placed_once(t, cap, ranking, i);
        lemma_iv_index_roundtrip(iv);
        lemma_entry_within_cap(t, i, cap);
        assert forall|m: int| 0 <= m < place.ivs@.len() && m != j implies (#[trigger] place.ivs@[m]).iv
            != iv by {
            if place.ivs@[m].iv == iv {
                assert(place.ivs@[m].iv == iv_at(i));
                assert(place.ivs@[j].iv == iv_at(i));
                assert(ranking[k].ivs@[m].iv == iv_at(i));
            }
        }
        lemma_first_with_iv(place.ivs@, iv, j);
        if k > 0 {
            assert(ranking[0].rank > ranking[k].rank);
        }
    }
}

/// What a list of answers is.
pub open spec fn answers_view(answers: Seq<(PokemonWithFormAndGender, Response)>) -> Seq<(KeyView, ResponseView)> {
    answers.map_values(|a: (PokemonWithFormAndGender, Response)| (a.0@, a.1@))
}

proof fn lemma_answers_view_concat(
    before: Seq<(PokemonWithFormAndGender, Response)>,
    added: Seq<(PokemonWithFormAndGender, Response)>,
)
    ensures
        answers_view(before + added) == answers_view(before) + answers_view(added),
{
    assert(answers_view(before + added) =~= answers_view(before) + answers_view(added));
}

/// Stats read from a list of settings are those of the last settings listed
/// under each key: the `i`-th settings are the ones looked up under their
/// key when no later settings share it.
pub proof fn lemma_last_settings_win(settings: Seq<PokemonSettings>, i: int)
    requires
        0 <= i < settings.len(),
        forall|j: int|
            i < j < settings.len() ==> #[trigger] GameMaster::settings_entry(settings[j]).0
                != GameMaster::settings_entry(settings[i]).0,
    ensures
        lookup(
            settings.map_values(|p: PokemonSettings| GameMaster::settings_entry(p)),
            GameMaster::settings_entry(settings[i]).0,
        ) == Some(settings_stats(settings[i])),
{
    let entries = settings.map_values(|p: PokemonSettings| GameMaster::settings_entry(p));
    let key = GameMaster::settings_entry(settings[i]).0;
    assert forall|m: int| i + 1 <= m < entries.len() implies #[trigger] entries[m].0 != key by {
        assert(entries[m] == GameMaster::settings_entry(settings[m]));
    }
    lemma_lookup_skips(entries, key, i + 1);
    assert(entries.take(i + 1).last() == entries[i]);
}

/// Some table that `table_of` gives for `base` has `great` and `ultra` as
/// its ordered rankings under the caps of the two leagues.
pub open spec fn has_table<F: Fn(BaseStats) -> LevelTable>(
    table_of: F,
    base: BaseStats,
    great: Seq<Response>,
    ultra: Seq<Response>,
) -> bool {
    exists|t: LevelTable|
        #[trigger] call_ensures(table_of, (base,), t) && is_ordered_ranking(t, League::Great.spec_cap(), great)
            && is_ordered_ranking(t, League::Ultra.spec_cap(), ultra)
}

/// The base stats listed last under `key`.
pub open spec fn listed_base_stats(entries: Seq<(KeyView, StatsView)>, key: KeyView) -> BaseStats {
    lookup(entries, key).unwrap().0
}

/// Position of the last entry with key `key`; -1 when there is none.
spec fn last_key_index<V>(entries: Seq<(KeyView, V)>, key: KeyView) -> int
    decreases entries.len(),
{
    if entries.len() == 0 {
        -1
    } else if entries.last().0 == key {
        entries.len() - 1
    } else {
        last_key_index(entries.drop_last(), key)
    }
}

proof fn lemma_lookup_index<V>(entries: Seq<(KeyView, V)>, key: KeyView)
    ensures
        -1 <= last_key_index(entries, key) < entries.len(),
        lookup(entries, key) is Some <==> last_key_index(entries, key) >= 0,
        last_key_index(entries, key) >= 0 ==> entries[last_key_index(entries, key)].0 == key
            && lookup(entries, key) == Some(entries[last_key_index(entries, key)].1),
    decreases entries.len(),
{
    if entries.len() > 0 && entries.last().0 != key {
        lemma_lookup_index(entries.drop_last(), key);
        let d = entries.drop_last();
        if last_key_index(d, key) >= 0 {
            assert(entries[last_key_index(d, key)] == d[last_key_index(d, key)]);
        }
    }
}

proof fn lemma_last_index_same_keys<A, B>(e1: Seq<(KeyView, A)>, e2: Seq<(KeyView, B)>, key: KeyView)
    requires
        e1.len() == e2.len(),
        forall|m: int| 0 <= m < e1.len() ==> #[trigger] e1[m].0 == e2[m].0,
    ensures
        last_key_index(e1, key) == last_key_index(e2, key),
    decreases e1.len(),
{
    if e1.len() > 0 {
        let n = e1.len() - 1;
        assert(e1[n].0 == e2[n].0);
        let d1 = e1.drop_last();
        let d2 = e2.drop_last();
        assert forall|m: int| 0 <= m < d1.len() implies #[trigger] d1[m].0 == d2[m].0 by {
            assert(e1[m].0 == e2[m].0);
        }
        lemma_last_index_same_keys(d1, d2, key);
    }
}

/// A stored ranking of a league with cap `cap`: the ordered ranking, under
/// that cap, of some table of combat power and stat products, with at most
/// 4096 places.
pub open spec fn ranking_sound(ranking: Seq<Response>, cap: u16) -> bool {
    &&& ranking.len() <= 4096
    &&& exists|t: LevelTable| t.wf() && #[trigger] is_ordered_ranking(t, cap, ranking)
}

fn clone_key(k: &PokemonWithFormAndGender) -> (c: PokemonWithFormAndGender)
    ensures
        c@ == k@,
{
    let form = match &k.form {
        Some(f) => Some(f.clone()),
        None => None,
    };
    PokemonWithFormAndGender { pokemon: k.pokemon.clone(), form, gender: k.gender }
}

/// The stats of every Pokémon of a game master, in the order in which they
/// were listed, and the rankings computed for them in both leagues.
pub struct GameMaster {
    stats: Vec<(PokemonWithFormAndGender, Stats)>,
    great_league: Vec<(PokemonWithFormAndGender, Vec<Response>)>,
    ultra_league: Vec<(PokemonWithFormAndGender, Vec<Response>)>,
}

impl GameMaster {
    #[verifier::type_invariant]
    spec fn rankings_sound(&self) -> bool {
        &&& forall|k: int|
            0 <= k < self.great_league@.len() ==> ranking_sound(
                #[trigger] self.great_league@[k].1@,
                League::Great.spec_cap(),
            )
        &&& forall|k: int|
            0 <= k < self.ultra_league@.len() ==> ranking_sound(
                #[trigger] self.ultra_league@[k].1@,
                League::Ultra.spec_cap(),
            )
    }

    /// The stats entries: the key and stats of each listed Pokémon, in order.
    pub closed spec fn stats_entries(&self) -> Seq<(KeyView, StatsView)> {
        self.stats@.map_values(|e: (PokemonWithFormAndGender, Stats)| (e.0@, e.1@))
    }

    /// The ranking entries of a league: a key and a ranking each, in the
    /// order in which they were added.
    pub closed spec fn league_entries(&self, league: League) -> Seq<(KeyView, Seq<Response>)> {
        match league {
            League::Great => self.great_league@.map_values(
                |e: (PokemonWithFormAndGender, Vec<Response>)| (e.0@, e.1@),
            ),
            League::Ultra => self.ultra_league@.map_values(
                |e: (PokemonWithFormAndGender, Vec<Response>)| (e.0@, e.1@),
            ),
        }
    }

    /// The key and stats that the settings of a Pokémon give.
    pub open spec fn settings_entry(p: PokemonSettings) -> (KeyView, StatsView) {
        (lookup_key(p.unique_id@, opt_view(p.form)), settings_stats(p))
    }

    /// A game master with no Pokémon.
    pub fn new() -> (gm: GameMaster)
        ensures
            gm.stats_entries() == Seq::<(KeyView, StatsView)>::empty(),
            gm.league_entries(League::Great) == Seq::<(KeyView, Seq<Response>)>::empty(),
            gm.league_entries(League::Ultra) == Seq::<(KeyView, Seq<Response>)>::empty(),
    {
        let gm = GameMaster { stats: Vec::new(), great_league: Vec::new(), ultra_league: Vec::new() };
        assert(gm.stats_entries() =~= Seq::<(KeyView, StatsView)>::empty());
        assert(gm.league_entries(League::Great) =~= Seq::<(KeyView, Seq<Response>)>::empty());
        assert(gm.league_entries(League::Ultra) =~= Seq::<(KeyView, Seq<Response>)>::empty());
        gm
    }

    /// The stats of every listed Pokémon, keyed by its normalized id and
    /// form, in the order of the list; no rankings yet.
    pub fn from_settings(settings: &Vec<PokemonSettings>) -> (gm: GameMaster)
        ensures
            gm.stats_entries() == settings@.map_values(|p: PokemonSettings| GameMaster::settings_entry(p)),
            gm.league_entries(League::Great) == Seq::<(KeyView, Seq<Response>)>::empty(),
            gm.league_entries(League::Ultra) == Seq::<(KeyView, Seq<Response>)>::empty(),
    {
        let mut stats: Vec<(PokemonWithFormAndGender, Stats)> = Vec::new();
        let mut i: usize = 0;
        while i < settings.len()
            invariant
                i <= settings@.len(),
                stats@.len() == i,
                forall|k: int|
                    0 <= k < i ==> (#[trigger] stats@[k]).0@ == GameMaster::settings_entry(settings@[k]).0
                        && stats@[k].1@ == GameMaster::settings_entry(settings@[k]).1,
            decreases settings@.len() - i,
        {
            let p = &settings[i];
            stats.push((PokemonWithFormAndGender::from(p), Stats::from(p)));
            i = i + 1;
        }
        let gm = GameMaster { stats, great_league: Vec::new(), ultra_league: Vec::new() };
        assert(gm.stats_entries() =~= settings@.map_values(|p: PokemonSettings| GameMaster::settings_entry(p)));
        assert(gm.league_entries(League::Great) =~= Seq::<(KeyView, Seq<Response>)>::empty());
        assert(gm.league_entries(League::Ultra) =~= Seq::<(KeyView, Seq<Response>)>::empty());
        gm
    }

    /// Number of listed Pokémon.
    pub fn len(&self) -> (n: usize)
        ensures
            n == self.stats_entries().len(),
    {
        self.stats.len()
    }

    /// The stats listed last under `key`, as a map filled in list order holds
    /// them.
    pub fn get_stats(&self, key: &PokemonWithFormAndGender) -> (found: Option<&Stats>)
        ensures
            match found {
                Some(s) => lookup(self.stats_entries(), key@) == Some(s@),
                None => lookup(self.stats_entries(), key@) is None,
            },
    {
        let ghost entries = self.stats_entries();
        let mut j = self.stats.len();
        while j > 0
            invariant
                j <= self.stats@.len(),
                entries == self.stats_entries(),
                entries.len() == self.stats@.len(),
                forall|m: int| j <= m < entries.len() ==> #[trigger] entries[m].0 != key@,
            decreases j,
        {
            j = j - 1;
            if self.stats[j].0.same_key(key) {
                proof {
                    lemma_lookup_skips(entries, key@, j + 1);
                    assert(entries.take(j + 1).drop_last() == entries.take(j as int));
                }
                return Some(&self.stats[j].1);
            }
            assert(entries[j as int].0 != key@);
        }
        proof {
            lemma_lookup_skips(entries, key@, 0);
        }
        None
    }

    /// The base stats from which the rankings of the `i`-th listed Pokémon are
    /// computed: those listed last under its key.
    pub fn ranking_base_stats(&self, i: usize) -> (base: BaseStats)
        requires
            i < self.stats_entries().len(),
        ensures
            lookup(self.stats_entries(), self.stats_entries()[i as int].0) matches Some(s) && base
                == s.0,
    {
        match self.get_stats(&self.stats[i].0) {
            Some(s) => s.stats,
            None => {
                proof {
                    lemma_lookup_some(self.stats_entries(), self.stats_entries()[i as int].0, i as int);
                }
                self.stats[i].1.stats
            },
        }
    }

    /// Adds the rankings of the `i`-th listed Pokémon in both leagues,
    /// computed from the table of its base stats, under its key.
    pub fn add_rankings(self, i: usize, table: &LevelTable) -> (gm: GameMaster)
        requires
            i < self.stats_entries().len(),
            table.wf(),
        ensures
            gm.stats_entries() == self.stats_entries(),
            gm.league_entries(League::Great).len() == self.league_entries(League::Great).len() + 1,
            gm.league_entries(League::Great).drop_last() == self.league_entries(League::Great),
            gm.league_entries(League::Great).last().0 == self.stats_entries()[i as int].0,
            lookup(gm.league_entries(League::Great), self.stats_entries()[i as int].0) == Some(
                gm.league_entries(League::Great).last().1,
            ),
            is_ordered_ranking(*table, League::Great.spec_cap(), gm.league_entries(League::Great).last().1),
            gm.league_entries(League::Ultra).len() == self.league_entries(League::Ultra).len() + 1,
            gm.league_entries(League::Ultra).drop_last() == self.league_entries(League::Ultra),
            gm.league_entries(League::Ultra).last().0 == self.stats_entries()[i as int].0,
            lookup(gm.league_entries(League::Ultra), self.stats_entries()[i as int].0) == Some(
                gm.league_entries(League::Ultra).last().1,
            ),
            is_ordered_ranking(*table, League::Ultra.spec_cap(), gm.league_entries(League::Ultra).last().1),
    {
        proof {
            use_type_invariant(&self);
        }
        let ghost old_gm = self;
        let great = get_pvp_values_ordered(table, League::Great.get_cap());
        let ultra = get_pvp_values_ordered(table, League::Ultra.get_cap());
        let great_key = clone_key(&self.stats[i].0);
        let ultra_key = clone_key(&self.stats[i].0);
        let GameMaster { stats, mut great_league, mut ultra_league } = self;
        great_league.push((great_key, great));
        ultra_league.push((ultra_key, ultra));
        let gm = GameMaster { stats, great_league, ultra_league };
        assert(gm.league_entries(League::Great).drop_last() =~= old_gm.league_entries(League::Great));
        assert(gm.league_entries(League::Ultra).drop_last() =~= old_gm.league_entries(League::Ultra));
        gm
    }

    /// Reads the game master from a list of settings and ranks every listed
    /// Pokémon in both leagues, from the table that `table_of` gives for the
    /// base stats listed last under its key: every key that has stats then
    /// has rankings in both leagues, and no other key has any.
    pub fn load<F: Fn(BaseStats) -> LevelTable>(settings: &Vec<PokemonSettings>, table_of: F) -> (gm:
        GameMaster)
        requires
            forall|b: BaseStats| call_requires(table_of, (b,)),
            forall|b: BaseStats, t: LevelTable| call_ensures(table_of, (b,), t) ==> t.wf(),
        ensures
            gm.stats_entries() == settings@.map_values(|p: PokemonSettings| GameMaster::settings_entry(p)),
            forall|k: KeyView|
                #![trigger lookup(gm.league_entries(League::Great), k)]
                #![trigger lookup(gm.league_entries(League::Ultra), k)]
                #![trigger lookup(gm.stats_entries(), k)]
                (lookup(gm.league_entries(League::Great), k) is Some <==> lookup(gm.stats_entries(), k) is Some)
                    && (lookup(gm.league_entries(League::Ultra), k) is Some <==> lookup(
                    gm.stats_entries(),
                    k,
                ) is Some),
            forall|k: KeyView|
                #![trigger lookup(gm.stats_entries(), k)]
                lookup(gm.stats_entries(), k) is Some ==> exists|t: LevelTable|
                    #[trigger] call_ensures(table_of, (listed_base_stats(gm.stats_entries(), k),), t)
                        && gm.loaded_from(t, k),
    {
        let mut gm = GameMaster::from_settings(settings);
        let ghost stats = gm.stats_entries();
        let n = gm.len();
        let mut i: usize = 0;
        while i < n
            invariant
                n == stats.len(),
                i <= n,
                gm.stats_entries() == stats,
                stats == settings@.map_values(|p: PokemonSettings| GameMaster::settings_entry(p)),
                forall|b: BaseStats| call_requires(table_of, (b,)),
                forall|b: BaseStats, t: LevelTable| call_ensures(table_of, (b,), t) ==> t.wf(),
                gm.league_entries(League::Great).len() == i,
                gm.league_entries(League::Ultra).len() == i,
                forall|m: int|
                    0 <= m < i ==> #[trigger] gm.league_entries(League::Great)[m].0 == stats[m].0
                        && gm.league_entries(League::Ultra)[m].0 == stats[m].0,
                forall|m: int|
                    0 <= m < i ==> #[trigger] has_table(
                        table_of,
                        listed_base_stats(stats, stats[m].0),
                        gm.league_entries(League::Great)[m].1,
                        gm.league_entries(League::Ultra)[m].1,
                    ),
            decreases n - i,
        {
            let base = gm.ranking_base_stats(i);
            let table = table_of(base);
            let ghost before = gm;
            gm = gm.add_rankings(i, &table);
            proof {
                let g0 = before.league_entries(League::Great);
                let u0 = before.league_entries(League::Ultra);
                let g1 = gm.league_entries(League::Great);
                let u1 = gm.league_entries(League::Ultra);
                assert forall|m: int| 0 <= m < i implies g1[m] == g0[m] && u1[m] == u0[m] by {
                    assert(g1.drop_last()[m] == g1[m]);
                    assert(u1.drop_last()[m] == u1[m]);
                }
                assert forall|m: int| 0 <= m < i + 1 implies #[trigger] has_table(
                    table_of,
                    listed_base_stats(stats, stats[m].0),
                    g1[m].1,
                    u1[m].1,
                ) by {
                    if m == i {
                        assert(call_ensures(table_of, (listed_base_stats(stats, stats[m].0),), table));
                    }
                }
            }
            i = i + 1;
        }
        proof {
            let g = gm.league_entries(League::Great);
            let u = gm.league_entries(League::Ultra);
            assert forall|k: KeyView|
                (lookup(g, k) is Some <==> lookup(stats, k) is Some) && (lookup(u, k) is Some <==> lookup(
                    stats,
                    k,
                ) is Some) by {
                lemma_last_index_same_keys(stats, g, k);
                lemma_last_index_same_keys(stats, u, k);
                lemma_lookup_index(stats, k);
                lemma_lookup_index(g, k);
                lemma_lookup_index(u, k);
            }
            assert forall|k: KeyView| lookup(stats, k) is Some implies exists|t: LevelTable|
                #[trigger] call_ensures(table_of, (listed_base_stats(stats, k),), t) && gm.loaded_from(t, k) by {
                lemma_last_index_same_keys(stats, g, k);
                lemma_last_index_same_keys(stats, u, k);
                lemma_lookup_index(stats, k);
                lemma_lookup_index(g, k);
                lemma_lookup_index(u, k);
                let j = last_key_index(stats, k);
                assert(stats[j].0 == k);
                assert(has_table(table_of, listed_base_stats(stats, stats[j].0), g[j].1, u[j].1));
                let t = choose|t: LevelTable|
                    #[trigger] call_ensures(table_of, (listed_base_stats(stats, stats[j].0),), t)
                        && is_ordered_ranking(t, League::Great.spec_cap(), g[j].1)
                        && is_ordered_ranking(t, League::Ultra.spec_cap(), u[j].1);
                assert(gm.loaded_from(t, k));
            }
        }
        gm
    }

    /// The rankings of `key` in both leagues are the ordered rankings of
    /// table `t` under the leagues' caps.
    pub open spec fn loaded_from(&self, t: LevelTable, key: KeyView) -> bool {
        &&& lookup(self.league_entries(League::Great), key) matches Some(g)
            && is_ordered_ranking(t, League::Great.spec_cap(), g)
        &&& lookup(self.league_entries(League::Ultra), key) matches Some(u)
            && is_ordered_ranking(t, League::Ultra.spec_cap(), u)
    }

    /// Rankings loaded from a table are its ordered rankings under a cap of
    /// 1500 in the great league and 2500 in the ultra league.
    pub proof fn lemma_loaded_caps(&self, t: LevelTable, key: KeyView)
        requires
            self.loaded_from(t, key),
        ensures
            lookup(self.league_entries(League::Great), key) matches Some(g) && is_ordered_ranking(t, 1500, g),
            lookup(self.league_entries(League::Ultra), key) matches Some(u) && is_ordered_ranking(t, 2500, u),
    {
    }

    /// A ranking loaded from a table is the ordered ranking of that table:
    /// it has the same places, in the same order, as any ordered ranking of
    /// the table under the league's cap, such as `get_pvp_values_ordered`
    /// gives.
    pub proof fn lemma_loaded_ranking_is_ordered_ranking(
        &self,
        t: LevelTable,
        key: KeyView,
        league: League,
        ranking: Seq<Response>,
    )
        requires
            self.loaded_from(t, key),
            is_ordered_ranking(t, league.spec_cap(), ranking),
        ensures
            lookup(self.league_entries(league), key) matches Some(stored) && stored.len() == ranking.len()
                && forall|k: int| 0 <= k < ranking.len() ==> #[trigger] stored[k]@ == ranking[k]@,
    {
        let stored = lookup(self.league_entries(league), key)->0;
        lemma_ordered_ranking_unique(t, league.spec_cap(), stored, ranking);
    }

    /// The answers of a league's rankings for a Pokémon and, following the
    /// evolutions listed in its stats (those without a gender requirement or
    /// requiring `gender`), for each evolution in turn, under the evolution's
    /// own form; nothing is followed when the costume's name, lowercased,
    /// contains `noevolve`, and evolutions are followed at most `depth`
    /// steps deep.
    pub open spec fn spec_with_evolutions(
        &self,
        pokemon: Seq<char>,
        form: Option<Seq<char>>,
        gender: Gender,
        costume: Option<Seq<char>>,
        iv: IV,
        level: u32,
        league: League,
        depth: nat,
    ) -> Seq<(KeyView, ResponseView)>
        decreases depth, 0nat,
    {
        let current = match self.spec_get_pvp_stats(pokemon, form, iv, level, league) {
            Some(c) => seq![((spec_normalize(pokemon), normalize_opt(form), Some(gender)), c)],
            None => Seq::empty(),
        };
        if costume matches Some(c) && spec_contains(lowercase(c), "noevolve"@) {
            current
        } else if depth == 0 {
            current
        } else {
            match lookup(self.stats_entries(), lookup_key(pokemon, form)) {
                Some(st) => match st.1 {
                    Some(evolutions) => current + self.spec_evolution_list(
                        evolutions,
                        gender,
                        costume,
                        iv,
                        level,
                        league,
                        (depth - 1) as nat,
                    ),
                    None => current,
                },
                None => current,
            }
        }
    }

    /// The answers for a list of evolutions, each followed in turn under its
    /// own form, skipping those that require another gender.
    pub open spec fn spec_evolution_list(
        &self,
        evolutions: Seq<KeyView>,
        gender: Gender,
        costume: Option<Seq<char>>,
        iv: IV,
        level: u32,
        league: League,
        depth: nat,
    ) -> Seq<(KeyView, ResponseView)>
        decreases depth, evolutions.len(),
    {
        if evolutions.len() == 0 {
            Seq::empty()
        } else {
            let prev = self.spec_evolution_list(
                evolutions.drop_last(),
                gender,
                costume,
                iv,
                level,
                league,
                depth,
            );
            let e = evolutions.last();
            if e.2 is None || e.2 == Some(gender) {
                prev + self.spec_with_evolutions(e.0, e.1, gender, costume, iv, level, league, depth)
            } else {
                prev
            }
        }
    }

    /// Whether an evolution listed with key `e` is followed for `gender`: it
    /// requires no gender, or that one.
    pub open spec fn is_followed(e: KeyView, gender: Gender) -> bool {
        e.2 is None || e.2 == Some(gender)
    }

    /// The answers for a Pokémon and its evolutions: the answer of its own
    /// ranking, keyed by its normalized names and `gender`, when the ranking
    /// holds the combination at the level; then, when `depth` allows a step,
    /// the costume does not stop the search and its stats list evolutions,
    /// the answers of every listed evolution that is followed for `gender`,
    /// each followed one step less deep under its own form, one after the
    /// other in the order listed.
    pub proof fn lemma_answers_with_evolutions(
        &self,
        pokemon: Seq<char>,
        form: Option<Seq<char>>,
        gender: Gender,
        costume: Option<Seq<char>>,
        iv: IV,
        level: u32,
        league: League,
        depth: nat,
    )
        ensures
            self.spec_with_evolutions(pokemon, form, gender, costume, iv, level, league, depth) == (match self.spec_get_pvp_stats(
                pokemon,
                form,
                iv,
                level,
                league,
            ) {
                Some(c) => seq![((spec_normalize(pokemon), normalize_opt(form), Some(gender)), c)],
                None => Seq::<(KeyView, ResponseView)>::empty(),
            }) + (if depth > 0 && !(costume matches Some(c) && spec_contains(lowercase(c), "noevolve"@)) {
                match lookup(self.stats_entries(), lookup_key(pokemon, form)) {
                    Some(st) => match st.1 {
                        Some(evolutions) => evolutions.filter(|e: KeyView| Self::is_followed(e, gender)).map_values(
                            |e: KeyView|
                                self.spec_with_evolutions(
                                    e.0,
                                    e.1,
                                    gender,
                                    costume,
                                    iv,
                                    level,
                                    league,
                                    (depth - 1) as nat,
                                ),
                        ).flatten(),
                        None => Seq::empty(),
                    },
                    None => Seq::empty(),
                }
            } else {
                Seq::empty()
            }),
    {
        if depth > 0 && !(costume matches Some(c) && spec_contains(lowercase(c), "noevolve"@)) {
            if let Some(st) = lookup(self.stats_entries(), lookup_key(pokemon, form)) {
                if let Some(evolutions) = st.1 {
                    self.lemma_evolution_list_flat(
                        evolutions,
                        gender,
                        costume,
                        iv,
                        level,
                        league,
                        (depth - 1) as nat,
                    );
                    let f = |e: KeyView|
                        self.spec_with_evolutions(
                            e.0,
                            e.1,
                            gender,
                            costume,
                            iv,
                            level,
                            league,
                            (depth - 1) as nat,
                        );
                    evolutions.filter(|e: KeyView| Self::is_followed(e, gender)).map_values(
                        f,
                    ).lemma_flatten_and_flatten_alt_are_equivalent();
                }
            }
        }
    }

    proof fn lemma_evolution_list_flat(
        &self,
        evolutions: Seq<KeyView>,
        gender: Gender,
        costume: Option<Seq<char>>,
        iv: IV,
        level: u32,
        league: League,
        depth: nat,
    )
        ensures
            self.spec_evolution_list(evolutions, gender, costume, iv, level, league, depth)
                == evolutions.filter(|e: KeyView| Self::is_followed(e, gender)).map_values(
                |e: KeyView| self.spec_with_evolutions(e.0, e.1, gender, costume, iv, level, league, depth),
            ).flatten_alt(),
        decreases evolutions.len(),
    {
        reveal(Seq::filter);
        let pred = |e: KeyView| Self::is_followed(e, gender);
        let f = |e: KeyView| self.spec_with_evolutions(e.0, e.1, gender, costume, iv, level, league, depth);
        if evolutions.len() > 0 {
            self.lemma_evolution_list_flat(evolutions.drop_last(), gender, costume, iv, level, league, depth);
            let prev = evolutions.drop_last().filter(pred);
            if pred(evolutions.last()) {
                assert(evolutions.filter(pred) == prev.push(evolutions.last()));
                let m = prev.map_values(f);
                assert(evolutions.filter(pred).map_values(f) =~= m.push(f(evolutions.last())));
                assert(m.push(f(evolutions.last())).drop_last() =~= m);
            } else {
                assert(evolutions.filter(pred) == prev);
            }
        }
    }

    /// Every evolution chain followed from a Pokémon ends within `depth`
    /// steps: the costume stops the search, or the Pokémon has no listed
    /// stats or evolutions, or `depth` is positive and every evolution that
    /// is followed ends within one step less.
    pub open spec fn ends_within(
        &self,
        pokemon: Seq<char>,
        form: Option<Seq<char>>,
        gender: Gender,
        costume: Option<Seq<char>>,
        depth: nat,
    ) -> bool
        decreases depth, 0nat,
    {
        if costume matches Some(c) && spec_contains(lowercase(c), "noevolve"@) {
            true
        } else {
            match lookup(self.stats_entries(), lookup_key(pokemon, form)) {
                Some(st) => match st.1 {
                    Some(evolutions) => depth > 0 && self.evolutions_end_within(
                        evolutions,
                        gender,
                        costume,
                        (depth - 1) as nat,
                    ),
                    None => true,
                },
                None => true,
            }
        }
    }

    /// Every evolution of the list that is followed ends within `depth`
    /// steps.
    pub open spec fn evolutions_end_within(
        &self,
        evolutions: Seq<KeyView>,
        gender: Gender,
        costume: Option<Seq<char>>,
        depth: nat,
    ) -> bool
        decreases depth, evolutions.len(),
    {
        if evolutions.len() == 0 {
            true
        } else {
            let e = evolutions.last();
            &&& self.evolutions_end_within(evolutions.drop_last(), gender, costume, depth)
            &&& (e.2 is None || e.2 == Some(gender)) ==> self.ends_within(e.0, e.1, gender, costume, depth)
        }
    }

    /// Once every evolution chain followed from a Pokémon ends within
    /// `depth` steps, following evolutions deeper changes no answer.
    pub proof fn lemma_deeper_changes_nothing(
        &self,
        pokemon: Seq<char>,
        form: Option<Seq<char>>,
        gender: Gender,
        costume: Option<Seq<char>>,
        iv: IV,
        level: u32,
        league: League,
        depth: nat,
        more: nat,
    )
        requires
            self.ends_within(pokemon, form, gender, costume, depth),
            depth <= more,
        ensures
            self.spec_with_evolutions(pokemon, form, gender, costume, iv, level, league, depth)
                == self.spec_with_evolutions(pokemon, form, gender, costume, iv, level, league, more),
        decreases depth, 0nat,
    {
        if !(costume matches Some(c) && spec_contains(lowercase(c), "noevolve"@)) {
            if let Some(st) = lookup(self.stats_entries(), lookup_key(pokemon, form)) {
                if let Some(evolutions) = st.1 {
                    self.lemma_deeper_list_changes_nothing(
                        evolutions,
                        gender,
                        costume,
                        iv,
                        level,
                        league,
                        (depth - 1) as nat,
                        (more - 1) as nat,
                    );
                }
            }
        }
    }

    proof fn lemma_deeper_list_changes_nothing(
        &self,
        evolutions: Seq<KeyView>,
        gender: Gender,
        costume: Option<Seq<char>>,
        iv: IV,
        level: u32,
        league: League,
        depth: nat,
        more: nat,
    )
        requires
            self.evolutions_end_within(evolutions, gender, costume, depth),
            depth <= more,
        ensures
            self.spec_evolution_list(evolutions, gender, costume, iv, level, league, depth)
                == self.spec_evolution_list(evolutions, gender, costume, iv, level, league, more),
        decreases depth, evolutions.len(),
    {
        if evolutions.len() > 0 {
            self.lemma_deeper_list_changes_nothing(
                evolutions.drop_last(),
                gender,
                costume,
                iv,
                level,
                league,
                depth,
                more,
            );
            let e = evolutions.last();
            if e.2 is None || e.2 == Some(gender) {
                self.lemma_deeper_changes_nothing(e.0, e.1, gender, costume, iv, level, league, depth, more);
            }
        }
    }

    /// `to` is an evolution of `from` listed in the stats of `from`, and is
    /// followed for `gender`.
    pub open spec fn evolves_to(
        &self,
        from: (Seq<char>, Option<Seq<char>>),
        to: (Seq<char>, Option<Seq<char>>),
        gender: Gender,
    ) -> bool {
        &&& lookup(self.stats_entries(), lookup_key(from.0, from.1)) matches Some(st)
        &&& st.1 matches Some(evolutions)
        &&& exists|j: int|
            0 <= j < evolutions.len() && #[trigger] evolutions[j].0 == to.0 && evolutions[j].1 == to.1 && (
            evolutions[j].2 is None || evolutions[j].2 == Some(gender))
    }

    /// Each Pokémon of `path` after the first is an evolution of the one
    /// before it, followed for `gender`.
    pub open spec fn is_evolution_path(&self, path: Seq<(Seq<char>, Option<Seq<char>>)>, gender: Gender) -> bool {
        forall|j: int| 0 <= j < path.len() - 1 ==> self.evolves_to(#[trigger] path[j], path[j + 1], gender)
    }

    /// No chain of evolutions followed from a Pokémon for `gender` comes
    /// back to the key of a Pokémon it has passed.
    pub open spec fn no_evolution_cycle_from(
        &self,
        pokemon: Seq<char>,
        form: Option<Seq<char>>,
        gender: Gender,
    ) -> bool {
        forall|path: Seq<(Seq<char>, Option<Seq<char>>)>|
            path.len() > 0 && path[0] == (pokemon, form) && #[trigger] self.is_evolution_path(path, gender)
                ==> forall|i: int, j: int|
                #![trigger path[i], path[j]]
                0 <= i < j < path.len() ==> lookup_key(path[i].0, path[i].1) != lookup_key(path[j].0, path[j].1)
    }

    /// Without evolution cycles, following evolutions as many steps deep as
    /// the game master lists Pokémon gives the same answers as following
    /// them any deeper: the depth bound changes nothing.
    pub proof fn lemma_depth_bound_without_cycles(
        &self,
        pokemon: Seq<char>,
        form: Option<Seq<char>>,
        gender: Gender,
        costume: Option<Seq<char>>,
        iv: IV,
        level: u32,
        league: League,
        more: nat,
    )
        requires
            self.no_evolution_cycle_from(pokemon, form, gender),
            self.stats_entries().len() <= more,
        ensures
            self.spec_with_evolutions(
                pokemon,
                form,
                gender,
                costume,
                iv,
                level,
                league,
                self.stats_entries().len(),
            ) == self.spec_with_evolutions(pokemon, form, gender, costume, iv, level, league, more),
    {
        let n = self.stats_entries().len();
        let path = seq![(pokemon, form)];
        assert(path[0] == (pokemon, form));
        assert(self.is_evolution_path(path, gender));
        self.lemma_path_ends(path, gender, costume, n);
        self.lemma_deeper_changes_nothing(pokemon, form, gender, costume, iv, level, league, n, more);
    }

    proof fn lemma_distinct_keys_fit(keys: Seq<KeyView>, all: Seq<KeyView>)
        requires
            keys.no_duplicates(),
            forall|i: int| 0 <= i < keys.len() ==> all.contains(#[trigger] keys[i]),
        ensures
            keys.len() <= all.len(),
    {
        broadcast use vstd::seq_lib::seq_to_set_is_finite;

        keys.unique_seq_to_set();
        all.lemma_cardinality_of_set();
        assert forall|k: KeyView| keys.to_set().contains(k) implies all.to_set().contains(k) by {
            let i = choose|i: int| 0 <= i < keys.len() && keys[i] == k;
            assert(all.contains(keys[i]));
        }
        vstd::set_lib::lemma_len_subset(keys.to_set(), all.to_set());
    }

    proof fn lemma_path_ends(
        &self,
        path: Seq<(Seq<char>, Option<Seq<char>>)>,
        gender: Gender,
        costume: Option<Seq<char>>,
        depth: nat,
    )
        requires
            path.len() > 0,
            self.is_evolution_path(path, gender),
            self.no_evolution_cycle_from(path[0].0, path[0].1, gender),
            path.len() + depth == self.stats_entries().len() + 1,
        ensures
            self.ends_within(path.last().0, path.last().1, gender, costume, depth),
        decreases depth, 0nat,
    {
        let x = path.last();
        if !(costume matches Some(c) && spec_contains(lowercase(c), "noevolve"@)) {
            if let Some(st) = lookup(self.stats_entries(), lookup_key(x.0, x.1)) {
                if let Some(evolutions) = st.1 {
                    let entries = self.stats_entries();
                    let keys = path.map_values(|p: (Seq<char>, Option<Seq<char>>)| lookup_key(p.0, p.1));
                    let all = entries.map_values(|e: (KeyView, StatsView)| e.0);
                    assert forall|i: int| 0 <= i < keys.len() implies all.contains(#[trigger] keys[i]) by {
                        lemma_lookup_index(entries, keys[i]);
                        if i < path.len() - 1 {
                            assert(self.evolves_to(path[i], path[i + 1], gender));
                        }
                        let m = last_key_index(entries, keys[i]);
                        assert(all[m] == keys[i]);
                    }
                    assert(path[0] == (path[0].0, path[0].1));
                    assert forall|i: int, j: int| 0 <= i < j < keys.len() implies keys[i] != keys[j] by {
                        assert(lookup_key(path[i].0, path[i].1) != lookup_key(path[j].0, path[j].1));
                    }
                    Self::lemma_distinct_keys_fit(keys, all);
                    assert(depth > 0);
                    assert forall|j: int|
                        0 <= j < evolutions.len() && (evolutions[j].2 is None || evolutions[j].2 == Some(
                            gender,
                        )) implies self.evolves_to(x, (#[trigger] evolutions[j].0, evolutions[j].1), gender) by {
                        assert(evolutions[j].0 == (evolutions[j].0, evolutions[j].1).0);
                    }
                    self.lemma_path_list_ends(path, evolutions, gender, costume, (depth - 1) as nat);
                }
            }
        }
    }

    proof fn lemma_path_list_ends(
        &self,
        path: Seq<(Seq<char>, Option<Seq<char>>)>,
        evolutions: Seq<KeyView>,
        gender: Gender,
        costume: Option<Seq<char>>,
        depth: nat,
    )
        requires
            path.len() > 0,
            self.is_evolution_path(path, gender),
            self.no_evolution_cycle_from(path[0].0, path[0].1, gender),
            path.len() + depth == self.stats_entries().len(),
            forall|j: int|
                0 <= j < evolutions.len() && (evolutions[j].2 is None || evolutions[j].2 == Some(gender))
                    ==> self.evolves_to(path.last(), (#[trigger] evolutions[j].0, evolutions[j].1), gender),
        ensures
            self.evolutions_end_within(evolutions, gender, costume, depth),
        decreases depth, evolutions.len(),
    {
        if evolutions.len() > 0 {
            let d = evolutions.drop_last();
            assert forall|j: int|
                0 <= j < d.len() && (d[j].2 is None || d[j].2 == Some(gender)) implies self.evolves_to(
                path.last(),
                (#[trigger] d[j].0, d[j].1),
                gender,
            ) by {
                assert(d[j] == evolutions[j]);
            }
            self.lemma_path_list_ends(path, d, gender, costume, depth);
            let e = evolutions.last();
            if e.2 is None || e.2 == Some(gender) {
                let n = evolutions.len() - 1;
                assert(self.evolves_to(path.last(), (evolutions[n].0, evolutions[n].1), gender));
                let next = path.push((e.0, e.1));
                assert forall|j: int| 0 <= j < next.len() - 1 implies self.evolves_to(
                    #[trigger] next[j],
                    next[j + 1],
                    gender,
                ) by {
                    if j < path.len() - 1 {
                        assert(next[j] == path[j] && next[j + 1] == path[j + 1]);
                    } else {
                        assert(next[j] == path.last());
                    }
                }
                assert(next[0] == path[0]);
                assert(next.last() == (e.0, e.1));
                self.lemma_path_ends(next, gender, costume, depth);
            }
        }
    }

    #[verifier::rlimit(40)]
    fn with_evolutions(
        &self,
        pokemon: &str,
        form: Option<&str>,
        gender: Gender,
        costume: Option<&str>,
        iv: IV,
        level: u32,
        league: League,
        depth: usize,
    ) -> (result: Vec<(PokemonWithFormAndGender, Response)>)
        ensures
            answers_view(result@) == self.spec_with_evolutions(
                pokemon@,
                opt_str_view(form),
                gender,
                opt_str_view(costume),
                iv,
                level,
                league,
                depth as nat,
            ),
            forall|m: int|
                0 <= m < result@.len() ==> is_sound_answer(
                    #[trigger] result@[m].1@,
                    iv,
                    level,
                    league.spec_cap(),
                ),
        decreases depth,
    {
        let current = self.get_pvp_stats(pokemon, form, iv, level, league);
        let mut result: Vec<(PokemonWithFormAndGender, Response)> = Vec::new();
        match current {
            Some(c) => {
                let key = PokemonWithFormAndGender {
                    pokemon: normalize(pokemon),
                    form: normalize_option(form),
                    gender: Some(gender),
                };
                result.push((key, c));
            },
            None => {},
        }
        let ghost current_view = answers_view(result@);
        assert(current_view =~= match self.spec_get_pvp_stats(pokemon@, opt_str_view(form), iv, level, league) {
            Some(c) => seq![((spec_normalize(pokemon@), normalize_opt(opt_str_view(form)), Some(gender)), c)],
            None => Seq::empty(),
        });
        match costume {
            Some(c) => {
                let lower = to_lowercase(c);
                if str_contains(lower.as_str(), "noevolve") {
                    return result;
                }
            },
            None => {},
        }
        if depth == 0 {
            return result;
        }
        let index = PokemonWithFormAndGender {
            pokemon: normalize(pokemon),
            form: normalize_option(form),
            gender: None,
        };
        let stat = match self.get_stats(&index) {
            Some(s) => s,
            None => {
                return result;
            },
        };
        let evolutions = match &stat.evolutions {
            Some(e) => e,
            None => {
                return result;
            },
        };
        let ghost evos = evolutions@.map_values(|k: PokemonWithFormAndGender| k@);
        let mut j: usize = 0;
        while j < evolutions.len()
            invariant
                j <= evolutions@.len(),
                depth > 0,
                evos == evolutions@.map_values(|k: PokemonWithFormAndGender| k@),
                answers_view(result@) == current_view + self.spec_evolution_list(
                    evos.take(j as int),
                    gender,
                    opt_str_view(costume),
                    iv,
                    level,
                    league,
                    (depth - 1) as nat,
                ),
                forall|m: int|
                    0 <= m < result@.len() ==> is_sound_answer(
                        #[trigger] result@[m].1@,
                        iv,
                        level,
                        league.spec_cap(),
                    ),
            decreases evolutions@.len() - j,
        {
            let evolution = &evolutions[j];
            let follows = match evolution.gender {
                Some(g) => g == gender,
                None => true,
            };
            assert(evos.take(j + 1).drop_last() == evos.take(j as int));
            assert(evos.take(j + 1).last() == evolution@);
            if follows {
                let mut sub = self.with_evolutions(
                    evolution.pokemon.as_str(),
                    as_deref(&evolution.form),
                    gender,
                    costume,
                    iv,
                    level,
                    league,
                    depth - 1,
                );
                let ghost before = result@;
                let ghost added = sub@;
                result.append(&mut sub);
                proof {
                    lemma_answers_view_concat(before, added);
                    assert forall|m: int| 0 <= m < result@.len() implies is_sound_answer(
                        #[trigger] result@[m].1@,
                        iv,
                        level,
                        league.spec_cap(),
                    ) by {
                        if m >= before.len() {
                            assert(result@[m] == added[m - before.len()]);
                        } else {
                            assert(result@[m] == before[m]);
                        }
                    }
                }
            }
            j = j + 1;
        }
        assert(evos.take(evolutions@.len() as int) == evos);
        result
    }

    /// The answers of a league's rankings for a Pokémon and its evolutions:
    /// first the Pokémon itself, when its ranking holds the combination at
    /// the level or higher, then, unless the costume's name, lowercased,
    /// contains `noevolve`, the answers for each evolution listed in its
    /// stats that requires no gender or `gender`, in turn, each under its own
    /// form. Evolutions are followed at most as many steps deep as the game
    /// master lists Pokémon. Every answer is sound (`is_sound_answer`) for
    /// the combination, the level and the league's cap.
    pub fn get_pvp_stats_with_evolutions(
        &self,
        pokemon: &str,
        form: Option<&str>,
        gender: Gender,
        costume: Option<&str>,
        iv: IV,
        level: u32,
        league: League,
    ) -> (result: Vec<(PokemonWithFormAndGender, Response)>)
        ensures
            answers_view(result@) == self.spec_with_evolutions(
                pokemon@,
                opt_str_view(form),
                gender,
                opt_str_view(costume),
                iv,
                level,
                league,
                self.stats_entries().len(),
            ),
            forall|m: int|
                0 <= m < result@.len() ==> is_sound_answer(
                    #[trigger] result@[m].1@,
                    iv,
                    level,
                    league.spec_cap(),
                ),
    {
        self.with_evolutions(pokemon, form, gender, costume, iv, level, league, self.stats.len())
    }

    /// The ranking of a league for a species and form, as the league's
    /// entries hold it under their normalized names.
    pub open spec fn spec_top_pvp(&self, pokemon: Seq<char>, form: Option<Seq<char>>, league: League) -> Option<
        Seq<Response>,
    > {
        lookup(self.league_entries(league), lookup_key(pokemon, form))
    }

    /// The answer of a league's ranking for a species, form, combination of
    /// individual values and level.
    pub open spec fn spec_get_pvp_stats(
        &self,
        pokemon: Seq<char>,
        form: Option<Seq<char>>,
        iv: IV,
        level: u32,
        league: League,
    ) -> Option<ResponseView> {
        match self.spec_top_pvp(pokemon, form, league) {
            Some(ranking) => spec_pvp_stats(ranking, iv, level),
            None => None,
        }
    }

    /// The ranking of a league for a species and form, looked up under their
    /// normalized names; the one added last under that key.
    pub fn get_top_pvp(&self, pokemon: &str, form: Option<&str>, league: League) -> (top: Option<
        &Vec<Response>,
    >)
        ensures
            match top {
                Some(r) => self.spec_top_pvp(pokemon@, opt_str_view(form), league) == Some(r@)
                    && ranking_sound(r@, league.spec_cap()),
                None => self.spec_top_pvp(pokemon@, opt_str_view(form), league) is None,
            },
    {
        proof {
            use_type_invariant(self);
        }
        let key = PokemonWithFormAndGender {
            pokemon: normalize(pokemon),
            form: normalize_option(form),
            gender: None,
        };
        let entries = match league {
            League::Great => &self.great_league,
            League::Ultra => &self.ultra_league,
        };
        let ghost view = self.league_entries(league);
        assert(view == entries@.map_values(|e: (PokemonWithFormAndGender, Vec<Response>)| (e.0@, e.1@)));
        let mut j = entries.len();
        while j > 0
            invariant
                j <= entries@.len(),
                view == entries@.map_values(|e: (PokemonWithFormAndGender, Vec<Response>)| (e.0@, e.1@)),
                view == self.league_entries(league),
                key@ == lookup_key(pokemon@, opt_str_view(form)),
                forall|m: int| j <= m < view.len() ==> #[trigger] view[m].0 != key@,
                forall|m: int|
                    0 <= m < entries@.len() ==> ranking_sound(#[trigger] entries@[m].1@, league.spec_cap()),
            decreases j,
        {
            j = j - 1;
            if entries[j].0.same_key(&key) {
                proof {
                    lemma_lookup_skips(view, key@, j + 1);
                    assert(view.take(j + 1).drop_last() == view.take(j as int));
                }
                return Some(&entries[j].1);
            }
            assert(view[j as int].0 != key@);
        }
        proof {
            lemma_lookup_skips(view, key@, 0);
        }
        None
    }

    /// The answer of a league's ranking for a species, form, combination of
    /// individual values and level (in half levels): `None` when the league
    /// has no ranking under the normalized names or no place of it holds the
    /// combination at that level or higher. Its percentage is at most one,
    /// and exactly one for the top place; the answer is sound
    /// (`is_sound_answer`).
    pub fn get_pvp_stats(&self, pokemon: &str, form: Option<&str>, iv: IV, level: u32, league: League) -> (stats:
        Option<Response>)
        ensures
            match stats {
                Some(r) => self.spec_get_pvp_stats(pokemon@, opt_str_view(form), iv, level, league)
                    == Some(r@),
                None => self.spec_get_pvp_stats(pokemon@, opt_str_view(form), iv, level, league) is None,
            },
            stats matches Some(r) ==> r.percentage.numerator <= r.percentage.denominator,
            stats matches Some(r) ==> (r.rank == 1 ==> r.percentage.numerator == r.percentage.denominator),
            stats matches Some(r) ==> is_sound_answer(r@, iv, level, league.spec_cap()),
    {
        let ranking = match self.get_top_pvp(pokemon, form, league) {
            Some(r) => r,
            None => {
                return None;
            },
        };
        let stats = pvp_stats_from_ranking(ranking, iv, level);
        proof {
            lemma_sound_ranking_answers(ranking@, league.spec_cap(), iv, level);
            if stats is Some {
                let k = first_holding(ranking@, iv, level, 0)->0;
                lemma_first_holding_bounds(ranking@, iv, level, 0);
                if k > 0 {
                    assert(ranking@[0].rank > ranking@[k].rank);
                }
            }
        }
        stats
    }
}

} // verus!
