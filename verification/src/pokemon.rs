use vstd::prelude::*;
use std::marker::PhantomData;

use crate::gamemaster::{answers_view, is_sound_answer, opt_str_view, opt_view, GameMaster, KeyView, PokemonWithFormAndGender};
use crate::iv::IV;
use crate::league::League;
use crate::names::{str_eq, Gender};
use crate::ranking::{PvpIV, Ratio, Response, ResponseView, MAX_HALF_LEVEL};

verus! {

/// A percentage of a ranking: the exact quotient of two stat products when
/// computed here, or the bits of a binary64 number when received.
#[derive(Debug, Clone, Copy, PartialEq, Eq, Structural)]
pub enum Percentage {
    Quotient(Ratio),
    Reported(u64),
}

/// A level of a ranking: a count of half levels when computed here, or the
/// bits of a binary32 number when received.
#[derive(Debug, Clone, Copy, PartialEq, Eq, Structural)]
pub enum Level {
    HalfLevels(u32),
    Reported(u32),
}

/// One place of a Pokémon (or one of its evolutions) in a league. Places
/// computed here leave `cap`, `competition_rank` and `ordinal_rank` unset;
/// places received are carried through with them.
#[derive(Debug, Clone, Copy, PartialEq, Eq, Structural)]
pub struct PvpRanking {
    pub pokemon: u16,
    pub form: Option<u16>,
    pub gender: Option<Gender>,
    pub rank: Option<u16>,
    pub dense_rank: Option<u16>,
    pub percentage: Option<Percentage>,
    pub cp: Option<u16>,
    pub level: Option<Level>,
    pub cap: Option<u16>,
    pub competition_rank: Option<u16>,
    pub ordinal_rank: Option<u16>,
}

/// What the ranking logic reads and writes of a seen Pokémon. Its level is
/// counted in half levels, rounded up; `pvp` holds rankings already given
/// for it, by league name, read as a map filled in list order: where a name
/// occurs twice, its last entry stands for it.
#[derive(Debug)]
pub struct Pokemon {
    pub pokemon_id: u16,
    pub form: Option<u16>,
    pub costume: Option<u16>,
    pub gender: Gender,
    pub individual_attack: Option<u8>,
    pub individual_defense: Option<u8>,
    pub individual_stamina: Option<u8>,
    pub pokemon_level: Option<u32>,
    pub pvp: Option<Vec<(String, Vec<PvpRanking>)>>,
    pub pvp_rankings_great_league: Option<Vec<PvpRanking>>,
    pub pvp_rankings_ultra_league: Option<Vec<PvpRanking>>,
}

/// Names of Pokémon species and forms by their numeric ids, both ways; for
/// its users to implement.
pub trait Cache: std::fmt::Debug {
    type Id;

    /// The name of an id, if known.
    fn get(id: Self::Id) -> Option<String>;

    /// The id of a name, if known.
    fn reverse(name: &str) -> Option<Self::Id>;
}

/// The individual values of a Pokémon, when all three are known.
pub open spec fn pokemon_iv(p: Pokemon) -> Option<IV> {
    match (p.individual_attack, p.individual_defense, p.individual_stamina) {
        (Some(attack), Some(defense), Some(stamina)) => Some(IV { attack, defense, stamina }),
        _ => None,
    }
}

/// The ranking entry for one answer: the id of its species, the id of its
/// form when it has one, its gender, its position as rank, its percentage,
/// and the combat power and level of the combination in it.
pub open spec fn ranking_entry(answer: (KeyView, ResponseView), id: u16, form_id: Option<u16>) -> PvpRanking {
    let ivs = answer.1.2;
    PvpRanking {
        pokemon: id,
        form: if answer.0.1 is Some { form_id } else { None },
        gender: answer.0.2,
        rank: Some(answer.1.0 as u16),
        dense_rank: Some(answer.1.0 as u16),
        percentage: Some(Percentage::Quotient(answer.1.1)),
        cp: if ivs.len() > 0 { Some(ivs[0].cp) } else { None },
        level: if ivs.len() > 0 { Some(Level::HalfLevels(ivs[0].level)) } else { None },
        cap: None,
        competition_rank: None,
        ordinal_rank: None,
    }
}

/// The ranking entries for the answers whose species has an id, in order.
pub open spec fn ranking_entries(
    answers: Seq<(KeyView, ResponseView)>,
    ids: Seq<Option<u16>>,
    form_ids: Seq<Option<u16>>,
) -> Seq<PvpRanking>
    decreases answers.len(),
{
    if answers.len() == 0 {
        Seq::empty()
    } else {
        let n = answers.len() - 1;
        let prev = ranking_entries(answers.drop_last(), ids.take(n), form_ids.take(n));
        match ids[n] {
            Some(id) => prev.push(ranking_entry(answers[n], id, form_ids[n])),
            None => prev,
        }
    }
}

/// How many of the first `i` answers have a species id.
pub open spec fn found_before(ids: Seq<Option<u16>>, i: int) -> nat {
    ids.take(i).filter(|x: Option<u16>| x is Some).len()
}

/// The entries for a list of answers, one for each answer whose species has
/// an id, in the answers' order: the entry of answer `i` follows those of
/// the earlier answers with ids, and carries the species id; the form id
/// found for the answer's form, and no form when the answer has none; the
/// answer's gender; its position as rank and dense rank; its percentage;
/// the combat power and level of its combination; and nothing else.
pub proof fn lemma_ranking_entries_fields(
    answers: Seq<(KeyView, ResponseView)>,
    ids: Seq<Option<u16>>,
    form_ids: Seq<Option<u16>>,
)
    requires
        ids.len() == answers.len(),
        form_ids.len() == answers.len(),
    ensures
        ranking_entries(answers, ids, form_ids).len() == found_before(ids, ids.len() as int),
        forall|i: int|
            0 <= i < answers.len() && ids[i] is Some ==> {
                let e = ranking_entries(answers, ids, form_ids)[#[trigger] found_before(ids, i) as int];
                let a = answers[i];
                &&& found_before(ids, i) < ranking_entries(answers, ids, form_ids).len()
                &&& e.pokemon == ids[i]->0
                &&& e.form == (if a.0.1 is Some { form_ids[i] } else { None })
                &&& e.gender == a.0.2
                &&& e.rank == Some(a.1.0 as u16)
                &&& e.dense_rank == Some(a.1.0 as u16)
                &&& e.percentage == Some(Percentage::Quotient(a.1.1))
                &&& e.cp == (if a.1.2.len() > 0 { Some(a.1.2[0].cp) } else { None })
                &&& e.level == (if a.1.2.len() > 0 { Some(Level::HalfLevels(a.1.2[0].level)) } else { None })
                &&& e.cap is None && e.competition_rank is None && e.ordinal_rank is None
            },
        spec_rankings(answers, ids, form_ids) is None <==> answers.len() == 0,
    decreases answers.len(),
{
    reveal(Seq::filter);
    let pred = |x: Option<u16>| x is Some;
    assert(ids.take(ids.len() as int) == ids);
    if answers.len() > 0 {
        let n = answers.len() - 1;
        let a0 = answers.drop_last();
        let i0 = ids.take(n);
        let f0 = form_ids.take(n);
        lemma_ranking_entries_fields(a0, i0, f0);
        let prev = ranking_entries(a0, i0, f0);
        let cur = ranking_entries(answers, ids, form_ids);
        assert(ids.drop_last() == i0);
        assert(i0.take(n) == i0);
        assert(found_before(ids, n) == found_before(i0, n));
        assert forall|i: int| 0 <= i < n implies #[trigger] found_before(ids, i) == found_before(i0, i) by {
            assert(ids.take(i) == i0.take(i));
        }
        assert(ids.take(n + 1).drop_last() == ids.take(n));
        assert(ids.take(n + 1) == ids);
        assert forall|i: int| 0 <= i < n && ids[i] is Some implies found_before(i0, i) < prev.len() by {
            assert(i0[i] == ids[i]);
            assert(a0[i] == answers[i]);
        }
        match ids[n] {
            Some(id) => {
                assert(cur == prev.push(ranking_entry(answers[n], id, form_ids[n])));
                assert(ids.filter(pred) == i0.filter(pred).push(ids[n]));
            },
            None => {
                assert(cur == prev);
                assert(ids.filter(pred) == i0.filter(pred));
            },
        }
        assert forall|i: int| 0 <= i < answers.len() && ids[i] is Some implies {
            let e = cur[#[trigger] found_before(ids, i) as int];
            let a = answers[i];
            &&& found_before(ids, i) < cur.len()
            &&& e.pokemon == ids[i]->0
            &&& e.form == (if a.0.1 is Some { form_ids[i] } else { None })
            &&& e.gender == a.0.2
            &&& e.rank == Some(a.1.0 as u16)
            &&& e.dense_rank == Some(a.1.0 as u16)
            &&& e.percentage == Some(Percentage::Quotient(a.1.1))
            &&& e.cp == (if a.1.2.len() > 0 { Some(a.1.2[0].cp) } else { None })
            &&& e.level == (if a.1.2.len() > 0 { Some(Level::HalfLevels(a.1.2[0].level)) } else { None })
            &&& e.cap is None && e.competition_rank is None && e.ordinal_rank is None
        } by {
            if i < n {
                assert(i0[i] == ids[i]);
                assert(a0[i] == answers[i]);
                assert(f0[i] == form_ids[i]);
                assert(found_before(ids, i) == found_before(i0, i));
                assert(cur[found_before(ids, i) as int] == prev[found_before(i0, i) as int]);
            }
        }
    }
}

/// The rankings for a list of answers: none when there is no answer.
pub open spec fn spec_rankings(
    answers: Seq<(KeyView, ResponseView)>,
    ids: Seq<Option<u16>>,
    form_ids: Seq<Option<u16>>,
) -> Option<Seq<PvpRanking>> {
    if answers.len() == 0 {
        None
    } else {
        Some(ranking_entries(answers, ids, form_ids))
    }
}


/// The rankings for a list of answers, given the id found for the species
/// of each answer and, where the answer has a form, the id found for it:
/// `None` when there is no answer, else one entry for each answer whose
/// species has an id, in order.
pub fn rankings_from_answers(
    answers: &Vec<(PokemonWithFormAndGender, Response)>,
    ids: &Vec<Option<u16>>,
    form_ids: &Vec<Option<u16>>,
) -> (rankings: Option<Vec<PvpRanking>>)
    requires
        ids@.len() == answers@.len(),
        form_ids@.len() == answers@.len(),
    ensures
        match rankings {
            Some(r) => spec_rankings(answers_view(answers@), ids@, form_ids@) == Some(r@),
            None => spec_rankings(answers_view(answers@), ids@, form_ids@) is None,
        },
{
    if answers.len() == 0 {
        return None;
    }
    let ghost view = answers_view(answers@);
    let mut out: Vec<PvpRanking> = Vec::new();
    let mut m: usize = 0;
    while m < answers.len()
        invariant
            ids@.len() == answers@.len(),
            form_ids@.len() == answers@.len(),
            view == answers_view(answers@),
            m <= answers@.len(),
            out@ == ranking_entries(view.take(m as int), ids@.take(m as int), form_ids@.take(m as int)),
        decreases answers@.len() - m,
    {
        let ghost before = out@;
        let key = &answers[m].0;
        let resp = &answers[m].1;
        match ids[m] {
            Some(id) => {
                let form = if key.form.is_some() {
                    form_ids[m]
                } else {
                    None
                };
                let cp = if resp.ivs.len() > 0 {
                    Some(resp.ivs[0].cp)
                } else {
                    None
                };
                let level = if resp.ivs.len() > 0 {
                    Some(Level::HalfLevels(resp.ivs[0].level))
                } else {
                    None
                };
                let rank = resp.rank as u16;
                out.push(
                    PvpRanking {
                        pokemon: id,
                        form,
                        gender: key.gender,
                        rank: Some(rank),
                        dense_rank: Some(rank),
                        percentage: Some(Percentage::Quotient(resp.percentage)),
                        cp,
                        level,
                        cap: None,
                        competition_rank: None,
                        ordinal_rank: None,
                    },
                );
            },
            None => {},
        }
        proof {
            let t = view.take(m + 1);
            assert(t.drop_last() == view.take(m as int));
            assert(ids@.take(m + 1).take(m as int) == ids@.take(m as int));
            assert(form_ids@.take(m + 1).take(m as int) == form_ids@.take(m as int));
            assert(t[m as int] == view[m as int]);
        }
        m = m + 1;
    }
    assert(view.take(answers@.len() as int) == view);
    assert(ids@.take(answers@.len() as int) == ids@);
    assert(form_ids@.take(answers@.len() as int) == form_ids@);
    Some(out)
}

/// `name` is what `C::get` may give for `id`.
pub open spec fn gives_name<C: Cache<Id = u16>>(id: u16, name: Option<Seq<char>>) -> bool {
    exists|given: Option<String>| #[trigger] call_ensures(C::get, (id,), given) && opt_view(given) == name
}

/// `id` is what `C::reverse` may give for `name`.
pub open spec fn finds_id<C: Cache<Id = u16>>(name: Seq<char>, id: Option<u16>) -> bool {
    exists|asked: &str| #[trigger] call_ensures(C::reverse, (asked,), id) && asked@ == name
}

/// The ids come from the caches: for each answer, the species id is what
/// `PC` gives for the answer's species name, and where that id was found
/// and the answer has a form, the form id is what `FC` gives for the form
/// name.
pub open spec fn ids_found<PC: Cache<Id = u16>, FC: Cache<Id = u16>>(
    answers: Seq<(KeyView, ResponseView)>,
    ids: Seq<Option<u16>>,
    form_ids: Seq<Option<u16>>,
) -> bool {
    &&& ids.len() == answers.len()
    &&& form_ids.len() == answers.len()
    &&& forall|i: int| 0 <= i < answers.len() ==> finds_id::<PC>(#[trigger] answers[i].0.0, ids[i])
    &&& forall|i: int|
        0 <= i < answers.len() && ids[i] is Some ==> (#[trigger] answers[i].0.1 matches Some(f)
            ==> finds_id::<FC>(f, form_ids[i]))
}

/// The names that a seen Pokémon is looked up under come from the caches:
/// its species name is what `PC` gives for its species id, and its form and
/// costume names are what `FC` gives for their ids (none when it has none).
pub open spec fn names_given<PC: Cache<Id = u16>, FC: Cache<Id = u16>>(
    pokemon_id: u16,
    form_id: Option<u16>,
    costume_id: Option<u16>,
    name: Seq<char>,
    form: Option<Seq<char>>,
    costume: Option<Seq<char>>,
) -> bool {
    &&& gives_name::<PC>(pokemon_id, Some(name))
    &&& match form_id {
        Some(id) => gives_name::<FC>(id, form),
        None => form is None,
    }
    &&& match costume_id {
        Some(id) => gives_name::<FC>(id, costume),
        None => costume is None,
    }
}

/// What holds of any rankings that `pvp_ranking` returns for a Pokémon and a
/// league, whatever the caches answer: none unless its individual values
/// and level are known; none when `PC` gave no name for its species; when
/// its species has a name in `PC`, the answers
/// of the league's rankings for that name, its form and costume names and
/// its evolutions are looked up, and the result is none exactly when there
/// is no answer, else the rankings for those answers with the ids that the
/// caches gave for their names.
pub open spec fn is_pvp_ranking_outcome<PC: Cache<Id = u16>, FC: Cache<Id = u16>>(
    gm: GameMaster,
    pokemon: Pokemon,
    league: League,
    rankings: Option<Seq<PvpRanking>>,
) -> bool {
    &&& (pokemon_iv(pokemon) is None || pokemon.pokemon_level is None) ==> rankings is None
    &&& pokemon_iv(pokemon) matches Some(iv) ==> pokemon.pokemon_level matches Some(level) ==> (
    (gives_name::<PC>(pokemon.pokemon_id, None) && rankings is None) || exists|
        name: Seq<char>,
        form: Option<Seq<char>>,
        costume: Option<Seq<char>>,
        ids: Seq<Option<u16>>,
        form_ids: Seq<Option<u16>>,
    |
        #![trigger names_given::<PC, FC>(pokemon.pokemon_id, pokemon.form, pokemon.costume, name, form, costume), ids_found::<PC, FC>(gm.spec_with_evolutions(name, form, pokemon.gender, costume, iv, level, league, gm.stats_entries().len()), ids, form_ids)]
        {
            let answers = gm.spec_with_evolutions(
                name,
                form,
                pokemon.gender,
                costume,
                iv,
                level,
                league,
                gm.stats_entries().len(),
            );
            &&& names_given::<PC, FC>(pokemon.pokemon_id, pokemon.form, pokemon.costume, name, form, costume)
            &&& ids_found::<PC, FC>(answers, ids, form_ids)
            &&& rankings == spec_rankings(answers, ids, form_ids)
            &&& forall|m: int|
                0 <= m < answers.len() ==> is_sound_answer(
                    #[trigger] answers[m].1,
                    iv,
                    level,
                    league.spec_cap(),
                )
        })
    &&& rankings matches Some(r) ==> pokemon.pokemon_level matches Some(level) && forall|k: int|
        0 <= k < r.len() ==> is_sound_entry(#[trigger] r[k], level, league.spec_cap())
}

/// A computed ranking entry for a Pokémon at level `level` (in half
/// levels) in a league with cap `cap`: ranked from 1 to 4096, the same as
/// its dense rank, with a percentage of at most one, and a combat power
/// within the cap at a level from `level` up to 50.
pub open spec fn is_sound_entry(e: PvpRanking, level: u32, cap: u16) -> bool {
    &&& e.rank matches Some(r) && 1 <= r <= 4096
    &&& e.dense_rank == e.rank
    &&& e.percentage matches Some(Percentage::Quotient(q)) && q.numerator <= q.denominator
    &&& e.cp matches Some(cp) && cp <= cap
    &&& e.level matches Some(Level::HalfLevels(h)) && level <= h <= MAX_HALF_LEVEL
}

proof fn lemma_sound_entries(
    answers: Seq<(KeyView, ResponseView)>,
    ids: Seq<Option<u16>>,
    form_ids: Seq<Option<u16>>,
    iv: IV,
    level: u32,
    cap: u16,
)
    requires
        forall|m: int| 0 <= m < answers.len() ==> is_sound_answer(#[trigger] answers[m].1, iv, level, cap),
    ensures
        forall|k: int|
            0 <= k < ranking_entries(answers, ids, form_ids).len() ==> is_sound_entry(
                #[trigger] ranking_entries(answers, ids, form_ids)[k],
                level,
                cap,
            ),
    decreases answers.len(),
{
    if answers.len() > 0 {
        let n = answers.len() - 1;
        assert forall|m: int| 0 <= m < answers.drop_last().len() implies is_sound_answer(
            #[trigger] answers.drop_last()[m].1,
            iv,
            level,
            cap,
        ) by {
            assert(answers.drop_last()[m] == answers[m]);
        }
        lemma_sound_entries(answers.drop_last(), ids.take(n), form_ids.take(n), iv, level, cap);
        assert(is_sound_answer(answers[n].1, iv, level, cap));
        let prev = ranking_entries(answers.drop_last(), ids.take(n), form_ids.take(n));
        let cur = ranking_entries(answers, ids, form_ids);
        match ids[n] {
            Some(id) => {
                let e = ranking_entry(answers[n], id, form_ids[n]);
                assert(is_sound_entry(e, level, cap));
                assert(cur == prev.push(e));
                assert forall|k: int| 0 <= k < cur.len() implies is_sound_entry(#[trigger] cur[k], level, cap) by {
                    if k < prev.len() {
                        assert(cur[k] == prev[k]);
                    }
                }
            },
            None => {
                assert(cur == prev);
            },
        }
    }
}

/// The rankings of a seen Pokémon and its evolutions in a league: `None`
/// unless its individual values and level are known, its species has a
/// name in `PC`, and some ranking holds its combination at its level or
/// higher; else one entry for each answer whose species has an id in `PC`.
/// The names looked up are those that `PC` and `FC` give for the Pokémon's
/// ids, and the ids are those they give for the answers' names. Every entry
/// is sound (`is_sound_entry`) for the Pokémon's level and the league's cap.
pub fn pvp_ranking<PC: Cache<Id = u16>, FC: Cache<Id = u16>>(
    gm: &GameMaster,
    pokemon: &Pokemon,
    league: League,
) -> (rankings: Option<Vec<PvpRanking>>)
    ensures
        is_pvp_ranking_outcome::<PC, FC>(
            *gm,
            *pokemon,
            league,
            match rankings {
                Some(r) => Some(r@),
                None => None,
            },
        ),
{
    let iv = match (pokemon.individual_attack, pokemon.individual_defense, pokemon.individual_stamina) {
        (Some(attack), Some(defense), Some(stamina)) => IV { attack, defense, stamina },
        _ => {
            return None;
        },
    };
    let level = match pokemon.pokemon_level {
        Some(level) => level,
        None => {
            return None;
        },
    };
    let species_name = PC::get;
    let form_name_of = FC::get;
    let species_id = PC::reverse;
    let form_id_of = FC::reverse;
    let given = species_name(pokemon.pokemon_id);
    assert(call_ensures(PC::get, (pokemon.pokemon_id,), given));
    let name = match given {
        Some(name) => name,
        None => {
            return None;
        },
    };
    let form = match pokemon.form {
        Some(id) => {
            let f = form_name_of(id);
            assert(call_ensures(FC::get, (id,), f));
            f
        },
        None => None,
    };
    let costume = match pokemon.costume {
        Some(id) => {
            let c = form_name_of(id);
            assert(call_ensures(FC::get, (id,), c));
            c
        },
        None => None,
    };
    let form_name: Option<&str> = match &form {
        Some(f) => Some(f.as_str()),
        None => None,
    };
    let costume_name: Option<&str> = match &costume {
        Some(c) => Some(c.as_str()),
        None => None,
    };
    let answers = gm.get_pvp_stats_with_evolutions(
        name.as_str(),
        form_name,
        pokemon.gender,
        costume_name,
        iv,
        level,
        league,
    );
    let ghost view = answers_view(answers@);
    let mut ids: Vec<Option<u16>> = Vec::new();
    let mut form_ids: Vec<Option<u16>> = Vec::new();
    let mut m: usize = 0;
    while m < answers.len()
        invariant
            view == answers_view(answers@),
            m <= answers@.len(),
            ids@.len() == m,
            form_ids@.len() == m,
            forall|i: int| 0 <= i < m ==> finds_id::<PC>(#[trigger] view[i].0.0, ids@[i]),
            forall|i: int|
                0 <= i < m && ids@[i] is Some ==> (#[trigger] view[i].0.1 matches Some(f)
                    ==> finds_id::<FC>(f, form_ids@[i])),
        decreases answers@.len() - m,
    {
        let asked = answers[m].0.pokemon.as_str();
        let id = species_id(asked);
        assert(call_ensures(PC::reverse, (asked,), id));
        let form_id = match (&id, &answers[m].0.form) {
            (Some(_), Some(f)) => {
                let form_asked = f.as_str();
                let fid = form_id_of(form_asked);
                assert(call_ensures(FC::reverse, (form_asked,), fid));
                fid
            },
            _ => None,
        };
        assert(view[m as int].0.0 == answers@[m as int].0.pokemon@);
        assert(view[m as int].0.1 == opt_view(answers@[m as int].0.form));
        ids.push(id);
        form_ids.push(form_id);
        m = m + 1;
    }
    let rankings = rankings_from_answers(&answers, &ids, &form_ids);
    proof {
        let w = gm.spec_with_evolutions(
            name@,
            opt_str_view(form_name),
            pokemon.gender,
            opt_str_view(costume_name),
            iv,
            level,
            league,
            gm.stats_entries().len(),
        );
        assert(names_given::<PC, FC>(pokemon.pokemon_id, pokemon.form, pokemon.costume, name@, opt_str_view(form_name), opt_str_view(costume_name)));
        assert(ids_found::<PC, FC>(w, ids@, form_ids@));
        assert forall|m: int| 0 <= m < w.len() implies is_sound_answer(
            #[trigger] w[m].1,
            iv,
            level,
            league.spec_cap(),
        ) by {
            assert(w[m].1 == answers@[m].1@);
        }
        lemma_sound_entries(w, ids@, form_ids@, iv, level, league.spec_cap());
    }
    rankings
}


/// The rankings given under `name`, as a map filled in list order holds
/// them (those of the last entry with that name), and the entries left once
/// the name is removed.
pub open spec fn take_named(entries: Seq<(String, Vec<PvpRanking>)>, name: Seq<char>) -> (
    Option<Seq<PvpRanking>>,
    Seq<(String, Vec<PvpRanking>)>,
)
    decreases entries.len(),
{
    if entries.len() == 0 {
        (None, Seq::empty())
    } else {
        let (taken, kept) = take_named(entries.drop_last(), name);
        let e = entries.last();
        if e.0@ == name {
            (Some(e.1@), kept)
        } else {
            (taken, kept.push(e))
        }
    }
}

/// Taking a league out of the given rankings reads them as a map filled
/// in list order: the entries left are those under other names, in order;
/// the rankings taken are those of the last entry under the name, and none
/// when no entry has it.
pub proof fn lemma_take_named_meaning(entries: Seq<(String, Vec<PvpRanking>)>, name: Seq<char>)
    ensures
        take_named(entries, name).1 == entries.filter(|e: (String, Vec<PvpRanking>)| e.0@ != name),
        take_named(entries, name).0 is None <==> forall|i: int|
            0 <= i < entries.len() ==> (#[trigger] entries[i]).0@ != name,
        take_named(entries, name).0 matches Some(r) ==> exists|i: int|
            0 <= i < entries.len() && (#[trigger] entries[i]).0@ == name && entries[i].1@ == r && forall|j: int|
                i < j < entries.len() ==> (#[trigger] entries[j]).0@ != name,
    decreases entries.len(),
{
    reveal(Seq::filter);
    if entries.len() > 0 {
        let d = entries.drop_last();
        let n = entries.len() - 1;
        lemma_take_named_meaning(d, name);
        assert forall|i: int| 0 <= i < n implies #[trigger] entries[i] == d[i] by {}
        if entries.last().0@ == name {
            assert(entries[n].0@ == name);
        } else {
            if let Some(r) = take_named(d, name).0 {
                let i = choose|i: int|
                    0 <= i < d.len() && (#[trigger] d[i]).0@ == name && d[i].1@ == r && forall|j: int|
                        i < j < d.len() ==> (#[trigger] d[j]).0@ != name;
                assert(entries[i] == d[i]);
                assert forall|j: int| i < j < entries.len() implies (#[trigger] entries[j]).0@ != name by {
                    if j < n {
                        assert(entries[j] == d[j]);
                    }
                }
            } else {
                assert forall|i: int| 0 <= i < entries.len() implies (#[trigger] entries[i]).0@ != name by {
                    if i < n {
                        assert(entries[i] == d[i]);
                    }
                }
            }
        }
    }
}

/// Removes league `name` from the given rankings, as from a map: gives the
/// rankings it held and the entries left.
fn take_entry(entries: Vec<(String, Vec<PvpRanking>)>, name: &str) -> (result: (
    Option<Vec<PvpRanking>>,
    Vec<(String, Vec<PvpRanking>)>,
))
    ensures
        (rankings_view(result.0), result.1@) == take_named(entries@, name@),
{
    let ghost all = entries@;
    let mut entries = entries;
    let mut taken: Option<Vec<PvpRanking>> = None;
    let mut kept: Vec<(String, Vec<PvpRanking>)> = Vec::new();
    let ghost mut i: int = 0;
    while entries.len() > 0
        invariant
            0 <= i <= all.len(),
            entries@ == all.skip(i),
            (rankings_view(taken), kept@) == take_named(all.take(i), name@),
        decreases entries@.len(),
    {
        let e = entries.remove(0);
        proof {
            assert(all.take(i + 1).drop_last() == all.take(i));
            assert(all.take(i + 1).last() == e);
        }
        if str_eq(e.0.as_str(), name) {
            taken = Some(e.1);
        } else {
            kept.push(e);
        }
        proof {
            i = i + 1;
            assert(entries@ == all.skip(i));
        }
    }
    assert(all.take(i) == all);
    (taken, kept)
}

/// The rankings of a league as a `Seq`, if any.
pub open spec fn rankings_view(r: Option<Vec<PvpRanking>>) -> Option<Seq<PvpRanking>> {
    match r {
        Some(r) => Some(r@),
        None => None,
    }
}

/// Takes the rankings of league `name` out of the given ones, unless the
/// league already has rankings: the league's rankings and what is left.
pub open spec fn take_league(
    current: Option<Seq<PvpRanking>>,
    given: Seq<(String, Vec<PvpRanking>)>,
    name: Seq<char>,
) -> (Option<Seq<PvpRanking>>, Seq<(String, Vec<PvpRanking>)>) {
    if current is Some {
        (current, given)
    } else {
        take_named(given, name)
    }
}

/// The great and ultra league rankings of a parsed Pokémon once those given
/// by league name have filled the missing ones, and the given rankings left.
pub open spec fn given_rankings(p: Pokemon) -> (
    Option<Seq<PvpRanking>>,
    Option<Seq<PvpRanking>>,
    Option<Seq<(String, Vec<PvpRanking>)>>,
) {
    match p.pvp {
        None => (rankings_view(p.pvp_rankings_great_league), rankings_view(p.pvp_rankings_ultra_league), None),
        Some(given) => {
            let (great, rest) = take_league(rankings_view(p.pvp_rankings_great_league), given@, "great"@);
            let (ultra, left) = take_league(rankings_view(p.pvp_rankings_ultra_league), rest, "ultra"@);
            (great, ultra, Some(left))
        },
    }
}

/// Rankings given by league name fill only the missing leagues: a league
/// that already has rankings keeps them; a missing great league takes the
/// rankings given under `great`, and a missing ultra league those under
/// `ultra`, each removed from the given ones; without given rankings
/// nothing changes.
pub proof fn lemma_given_rankings_fill_missing(p: Pokemon)
    ensures
        p.pvp_rankings_great_league is Some ==> given_rankings(p).0 == rankings_view(p.pvp_rankings_great_league),
        p.pvp_rankings_ultra_league is Some ==> given_rankings(p).1 == rankings_view(p.pvp_rankings_ultra_league),
        p.pvp is None ==> given_rankings(p) == (
            rankings_view(p.pvp_rankings_great_league),
            rankings_view(p.pvp_rankings_ultra_league),
            None::<Seq<(String, Vec<PvpRanking>)>>,
        ),
        p.pvp matches Some(g) ==> {
            let after_great = if p.pvp_rankings_great_league is None {
                take_named(g@, "great"@).1
            } else {
                g@
            };
            &&& p.pvp_rankings_great_league is None ==> given_rankings(p).0 == take_named(g@, "great"@).0
            &&& p.pvp_rankings_ultra_league is None ==> given_rankings(p).1 == take_named(after_great, "ultra"@).0
            &&& given_rankings(p).2 == Some(
                if p.pvp_rankings_ultra_league is None {
                    take_named(after_great, "ultra"@).1
                } else {
                    after_great
                },
            )
        },
{
}

/// A seen Pokémon with its rankings in both leagues filled in.
#[derive(Debug)]
pub struct PokemonWithPvpInfo<PC, FC> {
    inner: Pokemon,
    _pc: PhantomData<PC>,
    _fc: PhantomData<FC>,
}

impl<PC, FC> PokemonWithPvpInfo<PC, FC> {
    /// The Pokémon.
    pub closed spec fn pokemon(&self) -> Pokemon {
        self.inner
    }

    /// Wraps a Pokémon as it is.
    pub fn from(inner: Pokemon) -> (p: Self)
        ensures
            p.pokemon() == inner,
    {
        PokemonWithPvpInfo { inner, _pc: PhantomData, _fc: PhantomData }
    }

    /// The Pokémon.
    pub fn deref(&self) -> (p: &Pokemon)
        ensures
            *p == self.pokemon(),
    {
        &self.inner
    }

    /// Unwraps the Pokémon.
    pub fn into_inner(self) -> (p: Pokemon)
        ensures
            p == self.pokemon(),
    {
        self.inner
    }
}

impl<PC: Cache<Id = u16>, FC: Cache<Id = u16>> PokemonWithPvpInfo<PC, FC> {
    /// Fills in the rankings of a parsed Pokémon: a league without rankings
    /// takes those given under its name (`great`, `ultra`), which leave the
    /// given ones; when neither league has rankings then, both are computed
    /// with `pvp_ranking`. Rankings already present are kept.
    pub fn from_parsed(gm: &GameMaster, pokemon: Pokemon) -> (p: Self)
        ensures
            ({
                let (great, ultra, left) = given_rankings(pokemon);
                let q = p.pokemon();
                &&& q.pokemon_id == pokemon.pokemon_id
                &&& q.form == pokemon.form
                &&& q.costume == pokemon.costume
                &&& q.gender == pokemon.gender
                &&& q.individual_attack == pokemon.individual_attack
                &&& q.individual_defense == pokemon.individual_defense
                &&& q.individual_stamina == pokemon.individual_stamina
                &&& q.pokemon_level == pokemon.pokemon_level
                &&& match q.pvp {
                    Some(l) => left == Some(l@),
                    None => left is None,
                }
                &&& if great is None && ultra is None {
                    &&& is_pvp_ranking_outcome::<PC, FC>(
                        *gm,
                        pokemon,
                        League::Great,
                        rankings_view(q.pvp_rankings_great_league),
                    )
                    &&& is_pvp_ranking_outcome::<PC, FC>(
                        *gm,
                        pokemon,
                        League::Ultra,
                        rankings_view(q.pvp_rankings_ultra_league),
                    )
                } else {
                    &&& rankings_view(q.pvp_rankings_great_league) == great
                    &&& rankings_view(q.pvp_rankings_ultra_league) == ultra
                }
            }),
    {
        let Pokemon {
            pokemon_id,
            form,
            costume,
            gender,
            individual_attack,
            individual_defense,
            individual_stamina,
            pokemon_level,
            pvp,
            pvp_rankings_great_league,
            pvp_rankings_ultra_league,
        } = pokemon;
        let mut great = pvp_rankings_great_league;
        let mut ultra = pvp_rankings_ultra_league;
        let pvp = match pvp {
            Some(mut given) => {
                if great.is_none() {
                    let (taken, rest) = take_entry(given, "great");
                    great = taken;
                    given = rest;
                }
                if ultra.is_none() {
                    let (taken, rest) = take_entry(given, "ultra");
                    ultra = taken;
                    given = rest;
                }
                Some(given)
            },
            None => None,
        };
        let mut inner = Pokemon {
            pokemon_id,
            form,
            costume,
            gender,
            individual_attack,
            individual_defense,
            individual_stamina,
            pokemon_level,
            pvp,
            pvp_rankings_great_league: great,
            pvp_rankings_ultra_league: ultra,
        };
        if inner.pvp_rankings_great_league.is_none() && inner.pvp_rankings_ultra_league.is_none() {
            let great = pvp_ranking::<PC, FC>(gm, &inner, League::Great);
            let ultra = pvp_ranking::<PC, FC>(gm, &inner, League::Ultra);
            inner.pvp_rankings_great_league = great;
            inner.pvp_rankings_ultra_league = ultra;
        }
        PokemonWithPvpInfo { inner, _pc: PhantomData, _fc: PhantomData }
    }
}

} // verus!
