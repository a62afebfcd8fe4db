use gamemaster::gamemaster::{BaseStats, EvolutionBranch, GameMaster, PokemonSettings};
use gamemaster::iv::iv_all;
use gamemaster::league::League;
use gamemaster::names::Gender;
use gamemaster::pokemon::{
    pvp_ranking, rankings_from_answers, Cache, Level, Percentage, Pokemon, PokemonWithPvpInfo, PvpRanking,
};
use gamemaster::ranking::{LevelTable, Ratio};

#[derive(Debug)]
struct FakeCache;

impl Cache for FakeCache {
    type Id = u16;
    fn get(id: Self::Id) -> Option<String> {
        match id {
            69 => Some(String::from("bellsprout")),
            299 => Some(String::from("nosepass")),
            _ => None,
        }
    }
    fn reverse(name: &str) -> Option<Self::Id> {
        match name {
            "bellsprout" => Some(69),
            "weepinbell" => Some(70),
            "victreebel" => Some(71),
            "nosepass" => Some(299),
            "probopass" => Some(476),
            _ => None,
        }
    }
}

fn settings(id: &str, attack: u16, evolution: Option<&str>) -> PokemonSettings {
    PokemonSettings {
        unique_id: id.to_string(),
        form: None,
        stats: BaseStats { base_attack: attack, base_defense: 100, base_stamina: 100 },
        evolution_branch: evolution.map(|e| {
            vec![EvolutionBranch { evolution: Some(e.to_string()), form: None, gender_requirement: None }]
        }),
    }
}

fn table_for(stats: BaseStats) -> LevelTable {
    let mut cp = Vec::new();
    let mut value = Vec::new();
    for iv in iv_all() {
        let mut cp_row = Vec::new();
        let mut value_row = Vec::new();
        for h in 2u32..=100 {
            cp_row.push((h * stats.base_attack as u32 / 10 + iv.stamina as u32) as u16);
            value_row.push(h * 1000 + iv.attack as u32);
        }
        cp.push(cp_row);
        value.push(value_row);
    }
    LevelTable::new(cp, value).expect("well-formed table")
}

fn game_master() -> GameMaster {
    let list = vec![
        settings("BELLSPROUT", 139, Some("WEEPINBELL")),
        settings("WEEPINBELL", 172, Some("VICTREEBEL")),
        settings("VICTREEBEL", 200, None),
        settings("NOSEPASS", 82, Some("PROBOPASS")),
        settings("PROBOPASS", 135, None),
    ];
    let mut gm = GameMaster::from_settings(&list);
    for i in 0..gm.len() {
        let table = table_for(gm.ranking_base_stats(i));
        gm = gm.add_rankings(i, &table);
    }
    gm
}

fn pokemon(id: u16, ivs: Option<(u8, u8, u8)>, level: Option<u32>) -> Pokemon {
    Pokemon {
        pokemon_id: id,
        form: None,
        costume: None,
        gender: Gender::Male,
        individual_attack: ivs.map(|v| v.0),
        individual_defense: ivs.map(|v| v.1),
        individual_stamina: ivs.map(|v| v.2),
        pokemon_level: level,
        pvp: None,
        pvp_rankings_great_league: None,
        pvp_rankings_ultra_league: None,
    }
}

fn given(rank: u16) -> PvpRanking {
    PvpRanking {
        pokemon: 476,
        form: Some(1841),
        gender: Some(Gender::Male),
        rank: Some(rank),
        dense_rank: Some(rank),
        percentage: Some(Percentage::Reported(0.954104350930194f64.to_bits())),
        cp: Some(1492),
        level: Some(Level::Reported(26.5f32.to_bits())),
        cap: Some(50),
        competition_rank: Some(1255),
        ordinal_rank: Some(1255),
    }
}

#[test]
fn rankings_cover_the_evolution_line() {
    let gm = game_master();
    let p = pokemon(69, Some((14, 15, 5)), Some(66));
    let great = pvp_ranking::<FakeCache, FakeCache>(&gm, &p, League::Great).expect("ranked");
    let ids: Vec<u16> = great.iter().map(|r| r.pokemon).collect();
    assert_eq!(ids, vec![69, 70, 71]);
    // Victreebel: places 75015..75000, then 74015, 74014 where (14, _, 5) sits.
    let v = great[2];
    assert_eq!(v.rank, Some(18));
    assert_eq!(v.dense_rank, Some(18));
    assert_eq!(v.percentage, Some(Percentage::Quotient(Ratio { numerator: 74014, denominator: 75015 })));
    assert_eq!(v.cp, Some(74 * 20 + 5));
    assert_eq!(v.level, Some(Level::HalfLevels(74)));
    assert_eq!(v.gender, Some(Gender::Male));
    assert_eq!(v.form, None);
    // Bellsprout reaches level 50 in the great league and tops with attack 15.
    assert_eq!(great[0].rank, Some(2));
    assert_eq!(great[0].level, Some(Level::HalfLevels(100)));
}

#[test]
fn rankings_need_ivs_level_and_name() {
    let gm = game_master();
    assert!(pvp_ranking::<FakeCache, FakeCache>(&gm, &pokemon(69, None, Some(30)), League::Great).is_none());
    assert!(pvp_ranking::<FakeCache, FakeCache>(&gm, &pokemon(69, Some((1, 2, 3)), None), League::Great).is_none());
    assert!(pvp_ranking::<FakeCache, FakeCache>(&gm, &pokemon(1, Some((1, 2, 3)), Some(30)), League::Great).is_none());
    // No place holds a combination above level 50.
    assert!(pvp_ranking::<FakeCache, FakeCache>(&gm, &pokemon(69, Some((1, 2, 3)), Some(101)), League::Great).is_none());
}

#[test]
fn answers_without_ids_are_left_out() {
    let gm = game_master();
    let iv = gamemaster::iv::IV { attack: 1, defense: 2, stamina: 3 };
    let answers = gm.get_pvp_stats_with_evolutions("nosepass", None, Gender::Female, None, iv, 2, League::Ultra);
    assert_eq!(answers.len(), 2);
    let r = rankings_from_answers(&answers, &vec![None, Some(476)], &vec![None, None]).expect("answers");
    assert_eq!(r.len(), 1);
    assert_eq!(r[0].pokemon, 476);
    let none = rankings_from_answers(&Vec::new(), &Vec::new(), &Vec::new());
    assert!(none.is_none());
    let empty = rankings_from_answers(&answers, &vec![None, None], &vec![None, None]).expect("answers");
    assert!(empty.is_empty());
}

#[test]
fn given_rankings_are_kept() {
    let gm = game_master();
    let mut p = pokemon(299, Some((9, 11, 13)), Some(32));
    p.pvp_rankings_ultra_league = Some(vec![given(7)]);
    let info = PokemonWithPvpInfo::<FakeCache, FakeCache>::from_parsed(&gm, p);
    let q = info.deref();
    assert_eq!(q.pvp_rankings_ultra_league, Some(vec![given(7)]));
    assert!(q.pvp_rankings_great_league.is_none());
}

#[test]
fn rankings_given_by_league_name_are_taken() {
    let gm = game_master();
    let mut p = pokemon(299, Some((9, 11, 13)), Some(32));
    p.pvp = Some(vec![
        ("great".to_string(), vec![given(935)]),
        ("little".to_string(), vec![given(1135)]),
        ("ultra".to_string(), vec![given(303)]),
    ]);
    let q = PokemonWithPvpInfo::<FakeCache, FakeCache>::from_parsed(&gm, p).into_inner();
    assert_eq!(q.pvp_rankings_great_league, Some(vec![given(935)]));
    assert_eq!(q.pvp_rankings_ultra_league, Some(vec![given(303)]));
    let left = q.pvp.expect("kept");
    assert_eq!(left.len(), 1);
    assert_eq!(left[0].0, "little");
}

#[test]
fn missing_rankings_are_computed() {
    let gm = game_master();
    let mut p = pokemon(299, Some((9, 11, 13)), Some(32));
    p.pvp = Some(vec![("little".to_string(), vec![given(1135)])]);
    let q = PokemonWithPvpInfo::<FakeCache, FakeCache>::from_parsed(&gm, p).into_inner();
    let great = q.pvp_rankings_great_league.expect("computed");
    let ultra = q.pvp_rankings_ultra_league.expect("computed");
    assert_eq!(great.iter().map(|r| r.pokemon).collect::<Vec<_>>(), vec![299, 476]);
    assert_eq!(ultra.iter().map(|r| r.pokemon).collect::<Vec<_>>(), vec![299, 476]);
    assert_eq!(q.pvp.expect("kept").len(), 1);
    let unranked = PokemonWithPvpInfo::<FakeCache, FakeCache>::from_parsed(&gm, pokemon(299, None, Some(32))).into_inner();
    assert!(unranked.pvp_rankings_great_league.is_none());
    assert!(unranked.pvp_rankings_ultra_league.is_none());
}

#[test]
fn wrapping_keeps_the_pokemon() {
    let p = pokemon(69, Some((1, 2, 3)), Some(4));
    let info = PokemonWithPvpInfo::<FakeCache, FakeCache>::from(p);
    assert_eq!(info.deref().pokemon_id, 69);
    assert_eq!(info.deref().pokemon_level, Some(4));
}

#[test]
fn league_names_given_twice_read_as_a_map() {
    let gm = game_master();
    let mut p = pokemon(299, Some((9, 11, 13)), Some(32));
    p.pvp = Some(vec![
        ("great".to_string(), vec![given(1)]),
        ("little".to_string(), vec![given(2)]),
        ("great".to_string(), vec![given(3)]),
    ]);
    let q = PokemonWithPvpInfo::<FakeCache, FakeCache>::from_parsed(&gm, p).into_inner();
    assert_eq!(q.pvp_rankings_great_league, Some(vec![given(3)]));
    assert!(q.pvp_rankings_ultra_league.is_none());
    let left = q.pvp.expect("kept");
    assert_eq!(left.len(), 1);
    assert_eq!(left[0].0, "little");
}
