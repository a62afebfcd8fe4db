use gamemaster::gamemaster::{
    BaseStats, EvolutionBranch, GameMaster, PokemonSettings, PokemonWithFormAndGender, Stats,
};
use gamemaster::iv::{iv_all, IV};
use gamemaster::league::League;
use gamemaster::names::Gender;
use gamemaster::ranking::{LevelTable, Ratio};

fn branch(evolution: Option<&str>, form: Option<&str>, gender: Option<&str>) -> EvolutionBranch {
    EvolutionBranch {
        evolution: evolution.map(String::from),
        form: form.map(String::from),
        gender_requirement: gender.map(String::from),
    }
}

fn settings(id: &str, form: Option<&str>, attack: u16, evolutions: Option<Vec<EvolutionBranch>>) -> PokemonSettings {
    PokemonSettings {
        unique_id: id.to_string(),
        form: form.map(String::from),
        stats: BaseStats { base_attack: attack, base_defense: 100, base_stamina: 100 },
        evolution_branch: evolutions,
    }
}

/// Combat power grows with the base attack and the half level; the stat
/// product grows with the attack individual value.
fn table_for(stats: BaseStats) -> LevelTable {
    let mut cp = Vec::new();
    let mut value = Vec::new();
    for iv in iv_all() {
        let mut cp_row = Vec::new();
        let mut value_row = Vec::new();
        for h in 2u32..=100 {
            cp_row.push((h * stats.base_attack as u32 / 10 + iv.stamina as u32) as u16);
            value_row.push(h * 1000 + iv.attack as u32);
        }
        cp.push(cp_row);
        value.push(value_row);
    }
    LevelTable::new(cp, value).expect("well-formed table")
}

fn with_rankings(list: &Vec<PokemonSettings>) -> GameMaster {
    let mut gm = GameMaster::from_settings(list);
    for i in 0..gm.len() {
        let table = table_for(gm.ranking_base_stats(i));
        gm = gm.add_rankings(i, &table);
    }
    gm
}

fn bellsprout_line() -> Vec<PokemonSettings> {
    vec![
        settings("BELLSPROUT", None, 139, Some(vec![branch(Some("WEEPINBELL"), None, None)])),
        settings("WEEPINBELL", None, 172, Some(vec![branch(Some("VICTREEBEL"), None, None)])),
        settings("VICTREEBEL", None, 200, None),
    ]
}

fn key(pokemon: &str, form: Option<&str>, gender: Option<Gender>) -> PokemonWithFormAndGender {
    PokemonWithFormAndGender { pokemon: pokemon.to_string(), form: form.map(String::from), gender }
}

#[test]
fn keys_are_normalized() {
    let p = settings("MR_MIME", Some("MR_MIME_GALARIAN"), 100, None);
    let k = PokemonWithFormAndGender::from(&p);
    assert_eq!(k.pokemon, "mr mime");
    assert_eq!(k.form.as_deref(), Some("mr mime galarian"));
    assert_eq!(k.gender, None);
    assert!(k.same_key(&key("mr mime", Some("mr mime galarian"), None)));
    assert!(!k.same_key(&key("mr mime", None, None)));
}

#[test]
fn evolution_branches_without_evolution_are_dropped() {
    assert!(PokemonWithFormAndGender::try_from(&branch(None, Some("X"), None)).is_err());
    let k = PokemonWithFormAndGender::try_from(&branch(Some("VESPIQUEN"), None, Some("FEMALE"))).unwrap();
    assert_eq!(k.pokemon, "vespiquen");
    assert_eq!(k.gender, Some(Gender::Female));
    let p = settings(
        "COMBEE",
        None,
        100,
        Some(vec![branch(None, None, None), branch(Some("VESPIQUEN"), Some("VESPIQUEN_NORMAL"), Some("FEMALE"))]),
    );
    let stats = Stats::from(&p);
    let evolutions = stats.evolutions.expect("branches listed");
    assert_eq!(evolutions.len(), 1);
    assert_eq!(evolutions[0].form.as_deref(), Some("vespiquen normal"));
    assert!(Stats::from(&settings("X", None, 1, None)).evolutions.is_none());
}

#[test]
fn last_listed_settings_win() {
    let list = vec![
        settings("PIKACHU", None, 100, None),
        settings("RAICHU", None, 150, None),
        settings("PIKACHU", None, 112, None),
    ];
    let gm = GameMaster::from_settings(&list);
    let found = gm.get_stats(&key("pikachu", None, None)).expect("listed");
    assert_eq!(found.stats.base_attack, 112);
    assert_eq!(gm.ranking_base_stats(0).base_attack, 112);
    assert_eq!(gm.ranking_base_stats(1).base_attack, 150);
    assert!(gm.get_stats(&key("PIKACHU", None, None)).is_none());
    assert!(gm.get_stats(&key("pikachu", Some("x"), None)).is_none());
}

#[test]
fn rankings_are_found_under_normalized_names() {
    let gm = with_rankings(&bellsprout_line());
    assert!(GameMaster::new().get_top_pvp("BELLSPROUT", None, League::Great).is_none());
    let great = gm.get_top_pvp("BELLSPROUT", None, League::Great).expect("ranked");
    let ultra = gm.get_top_pvp("bellsprout", None, League::Ultra).expect("ranked");
    // cp at half level h is 139 h / 10 + stamina: within 1500 up to h = 100 for every IV.
    assert_eq!(great[0].rank, 100 * 1000 + 15);
    assert_eq!(ultra[0].rank, 100 * 1000 + 15);
    assert!(gm.get_top_pvp("BELLSPROUT", Some("NORMAL"), League::Great).is_none());
    // Victreebel: cp 20 h + stamina, within 1500 up to h = 74 (or 75 with stamina 0).
    let v = gm.get_top_pvp("VICTREEBEL", None, League::Great).expect("ranked");
    assert_eq!(v[0].rank, 75 * 1000 + 15);
}

#[test]
fn pvp_stats_of_a_pokemon() {
    let gm = with_rankings(&bellsprout_line());
    let iv = IV { attack: 14, defense: 15, stamina: 5 };
    let r = gm.get_pvp_stats("VICTREEBEL", None, iv, 30, League::Great).expect("placed");
    // Places 75015 down to 75000 come first (stamina 0 reaches half level 75),
    // then 74015 and 74014, where (14, _, 5) sits at half level 74.
    assert_eq!(r.rank, 18);
    assert_eq!(r.percentage, Ratio { numerator: 74014, denominator: 75015 });
    assert_eq!(r.ivs.len(), 1);
    assert_eq!(r.ivs[0].level, 74);
    assert!(gm.get_pvp_stats("VICTREEBEL", None, iv, 75, League::Great).is_none());
    assert!(gm.get_pvp_stats("MEW", None, iv, 1, League::Great).is_none());
}

#[test]
fn evolutions_are_followed() {
    let gm = with_rankings(&bellsprout_line());
    let iv = IV { attack: 9, defense: 11, stamina: 13 };
    let answers = gm.get_pvp_stats_with_evolutions("BELLSPROUT", None, Gender::Male, None, iv, 32, League::Great);
    let names: Vec<&str> = answers.iter().map(|(k, _)| k.pokemon.as_str()).collect();
    assert_eq!(names, vec!["bellsprout", "weepinbell", "victreebel"]);
    assert!(answers.iter().all(|(k, _)| k.gender == Some(Gender::Male) && k.form.is_none()));
    // Victreebel sits at half level 74 with stamina 13: none holds it at 99.
    let answers = gm.get_pvp_stats_with_evolutions("VICTREEBEL", None, Gender::Male, None, iv, 99, League::Great);
    assert!(answers.is_empty());
}

#[test]
fn noevolve_costumes_and_gender_requirements_stop_evolutions() {
    let list = vec![
        settings("COMBEE", None, 100, Some(vec![branch(Some("VESPIQUEN"), None, Some("FEMALE"))])),
        settings("VESPIQUEN", None, 149, None),
        settings("BELLSPROUT", Some("bellsprout_noevolve"), 139, Some(vec![branch(Some("WEEPINBELL"), None, None)])),
        settings("WEEPINBELL", None, 172, None),
    ];
    let gm = with_rankings(&list);
    let iv = IV { attack: 1, defense: 2, stamina: 3 };
    let male = gm.get_pvp_stats_with_evolutions("COMBEE", None, Gender::Male, None, iv, 2, League::Great);
    assert_eq!(male.len(), 1);
    let female = gm.get_pvp_stats_with_evolutions("COMBEE", None, Gender::Female, None, iv, 2, League::Great);
    assert_eq!(female.len(), 2);
    assert_eq!(female[1].0.pokemon, "vespiquen");
    // A costume whose name, lowercased, contains "noevolve" stops the search.
    for costume in ["BELLSPROUT_NOEVOLVE", "bellsprout_noevolve", "NoEvolve"] {
        let frozen = gm.get_pvp_stats_with_evolutions(
            "BELLSPROUT",
            Some("bellsprout_noevolve"),
            Gender::Male,
            Some(costume),
            iv,
            2,
            League::Great,
        );
        assert_eq!(frozen.len(), 1);
        assert_eq!(frozen[0].0.form.as_deref(), Some("bellsprout noevolve"));
    }
    // The form does not stop it: Weepinbell is followed under its own form.
    let followed = gm.get_pvp_stats_with_evolutions(
        "BELLSPROUT",
        Some("bellsprout_noevolve"),
        Gender::Male,
        Some("PARTY_HAT"),
        iv,
        2,
        League::Great,
    );
    assert_eq!(followed.len(), 2);
    assert_eq!(followed[1].0.pokemon, "weepinbell");
    assert_eq!(followed[1].0.form, None);
}

#[test]
fn evolutions_are_followed_under_their_own_form() {
    let list = vec![
        settings(
            "NOSEPASS",
            Some("NOSEPASS_NORMAL"),
            82,
            Some(vec![branch(Some("PROBOPASS"), Some("PROBOPASS_NORMAL"), None)]),
        ),
        settings("PROBOPASS", Some("PROBOPASS_NORMAL"), 135, None),
        settings("PROBOPASS", Some("NOSEPASS_NORMAL"), 135, None),
    ];
    let gm = with_rankings(&list);
    let iv = IV { attack: 4, defense: 15, stamina: 14 };
    let answers =
        gm.get_pvp_stats_with_evolutions("NOSEPASS", Some("NOSEPASS_NORMAL"), Gender::Male, None, iv, 36, League::Great);
    assert_eq!(answers.len(), 2);
    assert_eq!(answers[0].0.form.as_deref(), Some("nosepass normal"));
    assert_eq!(answers[1].0.pokemon, "probopass");
    assert_eq!(answers[1].0.form.as_deref(), Some("probopass normal"));
}

#[test]
fn evolution_cycles_are_cut() {
    let list = vec![
        settings("A", None, 100, Some(vec![branch(Some("B"), None, None)])),
        settings("B", None, 100, Some(vec![branch(Some("A"), None, None)])),
    ];
    let gm = with_rankings(&list);
    let iv = IV { attack: 0, defense: 0, stamina: 0 };
    let answers = gm.get_pvp_stats_with_evolutions("A", None, Gender::Unset, None, iv, 2, League::Great);
    assert_eq!(answers.len(), 3);
}

#[test]
fn loading_ranks_every_listed_pokemon_from_its_last_stats() {
    let list = vec![
        settings("PIKACHU", None, 100, None),
        settings("RAICHU", None, 150, None),
        settings("PIKACHU", None, 200, None),
    ];
    let gm = GameMaster::load(&list, table_for);
    for name in ["PIKACHU", "RAICHU"] {
        assert!(gm.get_top_pvp(name, None, League::Great).is_some());
        assert!(gm.get_top_pvp(name, None, League::Ultra).is_some());
    }
    assert!(gm.get_top_pvp("MEW", None, League::Great).is_none());
    // Pikachu is ranked from the stats listed last: 20 h + stamina within 1500 up to h = 75.
    let great = gm.get_top_pvp("pikachu", None, League::Great).expect("ranked");
    assert_eq!(great[0].rank, 75 * 1000 + 15);
    let loaded = with_rankings(&list);
    let expected = loaded.get_top_pvp("PIKACHU", None, League::Great).expect("ranked");
    assert_eq!(great.len(), expected.len());
    for (a, b) in great.iter().zip(expected.iter()) {
        assert_eq!(a.rank, b.rank);
        assert_eq!(a.ivs, b.ivs);
    }
}

#[test]
fn answers_hold_one_combination_within_the_cap() {
    let gm = with_rankings(&bellsprout_line());
    let iv = IV { attack: 3, defense: 9, stamina: 12 };
    for league in [League::Great, League::Ultra] {
        let cap = if matches!(league, League::Great) { 1500 } else { 2500 };
        let answers = gm.get_pvp_stats_with_evolutions("bellsprout", None, Gender::Male, None, iv, 20, league);
        assert!(!answers.is_empty());
        for (_, r) in answers.iter() {
            assert!(1 <= r.rank && r.rank <= 4096);
            assert!(r.percentage.numerator <= r.percentage.denominator);
            assert_eq!(r.ivs.len(), 1);
            assert_eq!(r.ivs[0].iv, iv);
            assert!(20 <= r.ivs[0].level && r.ivs[0].level <= 100);
            assert!(r.ivs[0].cp <= cap);
        }
    }
}
