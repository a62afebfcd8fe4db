use gamemaster::iv::{iv_all, IV};
use gamemaster::gamemaster::pvp_stats_from_ranking;
use gamemaster::ranking::{get_pvp_values_ordered, LevelTable, PvpIV, Ratio, Response};

/// Combat power `20 * h + stamina` and stat product `h + attack` at half
/// level `h`.
fn linear_table() -> LevelTable {
    let mut cp = Vec::new();
    let mut value = Vec::new();
    for iv in iv_all() {
        let mut cp_row = Vec::new();
        let mut value_row = Vec::new();
        for h in 2u32..=100 {
            cp_row.push((20 * h + iv.stamina as u32) as u16);
            value_row.push(h + iv.attack as u32);
        }
        cp.push(cp_row);
        value.push(value_row);
    }
    LevelTable::new(cp, value).expect("well-formed table")
}

#[test]
fn level_table_checks_its_shape() {
    assert!(LevelTable::new(Vec::new(), Vec::new()).is_none());
    let mut cp = vec![vec![0u16; 99]; 4096];
    let value = vec![vec![0u32; 99]; 4096];
    assert!(LevelTable::new(cp.clone(), value.clone()).is_some());
    cp[17].pop();
    assert!(LevelTable::new(cp, value).is_none());
}

#[test]
fn ranking_places_each_iv_at_its_highest_level() {
    let table = linear_table();
    let ranking = get_pvp_values_ordered(&table, 1500);
    // stamina 0 reaches half level 75 (cp 1500), the others half level 74.
    assert_eq!(ranking.len(), 17);
    assert_eq!(ranking[0].rank, 90);
    assert_eq!(ranking[0].ivs.len(), 16);
    assert_eq!(
        ranking[0].ivs[0],
        PvpIV { iv: IV { attack: 15, defense: 0, stamina: 0 }, level: 75, cp: 1500 }
    );
    assert_eq!(
        ranking[1].ivs[0],
        PvpIV { iv: IV { attack: 14, defense: 0, stamina: 0 }, level: 75, cp: 1500 }
    );
    assert_eq!(ranking[1].ivs.len(), 16 + 240);
    assert_eq!(ranking[16].rank, 74);
    assert_eq!(ranking[16].ivs.len(), 240);
    assert_eq!(
        ranking[16].ivs[0],
        PvpIV { iv: IV { attack: 0, defense: 0, stamina: 1 }, level: 74, cp: 1481 }
    );
    for (k, place) in ranking.iter().enumerate() {
        assert_eq!(place.percentage, Ratio { numerator: 0, denominator: 1 });
        assert_eq!(place.rank, 90 - k as u32);
    }
    let total: usize = ranking.iter().map(|r| r.ivs.len()).sum();
    assert_eq!(total, 4096);
}

#[test]
fn ranking_under_a_high_cap_uses_level_fifty() {
    let table = linear_table();
    let ranking = get_pvp_values_ordered(&table, 2500);
    assert_eq!(ranking.len(), 16);
    assert_eq!(ranking[0].rank, 115);
    assert_eq!(ranking[0].ivs.len(), 256);
    assert!(ranking.iter().all(|r| r.ivs.iter().all(|iv| iv.level == 100)));
}

#[test]
fn every_iv_is_placed_exactly_once() {
    let table = linear_table();
    let ranking = get_pvp_values_ordered(&table, 1500);
    for iv in iv_all() {
        let holders: Vec<(usize, usize)> = ranking
            .iter()
            .enumerate()
            .flat_map(|(k, r)| {
                r.ivs.iter().enumerate().filter(|(_, e)| e.iv == iv).map(move |(j, _)| (k, j))
            })
            .collect();
        assert_eq!(holders.len(), 1);
    }
}

#[test]
fn stats_from_ranking_gives_position_and_percentage() {
    let table = linear_table();
    let ranking = get_pvp_values_ordered(&table, 1500);
    let top = IV { attack: 15, defense: 3, stamina: 0 };
    let r = pvp_stats_from_ranking(&ranking, top, 70).expect("placed");
    assert_eq!(r.rank, 1);
    assert_eq!(r.percentage, Ratio { numerator: 90, denominator: 90 });
    assert_eq!(r.ivs, vec![PvpIV { iv: top, level: 75, cp: 1500 }]);

    let second = IV { attack: 15, defense: 3, stamina: 5 };
    let r = pvp_stats_from_ranking(&ranking, second, 74).expect("placed");
    assert_eq!(r.rank, 2);
    assert_eq!(r.percentage, Ratio { numerator: 89, denominator: 90 });
    assert_eq!(r.ivs, vec![PvpIV { iv: second, level: 74, cp: 1485 }]);

    assert!(pvp_stats_from_ranking(&ranking, second, 75).is_none());
    assert!(pvp_stats_from_ranking(&Vec::<Response>::new(), second, 2).is_none());
}

#[test]
fn combinations_over_the_cap_at_level_one_sit_below_it() {
    let table = linear_table();
    // At half level 2 the combat power is 40 + stamina: only stamina 15 is over 54.
    let ranking = get_pvp_values_ordered(&table, 54);
    let last = ranking.last().expect("places");
    assert_eq!(last.rank, 0);
    assert_eq!(last.ivs.len(), 256);
    assert_eq!(
        last.ivs[0],
        PvpIV { iv: IV { attack: 0, defense: 0, stamina: 15 }, level: 1, cp: 10 }
    );
    let total: usize = ranking.iter().map(|r| r.ivs.len()).sum();
    assert_eq!(total, 4096);
    // Under a cap below the least combat power nothing is placed.
    assert!(get_pvp_values_ordered(&table, 9).is_empty());
}

#[test]
fn answers_do_not_depend_on_levels_up_to_the_placed_one() {
    let table = linear_table();
    let ranking = get_pvp_values_ordered(&table, 1500);
    let iv = IV { attack: 3, defense: 9, stamina: 4 };
    let low = pvp_stats_from_ranking(&ranking, iv, 1).expect("placed");
    for level in [2, 40, 74] {
        let r = pvp_stats_from_ranking(&ranking, iv, level).expect("placed");
        assert_eq!(r.rank, low.rank);
        assert_eq!(r.percentage, low.percentage);
        assert_eq!(r.ivs, low.ivs);
    }
    for level in [75, 100, u32::MAX] {
        assert!(pvp_stats_from_ranking(&ranking, iv, level).is_none());
    }
}

#[test]
fn ranking_the_same_table_twice_gives_the_same_places() {
    let table = linear_table();
    let a = get_pvp_values_ordered(&table, 1500);
    let b = get_pvp_values_ordered(&table, 1500);
    assert_eq!(a.len(), b.len());
    for (x, y) in a.iter().zip(b.iter()) {
        assert_eq!(x.rank, y.rank);
        assert_eq!(x.percentage, y.percentage);
        assert_eq!(x.ivs, y.ivs);
    }
}
