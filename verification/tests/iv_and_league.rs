use gamemaster::iv::{iv_all, IV};
use gamemaster::league::League;
use gamemaster::ranking::get_level;

#[test]
fn iv_all_enumerates_every_combination_in_order() {
    let all = iv_all();
    assert_eq!(all.len(), 4096);
    assert_eq!(all[0], IV { attack: 0, defense: 0, stamina: 0 });
    assert_eq!(all[1], IV { attack: 0, defense: 0, stamina: 1 });
    assert_eq!(all[16], IV { attack: 0, defense: 1, stamina: 0 });
    assert_eq!(all[256], IV { attack: 1, defense: 0, stamina: 0 });
    assert_eq!(all[4095], IV { attack: 15, defense: 15, stamina: 15 });
    for (i, iv) in all.iter().enumerate() {
        assert_eq!(
            i,
            iv.attack as usize * 256 + iv.defense as usize * 16 + iv.stamina as usize
        );
    }
}

#[test]
fn league_caps() {
    assert_eq!(League::Great.get_cap(), 1500);
    assert_eq!(League::Ultra.get_cap(), 2500);
}

#[test]
fn level_positions_in_table() {
    assert_eq!(get_level(2), 0);
    assert_eq!(get_level(3), 1);
    assert_eq!(get_level(32), 30);
    assert_eq!(get_level(100), 98);
}
