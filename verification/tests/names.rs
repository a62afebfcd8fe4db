use gamemaster::names::{normalize, replace_underscores, str_contains, str_eq, Gender};

#[test]
fn normalize_lowercases_and_spaces_underscores() {
    assert_eq!(normalize("BULBASAUR_NORMAL"), "bulbasaur normal");
    assert_eq!(normalize("Mr_Mime"), "mr mime");
    assert_eq!(normalize("nosepass"), "nosepass");
    assert_eq!(normalize(""), "");
    assert_eq!(normalize("FLABÉBÉ_RED"), "flabébé red");
}

#[test]
fn normalized_names_hold_no_underscore() {
    for name in ["A_B_C", "__", "NIDORAN_FEMALE", "x"] {
        let n = normalize(name);
        assert!(!n.contains('_'));
        assert_eq!(n.chars().count(), name.to_lowercase().chars().count());
    }
}

#[test]
fn gender_names() {
    assert_eq!(Gender::from_str("MALE"), Gender::Male);
    assert_eq!(Gender::from_str("FEMALE"), Gender::Female);
    assert_eq!(Gender::from_str("GENDERLESS"), Gender::Genderless);
    assert_eq!(Gender::from_str("male"), Gender::Unset);
    assert_eq!(Gender::from_str(""), Gender::Unset);
}

#[test]
fn substring_search() {
    assert!(str_contains("MEOWTH_NOEVOLVE", "NOEVOLVE"));
    assert!(str_contains("pikachu_noevolve", "noevolve"));
    assert!(!str_contains("pikachu_noevolv", "noevolve"));
    assert!(str_contains("abc", ""));
    assert!(!str_contains("", "a"));
    assert!(str_eq("abc", "abc"));
    assert!(!str_eq("abc", "abd"));
    assert!(!str_eq("abc", "ab"));
}

#[test]
fn underscores_become_spaces_and_case_is_kept() {
    assert_eq!(replace_underscores("Mr_Mime"), "Mr Mime");
    assert_eq!(replace_underscores("__a"), "  a");
    assert_eq!(replace_underscores(""), "");
    assert_eq!(replace_underscores("flabébé"), "flabébé");
}
