use nba_data::normalize::{canonical_key, normalize_name};

#[test]
fn normalize_folds_case_and_diacritics() {
    assert_eq!(normalize_name("Nikola Jokić"), "nikola jokic");
    assert_eq!(normalize_name("NIKOLA JOKIC"), "nikola jokic");
    assert_eq!(normalize_name("Nikola Jokić"), normalize_name("NIKOLA JOKIC"));
}

#[test]
fn normalize_is_idempotent_on_examples() {
    for raw in ["Luka Dončić", "  J.J.   Redick ", "", "Dāvis Bertāns", "A\tB\nC", "北亰"] {
        let once = normalize_name(raw);
        assert_eq!(normalize_name(&once), once);
    }
}

#[test]
fn normalize_trims_and_collapses_white_space() {
    assert_eq!(normalize_name("  LeBron \t  James\n"), "lebron james");
    assert_eq!(normalize_name("   "), "");
    assert_eq!(normalize_name(""), "");
}

#[test]
fn canonical_key_drops_what_is_not_ascii() {
    assert_eq!(canonical_key("Jokić  X"), "joki x");
    assert_eq!(canonical_key("é"), "");
}

#[test]
fn normalize_keeps_punctuation_and_digits() {
    assert_eq!(normalize_name("J.J. Redick"), "j.j. redick");
    assert_eq!(normalize_name("O'Neal, Shaquille (34)"), "o'neal, shaquille (34)");
}

#[test]
fn normalize_transliterates_before_it_collapses() {
    assert_eq!(normalize_name("Dāvis\u{a0}Bertāns"), "davis bertans");
    assert_eq!(normalize_name("Æneid"), "aeneid");
    assert_eq!(normalize_name("ŠARIĆ"), "saric");
}

#[test]
fn names_of_other_case_share_a_key() {
    assert_eq!(normalize_name("lebron JAMES"), normalize_name("LeBron James"));
    assert_eq!(canonical_key("A  b\tC"), "a b c");
}
