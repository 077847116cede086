use fragrance_vault::seasons::{join_seasons, season_flags};

#[test]
fn join_seasons_lists_chosen_in_order() {
    assert_eq!(join_seasons(false, true, true, false), "Summer,Fall");
    assert_eq!(join_seasons(true, true, true, true), "Spring,Summer,Fall,Winter");
    assert_eq!(join_seasons(false, false, false, true), "Winter");
}

#[test]
fn join_seasons_none_chosen_is_empty() {
    assert_eq!(join_seasons(false, false, false, false), "");
}

#[test]
fn season_flags_of_stored_list() {
    assert_eq!(season_flags("Summer,Fall"), (false, true, true, false));
    assert_eq!(season_flags(""), (false, false, false, false));
    assert_eq!(season_flags("Spring,Winter"), (true, false, false, true));
}

#[test]
fn season_flags_match_substrings_as_stored() {
    // a free-form list is read by what it mentions
    assert_eq!(season_flags("Late Fall / early Winter"), (false, false, true, true));
    assert_eq!(season_flags("spring"), (false, false, false, false));
}

#[test]
fn saved_seasons_read_back_for_every_choice() {
    for bits in 0..16u8 {
        let chosen = (bits & 1 != 0, bits & 2 != 0, bits & 4 != 0, bits & 8 != 0);
        let stored = join_seasons(chosen.0, chosen.1, chosen.2, chosen.3);
        assert_eq!(season_flags(&stored), chosen, "stored as {:?}", stored);
    }
}
