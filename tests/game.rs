use rg_launcher::game::{filter_choices, game_choices, game_id, pick_game, text_contains, GamePick};

fn strings(v: &[&str]) -> Vec<String> {
    v.iter().map(|s| s.to_string()).collect()
}

#[test]
fn choices_are_cut_and_sorted() {
    let list = "2|zelda|Zelda|wine|extra\n1|doom|Doom|linux\n3|quake|Quake";
    assert_eq!(game_choices(list), strings(&["1|doom|Doom", "2|zelda|Zelda", "3|quake|Quake"]));
}

#[test]
fn empty_list_has_one_empty_choice() {
    assert_eq!(game_choices(""), strings(&[""]));
    assert_eq!(game_choices("a|b\n"), strings(&["", "a|b"]));
}

#[test]
fn contains_is_substring_search() {
    assert!(text_contains("1|doom|Doom", "Doo"));
    assert!(text_contains("abc", ""));
    assert!(!text_contains("abc", "abcd"));
    assert!(!text_contains("abc", "ac"));
}

#[test]
fn filter_keeps_order() {
    let choices = strings(&["1|doom|Doom", "2|doom2|Doom II", "3|quake|Quake"]);
    assert_eq!(filter_choices(&choices, "doom"), strings(&["1|doom|Doom", "2|doom2|Doom II"]));
    assert!(filter_choices(&choices, "zelda").is_empty());
}

#[test]
fn single_match_launches() {
    let choices = strings(&["1|doom|Doom", "3|quake|Quake"]);
    match pick_game(choices, Some("quake".to_string())) {
        GamePick::Launch(g) => assert_eq!(g, "3|quake|Quake"),
        _ => panic!("expected a launch"),
    }
}

#[test]
fn no_match_offers_everything() {
    let choices = strings(&["1|doom|Doom", "3|quake|Quake"]);
    match pick_game(choices.clone(), Some("zelda".to_string())) {
        GamePick::Menu { prompt, options } => {
            assert_eq!(prompt, "Choose game (no matches found for 'zelda')");
            assert_eq!(options, choices);
        }
        _ => panic!("expected a menu"),
    }
}

#[test]
fn several_matches_offer_them() {
    let choices = strings(&["1|doom|Doom", "2|doom2|Doom II", "3|quake|Quake"]);
    match pick_game(choices, Some("doom".to_string())) {
        GamePick::Menu { prompt, options } => {
            assert_eq!(prompt, "Choose game");
            assert_eq!(options, strings(&["1|doom|Doom", "2|doom2|Doom II"]));
        }
        _ => panic!("expected a menu"),
    }
}

#[test]
fn no_search_and_no_games() {
    match pick_game(Vec::new(), None) {
        GamePick::Menu { prompt, options } => {
            assert_eq!(prompt, "Choose game (no matches found for '')");
            assert!(options.is_empty());
        }
        _ => panic!("expected a menu"),
    }
}

#[test]
fn id_is_first_field_trimmed() {
    assert_eq!(game_id(" 12 |doom|Doom"), "12");
    assert_eq!(game_id("7"), "7");
    assert_eq!(game_id("\t 3\n"), "3");
    assert_eq!(game_id("|x"), "");
}
