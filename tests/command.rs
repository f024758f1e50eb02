use tarot_engine::command::{parse_count, parse_tarot_args, same_text, TarotRequest};

fn args(words: &[&str]) -> Vec<String> {
    words.iter().map(|w| w.to_string()).collect()
}

fn spread(r: Result<TarotRequest, String>) -> (usize, bool, bool) {
    match r {
        Ok(TarotRequest::Spread { count, show_info, show_deepinfo }) => {
            (count, show_info, show_deepinfo)
        }
        _ => panic!("expected a spread"),
    }
}

fn card(r: Result<TarotRequest, String>) -> (String, bool, bool) {
    match r {
        Ok(TarotRequest::Card { query, show_info, show_deepinfo }) => (query, show_info, show_deepinfo),
        _ => panic!("expected a card"),
    }
}

#[test]
fn no_arguments_gives_usage() {
    let e = parse_tarot_args(&args(&[])).err().unwrap();
    assert!(e.starts_with("Usage: :tarot <card-name-or-number> [info] [deepinfo]\nExamples:"));
}

#[test]
fn only_flags_name_no_card() {
    assert_eq!(parse_tarot_args(&args(&["info", "deepinfo"])).err().unwrap(), "No card specified");
}

#[test]
fn numbers_ask_for_spreads() {
    assert_eq!(spread(parse_tarot_args(&args(&["3", "info"]))), (3, true, false));
    assert_eq!(spread(parse_tarot_args(&args(&["5", "info", "deepinfo"]))), (5, true, true));
    assert_eq!(spread(parse_tarot_args(&args(&["+10"]))), (10, false, false));
    for bad in ["0", "11", "99999999999999999999999"] {
        let e = parse_tarot_args(&args(&[bad])).err();
        if bad.len() > 20 {
            // too large for usize: read as a card query
            assert!(e.is_none());
        } else {
            assert_eq!(e.unwrap(), "Card count must be between 1 and 10");
        }
    }
}

#[test]
fn words_ask_for_a_card() {
    assert_eq!(
        card(parse_tarot_args(&args(&["six", "of", "swords", "deepinfo"]))),
        ("six of swords".to_string(), false, true)
    );
    assert_eq!(card(parse_tarot_args(&args(&["fool"]))), ("fool".to_string(), false, false));
    assert_eq!(
        card(parse_tarot_args(&args(&["3", "swords"]))),
        ("3 swords".to_string(), false, false)
    );
    assert_eq!(
        card(parse_tarot_args(&args(&["info", "fool"]))),
        ("info fool".to_string(), false, false)
    );
}

#[test]
fn three_card_names() {
    assert_eq!(spread(parse_tarot_args(&args(&["threecard"]))), (3, false, false));
    assert_eq!(spread(parse_tarot_args(&args(&["three-card", "info"]))), (3, true, false));
}

#[test]
fn counts_read_like_usize() {
    assert_eq!(parse_count("7"), Some(7));
    assert_eq!(parse_count("+7"), Some(7));
    assert_eq!(parse_count("007"), Some(7));
    assert_eq!(parse_count(""), None);
    assert_eq!(parse_count("+"), None);
    assert_eq!(parse_count("-1"), None);
    assert_eq!(parse_count("1a"), None);
    assert_eq!(parse_count(&usize::MAX.to_string()), Some(usize::MAX));
    assert_eq!(parse_count("18446744073709551616"), None);
    assert!(same_text("ab", "ab"));
    assert!(!same_text("ab", "abc"));
}
