use tarot_engine::csv::{load_cards_from_csv, parse_csv_line};

#[test]
fn plain_fields_are_split_and_trimmed() {
    assert_eq!(parse_csv_line("a, b ,c"), vec!["a", "b", "c"]);
    assert_eq!(parse_csv_line(""), vec![""]);
    assert_eq!(parse_csv_line("a,,"), vec!["a", "", ""]);
}

#[test]
fn quoted_commas_and_doubled_quotes() {
    assert_eq!(
        parse_csv_line("x,\"one, two\",\"say \"\"hi\"\"\""),
        vec!["x", "one, two", "say \"hi\""]
    );
    assert_eq!(parse_csv_line("  \"  padded \"  ,z"), vec!["  padded ", "z"]);
    assert_eq!(parse_csv_line(" \" a \" ,b"), vec![" a ", "b"]);
    assert_eq!(parse_csv_line("\t x y \u{3000},\u{a0}q"), vec!["x y", "q"]);
}

#[test]
fn header_is_skipped_and_short_rows_ignored() {
    let repo = load_cards_from_csv("card,image\nThe Fool,fool.jpg\nlonely\nMagus,magus.jpg,Magician\n");
    assert_eq!(repo.len(), 2);
    assert_eq!(repo.get(0).card, "The Fool");
    assert_eq!(repo.get(0).title, None);
    assert_eq!(repo.get(1).title.as_deref(), Some("Magician"));
}

#[test]
fn missing_columns_are_absent() {
    let repo = load_cards_from_csv("h\nSun,sun.png,,Sol,,,,,,,,,,,\"Warm, bright\",Deep\r\n");
    assert_eq!(repo.len(), 1);
    let c = repo.get(0);
    assert_eq!(c.image, "sun.png");
    assert_eq!(c.title, None);
    assert_eq!(c.planet_orb.as_deref(), Some("Sol"));
    assert_eq!(c.suit_1, None);
    assert_eq!(c.info.as_deref(), Some("Warm, bright"));
    assert_eq!(c.deepinfo.as_deref(), Some("Deep"));
}

#[test]
fn empty_source_gives_empty_table() {
    assert_eq!(load_cards_from_csv("").len(), 0);
    assert_eq!(load_cards_from_csv("card,image\n").len(), 0);
}

#[test]
fn later_row_with_same_key_replaces_earlier() {
    let repo = load_cards_from_csv("h\nThe Fool,a.jpg\nFool,b.jpg\n");
    assert_eq!(repo.len(), 1);
    assert_eq!(repo.get(0).image, "b.jpg");
}
