use std::collections::HashMap;
use tarot_engine::history::{
    history_list_text, reading_details_text, reading_id_for, CardDetail, CardInReading,
    HistoryResponse, ReadingDetails, ReadingHistoryItem,
};

fn item(id: i32, date: &str, names: &[&str]) -> ReadingHistoryItem {
    ReadingHistoryItem {
        reading_id: id,
        spread_type: "3-card".to_string(),
        reading_date: date.to_string(),
        card_count: names.len(),
        cards: names
            .iter()
            .enumerate()
            .map(|(i, n)| CardInReading { position: i as i32, card_name: n.to_string(), label: None })
            .collect(),
        notes: None,
    }
}

#[test]
fn empty_history_has_no_list() {
    let h = HistoryResponse { total_readings: 0, readings: Vec::new() };
    assert!(history_list_text(&h).is_none());
}

#[test]
fn history_list_numbers_entries_and_cuts_dates() {
    let h = HistoryResponse {
        total_readings: 2,
        readings: vec![
            item(7, "2024-05-01T10:00:00", &["The Fool", "Magus"]),
            item(9, "2024-06", &["Sun"]),
        ],
    };
    assert_eq!(
        history_list_text(&h).unwrap(),
        "**Tarot Reading History (2 total readings)**\n\n\
         1. 2024-05-01 - 2-card spread\n   The Fool, Magus\n\n\
         2. 2024-06 - 1-card spread\n   Sun\n\n\
         Use :tarothistory <number> to see details\n\
         Use :tarothistory suits/sephira/etc for analytics"
    );
}

#[test]
fn reading_numbers_are_checked() {
    let h = HistoryResponse {
        total_readings: 2,
        readings: vec![item(7, "2024-05-01", &[]), item(9, "2024-06-01", &[])],
    };
    assert_eq!(reading_id_for(&h, 1), Ok(7));
    assert_eq!(reading_id_for(&h, 2), Ok(9));
    assert_eq!(reading_id_for(&h, 0), Err("Invalid reading number. Valid range: 1-2".to_string()));
    assert_eq!(reading_id_for(&h, 3), Err("Invalid reading number. Valid range: 1-2".to_string()));
}

#[test]
fn reading_details_with_and_without_info() {
    let d = ReadingDetails {
        reading_id: 3,
        spread_type: "single".to_string(),
        reading_date: "2024-07-04T12:00:00Z".to_string(),
        notes: Some("calm".to_string()),
        cards: vec![
            CardDetail {
                position: 0,
                card_name: "The Star".to_string(),
                label: Some("past".to_string()),
                info: Some("Hope.".to_string()),
                deepinfo: None,
            },
            CardDetail {
                position: -2,
                card_name: "Art".to_string(),
                label: None,
                info: None,
                deepinfo: Some("Blend.".to_string()),
            },
        ],
        attributes: HashMap::new(),
    };
    assert_eq!(
        reading_details_text(4, &d, false),
        "**Reading #4 - 2024-07-04**\nSpread: single\n\n\
         **Card 1 (past):** The Star\n\n\
         **Card -1:** Art\n\n\
         Notes: calm\n"
    );
    assert_eq!(
        reading_details_text(4, &d, true),
        "**Reading #4 - 2024-07-04**\nSpread: single\n\n\
         **Card 1 (past):** The Star\nHope.\n\n\
         **Card -1:** Art\nBlend.\n\n\
         Notes: calm\n"
    );
}
