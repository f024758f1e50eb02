use tarot_engine::cards::{
    find_card, get_all_cards, get_cards_by_suit, get_major_arcana, get_minor_arcana,
    CardRepository, TarotCard,
};
use tarot_engine::cards::join_path;
use tarot_engine::csv::load_cards_from_csv;
use tarot_engine::text::{key_of_lowered, normalize_card_name};

const DECK: &str = "card,image,title,planet_orb,planet_house,sign_1,sign_2,sign_3,suit_1,suit_2,path,sephira,element_1,element_2,info,deepinfo\nThe Fool,Fool.jpg,Spirit of Aethyr,Uranus,,,,,,,11,,,,\"The fool card, trump 0.\",\"Trump 0: \"\"Spirit of Aethyr\"\".\"\nThe Magus,Magus.jpg,Magus of Power,Mercury,,,,,,,12,,,,\"The magus card, trump 1.\",\"Trump 1: \"\"Magus of Power\"\".\"\nThe Priestess,Priestess.jpg,Priestess of the Silver Star,Moon,,,,,,,13,,,,\"The priestess card, trump 2.\",\"Trump 2: \"\"Priestess of the Silver Star\"\".\"\nThe Empress,Empress.jpg,Daughter of the Mighty Ones,Venus,,,,,,,14,,,,\"The empress card, trump 3.\",\"Trump 3: \"\"Daughter of the Mighty Ones\"\".\"\nThe Emperor,Emperor.jpg,Sun of the Morning,Aries,,,,,,,15,,,,\"The emperor card, trump 4.\",\"Trump 4: \"\"Sun of the Morning\"\".\"\nThe Hierophant,Hierophant.jpg,Magus of the Eternal,Taurus,,,,,,,16,,,,\"The hierophant card, trump 5.\",\"Trump 5: \"\"Magus of the Eternal\"\".\"\nThe Lovers,Lovers.jpg,Children of the Voice,Gemini,,,,,,,17,,,,\"The lovers card, trump 6.\",\"Trump 6: \"\"Children of the Voice\"\".\"\nThe Chariot,Chariot.jpg,Child of the Powers of the Waters,Cancer,,,,,,,18,,,,\"The chariot card, trump 7.\",\"Trump 7: \"\"Child of the Powers of the Waters\"\".\"\nAdjustment,Adjustment.jpg,Daughter of the Lords of Truth,Libra,,,,,,,19,,,,\"The adjustment card, trump 8.\",\"Trump 8: \"\"Daughter of the Lords of Truth\"\".\"\nThe Hermit,Hermit.jpg,Prophet of the Eternal,Virgo,,,,,,,20,,,,\"The hermit card, trump 9.\",\"Trump 9: \"\"Prophet of the Eternal\"\".\"\nFortune,Fortune.jpg,Lord of the Forces of Life,Jupiter,,,,,,,21,,,,\"The fortune card, trump 10.\",\"Trump 10: \"\"Lord of the Forces of Life\"\".\"\nLust,Lust.jpg,Daughter of the Flaming Sword,Leo,,,,,,,22,,,,\"The lust card, trump 11.\",\"Trump 11: \"\"Daughter of the Flaming Sword\"\".\"\nThe Hanged Man,Hanged_Man.jpg,Spirit of the Mighty Waters,Neptune,,,,,,,23,,,,\"The hanged man card, trump 12.\",\"Trump 12: \"\"Spirit of the Mighty Waters\"\".\"\nDeath,Death.jpg,Child of the Great Transformers,Scorpio,,,,,,,24,,,,\"The death card, trump 13.\",\"Trump 13: \"\"Child of the Great Transformers\"\".\"\nArt,Art.jpg,Daughter of the Reconcilers,Sagittarius,,,,,,,25,,,,\"The art card, trump 14.\",\"Trump 14: \"\"Daughter of the Reconcilers\"\".\"\nThe Devil,Devil.jpg,Lord of the Gates of Matter,Capricorn,,,,,,,26,,,,\"The devil card, trump 15.\",\"Trump 15: \"\"Lord of the Gates of Matter\"\".\"\nThe Tower,Tower.jpg,Lord of the Hosts of the Mighty,Mars,,,,,,,27,,,,\"The tower card, trump 16.\",\"Trump 16: \"\"Lord of the Hosts of the Mighty\"\".\"\nThe Star,Star.jpg,Daughter of the Firmament,Aquarius,,,,,,,28,,,,\"The star card, trump 17.\",\"Trump 17: \"\"Daughter of the Firmament\"\".\"\nThe Moon,Moon.jpg,Ruler of Flux and Reflux,Pisces,,,,,,,29,,,,\"The moon card, trump 18.\",\"Trump 18: \"\"Ruler of Flux and Reflux\"\".\"\nThe Sun,Sun.jpg,Lord of the Fire of the World,Sun,,,,,,,30,,,,\"The sun card, trump 19.\",\"Trump 19: \"\"Lord of the Fire of the World\"\".\"\nThe Aeon,Aeon.jpg,Spirit of the Primal Fire,Pluto,,,,,,,31,,,,\"The aeon card, trump 20.\",\"Trump 20: \"\"Spirit of the Primal Fire\"\".\"\nThe Universe,Universe.jpg,Great One of the Night of Time,Saturn,,,,,,,32,,,,\"The universe card, trump 21.\",\"Trump 21: \"\"Great One of the Night of Time\"\".\"\nAce-Wands,Ace_Wands.jpg,Root of Fire,,,,,,Wands,,,1,Fire,,\"Ace of Wands, root of fire.\",\nTwo-Wands,Two_Wands.jpg,Dominion,,,,,,Wands,,,2,Fire,,\"Two of Wands, dominion.\",\nThree-Wands,Three_Wands.jpg,Virtue,,,,,,Wands,,,3,Fire,,\"Three of Wands, virtue.\",\nFour-Wands,Four_Wands.jpg,Completion,,,,,,Wands,,,4,Fire,,\"Four of Wands, completion.\",\nFive-Wands,Five_Wands.jpg,Strife,,,,,,Wands,,,5,Fire,,\"Five of Wands, strife.\",\nSix-Wands,Six_Wands.jpg,Victory,,,,,,Wands,,,6,Fire,,\"Six of Wands, victory.\",\nSeven-Wands,Seven_Wands.jpg,Valour,,,,,,Wands,,,7,Fire,,\"Seven of Wands, valour.\",\nEight-Wands,Eight_Wands.jpg,Swiftness,,,,,,Wands,,,8,Fire,,\"Eight of Wands, swiftness.\",\nNine-Wands,Nine_Wands.jpg,Strength,,,,,,Wands,,,9,Fire,,\"Nine of Wands, strength.\",\nTen-Wands,Ten_Wands.jpg,Oppression,,,,,,Wands,,,10,Fire,,\"Ten of Wands, oppression.\",\nKnight-Wands,Knight_Wands.jpg,,,,,,,Wands,,,,Fire,Earth,\"Knight of Wands.\",\nQueen-Wands,Queen_Wands.jpg,,,,,,,Wands,,,,Fire,Earth,\"Queen of Wands.\",\nPrince-Wands,Prince_Wands.jpg,,,,,,,Wands,,,,Fire,Earth,\"Prince of Wands.\",\nPrincess-Wands,Princess_Wands.jpg,,,,,,,Wands,,,,Fire,Earth,\"Princess of Wands.\",\nAce-Cups,Ace_Cups.jpg,Root of Water,,,,,,Cups,,,1,Water,,\"Ace of Cups, root of water.\",\nTwo-Cups,Two_Cups.jpg,Love,,,,,,Cups,,,2,Water,,\"Two of Cups, love.\",\nThree-Cups,Three_Cups.jpg,Abundance,,,,,,Cups,,,3,Water,,\"Three of Cups, abundance.\",\nFour-Cups,Four_Cups.jpg,Luxury,,,,,,Cups,,,4,Water,,\"Four of Cups, luxury.\",\nFive-Cups,Five_Cups.jpg,Disappointment,,,,,,Cups,,,5,Water,,\"Five of Cups, disappointment.\",\nSix-Cups,Six_Cups.jpg,Pleasure,,,,,,Cups,,,6,Water,,\"Six of Cups, pleasure.\",\nSeven-Cups,Seven_Cups.jpg,Debauch,,,,,,Cups,,,7,Water,,\"Seven of Cups, debauch.\",\nEight-Cups,Eight_Cups.jpg,Indolence,,,,,,Cups,,,8,Water,,\"Eight of Cups, indolence.\",\nNine-Cups,Nine_Cups.jpg,Happiness,,,,,,Cups,,,9,Water,,\"Nine of Cups, happiness.\",\nTen-Cups,Ten_Cups.jpg,Satiety,,,,,,Cups,,,10,Water,,\"Ten of Cups, satiety.\",\nKnight-Cups,Knight_Cups.jpg,,,,,,,Cups,,,,Water,Earth,\"Knight of Cups.\",\nQueen-Cups,Queen_Cups.jpg,,,,,,,Cups,,,,Water,Earth,\"Queen of Cups.\",\nPrince-Cups,Prince_Cups.jpg,,,,,,,Cups,,,,Water,Earth,\"Prince of Cups.\",\nPrincess-Cups,Princess_Cups.jpg,,,,,,,Cups,,,,Water,Earth,\"Princess of Cups.\",\nAce-Swords,Ace_Swords.jpg,Root of Air,,,,,,Swords,,,1,Air,,\"Ace of Swords, root of air.\",\nTwo-Swords,Two_Swords.jpg,Peace,,,,,,Swords,,,2,Air,,\"Two of Swords, peace.\",\nThree-Swords,Three_Swords.jpg,Sorrow,,,,,,Swords,,,3,Air,,\"Three of Swords, sorrow.\",\nFour-Swords,Four_Swords.jpg,Truce,,,,,,Swords,,,4,Air,,\"Four of Swords, truce.\",\nFive-Swords,Five_Swords.jpg,Defeat,,,,,,Swords,,,5,Air,,\"Five of Swords, defeat.\",\nSix-Swords,Six_Swords.jpg,Science,,,,,,Swords,,,6,Air,,\"Six of Swords, science.\",\nSeven-Swords,Seven_Swords.jpg,Futility,,,,,,Swords,,,7,Air,,\"Seven of Swords, futility.\",\nEight-Swords,Eight_Swords.jpg,Interference,,,,,,Swords,,,8,Air,,\"Eight of Swords, interference.\",\nNine-Swords,Nine_Swords.jpg,Cruelty,,,,,,Swords,,,9,Air,,\"Nine of Swords, cruelty.\",\nTen-Swords,Ten_Swords.jpg,Ruin,,,,,,Swords,,,10,Air,,\"Ten of Swords, ruin.\",\nKnight-Swords,Knight_Swords.jpg,,,,,,,Swords,,,,Air,Earth,\"Knight of Swords.\",\nQueen-Swords,Queen_Swords.jpg,,,,,,,Swords,,,,Air,Earth,\"Queen of Swords.\",\nPrince-Swords,Prince_Swords.jpg,,,,,,,Swords,,,,Air,Earth,\"Prince of Swords.\",\nPrincess-Swords,Princess_Swords.jpg,,,,,,,Swords,,,,Air,Earth,\"Princess of Swords.\",\nAce-Disks,Ace_Disks.jpg,Root of Earth,,,,,,Disks,,,1,Earth,,\"Ace of Disks, root of earth.\",\nTwo-Disks,Two_Disks.jpg,Change,,,,,,Disks,,,2,Earth,,\"Two of Disks, change.\",\nThree-Disks,Three_Disks.jpg,Works,,,,,,Disks,,,3,Earth,,\"Three of Disks, works.\",\nFour-Disks,Four_Disks.jpg,Power,,,,,,Disks,,,4,Earth,,\"Four of Disks, power.\",\nFive-Disks,Five_Disks.jpg,Worry,,,,,,Disks,,,5,Earth,,\"Five of Disks, worry.\",\nSix-Disks,Six_Disks.jpg,Success,,,,,,Disks,,,6,Earth,,\"Six of Disks, success.\",\nSeven-Disks,Seven_Disks.jpg,Failure,,,,,,Disks,,,7,Earth,,\"Seven of Disks, failure.\",\nEight-Disks,Eight_Disks.jpg,Prudence,,,,,,Disks,,,8,Earth,,\"Eight of Disks, prudence.\",\nNine-Disks,Nine_Disks.jpg,Gain,,,,,,Disks,,,9,Earth,,\"Nine of Disks, gain.\",\nTen-Disks,Ten_Disks.jpg,Wealth,,,,,,Disks,,,10,Earth,,\"Ten of Disks, wealth.\",\nKnight-Disks,Knight_Disks.jpg,,,,,,,Disks,,,,Earth,Earth,\"Knight of Disks.\",\nQueen-Disks,Queen_Disks.jpg,,,,,,,Disks,,,,Earth,Earth,\"Queen of Disks.\",\nPrince-Disks,Prince_Disks.jpg,,,,,,,Disks,,,,Earth,Earth,\"Prince of Disks.\",\nPrincess-Disks,Princess_Disks.jpg,,,,,,,Disks,,,,Earth,Earth,\"Princess of Disks.\",";

fn deck() -> CardRepository {
    load_cards_from_csv(DECK)
}

fn bare_card(name: &str, title: Option<&str>) -> TarotCard {
    TarotCard {
        card: name.to_string(),
        image: format!("{}.png", name),
        title: title.map(|t| t.to_string()),
        planet_orb: None,
        planet_house: None,
        sign_1: None,
        sign_2: None,
        sign_3: None,
        suit_1: None,
        suit_2: None,
        path: None,
        sephira: None,
        element_1: None,
        element_2: None,
        info: None,
        deepinfo: None,
    }
}

#[test]
fn test_normalize_card_name() {
    assert_eq!(normalize_card_name("The Fool"), "fool");
    assert_eq!(normalize_card_name("Six of Swords"), "sixofswords");
    assert_eq!(normalize_card_name("Knight_of_Cups"), "knightofcups");
}

#[test]
fn test_find_card() {
    let repo = deck();
    assert!(find_card(&repo, "fool").is_some());
    assert!(find_card(&repo, "The Fool").is_some());
    assert!(find_card(&repo, "six swords").is_some());
    assert!(find_card(&repo, "6 swords").is_none()); // Number not in name
}

#[test]
fn test_card_counts() {
    let repo = deck();
    assert_eq!(repo.len(), 78);
    assert_eq!(get_major_arcana(&repo).len(), 22);
    assert_eq!(get_minor_arcana(&repo).len(), 56);
}

#[test]
fn normalize_strips_article_and_separators() {
    assert_eq!(normalize_card_name("fool"), "fool");
    assert_eq!(normalize_card_name("THE HANGED-MAN"), "hangedman");
    assert_eq!(normalize_card_name("Breathe In"), "breain");
    assert_eq!(normalize_card_name(""), "");
    assert_eq!(normalize_card_name("the the "), "");
}

#[test]
fn fool_query_and_article_resolve_to_same_card() {
    let repo = deck();
    let a = find_card(&repo, "fool").unwrap();
    let b = find_card(&repo, "The Fool").unwrap();
    assert_eq!(a.card, "The Fool");
    assert_eq!(b.card, "The Fool");
}

#[test]
fn exact_title_match_finds_card() {
    let repo = deck();
    let c = find_card(&repo, "science").unwrap();
    assert_eq!(c.card, "Six-Swords");
    let c = find_card(&repo, "Magus of Power").unwrap();
    assert_eq!(c.card, "The Magus");
}

#[test]
fn six_of_swords_resolves_by_name_or_title() {
    let mut repo = CardRepository::new();
    repo.insert(bare_card("The Fool", None));
    repo.insert(bare_card("Six of Swords", Some("Science")));
    repo.insert(bare_card("Two of Swords", Some("Peace")));
    assert_eq!(find_card(&repo, "six of swords").unwrap().card, "Six of Swords");
    assert_eq!(find_card(&repo, "Science").unwrap().card, "Six of Swords");
    assert_eq!(find_card(&repo, "fool").unwrap().card, "The Fool");
    assert!(find_card(&repo, "6 swords").is_none());
}

#[test]
fn name_match_wins_over_title_match() {
    let mut repo = CardRepository::new();
    repo.insert(bare_card("Alpha", Some("Beta")));
    repo.insert(bare_card("Beta", None));
    assert_eq!(find_card(&repo, "beta").unwrap().card, "Beta");
}

#[test]
fn partial_match_takes_first_in_table_order() {
    let mut repo = CardRepository::new();
    repo.insert(bare_card("Knight of Cups", None));
    repo.insert(bare_card("Knight of Wands", None));
    assert_eq!(find_card(&repo, "knight").unwrap().card, "Knight of Cups");
    assert_eq!(find_card(&repo, "Knight of Wands please").unwrap().card, "Knight of Wands");
    assert!(find_card(&repo, "queen").is_none());
}

#[test]
fn insert_replaces_card_with_same_key() {
    let mut repo = CardRepository::new();
    repo.insert(bare_card("The Fool", None));
    repo.insert(bare_card("Magus", None));
    repo.insert(bare_card("fool", Some("Zero")));
    assert_eq!(repo.len(), 2);
    assert_eq!(repo.get(0).card, "fool");
    assert_eq!(repo.get(1).card, "Magus");
}

#[test]
fn cards_by_suit_ignore_case() {
    let repo = deck();
    assert_eq!(get_cards_by_suit(&repo, "swords").len(), 14);
    assert_eq!(get_cards_by_suit(&repo, "CUPS").len(), 14);
    assert_eq!(get_cards_by_suit(&repo, "stones").len(), 0);
    assert_eq!(get_all_cards(&repo).len(), 78);
}

#[test]
fn major_arcana_have_no_suit() {
    let repo = deck();
    for c in get_major_arcana(&repo) {
        assert!(c.suit_1.is_none() && c.suit_2.is_none());
    }
    for c in get_minor_arcana(&repo) {
        assert!(c.suit_1.is_some() || c.suit_2.is_some());
    }
}

#[test]
fn display_name_and_search_key() {
    let repo = deck();
    let c = find_card(&repo, "fool").unwrap();
    assert_eq!(c.display_name(), "The Fool (Spirit of Aethyr)");
    assert_eq!(c.search_key(), "fool");
    let k = find_card(&repo, "knight wands").unwrap();
    assert_eq!(k.display_name(), "Knight-Wands");
    let mut empty_title = bare_card("Star", Some(""));
    assert_eq!(empty_title.display_name(), "Star");
    empty_title.title = None;
    assert_eq!(empty_title.display_name(), "Star");
}

#[test]
fn image_path_joins_deck_directory() {
    let repo = deck();
    let c = find_card(&repo, "fool").unwrap();
    assert_eq!(c.image_path("/decks/thoth"), "/decks/thoth/Fool.jpg");
    assert_eq!(c.image_path("/decks/thoth/"), "/decks/thoth/Fool.jpg");
}

#[test]
fn key_of_lowered_text() {
    assert_eq!(key_of_lowered("the fool"), "fool");
    assert_eq!(key_of_lowered("The Fool"), "TheFool");
    assert_eq!(key_of_lowered("knight_of-cups"), "knightofcups");
}

#[test]
fn paths_join_like_unix_paths() {
    assert_eq!(join_path("deck", "fool.jpg"), "deck/fool.jpg");
    assert_eq!(join_path("deck/", "fool.jpg"), "deck/fool.jpg");
    assert_eq!(join_path("", "fool.jpg"), "fool.jpg");
    assert_eq!(join_path("deck", "/abs/fool.jpg"), "/abs/fool.jpg");
    for (d, f) in [("a/b", "c"), ("/", "x"), ("a//", "b/c"), ("", "")] {
        let std_join = std::path::Path::new(d).join(f).to_string_lossy().to_string();
        assert_eq!(join_path(d, f), std_join);
    }
}
