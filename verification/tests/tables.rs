use graph_centrality::frequency::logic;
use graph_centrality::fruit_list::{insert_at, remove_from, salad_line};
use graph_centrality::key_val::{parse_key_val, parse_number, KeyValError};
use graph_centrality::languages::{calculate_weights, init_languages, Languages, Standing};
use std::collections::VecDeque;

fn list_of(items: &[&str]) -> VecDeque<String> {
    items.iter().map(|s| s.to_string()).collect()
}

#[test]
fn frequencies_of_numbers() {
    let mut result = logic(&vec![1, 2, 3, 4, 5, 6, 7, 8, 9, 1, 3]);
    result.sort();
    assert_eq!(
        result,
        vec![(1, 2), (2, 1), (3, 2), (4, 1), (5, 1), (6, 1), (7, 1), (8, 1), (9, 1)]
    );
}

#[test]
fn frequencies_of_words() {
    let words: Vec<&str> = "That that is is that that is not".split_whitespace().collect();
    let mut result = logic(&words);
    result.sort();
    assert_eq!(result, vec![("That", 1), ("is", 3), ("not", 1), ("that", 3)]);
}

#[test]
fn frequencies_of_nothing() {
    assert_eq!(logic(&Vec::<i32>::new()), vec![]);
}

#[test]
fn key_and_value_are_split_at_the_first_comma() {
    assert_eq!(parse_key_val("Python,1991"), Ok(("Python".to_string(), 1991)));
    assert_eq!(parse_key_val(",7"), Ok(("".to_string(), 7)));
    assert_eq!(parse_key_val("C++,+1985"), Ok(("C++".to_string(), 1985)));
    assert_eq!(parse_key_val("a,b,3"), Err(KeyValError::InvalidNumber));
    assert_eq!(parse_key_val("Grüße,0012"), Ok(("Grüße".to_string(), 12)));
}

#[test]
fn a_text_without_comma_is_no_pair() {
    assert_eq!(parse_key_val("Python 1991"), Err(KeyValError::MissingComma));
    assert_eq!(parse_key_val(""), Err(KeyValError::MissingComma));
}

#[test]
fn a_value_that_is_no_number_is_refused() {
    assert_eq!(parse_key_val("Python,"), Err(KeyValError::InvalidNumber));
    assert_eq!(parse_key_val("Python,19x1"), Err(KeyValError::InvalidNumber));
    assert_eq!(parse_key_val("Python, 1991"), Err(KeyValError::InvalidNumber));
    assert_eq!(parse_key_val("Python,-1"), Err(KeyValError::InvalidNumber));
    assert_eq!(parse_key_val("Python,4294967296"), Err(KeyValError::InvalidNumber));
    assert_eq!(parse_key_val("Python,4294967295"), Ok(("Python".to_string(), u32::MAX)));
}

#[test]
fn numbers_are_read_as_std_reads_them() {
    for text in [
        "0", "7", "+7", "007", "4294967295", "4294967296", "42949672950", "99999999999999999999",
        "", "+", "-", "-0", "+-1", "++1", "1+", " 1", "1 ", "1_000", "0x10", "١٢٣", "12a",
        "000000000000000000000000001",
    ] {
        assert_eq!(parse_number(text), text.parse::<u32>().ok(), "for {:?}", text);
    }
}

#[test]
fn the_first_languages() {
    let languages = init_languages();
    assert_eq!(languages.len(), 14);
    assert_eq!(languages.name(0), "JavaScript");
    assert_eq!(languages.value(0), 1995);
    assert_eq!(languages.name(13), "Rust");
    assert_eq!(languages.get("Rust"), Some(2010));
    assert_eq!(languages.get("C"), Some(1972));
    assert_eq!(languages.get("C++"), Some(1985));
    assert_eq!(languages.get("HTML/CSS"), Some(1990));
    assert_eq!(languages.get("Python"), Some(1991));
    assert_eq!(languages.get("SQL"), Some(1974));
    assert_eq!(languages.get("TypeScript"), Some(2012));
    assert_eq!(languages.get("Bash/Shell"), Some(1989));
    assert_eq!(languages.get("Java"), Some(1995));
    assert_eq!(languages.get("C#"), Some(2000));
    assert_eq!(languages.get("PHP"), Some(1995));
    assert_eq!(languages.get("PowerShell"), Some(2006));
    assert_eq!(languages.get("Go"), Some(2007));
    assert_eq!(languages.get("Zig"), None);
}

#[test]
fn a_name_is_held_once() {
    let mut languages = Languages::new();
    languages.insert("Rust".to_string(), 2010);
    languages.insert("Go".to_string(), 2007);
    languages.insert("Rust".to_string(), 2015);
    assert_eq!(languages.len(), 2);
    assert_eq!(languages.get("Rust"), Some(2015));
    languages.set_value(1, 2009);
    assert_eq!(languages.get("Go"), Some(2009));
    assert_eq!(languages.value(1), 2009);
    assert_eq!(languages.name(0), "Rust");
    assert_eq!(languages.position("Go"), Some(1));
    assert_eq!(languages.position("C"), None);
}

#[test]
fn weights_of_the_first_languages() {
    let mut languages = init_languages();
    let standings = calculate_weights(&mut languages);
    assert_eq!(languages.get("Rust"), Some(14));
    assert_eq!(languages.get("C"), Some(52));
    assert_eq!(languages.get("TypeScript"), Some(12));
    assert_eq!(standings.len(), 14);
    assert_eq!(
        standings[0],
        Standing { name: "JavaScript".to_string(), above_youngest: 17, age_range: 40 }
    );
    assert_eq!(
        standings[4],
        Standing { name: "TypeScript".to_string(), above_youngest: 0, age_range: 40 }
    );
    assert_eq!(standings[9], Standing { name: "C".to_string(), above_youngest: 40, age_range: 40 });
    let weights: Vec<i32> = standings
        .iter()
        .map(|s| ((s.above_youngest as f64 / s.age_range as f64) * 99.0) as i32 + 1)
        .collect();
    assert_eq!(weights, vec![43, 55, 52, 95, 1, 57, 43, 30, 67, 100, 43, 15, 13, 5]);
}

#[test]
fn weights_of_one_language() {
    let mut languages = Languages::new();
    languages.insert("Rust".to_string(), 2010);
    let standings = calculate_weights(&mut languages);
    assert_eq!(
        standings,
        vec![Standing { name: "Rust".to_string(), above_youngest: 0, age_range: 0 }]
    );
    assert_eq!(languages.get("Rust"), Some(14));
}

#[test]
fn weights_of_no_language() {
    let mut languages = Languages::new();
    assert_eq!(calculate_weights(&mut languages), vec![]);
    assert_eq!(languages.len(), 0);
}

#[test]
fn weights_reach_over_the_whole_range_of_years() {
    let mut languages = Languages::new();
    languages.insert("Old".to_string(), 2024 - i32::MAX);
    languages.insert("New".to_string(), i32::MAX);
    let standings = calculate_weights(&mut languages);
    assert_eq!(languages.get("Old"), Some(i32::MAX));
    assert_eq!(languages.get("New"), Some(2024 - i32::MAX));
    assert_eq!(standings[0].above_youngest, 4_294_965_270);
    assert_eq!(standings[0].age_range, 4_294_965_270);
    assert_eq!(standings[1].above_youngest, 0);
}

#[test]
fn a_fruit_goes_in_at_its_place() {
    let mut list = list_of(&["Fig", "Pear", "Plum"]);
    insert_at(&mut list, 1, "Kiwi".to_string());
    assert_eq!(list, list_of(&["Fig", "Kiwi", "Pear", "Plum"]));
    insert_at(&mut list, 0, "Lime".to_string());
    assert_eq!(list, list_of(&["Lime", "Fig", "Kiwi", "Pear", "Plum"]));
    insert_at(&mut list, 5, "Date".to_string());
    assert_eq!(list, list_of(&["Lime", "Fig", "Kiwi", "Pear", "Plum", "Date"]));
}

#[test]
fn a_fruit_comes_out_of_its_place() {
    let mut list = list_of(&["Fig", "Pear", "Plum"]);
    remove_from(&mut list, 1);
    assert_eq!(list, list_of(&["Fig", "Plum"]));
    remove_from(&mut list, 1);
    assert_eq!(list, list_of(&["Fig"]));
    remove_from(&mut list, 0);
    assert_eq!(list, list_of(&[]));
}

#[test]
fn a_salad_on_one_line() {
    assert_eq!(salad_line(&list_of(&["Fig", "Pear", "Plum"])), "Fig, Pear, Plum");
    assert_eq!(salad_line(&list_of(&["Fig"])), "Fig");
    assert_eq!(salad_line(&list_of(&[])), "");
}
