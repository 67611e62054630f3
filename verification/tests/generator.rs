use std::collections::HashSet;

use zip_cracker::alphabet::charset;
use zip_cracker::generator::generate_passwords;
use zip_cracker::product::multi_cartesian_product;

#[test]
fn charset_holds_the_62_symbols_in_order() {
    let symbols = charset();
    assert_eq!(symbols.len(), 62);
    let expected: Vec<char> = ('a'..='z').chain('A'..='Z').chain('0'..='9').collect();
    assert_eq!(symbols, expected);
}

#[test]
fn product_of_two_lists_nests_symbol_positions() {
    let input = vec![vec!['a', 'b'], vec!['x', 'y']];
    let result = multi_cartesian_product(&input);
    assert_eq!(
        result,
        vec![
            vec!['a', 'x'],
            vec!['b', 'x'],
            vec!['a', 'y'],
            vec!['b', 'y'],
        ]
    );
}

#[test]
fn product_of_no_lists_is_the_empty_combination() {
    let input: Vec<Vec<char>> = Vec::new();
    let result = multi_cartesian_product(&input);
    assert_eq!(result, vec![Vec::<char>::new()]);
}

#[test]
fn length_one_yields_each_symbol_once() {
    let words = generate_passwords(1);
    assert_eq!(words.len(), 62);
    let distinct: HashSet<&String> = words.iter().collect();
    assert_eq!(distinct.len(), 62);
    assert!(words.contains(&String::from("a")));
    assert!(words.contains(&String::from("Z")));
    assert!(words.contains(&String::from("9")));
}

#[test]
fn length_two_yields_exactly_3844_distinct_words() {
    let words = generate_passwords(2);
    assert_eq!(words.len(), 3844);
    let distinct: HashSet<&String> = words.iter().collect();
    assert_eq!(distinct.len(), 3844);
}

#[test]
fn length_two_omits_no_word_over_the_alphabet() {
    let words: HashSet<String> = generate_passwords(2).into_iter().collect();
    let symbols: Vec<char> = ('a'..='z').chain('A'..='Z').chain('0'..='9').collect();
    for &c1 in &symbols {
        for &c2 in &symbols {
            let mut w = String::new();
            w.push(c1);
            w.push(c2);
            assert!(words.contains(&w), "missing word {}", w);
        }
    }
}

#[test]
fn every_generated_word_stays_within_the_alphabet() {
    let words = generate_passwords(2);
    for w in &words {
        assert_eq!(w.chars().count(), 2);
        for c in w.chars() {
            assert!(c.is_ascii_alphanumeric(), "stray symbol {:?}", c);
        }
    }
}

#[test]
fn first_word_of_each_length_is_all_a() {
    assert_eq!(generate_passwords(1)[0], "a");
    assert_eq!(generate_passwords(2)[0], "aa");
    assert_eq!(generate_passwords(3)[0], "aaa");
}
