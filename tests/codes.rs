use code_generator::codes::{random_letter, random_number, render_symbol, DIGIT_SYMBOL, LETTER_SYMBOL};
use code_generator::generate_code;
use code_generator::Arbiter;

const LETTERS: &str = "ACEFHKLMPRTWXY";
const DIGITS: &str = "34679";

fn check_rendering(code: &str, format: &str) {
    let code: Vec<char> = code.chars().collect();
    let format: Vec<char> = format.chars().collect();
    assert_eq!(code.len(), format.len());
    for (c, f) in code.iter().zip(format.iter()) {
        match *f {
            'B' => assert!(LETTERS.contains(*c), "{} is no letter of the alphabet", c),
            '1' => assert!(DIGITS.contains(*c), "{} is no digit of the alphabet", c),
            other => assert_eq!(*c, other),
        }
    }
}

#[test]
fn example_format_gives_five_distinct_codes() {
    let mut arbiter = Arbiter::new(5);
    let mut lines: Vec<String> = Vec::new();
    while !arbiter.is_complete() {
        if let Some(code) = arbiter.offer(generate_code("XX11BB11")) {
            lines.push(code);
        }
    }
    assert_eq!(lines.len(), 5);
    for line in &lines {
        assert_eq!(line.chars().count(), 8);
        assert!(line.starts_with("XX"));
        let chars: Vec<char> = line.chars().collect();
        assert!(DIGITS.contains(chars[2]) && DIGITS.contains(chars[3]));
        assert!(LETTERS.contains(chars[4]) && LETTERS.contains(chars[5]));
        assert!(DIGITS.contains(chars[6]) && DIGITS.contains(chars[7]));
    }
    for i in 0..lines.len() {
        for j in (i + 1)..lines.len() {
            assert_ne!(lines[i], lines[j]);
        }
    }
}

#[test]
fn every_position_follows_the_format() {
    for format in ["BB11BB11BB11", "ZZ111111", "a-B.1 é", "B", "1"] {
        for _ in 0..50 {
            check_rendering(&generate_code(format), format);
        }
    }
}

#[test]
fn placeholders_are_replaced() {
    // With only placeholders no character of the format can survive:
    // neither 'B' nor '1' belongs to its alphabet.
    for _ in 0..50 {
        let code = generate_code("BBBB1111");
        assert!(!code.contains('B'));
        assert!(!code.contains('1'));
    }
}

#[test]
fn literal_format_is_kept() {
    assert_eq!(generate_code("XYZ-000"), "XYZ-000");
    assert_eq!(generate_code(""), "");
}

#[test]
fn draws_come_from_the_alphabets() {
    let mut rng = rand::thread_rng();
    for _ in 0..200 {
        assert!(LETTERS.contains(random_letter(&mut rng)));
        assert!(DIGITS.contains(random_number(&mut rng)));
    }
}

#[test]
fn render_symbol_by_kind() {
    let mut rng = rand::thread_rng();
    assert!(LETTERS.contains(render_symbol(&mut rng, LETTER_SYMBOL)));
    assert!(DIGITS.contains(render_symbol(&mut rng, DIGIT_SYMBOL)));
    assert_eq!(render_symbol(&mut rng, 'Q'), 'Q');
}

#[test]
fn every_letter_and_digit_is_drawn() {
    let mut rng = rand::thread_rng();
    let mut seen_letters: Vec<char> = Vec::new();
    let mut seen_digits: Vec<char> = Vec::new();
    for _ in 0..2000 {
        let l = random_letter(&mut rng);
        if !seen_letters.contains(&l) {
            seen_letters.push(l);
        }
        let d = random_number(&mut rng);
        if !seen_digits.contains(&d) {
            seen_digits.push(d);
        }
    }
    assert_eq!(seen_letters.len(), LETTERS.len());
    assert_eq!(seen_digits.len(), DIGITS.len());
}
