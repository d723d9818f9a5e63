use molecule::digits::parse_count;
use molecule::formula::{tokenize, Token};
use molecule::table::is_symbol_text;
use molecule::{Isotope, Table};

fn token(symbol: &str, digits: &str) -> Token {
    Token { symbol: symbol.to_string(), digits: digits.to_string() }
}

#[test]
fn tokens_of_the_worked_example() {
    assert_eq!(
        tokenize("C2H5OH"),
        vec![token("C", "2"), token("H", "5"), token("O", ""), token("H", "")]
    );
}

#[test]
fn tokens_agree_with_the_pattern() {
    let pattern = regex::Regex::new("([A-Z][a-z]*)([0-9]*)").unwrap();
    let texts = [
        "",
        "C2H5OH",
        "H6C2O",
        "CCl4",
        "NaCl",
        "c2h5oh",
        "2C",
        "C 2",
        "C-2H",
        "Uue119Xx",
        "ABCdefGhi012jkl345",
        "H007O0",
        "C99999999999999999999999999",
        "  Fe2 (SO4)3 ",
        "ÉaC2é3Ωb",
        "C٣H",
        "aZz9Z",
    ];
    for text in texts {
        let expected: Vec<Token> = pattern
            .captures_iter(text)
            .map(|found| token(&found[1], &found[2]))
            .collect();
        assert_eq!(tokenize(text), expected, "tokens of {:?}", text);
    }
}

#[test]
fn tokens_agree_with_the_pattern_on_many_texts() {
    let pattern = regex::Regex::new("([A-Z][a-z]*)([0-9]*)").unwrap();
    let alphabet: Vec<char> = "ACHOZaceloz0159 -(é٣".chars().collect();
    let mut state: u64 = 0x2545_f491_4f6c_dd1d;
    for _ in 0..4000 {
        let mut text = String::new();
        state = state.wrapping_mul(6364136223846793005).wrapping_add(1442695040888963407);
        let length = (state >> 33) % 12;
        for _ in 0..length {
            state = state.wrapping_mul(6364136223846793005).wrapping_add(1442695040888963407);
            text.push(alphabet[((state >> 33) % alphabet.len() as u64) as usize]);
        }
        let expected: Vec<Token> = pattern
            .captures_iter(&text)
            .map(|found| token(&found[1], &found[2]))
            .collect();
        assert_eq!(tokenize(&text), expected, "tokens of {:?}", text);
    }
}

#[test]
fn token_counts() {
    assert_eq!(token("H", "").count(), Some(1));
    assert_eq!(token("H", "1").count(), Some(1));
    assert_eq!(token("H", "12").count(), Some(12));
    assert_eq!(token("H", "0012").count(), Some(12));
    assert_eq!(token("H", "0").count(), None);
    assert_eq!(token("H", "00").count(), None);
}

#[test]
fn counts_are_read_exactly() {
    assert_eq!(parse_count(""), None);
    assert_eq!(parse_count("7"), Some(7));
    assert_eq!(parse_count("1234567890"), Some(1234567890));
    assert_eq!(parse_count("0"), None);
    assert_eq!(parse_count("12a"), None);
    assert_eq!(parse_count("+12"), None);
    assert_eq!(parse_count("-1"), None);
    assert_eq!(parse_count("١٢"), None);
    let max = usize::MAX.to_string();
    assert_eq!(parse_count(&max), Some(usize::MAX));
    let mut beyond = max.clone();
    let last = beyond.pop().unwrap();
    beyond.push(char::from_digit(last.to_digit(10).unwrap() + 1, 10).unwrap());
    assert_eq!(parse_count(&beyond), None);
    assert_eq!(parse_count(&format!("{}0", max)), None);
    assert_eq!(parse_count(&format!("000{}", max)), Some(usize::MAX));
}

#[test]
fn shape_of_a_symbol() {
    assert!(is_symbol_text("H"));
    assert!(is_symbol_text("Cl"));
    assert!(is_symbol_text("Uue"));
    assert!(!is_symbol_text(""));
    assert!(!is_symbol_text("h"));
    assert!(!is_symbol_text("CL"));
    assert!(!is_symbol_text("C2"));
    assert!(!is_symbol_text("Cl "));
    assert!(!is_symbol_text("Éa"));
}

#[test]
fn table_rows() {
    let mut table = Table::new();
    assert_eq!(table.len(), 0);
    assert_eq!(table.lookup("H"), None);
    assert!(table.insert("H", Isotope::new(1, 1)));
    assert!(table.insert("D", Isotope::new(1, 2)));
    assert!(table.insert("He", Isotope::new(2, 4)));
    assert!(!table.insert("H", Isotope::new(1, 3)));
    assert!(!table.insert("he", Isotope::new(2, 3)));
    assert!(!table.insert("", Isotope::new(2, 3)));
    assert!(table.insert("Hy", Isotope::new(1, 1)));
    assert_eq!(table.len(), 4);
    assert_eq!(table.lookup("H"), Some(Isotope::new(1, 1)));
    assert_eq!(table.lookup("D"), Some(Isotope::new(1, 2)));
    assert_eq!(table.lookup("He"), Some(Isotope::new(2, 4)));
    assert_eq!(table.lookup("Hy"), Some(Isotope::new(1, 1)));
    assert_eq!(table.lookup("h"), None);
    assert_eq!(table.lookup("Li"), None);
    assert_eq!(table.symbol(Isotope::new(1, 1)).map(|s| s.as_str()), Some("H"));
    assert_eq!(table.symbol(Isotope::new(2, 4)).map(|s| s.as_str()), Some("He"));
    assert_eq!(table.symbol(Isotope::new(1, 3)), None);
}

#[test]
fn isotope_keys() {
    let carbon = Isotope::new(6, 12);
    assert_eq!(carbon.to_key(), 6 * 65536 + 12);
    assert_eq!(Isotope::from_key(carbon.to_key()), carbon);
    assert_eq!(Isotope::from_key(u32::MAX), Isotope::new(u16::MAX, u16::MAX));
    assert_eq!(Isotope::new(u16::MAX, u16::MAX).to_key(), u32::MAX);
    assert_eq!(Isotope::from_key(0), Isotope::new(0, 0));
    assert_eq!(Isotope::h(), Isotope::new(1, 1));
    assert_eq!(Isotope::c(), Isotope::new(6, 12));
    assert!(Isotope::h().precedes(&Isotope::c()));
    assert!(Isotope::new(6, 12).precedes(&Isotope::new(6, 13)));
    assert!(!Isotope::new(6, 13).precedes(&Isotope::new(6, 12)));
    assert!(!Isotope::c().precedes(&Isotope::c()));
    assert!(Isotope::h() < Isotope::c());
}
