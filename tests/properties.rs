use vigenere::alphabet::{byte_to_char, is_alphabetic, transform_byte};
use vigenere::{ConfigError, KeySource, Mode, VigenereBuilder};

fn run(mode: Mode, key: &str, text: &str) -> String {
    let wants = VigenereBuilder::build().with_key_string(key).unwrap();
    match mode {
        Mode::Encrypt => wants.encrypt().with_text_string(text).collect(),
        Mode::Decrypt => wants.decrypt().with_text_string(text).collect(),
    }
}

#[test]
fn empty_key_string_is_refused() {
    let r = VigenereBuilder::build().with_key_string("");
    assert!(matches!(r, Err(ConfigError::EmptyKey)));
}

#[test]
fn empty_key_bytes_are_refused() {
    let r = VigenereBuilder::build().with_key_bytes(Vec::new());
    assert!(matches!(r, Err(ConfigError::EmptyKey)));
    assert!(matches!(KeySource::from_bytes(Vec::new()), Err(ConfigError::EmptyKey)));
    assert!(matches!(KeySource::from_string(""), Err(ConfigError::EmptyKey)));
}

#[test]
fn one_byte_key_is_accepted() {
    assert!(VigenereBuilder::build().with_key_string("a").is_ok());
    assert!(VigenereBuilder::build().with_key_bytes(vec![0u8]).is_ok());
}

#[test]
fn key_of_a_leaves_text_unchanged() {
    let text = "Attack at Dawn!";
    assert_eq!(run(Mode::Encrypt, "AAAA", text), text);
    assert_eq!(run(Mode::Decrypt, "AAAA", text), text);
}

#[test]
fn mixed_case_pattern_is_kept() {
    assert_eq!(run(Mode::Encrypt, "key", "HeLLo"), "RiJVs");
    assert_eq!(run(Mode::Decrypt, "key", "RiJVs"), "HeLLo");
}

#[test]
fn key_case_does_not_matter() {
    assert_eq!(run(Mode::Encrypt, "KEY", "HeLLo"), run(Mode::Encrypt, "kEy", "HeLLo"));
}

#[test]
fn key_cycles_over_letters() {
    assert_eq!(run(Mode::Encrypt, "abc", "aaaaaaa"), "abcabca");
}

#[test]
fn non_letters_spend_no_key() {
    assert_eq!(run(Mode::Encrypt, "ab", "a,b c"), "a,c c");
    assert_eq!(run(Mode::Encrypt, "MrRobot", "12 -- !?"), "12 -- !?");
}

#[test]
fn decryption_wraps_below_a() {
    assert_eq!(run(Mode::Decrypt, "b", "a"), "z");
    assert_eq!(run(Mode::Encrypt, "Z", "zZ"), "yY");
}

#[test]
fn key_byte_outside_alphabet_shifts_by_its_code() {
    assert_eq!(run(Mode::Encrypt, "1", "abc"), "klm");
    assert_eq!(run(Mode::Decrypt, "1", "klm"), "abc");
}

#[test]
fn round_trip_on_mixed_text() {
    let text = "The quick brown Fox, 42 times; jumps over the LAZY dog.";
    for key in ["MrRobot", "k", "Lemon", "x1y2"] {
        let enc = run(Mode::Encrypt, key, text);
        assert_ne!(enc, text);
        assert_eq!(run(Mode::Decrypt, key, &enc), text);
    }
}

#[test]
fn empty_text_yields_nothing() {
    assert_eq!(run(Mode::Encrypt, "MrRobot", ""), "");
    let mut engine = VigenereBuilder::build()
        .with_key_string("MrRobot")
        .unwrap()
        .encrypt()
        .with_text_string("");
    assert_eq!(engine.next(), None);
}

#[test]
fn next_pulls_one_character_at_a_time() {
    let mut engine = VigenereBuilder::build()
        .with_key_string("MrRobot")
        .unwrap()
        .encrypt()
        .with_text_string("He,l");
    assert_eq!(engine.next(), Some('T'));
    assert_eq!(engine.next(), Some('v'));
    assert_eq!(engine.next(), Some(','));
    assert_eq!(engine.next(), Some('c'));
    assert_eq!(engine.next(), None);
    assert_eq!(engine.next(), None);
}

#[test]
fn each_mode_starts_from_the_first_key_byte() {
    let wants = VigenereBuilder::build().with_key_string("MrRobot").unwrap();
    let mut first = wants.encrypt().with_text_string("Hel");
    assert_eq!(first.next(), Some('T'));
    let second: String = wants.encrypt().with_text_string("Hello, Friend").collect();
    assert_eq!(second, "Tvczp, Tkuver");
}

#[test]
fn text_bytes_and_text_string_agree() {
    let wants = VigenereBuilder::build().with_key_string("MrRobot").unwrap();
    let from_bytes: String = wants.encrypt().with_text_bytes(b"Hello, Friend".to_vec()).collect();
    let from_string: String = wants.encrypt().with_text_string("Hello, Friend").collect();
    assert_eq!(from_bytes, "Tvczp, Tkuver");
    assert_eq!(from_bytes, from_string);
}

#[test]
fn transformer_keeps_cursor_on_non_letters() {
    let wants = VigenereBuilder::build().with_key_bytes(b"bc".to_vec()).unwrap();
    let mut shift = wants.encrypt().into_transformer();
    assert_eq!(shift.apply(b'a'), b'b');
    assert_eq!(shift.apply(b' '), b' ');
    assert_eq!(shift.apply(b'a'), b'c');
    assert_eq!(shift.apply(b'a'), b'b');
}

#[test]
fn key_source_cycles_and_restarts() {
    let mut ks = KeySource::from_string("ab").unwrap();
    assert_eq!(ks.next_byte(), b'a');
    assert_eq!(ks.next_byte(), b'b');
    assert_eq!(ks.next_byte(), b'a');
    let mut fresh = ks.restart();
    assert_eq!(fresh.next_byte(), b'a');
    assert_eq!(ks.next_byte(), b'b');
}

#[test]
fn single_byte_shifts() {
    assert_eq!(transform_byte(Mode::Encrypt, b'H', b'M'), b'T');
    assert_eq!(transform_byte(Mode::Encrypt, b'h', b'm'), b't');
    assert_eq!(transform_byte(Mode::Decrypt, b't', b'R'), b'c');
    assert_eq!(transform_byte(Mode::Decrypt, b'A', b'Z'), b'B');
    assert_eq!(transform_byte(Mode::Encrypt, b',', b'Z'), b',');
    assert_eq!(transform_byte(Mode::Encrypt, 0xC3, b'Z'), 0xC3);
    assert!(is_alphabetic(b'a') && is_alphabetic(b'Z'));
    assert!(!is_alphabetic(b'@') && !is_alphabetic(b'[') && !is_alphabetic(b'`') && !is_alphabetic(b'{'));
    assert_eq!(byte_to_char(b'x'), 'x');
}
