use raffle::input::classify_flag;
use raffle::input::parse_flag;
use raffle::input::parse_seed;
use raffle::input::InputError;

#[test]
fn seed_is_read_as_hexadecimal() {
    assert_eq!(parse_seed("1"), Ok(1));
    assert_eq!(parse_seed("0"), Ok(0));
    assert_eq!(parse_seed("10"), Ok(16));
    assert_eq!(parse_seed("ff"), Ok(255));
    assert_eq!(parse_seed("FF"), Ok(255));
    assert_eq!(parse_seed("dEadBeeF"), Ok(0xdead_beef));
    assert_eq!(parse_seed("0000000000000000000001"), Ok(1));
}

#[test]
fn seed_may_carry_a_plus_sign() {
    assert_eq!(parse_seed("+10"), Ok(16));
    assert_eq!(parse_seed("+"), Err(InputError::BadSeed));
    assert_eq!(parse_seed("++1"), Err(InputError::BadSeed));
}

#[test]
fn seed_fills_sixty_four_bits_at_most() {
    assert_eq!(parse_seed("ffffffffffffffff"), Ok(u64::MAX));
    assert_eq!(parse_seed("10000000000000000"), Err(InputError::BadSeed));
}

#[test]
fn seed_with_anything_but_digits_is_refused() {
    for text in ["", " ", "0x10", "-1", "1 ", " 1", "1_0", "g", "12h", "é"] {
        assert_eq!(parse_seed(text), Err(InputError::BadSeed), "{:?}", text);
    }
}

#[test]
fn truthy_words_read_as_true() {
    for text in ["t", "true", "1", "on", "y", "yes"] {
        assert_eq!(parse_flag(text), Ok(true), "{:?}", text);
        assert_eq!(classify_flag(text), Some(true), "{:?}", text);
    }
}

#[test]
fn falsey_words_read_as_false() {
    for text in ["f", "false", "0", "off", "n", "no"] {
        assert_eq!(parse_flag(text), Ok(false), "{:?}", text);
        assert_eq!(classify_flag(text), Some(false), "{:?}", text);
    }
}

#[test]
fn flags_are_read_in_any_case() {
    assert_eq!(parse_flag("TRUE"), Ok(true));
    assert_eq!(parse_flag("Yes"), Ok(true));
    assert_eq!(parse_flag("oN"), Ok(true));
    assert_eq!(parse_flag("FALSE"), Ok(false));
    assert_eq!(parse_flag("Off"), Ok(false));
    assert_eq!(parse_flag("N"), Ok(false));
}

#[test]
fn classifying_takes_the_word_as_it_stands() {
    assert_eq!(classify_flag("TRUE"), None);
    assert_eq!(classify_flag("No"), None);
    assert_eq!(classify_flag(""), None);
}

#[test]
fn other_words_are_refused_and_named_in_lower_case() {
    assert_eq!(parse_flag("Maybe"), Err(InputError::BadFlag("maybe".to_string())));
    assert_eq!(parse_flag(""), Err(InputError::BadFlag(String::new())));
    assert_eq!(parse_flag(" true"), Err(InputError::BadFlag(" true".to_string())));
    assert_eq!(parse_flag("2"), Err(InputError::BadFlag("2".to_string())));
    assert_eq!(parse_flag("YESS"), Err(InputError::BadFlag("yess".to_string())));
}
