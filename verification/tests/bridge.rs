use kolam_ikan::bridge::{
    answers, chars_of, extract_bridge_key, generate_bridge_key, is_key_character, is_space_char,
    key_from_picks, symbol, to_lower, validate_bridge_key,
};

fn extract(text: &str) -> Option<String> {
    extract_bridge_key(text.to_string())
}

fn validate(text: &str, key: &str) -> bool {
    validate_bridge_key(text.to_string(), key.to_string())
}

#[test]
fn extracts_the_key_in_lower_case() {
    assert_eq!(extract("Please see <!-- bridge: Ab12 -->"), Some("ab12".to_string()));
    assert_eq!(extract("...&lt;!--bridge:XY9Z--&gt;..."), Some("xy9z".to_string()));
}

#[test]
fn validates_without_regard_to_case() {
    assert!(validate("Please see <!-- bridge: Ab12 -->", "AB12"));
    assert!(validate("Please see <!-- bridge: Ab12 -->", "ab12"));
    assert!(!validate("Please see <!-- bridge: Ab12 -->", "ab13"));
    assert!(!validate("Please see <!-- bridge: Ab12 -->", "ab1"));
    assert!(!validate("Please see <!-- bridge: Ab12 -->", ""));
}

#[test]
fn no_marker_no_key() {
    for text in [
        "",
        "plain text",
        "<!-- bridge: -->",
        "<!-- bridge ab12 -->",
        "<!-- bridg: ab12 -->",
        "<!- bridge: ab12 -->",
        "<!-- bridge: ab12 ->",
        "<!-- bridge: ab12 --",
        "<!-- bridge: ab 12 -->",
        "<!-- bridge: ab_12 -->",
        "< !-- bridge: ab12 -->",
        "<! -- bridge: ab12 -->",
        "<!-- bridge: ab12 -- >",
        "&lt!-- bridge: ab12 -->",
        "<!-- bridge: ab12 --&gt",
        "!-- bridge: ab12 -->",
        "<!-- bridge: \u{e9}t\u{e9} -->",
        "<!--",
        "<",
        "&lt;",
    ] {
        assert_eq!(extract(text), None, "{:?}", text);
        assert!(!validate(text, "ab12"), "{:?}", text);
        assert!(!validate(text, ""), "{:?}", text);
    }
}

#[test]
fn marker_forms() {
    let some = |k: &str| Some(k.to_string());
    assert_eq!(extract("<!--bridge:a-->"), some("a"));
    assert_eq!(extract("<!--   bridge   :   q7   -->"), some("q7"));
    assert_eq!(extract("<!--\tbridge\n:\r\nZ\u{a0}-->"), some("z"));
    assert_eq!(extract("<!--\u{2003}bridge:\u{3000}k\u{2028}-->"), some("k"));
    assert_eq!(extract("&lt;!-- bridge: ab12 -->"), some("ab12"));
    assert_eq!(extract("<!-- bridge: ab12 --&gt;"), some("ab12"));
    assert_eq!(extract("&LT;!-- BRIDGE: AB12 --&GT;"), some("ab12"));
    assert_eq!(extract("<!-- Bridge: 0123456789abcdefXYZ -->"), some("0123456789abcdefxyz"));
    assert_eq!(extract("x<<!-- bridge: a1 -->>"), some("a1"));
    assert_eq!(extract("\u{1f41f} <!-- bridge: a1 --> \u{1f41f}"), some("a1"));
}

#[test]
fn the_first_marker_wins() {
    assert_eq!(
        extract("<!-- bridge: one1 --> and <!-- bridge: two2 -->"),
        Some("one1".to_string())
    );
    assert_eq!(
        extract("<!-- bridge: broken <!-- bridge: good --> <!-- bridge: late -->"),
        Some("good".to_string())
    );
    assert!(validate("<!-- bridge: one1 --> <!-- bridge: two2 -->", "ONE1"));
    assert!(!validate("<!-- bridge: one1 --> <!-- bridge: two2 -->", "two2"));
}

#[test]
fn a_key_in_a_marker_is_read_back() {
    for key in ["a", "Ab12", "0000", "zzzz9", "K"] {
        for before in ["", "no marker <!-- bridge: --> ", "<!-- bridge: x --", "&lt;!--bridge:", "<"] {
            for after in ["", " <!-- bridge: other -->", ">>", "--&gt;"] {
                let text = format!("{}<!-- bridge: {} -->{}", before, key, after);
                assert_eq!(extract(&text), Some(key.to_ascii_lowercase()), "{:?}", text);
                assert!(validate(&text, key), "{:?}", text);
            }
        }
    }
}

#[test]
fn answers_compares_the_found_key() {
    assert!(answers(&Some("ab12".to_string()), &"ab12".to_string()));
    assert!(!answers(&Some("ab12".to_string()), &"AB12".to_string()));
    assert!(!answers(&Some("ab12".to_string()), &"ab1".to_string()));
    assert!(!answers(&None, &"ab12".to_string()));
    assert!(!answers(&None, &"".to_string()));
}

#[test]
fn expected_key_is_lowered_as_unicode() {
    // the Kelvin sign has the letter k as its lower-case form
    assert!(validate("<!-- bridge: k -->", "\u{212a}"));
    assert!(validate("<!-- bridge: K -->", "k"));
    assert!(!validate("<!-- bridge: k -->", "\u{3ba}"));
}

#[test]
fn generated_keys_have_four_symbols() {
    let mut seen_letter = false;
    let mut seen_digit = false;
    for _ in 0..500 {
        let key = generate_bridge_key();
        assert_eq!(key.chars().count(), 4);
        assert_eq!(key.len(), 4);
        for c in key.chars() {
            assert!(c.is_ascii_lowercase() || c.is_ascii_digit(), "{:?}", key);
            seen_letter |= c.is_ascii_lowercase();
            seen_digit |= c.is_ascii_digit();
        }
        let text = format!("<!-- bridge: {} -->", key);
        assert_eq!(extract(&text), Some(key.clone()));
        assert!(validate(&text, &key));
        assert!(validate(&text, &key.to_uppercase()));
    }
    assert!(seen_letter && seen_digit);
}

#[test]
fn alphabet_has_thirty_six_symbols() {
    let all: String = (0..36).map(symbol).collect();
    assert_eq!(all, "abcdefghijklmnopqrstuvwxyz0123456789");
}

#[test]
fn character_classes() {
    for c in ['\t', '\n', '\u{b}', '\u{c}', '\r', ' ', '\u{85}', '\u{a0}', '\u{1680}', '\u{2000}',
        '\u{200a}', '\u{2028}', '\u{2029}', '\u{202f}', '\u{205f}', '\u{3000}']
    {
        assert!(is_space_char(c), "{:?}", c);
    }
    for c in ['a', '-', '\u{8}', '\u{e}', '\u{1f}', '\u{200b}', '\u{feff}', '\u{180e}'] {
        assert!(!is_space_char(c), "{:?}", c);
    }
    let mut code: u32 = 0;
    while code < 0x11000 {
        if let Some(c) = char::from_u32(code) {
            assert_eq!(is_space_char(c), c.is_whitespace(), "{:x}", code);
            assert_eq!(is_key_character(c), c.is_ascii_alphanumeric(), "{:x}", code);
            assert_eq!(to_lower(c), c.to_ascii_lowercase(), "{:x}", code);
        }
        code += 1;
    }
}

#[test]
fn chars_of_gives_every_character() {
    assert_eq!(chars_of(""), Vec::<char>::new());
    assert_eq!(chars_of("a\u{e9}\u{1f41f}z"), vec!['a', '\u{e9}', '\u{1f41f}', 'z']);
}

#[test]
fn a_key_is_made_of_the_drawn_symbols_in_order() {
    assert_eq!(key_from_picks(0, 1, 2, 3), "abcd");
    assert_eq!(key_from_picks(25, 26, 35, 0), "z09a");
    assert_eq!(key_from_picks(10, 10, 30, 30), "kk44");
    let text = format!("<!-- bridge: {} -->", key_from_picks(7, 34, 8, 27));
    assert_eq!(extract(&text).unwrap(), "h8i1");
}

#[test]
fn an_expected_key_of_letters_and_digits_is_compared_in_lower_case() {
    let pasted = "Please see <!-- bridge: Ab12 -->";
    for expected in ["AB12", "ab12", "aB12", "Ab12"] {
        assert!(validate(pasted, expected), "{}", expected);
    }
    for expected in ["AB13", "ab1", "ab123", "", " ab12"] {
        assert!(!validate(pasted, expected), "{:?}", expected);
    }
    for _ in 0..50 {
        let key = generate_bridge_key();
        let text = format!("before <!-- bridge: {} --> after", key);
        assert!(validate(&text, &key));
        assert!(validate(&text, &key.to_uppercase()));
    }
}
