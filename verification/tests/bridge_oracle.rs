use kolam_ikan::bridge::extract_bridge_key;
use regex::Regex;

fn by_pattern(pattern: &Regex, text: &str) -> Option<String> {
    pattern.captures(text).and_then(|c| c.get(1)).map(|m| m.as_str().to_lowercase())
}

fn pattern() -> Regex {
    Regex::new(
        r#"(?:<|(?i:&lt;))!-{2}\s*(?i:bridge)\s*:\s*([a-zA-Z0-9]+)\s*-{2}(?:>|(?i:&gt;))"#,
    )
    .unwrap()
}

#[test]
fn agrees_with_the_pattern_on_written_cases() {
    let pattern = pattern();
    for text in [
        "",
        "Please see <!-- bridge: Ab12 -->",
        "...&lt;!--bridge:XY9Z--&gt;...",
        "<!-- bridge: -->",
        "<!--bridge:a--><!--bridge:b-->",
        "<!-- bridge : a1 --&gt; &lt;!-- bridge: b2 -->",
        "<!--\u{a0}bridge\u{2003}:\u{3000}a1\n-->",
        "<!-- bridge: a1 -- >",
        "<!-- bridge: a-1 -->",
        "<!-- bridge: a1--->",
        "<!-- bridge: a1 --->",
        "<!---- bridge: a1 -->",
        "<!-- bridge:: a1 -->",
        "&lt;&lt;!--bridge:q--&gt;&gt;",
        "&LT;!--BRIDGE:Q--&Gt;",
        "<!--bridge:\u{212a}-->",
        "<!--bridge:k\u{17f}-->",
        "<!-- br\u{130}dge: a1 -->",
    ] {
        assert_eq!(extract_bridge_key(text.to_string()), by_pattern(&pattern, text), "{:?}", text);
    }
}

#[test]
fn agrees_with_the_pattern_on_generated_texts() {
    let pattern = pattern();
    let pieces = [
        "<", "&lt;", "&LT;", "!--", "!-", "-", "--", " ", "\t", "\u{a0}", "bridge", "Bridge",
        "bridg", ":", "a", "Z9", "0", ">", "&gt;", "&gt", "x", "\n",
    ];
    // a small linear congruential generator keeps the test repeatable
    let mut state: u64 = 0x9e37_79b9_7f4a_7c15;
    let mut hits = 0;
    for _ in 0..20_000 {
        let mut text = String::new();
        let mut structured =
            vec!["<", "!--", " ", "bridge", " ", ":", " ", "a", " ", "--", ">"];
        state = state.wrapping_mul(6364136223846793005).wrapping_add(1442695040888963407);
        let changes = (state >> 60) as usize % 3;
        for _ in 0..changes {
            state = state.wrapping_mul(6364136223846793005).wrapping_add(1442695040888963407);
            let at = (state >> 33) as usize % structured.len();
            state = state.wrapping_mul(6364136223846793005).wrapping_add(1442695040888963407);
            structured[at] = pieces[(state >> 33) as usize % pieces.len()];
        }
        state = state.wrapping_mul(6364136223846793005).wrapping_add(1442695040888963407);
        let noise = (state >> 33) as usize % 4;
        for _ in 0..noise {
            state = state.wrapping_mul(6364136223846793005).wrapping_add(1442695040888963407);
            text.push_str(pieces[(state >> 33) as usize % pieces.len()]);
        }
        for piece in &structured {
            text.push_str(piece);
        }
        let expected = by_pattern(&pattern, &text);
        if expected.is_some() {
            hits += 1;
        }
        assert_eq!(extract_bridge_key(text.clone()), expected, "{:?}", text);
    }
    assert!(hits > 1000);
}
