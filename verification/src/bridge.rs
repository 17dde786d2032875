//! Bridge keys: short tokens that tie a pasted response to the export that
//! asked for it, and the marker in which a key travels through free text.
//!
//! A marker is an opening bracket (`<` or `&lt;`), `!--`, the word `bridge`,
//! a colon, the key (one or more ASCII letters or digits), `--` and a closing
//! bracket (`>` or `&gt;`). White space may stand before and after the word,
//! the colon and the key. Letters of the fixed parts match in either case.

use vstd::prelude::*;

verus! {

// ----- characters ---------------------------------------------------------
/// White space: the code points with the Unicode property `White_Space`.
pub open spec fn is_space(c: char) -> bool {
    let n: u32 = c as u32;
    (0x09 <= n <= 0x0D) || n == 0x20 || n == 0x85 || n == 0xA0 || n == 0x1680 || (0x2000 <= n
        <= 0x200A) || n == 0x2028 || n == 0x2029 || n == 0x202F || n == 0x205F || n == 0x3000
}

/// A character that a key in a marker may hold: an ASCII letter or digit.
pub open spec fn is_key_char(c: char) -> bool {
    ('a' <= c <= 'z') || ('A' <= c <= 'Z') || ('0' <= c <= '9')
}

/// A symbol of a generated key: a lower-case ASCII letter or a digit.
pub open spec fn is_key_symbol(c: char) -> bool {
    ('a' <= c <= 'z') || ('0' <= c <= '9')
}

/// The lower-case form of an ASCII letter; any other character unchanged.
pub open spec fn lower(c: char) -> char {
    if 'A' <= c <= 'Z' {
        ((c as u8) + 32) as u8 as char
    } else {
        c
    }
}

/// `s` with every ASCII letter in lower case.
pub open spec fn lowered(s: Seq<char>) -> Seq<char> {
    s.map_values(|c: char| lower(c))
}

/// Whether `c` is white space.
pub fn is_space_char(c: char) -> (r: bool)
    ensures
        r == is_space(c),
{
    let n: u32 = c as u32;
    (0x09 <= n && n <= 0x0D) || n == 0x20 || n == 0x85 || n == 0xA0 || n == 0x1680 || (0x2000 <= n
        && n <= 0x200A) || n == 0x2028 || n == 0x2029 || n == 0x202F || n == 0x205F || n == 0x3000
}

/// Whether `c` is an ASCII letter or digit.
pub fn is_key_character(c: char) -> (r: bool)
    ensures
        r == is_key_char(c),
{
    ('a' <= c && c <= 'z') || ('A' <= c && c <= 'Z') || ('0' <= c && c <= '9')
}

/// The lower-case form of an ASCII letter; any other character unchanged.
pub fn to_lower(c: char) -> (r: char)
    ensures
        r == lower(c),
{
    if 'A' <= c && c <= 'Z' {
        ((c as u8) + 32) as char
    } else {
        c
    }
}

// ----- the grammar --------------------------------------------------------
/// Where the parts of a marker stand in a text.
pub struct Marker {
    /// The opening bracket begins here.
    pub start: int,
    /// `!--` begins here.
    pub bang: int,
    /// The word `bridge` begins here.
    pub word: int,
    /// The colon stands here.
    pub colon: int,
    /// The key begins here ...
    pub key_start: int,
    /// ... and ends before this position.
    pub key_end: int,
    /// The closing `--` begins here.
    pub dashes: int,
    /// The marker ends before this position.
    pub end: int,
}

/// `word`, given in lower case, stands in `text` at `at`, in either case.
pub open spec fn word_at(text: Seq<char>, at: int, word: Seq<char>) -> bool {
    &&& 0 <= at
    &&& at + word.len() <= text.len()
    &&& forall|k: int| 0 <= k < word.len() ==> lower(#[trigger] text[at + k]) == word[k]
}

/// Every character of `text` from `from` up to `to` is white space.
pub open spec fn all_space(text: Seq<char>, from: int, to: int) -> bool {
    forall|k: int| from <= k < to ==> is_space(#[trigger] text[k])
}

/// Every character of `text` from `from` up to `to` is a key character.
pub open spec fn all_key(text: Seq<char>, from: int, to: int) -> bool {
    forall|k: int| from <= k < to ==> is_key_char(#[trigger] text[k])
}

/// An opening bracket stands at `at` and ends before `next`.
pub open spec fn opens_at(text: Seq<char>, at: int, next: int) -> bool {
    ||| (word_at(text, at, seq!['<']) && next == at + 1)
    ||| (word_at(text, at, seq!['&', 'l', 't', ';']) && next == at + 4)
}

/// A closing bracket stands at `at` and ends before `next`.
pub open spec fn closes_at(text: Seq<char>, at: int, next: int) -> bool {
    ||| (word_at(text, at, seq!['>']) && next == at + 1)
    ||| (word_at(text, at, seq!['&', 'g', 't', ';']) && next == at + 4)
}

/// `m` describes a marker that stands in `text`.
pub open spec fn is_marker(text: Seq<char>, m: Marker) -> bool {
    &&& opens_at(text, m.start, m.bang)
    &&& word_at(text, m.bang, seq!['!', '-', '-'])
    &&& m.bang + 3 <= m.word
    &&& all_space(text, m.bang + 3, m.word)
    &&& word_at(text, m.word, seq!['b', 'r', 'i', 'd', 'g', 'e'])
    &&& m.word + 6 <= m.colon < text.len()
    &&& all_space(text, m.word + 6, m.colon)
    &&& text[m.colon] == ':'
    &&& m.colon + 1 <= m.key_start < m.key_end <= m.dashes
    &&& all_space(text, m.colon + 1, m.key_start)
    &&& all_key(text, m.key_start, m.key_end)
    &&& all_space(text, m.key_end, m.dashes)
    &&& word_at(text, m.dashes, seq!['-', '-'])
    &&& closes_at(text, m.dashes + 2, m.end)
}

/// Some marker stands in `text`.
pub open spec fn has_marker(text: Seq<char>) -> bool {
    exists|m: Marker| is_marker(text, m)
}

/// `m` is a marker of `text` and none begins before it.
pub open spec fn is_first_marker(text: Seq<char>, m: Marker) -> bool {
    &&& is_marker(text, m)
    &&& forall|o: Marker| #[trigger] is_marker(text, o) ==> m.start <= o.start
}

/// The marker of `text` that begins first; meaningful where `has_marker(text)`.
pub open spec fn first_marker(text: Seq<char>) -> Marker {
    choose|m: Marker| is_first_marker(text, m)
}

/// What is read out of a text: the key of its first marker, in lower case;
/// nothing if no marker stands in it.
pub open spec fn extracted_key(text: Seq<char>) -> Option<Seq<char>> {
    if has_marker(text) {
        Some(lowered(text.subrange(first_marker(text).key_start, first_marker(text).key_end)))
    } else {
        None
    }
}

/// A key read out of a text answers the expected one, given in lower case.
pub open spec fn key_matches(found: Option<Seq<char>>, expected_lower: Seq<char>) -> bool {
    found matches Some(k) && k == expected_lower
}

// ----- a marker is determined by where it begins --------------------------
/// The end of the run of white space that begins at `from`.
pub open spec fn spaces_end(text: Seq<char>, from: int) -> int
    decreases text.len() - from,
{
    if 0 <= from < text.len() && is_space(text[from]) {
        spaces_end(text, from + 1)
    } else {
        from
    }
}

/// The end of the run of key characters that begins at `from`.
pub open spec fn key_run_end(text: Seq<char>, from: int) -> int
    decreases text.len() - from,
{
    if 0 <= from < text.len() && is_key_char(text[from]) {
        key_run_end(text, from + 1)
    } else {
        from
    }
}

/// Where a bracket that begins at `at` ends: after one character if it is the
/// plain bracket `plain`, after four otherwise.
pub open spec fn bracket_end(text: Seq<char>, at: int, plain: char) -> int {
    if word_at(text, at, seq![plain]) {
        at + 1
    } else {
        at + 4
    }
}

/// The only positions that a marker beginning at `start` can have.
pub open spec fn marker_from(text: Seq<char>, start: int) -> Marker {
    let bang = bracket_end(text, start, '<');
    let word = spaces_end(text, bang + 3);
    let colon = spaces_end(text, word + 6);
    let key_start = spaces_end(text, colon + 1);
    let key_end = key_run_end(text, key_start);
    let dashes = spaces_end(text, key_end);
    let end = bracket_end(text, dashes + 2, '>');
    Marker { start, bang, word, colon, key_start, key_end, dashes, end }
}

/// `spaces_end` lies in the text, only white space stands before it, and what
/// stands at it is no white space.
pub proof fn lemma_spaces_end(text: Seq<char>, from: int)
    requires
        0 <= from <= text.len(),
    ensures
        from <= spaces_end(text, from) <= text.len(),
        all_space(text, from, spaces_end(text, from)),
        spaces_end(text, from) < text.len() ==> !is_space(text[spaces_end(text, from)]),
    decreases text.len() - from,
{
    if from < text.len() && is_space(text[from]) {
        lemma_spaces_end(text, from + 1);
    }
}

/// A run of white space that ends before a character that is none ends where
/// `spaces_end` says.
pub proof fn lemma_spaces_end_unique(text: Seq<char>, from: int, to: int)
    requires
        0 <= from <= to < text.len(),
        all_space(text, from, to),
        !is_space(text[to]),
    ensures
        spaces_end(text, from) == to,
    decreases to - from,
{
    if from < to {
        assert(is_space(text[from]));
        lemma_spaces_end_unique(text, from + 1, to);
    }
}

/// `key_run_end` lies in the text, only key characters stand before it, and
/// what stands at it is no key character.
pub proof fn lemma_key_run_end(text: Seq<char>, from: int)
    requires
        0 <= from <= text.len(),
    ensures
        from <= key_run_end(text, from) <= text.len(),
        all_key(text, from, key_run_end(text, from)),
        key_run_end(text, from) < text.len() ==> !is_key_char(text[key_run_end(text, from)]),
    decreases text.len() - from,
{
    if from < text.len() && is_key_char(text[from]) {
        lemma_key_run_end(text, from + 1);
    }
}

/// A run of key characters that ends before a character that is none ends
/// where `key_run_end` says.
pub proof fn lemma_key_run_end_unique(text: Seq<char>, from: int, to: int)
    requires
        0 <= from <= to < text.len(),
        all_key(text, from, to),
        !is_key_char(text[to]),
    ensures
        key_run_end(text, from) == to,
    decreases to - from,
{
    if from < to {
        assert(is_key_char(text[from]));
        lemma_key_run_end_unique(text, from + 1, to);
    }
}

/// Two markers that begin at the same place are the same marker: the grammar
/// leaves no choice after the first character.
pub proof fn lemma_marker_unique(text: Seq<char>, m: Marker)
    requires
        is_marker(text, m),
    ensures
        m == marker_from(text, m.start),
        0 <= m.start < text.len(),
{
    let c = marker_from(text, m.start);
    assert(c.bang == m.bang) by {
        assert(lower(text[m.start + 0]) == '<' || lower(text[m.start + 0]) == '&');
        if word_at(text, m.start, seq!['<']) {
            assert(lower(text[m.start + 0]) == seq!['<'][0]);
        } else {
            assert(lower(text[m.start + 0]) == seq!['&', 'l', 't', ';'][0]);
        }
    }
    assert(c.word == m.word) by {
        assert(lower(text[m.word + 0]) == seq!['b', 'r', 'i', 'd', 'g', 'e'][0]);
        lemma_spaces_end_unique(text, m.bang + 3, m.word);
    }
    assert(c.colon == m.colon) by {
        lemma_spaces_end_unique(text, m.word + 6, m.colon);
    }
    assert(lower(text[m.dashes + 0]) == seq!['-', '-'][0]);
    assert(c.key_start == m.key_start) by {
        assert(is_key_char(text[m.key_start]));
        lemma_spaces_end_unique(text, m.colon + 1, m.key_start);
    }
    assert(c.key_end == m.key_end) by {
        if m.key_end < m.dashes {
            assert(is_space(text[m.key_end]));
        }
        lemma_key_run_end_unique(text, m.key_start, m.key_end);
    }
    assert(c.dashes == m.dashes) by {
        lemma_spaces_end_unique(text, m.key_end, m.dashes);
    }
    assert(c.end == m.end) by {
        let at = m.dashes + 2;
        if word_at(text, at, seq!['>']) {
            assert(lower(text[at + 0]) == seq!['>'][0]);
        } else {
            assert(lower(text[at + 0]) == seq!['&', 'g', 't', ';'][0]);
        }
    }
}

/// The first place from `from` on at which a marker begins; the length of
/// the text if none begins there or later.
pub open spec fn first_start(text: Seq<char>, from: int) -> int
    decreases text.len() - from,
{
    if from >= text.len() {
        text.len() as int
    } else if is_marker(text, marker_from(text, from)) {
        from
    } else {
        first_start(text, from + 1)
    }
}

/// No marker begins between `from` and `first_start(text, from)`, and one
/// begins at `first_start(text, from)` if that lies in the text.
pub proof fn lemma_first_start(text: Seq<char>, from: int)
    requires
        0 <= from,
    ensures
        from <= first_start(text, from) || first_start(text, from) == text.len(),
        first_start(text, from) < text.len() ==> is_marker(
            text,
            marker_from(text, first_start(text, from)),
        ),
        forall|q: int|
            from <= q < first_start(text, from) ==> !is_marker(text, #[trigger] marker_from(text, q)),
    decreases text.len() - from,
{
    if from < text.len() && !is_marker(text, marker_from(text, from)) {
        lemma_first_start(text, from + 1);
    }
}

/// A text in which a marker stands has a first marker, and `first_marker`
/// is it.
pub proof fn lemma_first_marker(text: Seq<char>)
    requires
        has_marker(text),
    ensures
        is_first_marker(text, first_marker(text)),
{
    let some = choose|m: Marker| is_marker(text, m);
    lemma_marker_unique(text, some);
    lemma_first_start(text, 0);
    let at = first_start(text, 0);
    if at >= text.len() {
        assert(!is_marker(text, marker_from(text, some.start)));
    }
    let least = marker_from(text, at);
    assert forall|o: Marker| #[trigger] is_marker(text, o) implies least.start <= o.start by {
        lemma_marker_unique(text, o);
        if o.start < at {
            assert(!is_marker(text, marker_from(text, o.start)));
        }
    }
    assert(is_first_marker(text, least));
}

/// No marker in a text means no key read out of it, and then no expected key
/// is answered.
pub proof fn law_no_marker_never_validates(text: Seq<char>, expected_lower: Seq<char>)
    requires
        !has_marker(text),
    ensures
        extracted_key(text) is None,
        !key_matches(extracted_key(text), expected_lower),
{
}

// ----- a key travels in a marker ------------------------------------------
/// The marker that carries `key`, in its plain form: `<!-- bridge: key -->`.
pub open spec fn marker_text(key: Seq<char>) -> Seq<char> {
    seq!['<', '!', '-', '-', ' ', 'b', 'r', 'i', 'd', 'g', 'e', ':', ' '] + key + seq![
        ' ',
        '-',
        '-',
        '>',
    ]
}

/// Every character of `key` is a key character, and there is at least one.
pub open spec fn is_marker_key(key: Seq<char>) -> bool {
    &&& key.len() > 0
    &&& forall|i: int| 0 <= i < key.len() ==> is_key_char(#[trigger] key[i])
}

/// A marker that ends within the first `n` characters of a text is a marker
/// of those characters alone.
pub proof fn lemma_marker_in_prefix(text: Seq<char>, n: int, m: Marker)
    requires
        is_marker(text, m),
        m.end <= n <= text.len(),
    ensures
        is_marker(text.take(n), m),
{
    let head = text.take(n);
    lemma_marker_unique(text, m);
    assert forall|at: int, word: Seq<char>|
        word_at(text, at, word) && at + word.len() <= n implies #[trigger] word_at(
        head,
        at,
        word,
    ) by {
        assert forall|k: int| 0 <= k < word.len() implies lower(#[trigger] head[at + k])
            == word[k] by {
            assert(head[at + k] == text[at + k]);
        }
    }
    assert forall|from: int, to: int|
        0 <= from && to <= n && all_space(text, from, to) implies #[trigger] all_space(
        head,
        from,
        to,
    ) by {
        assert forall|k: int| from <= k < to implies is_space(#[trigger] head[k]) by {
            assert(head[k] == text[k]);
        }
    }
    assert(all_key(head, m.key_start, m.key_end)) by {
        assert forall|k: int| m.key_start <= k < m.key_end implies is_key_char(
            #[trigger] head[k],
        ) by {
            assert(head[k] == text[k]);
        }
    }
    assert(m.dashes + 2 < m.end);
    assert(head[m.colon] == text[m.colon]);
    assert(word_at(head, m.bang, seq!['!', '-', '-']));
    assert(word_at(head, m.word, seq!['b', 'r', 'i', 'd', 'g', 'e']));
    assert(word_at(head, m.dashes, seq!['-', '-']));
    assert(opens_at(head, m.start, m.bang));
    assert(closes_at(head, m.dashes + 2, m.end));
    assert(all_space(head, m.bang + 3, m.word));
    assert(all_space(head, m.word + 6, m.colon));
    assert(all_space(head, m.colon + 1, m.key_start));
    assert(all_space(head, m.key_end, m.dashes));
}

/// After its first character a marker holds no `<`.
pub proof fn lemma_marker_opens_once(text: Seq<char>, m: Marker, at: int)
    requires
        is_marker(text, m),
        m.start < at < m.end,
    ensures
        text[at] != '<',
{
    if at < m.bang {
        let w = seq!['&', 'l', 't', ';'];
        assert(lower(text[m.start + (at - m.start)]) == w[at - m.start]);
    } else if at < m.bang + 3 {
        let w = seq!['!', '-', '-'];
        assert(lower(text[m.bang + (at - m.bang)]) == w[at - m.bang]);
    } else if at < m.word {
        assert(is_space(text[at]));
    } else if at < m.word + 6 {
        let w = seq!['b', 'r', 'i', 'd', 'g', 'e'];
        assert(lower(text[m.word + (at - m.word)]) == w[at - m.word]);
    } else if at < m.colon {
        assert(is_space(text[at]));
    } else if at == m.colon {
    } else if at < m.key_start {
        assert(is_space(text[at]));
    } else if at < m.key_end {
        assert(is_key_char(text[at]));
    } else if at < m.dashes {
        assert(is_space(text[at]));
    } else if at < m.dashes + 2 {
        let w = seq!['-', '-'];
        assert(lower(text[m.dashes + (at - m.dashes)]) == w[at - m.dashes]);
    } else {
        let from = m.dashes + 2;
        if word_at(text, from, seq!['>']) && m.end == from + 1 {
            let w = seq!['>'];
            assert(lower(text[from + (at - from)]) == w[at - from]);
        } else {
            let w = seq!['&', 'g', 't', ';'];
            assert(lower(text[from + (at - from)]) == w[at - from]);
        }
    }
}

/// A key that is written into a marker is read back from it: from a text
/// that holds the marker of `key`, after a part without a marker and before
/// anything at all, the key is read, in lower case. A generated key is read
/// back as it was generated.
pub proof fn law_marker_carries_key(before: Seq<char>, key: Seq<char>, after: Seq<char>)
    requires
        !has_marker(before),
        is_marker_key(key),
    ensures
        has_marker(before + marker_text(key) + after),
        extracted_key(before + marker_text(key) + after) == Some(lowered(key)),
        is_bridge_key(key) ==> extracted_key(before + marker_text(key) + after) == Some(key),
{
    let text = before + marker_text(key) + after;
    let s = before.len() as int;
    let n = key.len() as int;
    let opening = seq!['<', '!', '-', '-', ' ', 'b', 'r', 'i', 'd', 'g', 'e', ':', ' '];
    let closing = seq![' ', '-', '-', '>'];
    assert(marker_text(key) == opening + key + closing);
    assert(text.len() == s + 17 + n + after.len());
    assert forall|k: int| 0 <= k < 13 implies #[trigger] text[s + k] == opening[k] by {}
    assert forall|k: int| 0 <= k < n implies #[trigger] text[s + 13 + k] == key[k] by {}
    assert forall|k: int| 0 <= k < 4 implies #[trigger] text[s + 13 + n + k] == closing[k] by {}
    let m = Marker {
        start: s,
        bang: s + 1,
        word: s + 5,
        colon: s + 11,
        key_start: s + 13,
        key_end: s + 13 + n,
        dashes: s + 14 + n,
        end: s + 17 + n,
    };
    assert(is_marker(text, m)) by {
        assert(word_at(text, m.start, seq!['<'])) by {
            assert(text[s + 0] == opening[0]);
        }
        assert(word_at(text, m.bang, seq!['!', '-', '-'])) by {
            assert(text[s + 1] == opening[1] && text[s + 2] == opening[2] && text[s + 3]
                == opening[3]);
        }
        assert(all_space(text, m.bang + 3, m.word)) by {
            assert(text[s + 4] == opening[4]);
        }
        assert(word_at(text, m.word, seq!['b', 'r', 'i', 'd', 'g', 'e'])) by {
            assert(text[s + 5] == opening[5] && text[s + 6] == opening[6] && text[s + 7]
                == opening[7] && text[s + 8] == opening[8] && text[s + 9] == opening[9] && text[s
                + 10] == opening[10]);
        }
        assert(all_space(text, m.word + 6, m.colon));
        assert(text[m.colon] == ':') by {
            assert(text[s + 11] == opening[11]);
        }
        assert(all_space(text, m.colon + 1, m.key_start)) by {
            assert(text[s + 12] == opening[12]);
        }
        assert(all_key(text, m.key_start, m.key_end)) by {
            assert forall|k: int| m.key_start <= k < m.key_end implies is_key_char(
                #[trigger] text[k],
            ) by {
                assert(text[s + 13 + (k - s - 13)] == key[k - s - 13]);
            }
        }
        assert(all_space(text, m.key_end, m.dashes)) by {
            assert(text[s + 13 + n + 0] == closing[0]);
        }
        assert(word_at(text, m.dashes, seq!['-', '-'])) by {
            assert(text[s + 13 + n + 1] == closing[1] && text[s + 13 + n + 2] == closing[2]);
        }
        assert(word_at(text, m.dashes + 2, seq!['>'])) by {
            assert(text[s + 13 + n + 3] == closing[3]);
        }
    }
    assert forall|o: Marker| #[trigger] is_marker(text, o) implies m.start <= o.start by {
        if o.start < s {
            lemma_marker_unique(text, o);
            if o.end <= s {
                lemma_marker_in_prefix(text, s, o);
                assert(text.take(s) =~= before);
            } else {
                assert(text[s + 0] == opening[0]);
                lemma_marker_opens_once(text, o, s);
            }
        }
    }
    assert(is_first_marker(text, m));
    let first = first_marker(text);
    assert(is_first_marker(text, first));
    lemma_marker_unique(text, first);
    lemma_marker_unique(text, m);
    assert(first == m);
    assert(text.subrange(m.key_start, m.key_end) =~= key) by {
        assert forall|k: int| 0 <= k < n implies text.subrange(m.key_start, m.key_end)[k]
            == key[k] by {
            assert(text[s + 13 + k] == key[k]);
        }
    }
    if is_bridge_key(key) {
        assert(lowered(key) =~= key);
    }
}

/// A text that carries the marker of a key answers every expected key that
/// differs from it by the case of its letters at most: such an expected key
/// is made of ASCII letters and digits, and the key read out of the text is
/// the expected key in lower case. A generated key answers itself.
pub proof fn law_marker_answers_its_key(
    before: Seq<char>,
    key: Seq<char>,
    after: Seq<char>,
    expected: Seq<char>,
)
    requires
        !has_marker(before),
        is_marker_key(key),
        lowered(expected) == lowered(key),
    ensures
        all_key(expected, 0, expected.len() as int),
        key_matches(extracted_key(before + marker_text(key) + after), lowered(expected)),
        is_bridge_key(key) ==> key_matches(
            extracted_key(before + marker_text(key) + after),
            lowered(key),
        ) && lowered(key) == key,
{
    law_marker_carries_key(before, key, after);
    assert(expected.len() == lowered(expected).len() == key.len());
    assert forall|k: int| 0 <= k < expected.len() implies is_key_char(#[trigger] expected[k]) by {
        assert(lowered(expected)[k] == lower(expected[k]));
        assert(lowered(key)[k] == lower(key[k]));
        assert(is_key_char(key[k]));
    }
    if is_bridge_key(key) {
        assert(lowered(key) =~= key);
    }
}

// ----- reading a text -----------------------------------------------------
/// What `std` says of `String::push`: the character is appended.
pub assume_specification[ String::push ](s: &mut String, ch: char)
    ensures
        final(s)@ == old(s)@.push(ch),
;

/// The characters of a text.
pub fn chars_of(text: &str) -> (chars: Vec<char>)
    ensures
        chars@ == text@,
{
    let mut chars: Vec<char> = Vec::new();
    for c in it: text.chars()
        invariant
            chars@ == it.seq().take(it.index() as int),
            it.seq() == text@,
    {
        chars.push(c);
        assert(it.seq().take(it.index() + 1) =~= it.seq().take(it.index() as int).push(c));
    }
    assert(chars@ =~= text@);
    chars
}

/// The end of the run of white space that begins at `from`.
fn skip_spaces(t: &Vec<char>, from: usize) -> (to: usize)
    requires
        from <= t.len(),
    ensures
        to == spaces_end(t@, from as int),
        from <= to <= t.len(),
{
    let mut i: usize = from;
    while i < t.len() && is_space_char(t[i])
        invariant
            from <= i <= t.len(),
            spaces_end(t@, from as int) == spaces_end(t@, i as int),
        decreases t.len() - i,
    {
        i = i + 1;
    }
    i
}

/// The end of the run of key characters that begins at `from`.
fn skip_key(t: &Vec<char>, from: usize) -> (to: usize)
    requires
        from <= t.len(),
    ensures
        to == key_run_end(t@, from as int),
        from <= to <= t.len(),
{
    let mut i: usize = from;
    while i < t.len() && is_key_character(t[i])
        invariant
            from <= i <= t.len(),
            key_run_end(t@, from as int) == key_run_end(t@, i as int),
        decreases t.len() - i,
    {
        i = i + 1;
    }
    i
}

/// Whether the character at `at`, in lower case, is `c`.
fn folds_to(t: &Vec<char>, at: usize, c: char) -> (r: bool)
    requires
        at < t.len(),
    ensures
        r == (lower(t@[at as int]) == c),
{
    to_lower(t[at]) == c
}

/// Whether the one-character word `a` stands at `at`, in either case.
fn has_one(t: &Vec<char>, at: usize, a: char) -> (r: bool)
    requires
        at <= t.len(),
    ensures
        r == word_at(t@, at as int, seq![a]),
{
    if t.len() - at < 1 {
        return false;
    }
    let r = folds_to(t, at, a);
    proof {
        let w = seq![a];
        if r {
            assert forall|k: int| 0 <= k < w.len() implies lower(#[trigger] t@[at + k]) == w[k] by {}
        } else {
            assert(lower(t@[at + 0]) != w[0]);
        }
    }
    r
}

/// Whether the word `a b` stands at `at`, in either case.
fn has_two(t: &Vec<char>, at: usize, a: char, b: char) -> (r: bool)
    requires
        at <= t.len(),
    ensures
        r == word_at(t@, at as int, seq![a, b]),
{
    if t.len() - at < 2 {
        return false;
    }
    let r = folds_to(t, at, a) && folds_to(t, at + 1, b);
    proof {
        let w = seq![a, b];
        if r {
            assert forall|k: int| 0 <= k < w.len() implies lower(#[trigger] t@[at + k]) == w[k] by {}
        } else {
            assert(lower(t@[at + 0]) != w[0] || lower(t@[at + 1]) != w[1]);
        }
    }
    r
}

/// Whether the word `a b c` stands at `at`, in either case.
fn has_three(t: &Vec<char>, at: usize, a: char, b: char, c: char) -> (r: bool)
    requires
        at <= t.len(),
    ensures
        r == word_at(t@, at as int, seq![a, b, c]),
{
    if t.len() - at < 3 {
        return false;
    }
    let r = folds_to(t, at, a) && folds_to(t, at + 1, b) && folds_to(t, at + 2, c);
    proof {
        let w = seq![a, b, c];
        if r {
            assert forall|k: int| 0 <= k < w.len() implies lower(#[trigger] t@[at + k]) == w[k] by {}
        } else {
            assert(lower(t@[at + 0]) != w[0] || lower(t@[at + 1]) != w[1] || lower(t@[at + 2])
                != w[2]);
        }
    }
    r
}

/// Whether the word `a b c d` stands at `at`, in either case.
fn has_four(t: &Vec<char>, at: usize, a: char, b: char, c: char, d: char) -> (r: bool)
    requires
        at <= t.len(),
    ensures
        r == word_at(t@, at as int, seq![a, b, c, d]),
{
    if t.len() - at < 4 {
        return false;
    }
    let r = folds_to(t, at, a) && folds_to(t, at + 1, b) && folds_to(t, at + 2, c) && folds_to(
        t,
        at + 3,
        d,
    );
    proof {
        let w = seq![a, b, c, d];
        if r {
            assert forall|k: int| 0 <= k < w.len() implies lower(#[trigger] t@[at + k]) == w[k] by {}
        } else {
            assert(lower(t@[at + 0]) != w[0] || lower(t@[at + 1]) != w[1] || lower(t@[at + 2])
                != w[2] || lower(t@[at + 3]) != w[3]);
        }
    }
    r
}

/// Whether the word `bridge` stands at `at`, in either case.
fn has_bridge(t: &Vec<char>, at: usize) -> (r: bool)
    requires
        at <= t.len(),
    ensures
        r == word_at(t@, at as int, seq!['b', 'r', 'i', 'd', 'g', 'e']),
{
    if t.len() - at < 6 {
        return false;
    }
    let r = folds_to(t, at, 'b') && folds_to(t, at + 1, 'r') && folds_to(t, at + 2, 'i')
        && folds_to(t, at + 3, 'd') && folds_to(t, at + 4, 'g') && folds_to(t, at + 5, 'e');
    proof {
        let w = seq!['b', 'r', 'i', 'd', 'g', 'e'];
        if r {
            assert forall|k: int| 0 <= k < w.len() implies lower(#[trigger] t@[at + k]) == w[k] by {}
        } else {
            assert(lower(t@[at + 0]) != w[0] || lower(t@[at + 1]) != w[1] || lower(t@[at + 2])
                != w[2] || lower(t@[at + 3]) != w[3] || lower(t@[at + 4]) != w[4] || lower(
                t@[at + 5],
            ) != w[5]);
        }
    }
    r
}

/// Where a bracket that begins at `at` ends, if one stands there: `plain` is
/// the plain bracket, `letter` the letter of its escaped form.
fn bracket(t: &Vec<char>, at: usize, plain: char, letter: char) -> (r: Option<usize>)
    requires
        at <= t.len(),
    ensures
        match r {
            Some(next) => next == bracket_end(t@, at as int, plain) && next <= t.len() && (
            word_at(t@, at as int, seq![plain]) || word_at(
                t@,
                at as int,
                seq!['&', letter, 't', ';'],
            )),
            None => !word_at(t@, at as int, seq![plain]) && !word_at(
                t@,
                at as int,
                seq!['&', letter, 't', ';'],
            ),
        },
{
    if has_one(t, at, plain) {
        Some(at + 1)
    } else if has_four(t, at, '&', letter, 't', ';') {
        Some(at + 4)
    } else {
        None
    }
}

/// The key of the marker that begins at `start`, as the positions between
/// which it stands, if a marker begins there.
fn marker_at(t: &Vec<char>, start: usize) -> (r: Option<(usize, usize)>)
    requires
        start <= t.len(),
    ensures
        match r {
            Some((key_start, key_end)) => is_marker(t@, marker_from(t@, start as int))
                && key_start == marker_from(t@, start as int).key_start && key_end == marker_from(
                t@,
                start as int,
            ).key_end && key_start <= key_end <= t.len(),
            None => !is_marker(t@, marker_from(t@, start as int)),
        },
{
    let ghost m = marker_from(t@, start as int);
    let bang = match bracket(t, start, '<', 'l') {
        Some(bang) => bang,
        None => {
            return None;
        },
    };
    if !has_three(t, bang, '!', '-', '-') {
        return None;
    }
    let word = skip_spaces(t, bang + 3);
    if !has_bridge(t, word) {
        return None;
    }
    let colon = skip_spaces(t, word + 6);
    if colon >= t.len() || t[colon] != ':' {
        return None;
    }
    let key_start = skip_spaces(t, colon + 1);
    let key_end = skip_key(t, key_start);
    if key_end == key_start {
        return None;
    }
    let dashes = skip_spaces(t, key_end);
    if !has_two(t, dashes, '-', '-') {
        return None;
    }
    let end = match bracket(t, dashes + 2, '>', 'g') {
        Some(end) => end,
        None => {
            return None;
        },
    };
    proof {
        lemma_spaces_end(t@, bang + 3);
        lemma_spaces_end(t@, word + 6);
        lemma_spaces_end(t@, colon + 1);
        lemma_key_run_end(t@, key_start as int);
        lemma_spaces_end(t@, key_end as int);
        assert(opens_at(t@, m.start, m.bang));
        assert(closes_at(t@, m.dashes + 2, m.end));
    }
    Some((key_start, key_end))
}

/// The characters of `t` from `from` up to `to`, in lower case.
fn lowered_text(t: &Vec<char>, from: usize, to: usize) -> (key: String)
    requires
        from <= to <= t.len(),
    ensures
        key@ == lowered(t@.subrange(from as int, to as int)),
{
    let mut key = String::new();
    let mut i: usize = from;
    while i < to
        invariant
            from <= i <= to <= t.len(),
            key@ == lowered(t@.subrange(from as int, i as int)),
        decreases to - i,
    {
        key.push(to_lower(t[i]));
        assert(lowered(t@.subrange(from as int, i + 1)) =~= lowered(
            t@.subrange(from as int, i as int),
        ).push(lower(t@[i as int])));
        i = i + 1;
    }
    key
}

/// Reads the key out of a pasted text: the key of the first marker that
/// stands in it, in lower case. Absent exactly when no marker stands in it.
pub fn extract_bridge_key(input_text: String) -> (key: Option<String>)
    ensures
        key.deep_view() == extracted_key(input_text@),
{
    let t = chars_of(input_text.as_str());
    let ghost text = input_text@;
    let mut start: usize = 0;
    while start < t.len()
        invariant
            start <= t.len(),
            t@ == text,
            text == input_text@,
            forall|q: int| 0 <= q < start ==> !is_marker(text, #[trigger] marker_from(text, q)),
        decreases t.len() - start,
    {
        if let Some((key_start, key_end)) = marker_at(&t, start) {
            let key = lowered_text(&t, key_start, key_end);
            proof {
                let found = marker_from(text, start as int);
                assert forall|o: Marker| #[trigger] is_marker(text, o) implies found.start
                    <= o.start by {
                    lemma_marker_unique(text, o);
                    if o.start < start {
                        assert(!is_marker(text, marker_from(text, o.start)));
                    }
                }
                assert(is_first_marker(text, found));
                lemma_first_marker(text);
                let first = first_marker(text);
                lemma_marker_unique(text, first);
                assert(first == found);
                assert(Some(key).deep_view() == Some(key@));
            }
            return Some(key);
        }
        start = start + 1;
    }
    proof {
        assert forall|o: Marker| !is_marker(text, o) by {
            if is_marker(text, o) {
                lemma_marker_unique(text, o);
                assert(!is_marker(text, marker_from(text, o.start)));
            }
        }
    }
    None
}

// ----- answering an expected key ------------------------------------------
/// What `str::to_lowercase` of `std` makes of a text: its Unicode lower-case
/// form.
pub uninterp spec fn unicode_lowercase(text: Seq<char>) -> Seq<char>;

/// `str::to_lowercase` of `std`. The claim is that the result is the function
/// of the text that bears the name above, and that for a text of ASCII
/// letters and digits it is the text with its upper-case letters replaced by
/// their lower-case forms.
#[verifier::external_body]
fn lowercase(text: &str) -> (r: String)
    ensures
        r@ == unicode_lowercase(text@),
        all_key(text@, 0, text@.len() as int) ==> r@ == lowered(text@),
{
    text.to_lowercase()
}

/// Whether a key read out of a text answers the expected key, given in lower
/// case: a key was read and it is that key.
pub fn answers(found: &Option<String>, expected_lower: &String) -> (r: bool)
    ensures
        r == key_matches(found.deep_view(), expected_lower@),
{
    match found {
        Some(key) => *key == *expected_lower,
        None => false,
    }
}

/// Whether a pasted text answers the export with key `expected_key`: the key
/// read out of the text equals the expected key, letter case aside. For an
/// expected key of ASCII letters and digits, as every generated key is, the
/// two are compared with their ASCII letters in lower case.
pub fn validate_bridge_key(input_text: String, expected_key: String) -> (valid: bool)
    ensures
        valid == key_matches(extracted_key(input_text@), unicode_lowercase(expected_key@)),
        all_key(expected_key@, 0, expected_key@.len() as int) ==> valid == key_matches(
            extracted_key(input_text@),
            lowered(expected_key@),
        ),
        !has_marker(input_text@) ==> !valid,
{
    let found = extract_bridge_key(input_text);
    let expected = lowercase(expected_key.as_str());
    answers(&found, &expected)
}

// ----- making a key -------------------------------------------------------
/// Symbol `i` of the alphabet of generated keys: `a` to `z`, then `0` to `9`.
pub open spec fn symbol_at(i: int) -> char {
    if i < 26 {
        (97 + i) as u8 as char
    } else {
        (22 + i) as u8 as char
    }
}

/// A generated key: four symbols of the alphabet.
pub open spec fn is_bridge_key(key: Seq<char>) -> bool {
    &&& key.len() == 4
    &&& forall|i: int| 0 <= i < key.len() ==> is_key_symbol(#[trigger] key[i])
}

/// Symbol `pick` of the alphabet of generated keys.
pub fn symbol(pick: usize) -> (c: char)
    requires
        pick < 36,
    ensures
        c == symbol_at(pick as int),
        is_key_symbol(c),
{
    if pick < 26 {
        (97u8 + pick as u8) as char
    } else {
        (22u8 + pick as u8) as char
    }
}

/// `rand::Rng::gen_range` on the range from 0 up to `bound`, drawn from
/// `rand::thread_rng()`. The result lies in the range; which value it is
/// depends on chance. An empty range makes `gen_range` panic, so `bound` must
/// not be 0. The call also panics where the generator of the thread cannot
/// be seeded, which no argument decides.
#[verifier::external_body]
fn random_below(bound: usize) -> (pick: usize)
    requires
        bound > 0,
    ensures
        pick < bound,
{
    rand::Rng::gen_range(&mut rand::thread_rng(), 0..bound)
}

/// The key that four drawn places of the alphabet make, in the order in
/// which they were drawn.
pub fn key_from_picks(first: usize, second: usize, third: usize, fourth: usize) -> (key: String)
    requires
        first < 36,
        second < 36,
        third < 36,
        fourth < 36,
    ensures
        key@ == seq![
            symbol_at(first as int),
            symbol_at(second as int),
            symbol_at(third as int),
            symbol_at(fourth as int),
        ],
        is_bridge_key(key@),
{
    let mut key = String::new();
    key.push(symbol(first));
    key.push(symbol(second));
    key.push(symbol(third));
    key.push(symbol(fourth));
    assert(key@ =~= seq![
        symbol_at(first as int),
        symbol_at(second as int),
        symbol_at(third as int),
        symbol_at(fourth as int),
    ]);
    key
}

/// A fresh key: four symbols, each drawn from the alphabet of 36. Keys are not
/// checked against those already handed out.
///
/// Panics where the random generator of the thread cannot be seeded.
pub fn generate_bridge_key() -> (key: String)
    ensures
        is_bridge_key(key@),
{
    let first = random_below(36);
    let second = random_below(36);
    let third = random_below(36);
    let fourth = random_below(36);
    key_from_picks(first, second, third, fourth)
}

} // verus!
