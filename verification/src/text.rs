//! Text primitives: the behaviour of the string operations that the parsers
//! rely on (whitespace trimming, tokenising, line splitting, searching,
//! decimal numbers), stated over `Seq<char>` and implemented over character
//! vectors addressed by index ranges.
use vstd::prelude::*;

verus! {

// ───────────────────────────── specifications ─────────────────────────────

/// Unicode `White_Space`, as used by `char::is_whitespace`.
pub open spec fn is_ws(c: char) -> bool {
    let u = c as u32;
    ||| 0x09 <= u <= 0x0D
    ||| u == 0x20
    ||| u == 0x85
    ||| u == 0xA0
    ||| u == 0x1680
    ||| 0x2000 <= u <= 0x200A
    ||| u == 0x2028
    ||| u == 0x2029
    ||| u == 0x202F
    ||| u == 0x205F
    ||| u == 0x3000
}

/// `s` without its leading whitespace.
pub open spec fn trim_start(s: Seq<char>) -> Seq<char>
    decreases s.len(),
{
    if s.len() > 0 && is_ws(s[0]) {
        trim_start(s.drop_first())
    } else {
        s
    }
}

/// `s` without its trailing whitespace.
pub open spec fn trim_end(s: Seq<char>) -> Seq<char>
    decreases s.len(),
{
    if s.len() > 0 && is_ws(s.last()) {
        trim_end(s.drop_last())
    } else {
        s
    }
}

/// `str::trim`: `s` without leading and trailing whitespace.
pub open spec fn trim(s: Seq<char>) -> Seq<char> {
    trim_end(trim_start(s))
}

/// `s` without the leading characters that belong to `set`.
pub open spec fn trim_start_set(s: Seq<char>, set: Seq<char>) -> Seq<char>
    decreases s.len(),
{
    if s.len() > 0 && set.contains(s[0]) {
        trim_start_set(s.drop_first(), set)
    } else {
        s
    }
}

/// `s` without the trailing characters that belong to `set`.
pub open spec fn trim_end_set(s: Seq<char>, set: Seq<char>) -> Seq<char>
    decreases s.len(),
{
    if s.len() > 0 && set.contains(s.last()) {
        trim_end_set(s.drop_last(), set)
    } else {
        s
    }
}

/// `str::trim_matches` with a set of characters.
pub open spec fn trim_set(s: Seq<char>, set: Seq<char>) -> Seq<char> {
    trim_end_set(trim_start_set(s, set), set)
}

/// Number of leading characters of `s` that are not whitespace.
pub open spec fn word_len(s: Seq<char>) -> nat
    decreases s.len(),
{
    if s.len() == 0 || is_ws(s[0]) {
        0
    } else {
        1 + word_len(s.drop_first())
    }
}

pub proof fn lemma_word_len_bound(s: Seq<char>)
    ensures
        word_len(s) <= s.len(),
        s.len() > 0 && !is_ws(s[0]) ==> word_len(s) >= 1,
    decreases s.len(),
{
    if s.len() > 0 && !is_ws(s[0]) {
        lemma_word_len_bound(s.drop_first());
    }
}

/// `str::split_whitespace`: the maximal runs of non-whitespace characters.
pub open spec fn tokens(s: Seq<char>) -> Seq<Seq<char>>
    decreases s.len(),
{
    if s.len() == 0 {
        seq![]
    } else if is_ws(s[0]) {
        tokens(s.drop_first())
    } else {
        let n = word_len(s) as int;
        proof {
            lemma_word_len_bound(s);
        }
        seq![s.take(n)] + tokens(s.skip(n))
    }
}

/// A word ends where whitespace follows it.
pub proof fn lemma_word_len_append(a: Seq<char>, b: Seq<char>)
    requires
        b.len() > 0,
        is_ws(b[0]),
    ensures
        word_len(a + b) == word_len(a),
    decreases a.len(),
{
    if a.len() == 0 {
        assert(a + b =~= b);
    } else if !is_ws(a[0]) {
        assert((a + b).drop_first() =~= a.drop_first() + b);
        lemma_word_len_append(a.drop_first(), b);
    }
}

/// Leading whitespace does not change the words.
pub proof fn lemma_tokens_skip_ws(w: Seq<char>, s: Seq<char>)
    requires
        forall|i: int| 0 <= i < w.len() ==> is_ws(#[trigger] w[i]),
    ensures
        tokens(w + s) == tokens(s),
    decreases w.len(),
{
    if w.len() == 0 {
        assert(w + s =~= s);
    } else {
        assert((w + s)[0] == w[0]);
        assert((w + s).drop_first() =~= w.drop_first() + s);
        lemma_tokens_skip_ws(w.drop_first(), s);
    }
}

/// The words of a text followed by whitespace and more text are its own
/// words followed by those of the rest.
pub proof fn lemma_tokens_append(a: Seq<char>, b: Seq<char>)
    requires
        b.len() > 0,
        is_ws(b[0]),
    ensures
        tokens(a + b) == tokens(a) + tokens(b),
    decreases a.len(),
{
    if a.len() == 0 {
        assert(a + b =~= b);
        assert(tokens(a) =~= Seq::<Seq<char>>::empty());
        assert(tokens(a) + tokens(b) =~= tokens(b));
    } else if is_ws(a[0]) {
        assert((a + b).drop_first() =~= a.drop_first() + b);
        lemma_tokens_append(a.drop_first(), b);
    } else {
        lemma_word_len_append(a, b);
        lemma_word_len_bound(a);
        let n = word_len(a) as int;
        assert((a + b).take(n) =~= a.take(n));
        assert((a + b).skip(n) =~= a.skip(n) + b);
        lemma_tokens_append(a.skip(n), b);
        assert(tokens(a + b) =~= seq![a.take(n)] + (tokens(a.skip(n)) + tokens(b)));
    }
}

/// A text without whitespace is one word, all of it.
pub proof fn lemma_word_len_full(m: Seq<char>)
    requires
        forall|k: int| 0 <= k < m.len() ==> !is_ws(#[trigger] m[k]),
    ensures
        word_len(m) == m.len(),
    decreases m.len(),
{
    if m.len() > 0 {
        assert(!is_ws(m[0]));
        lemma_word_len_full(m.drop_first());
    }
}

/// The words of a non-empty text without whitespace: the text itself.
pub proof fn lemma_tokens_word(m: Seq<char>)
    requires
        m.len() > 0,
        forall|k: int| 0 <= k < m.len() ==> !is_ws(#[trigger] m[k]),
    ensures
        tokens(m) == seq![m],
{
    lemma_word_len_full(m);
    assert(!is_ws(m[0]));
    assert(m.take(m.len() as int) =~= m);
    assert(m.skip(m.len() as int) =~= Seq::<char>::empty());
    assert(tokens(Seq::<char>::empty()) =~= Seq::<Seq<char>>::empty());
    assert(tokens(m) =~= seq![m]);
}

/// The words of a text that ends with whitespace (or is empty), followed by
/// more text, are its own words followed by those of the rest.
pub proof fn lemma_tokens_append_after_ws(a: Seq<char>, r: Seq<char>)
    requires
        a.len() == 0 || is_ws(a.last()),
    ensures
        tokens(a + r) == tokens(a) + tokens(r),
{
    if a.len() == 0 {
        assert(a + r =~= r);
        assert(tokens(a) =~= Seq::<Seq<char>>::empty());
        assert(tokens(a) + tokens(r) =~= tokens(r));
    } else {
        let a1 = a.drop_last();
        let w = seq![a.last()];
        assert(forall|i: int| 0 <= i < w.len() ==> is_ws(#[trigger] w[i]));
        assert(a + r =~= a1 + (w + r));
        assert((w + r)[0] == a.last());
        lemma_tokens_append(a1, w + r);
        lemma_tokens_skip_ws(w, r);
        assert(a =~= a1 + w);
        lemma_tokens_append(a1, w);
        lemma_tokens_skip_ws(w, Seq::<char>::empty());
        assert(w + Seq::<char>::empty() =~= w);
        assert(tokens(Seq::<char>::empty()) =~= Seq::<Seq<char>>::empty());
        assert(tokens(a1) + Seq::<Seq<char>>::empty() =~= tokens(a1));
    }
}

/// Each word is non-empty and holds no whitespace.
pub proof fn lemma_tokens_are_words(s: Seq<char>)
    ensures
        forall|i: int|
            0 <= i < tokens(s).len() ==> (#[trigger] tokens(s)[i]).len() > 0 && forall|k: int|
                0 <= k < tokens(s)[i].len() ==> !is_ws(#[trigger] tokens(s)[i][k]),
    decreases s.len(),
{
    if s.len() > 0 {
        if is_ws(s[0]) {
            lemma_tokens_are_words(s.drop_first());
            assert(tokens(s) == tokens(s.drop_first()));
        } else {
            lemma_word_len_bound(s);
            let n = word_len(s) as int;
            lemma_tokens_are_words(s.skip(n));
            lemma_word_prefix(s);
            let t = tokens(s);
            assert(t == seq![s.take(n)] + tokens(s.skip(n)));
            assert forall|i: int| 0 <= i < t.len() implies (#[trigger] t[i]).len() > 0 && forall|k: int|
                0 <= k < t[i].len() ==> !is_ws(#[trigger] t[i][k]) by {
                if i > 0 {
                    assert(t[i] == tokens(s.skip(n))[i - 1]);
                } else {
                    assert(t[0] == s.take(n));
                }
            }
        }
    }
}

/// The first `word_len` characters hold no whitespace.
pub proof fn lemma_word_prefix(s: Seq<char>)
    ensures
        forall|k: int| 0 <= k < word_len(s) ==> !is_ws(#[trigger] s[k]),
    decreases s.len(),
{
    if s.len() > 0 && !is_ws(s[0]) {
        lemma_word_prefix(s.drop_first());
        lemma_word_len_bound(s.drop_first());
        assert forall|k: int| 0 <= k < word_len(s) implies !is_ws(#[trigger] s[k]) by {
            if k > 0 {
                assert(s[k] == s.drop_first()[k - 1]);
            }
        }
    }
}

/// The characters of the words are characters of the text: a property that
/// holds of every character of the text holds of every character of a word.
pub proof fn lemma_tokens_chars(s: Seq<char>, f: spec_fn(char) -> bool)
    requires
        forall|k: int| 0 <= k < s.len() ==> f(#[trigger] s[k]),
    ensures
        forall|i: int, k: int|
            0 <= i < tokens(s).len() && 0 <= k < tokens(s)[i].len() ==> f(#[trigger] tokens(s)[i][k]),
    decreases s.len(),
{
    if s.len() > 0 {
        if is_ws(s[0]) {
            assert forall|k: int| 0 <= k < s.drop_first().len() implies f(#[trigger] s.drop_first()[k]) by {
                assert(s.drop_first()[k] == s[k + 1]);
            }
            lemma_tokens_chars(s.drop_first(), f);
            assert(tokens(s) == tokens(s.drop_first()));
        } else {
            lemma_word_len_bound(s);
            let n = word_len(s) as int;
            assert forall|k: int| 0 <= k < s.skip(n).len() implies f(#[trigger] s.skip(n)[k]) by {
                assert(s.skip(n)[k] == s[k + n]);
            }
            lemma_tokens_chars(s.skip(n), f);
            let t = tokens(s);
            assert(t == seq![s.take(n)] + tokens(s.skip(n)));
            assert forall|i: int, k: int| 0 <= i < t.len() && 0 <= k < t[i].len() implies f(
                #[trigger] t[i][k],
            ) by {
                if i > 0 {
                    assert(t[i] == tokens(s.skip(n))[i - 1]);
                } else {
                    assert(t[0] == s.take(n));
                    assert(t[0][k] == s[k]);
                }
            }
        }
    }
}

/// A string that occurs at some position is contained.
pub proof fn lemma_contains_at(s: Seq<char>, p: Seq<char>, j: int)
    requires
        occurs_at(s, p, j),
    ensures
        contains(s, p),
{
    lemma_find_from_reaches(s, p, 0, j);
}

proof fn lemma_find_from_reaches(s: Seq<char>, p: Seq<char>, i: int, j: int)
    requires
        0 <= i <= j,
        occurs_at(s, p, j),
    ensures
        find_from(s, p, i) is Some,
    decreases j - i,
{
    if !occurs_at(s, p, i) {
        lemma_find_from_reaches(s, p, i + 1, j);
    }
}

/// A contained string occurs at some position.
pub proof fn lemma_contains_witness(s: Seq<char>, p: Seq<char>)
    requires
        contains(s, p),
    ensures
        occurs_at(s, p, find(s, p)->0),
{
    lemma_find_from(s, p, 0);
}

/// Position of the first occurrence of `c` in `s` at or after `i`.
pub open spec fn find_char_from(s: Seq<char>, c: char, i: int) -> Option<int>
    decreases s.len() - i,
{
    if i < 0 || i >= s.len() {
        None
    } else if s[i] == c {
        Some(i)
    } else {
        find_char_from(s, c, i + 1)
    }
}

/// Position of the first occurrence of `c` in `s`.
pub open spec fn find_char(s: Seq<char>, c: char) -> Option<int> {
    find_char_from(s, c, 0)
}

pub proof fn lemma_find_char_from(s: Seq<char>, c: char, i: int)
    ensures
        find_char_from(s, c, i) matches Some(j) ==> i <= j < s.len() && s[j] == c,
        find_char_from(s, c, i) matches Some(j) ==> forall|k: int| i <= k < j ==> s[k] != c,
        find_char_from(s, c, i) is None ==> forall|k: int| 0 <= i <= k < s.len() ==> s[k] != c,
    decreases s.len() - i,
{
    if 0 <= i < s.len() && s[i] != c {
        lemma_find_char_from(s, c, i + 1);
    }
}

/// `p` occurs in `s` at position `i`.
pub open spec fn occurs_at(s: Seq<char>, p: Seq<char>, i: int) -> bool {
    0 <= i && i + p.len() <= s.len() && s.subrange(i, i + p.len()) == p
}

/// Position of the first occurrence of `p` in `s` at or after `i`.
pub open spec fn find_from(s: Seq<char>, p: Seq<char>, i: int) -> Option<int>
    decreases s.len() + 1 - i,
{
    if i < 0 || i + p.len() > s.len() {
        None
    } else if occurs_at(s, p, i) {
        Some(i)
    } else {
        find_from(s, p, i + 1)
    }
}

/// `str::find` with a string pattern.
pub open spec fn find(s: Seq<char>, p: Seq<char>) -> Option<int> {
    find_from(s, p, 0)
}

/// `str::contains` with a string pattern.
pub open spec fn contains(s: Seq<char>, p: Seq<char>) -> bool {
    find(s, p) is Some
}

/// Position of the last occurrence of `p` in `s` starting at or before `i`.
pub open spec fn rfind_from(s: Seq<char>, p: Seq<char>, i: int) -> Option<int>
    decreases i + 1,
{
    if i < 0 {
        None
    } else if occurs_at(s, p, i) {
        Some(i)
    } else {
        rfind_from(s, p, i - 1)
    }
}

/// `str::rfind` with a string pattern.
pub open spec fn rfind(s: Seq<char>, p: Seq<char>) -> Option<int> {
    rfind_from(s, p, s.len() - p.len())
}

pub proof fn lemma_find_from(s: Seq<char>, p: Seq<char>, i: int)
    ensures
        find_from(s, p, i) matches Some(j) ==> i <= j && occurs_at(s, p, j),
    decreases s.len() + 1 - i,
{
    if !(i < 0 || i + p.len() > s.len()) && !occurs_at(s, p, i) {
        lemma_find_from(s, p, i + 1);
    }
}

pub proof fn lemma_rfind_from(s: Seq<char>, p: Seq<char>, i: int)
    ensures
        rfind_from(s, p, i) matches Some(j) ==> j <= i && occurs_at(s, p, j),
    decreases i + 1,
{
    if i >= 0 && !occurs_at(s, p, i) {
        lemma_rfind_from(s, p, i - 1);
    }
}

/// The first `c` of `s` is at `p` when `s[p]` is `c` and none comes before.
pub proof fn lemma_find_char_first(s: Seq<char>, c: char, j: int, p: int)
    requires
        0 <= j <= p < s.len(),
        s[p] == c,
        forall|k: int| j <= k < p ==> s[k] != c,
    ensures
        find_char_from(s, c, j) == Some(p),
    decreases p - j,
{
    if j < p {
        lemma_find_char_first(s, c, j + 1, p);
    }
}

/// What follows a `c` of `a` does not change where the first `c` is.
pub proof fn lemma_find_char_append(a: Seq<char>, b: Seq<char>, c: char, j: int, k: int)
    requires
        0 <= j <= k < a.len(),
        a[k] == c,
    ensures
        find_char_from(a + b, c, j) == find_char_from(a, c, j),
    decreases a.len() - j,
{
    assert((a + b)[j] == a[j]);
    if a[j] != c {
        lemma_find_char_append(a, b, c, j + 1, k);
    }
}

/// The lines of a text that ends a line, followed by more text, are its
/// own lines followed by those of the rest.
pub proof fn lemma_lines_append(a: Seq<char>, b: Seq<char>)
    requires
        a.len() > 0,
        a.last() == '\n',
    ensures
        lines(a + b) == lines(a) + lines(b),
    decreases a.len(),
{
    lemma_find_char_append(a, b, '\n', 0, a.len() - 1);
    lemma_find_char_from(a, '\n', 0);
    let i = find_char(a, '\n')->0;
    assert((a + b).take(i) =~= a.take(i));
    assert((a + b).skip(i + 1) =~= a.skip(i + 1) + b);
    if i + 1 == a.len() {
        assert(a.skip(i + 1) =~= Seq::<char>::empty());
        assert(a.skip(i + 1) + b =~= b);
        assert(lines(Seq::<char>::empty()) =~= Seq::<Seq<char>>::empty());
        assert(lines(a.skip(i + 1)) =~= Seq::<Seq<char>>::empty());
        assert(lines(a) =~= seq![strip_cr(a.take(i))]);
    } else {
        let rest = a.skip(i + 1);
        assert(rest.last() == a.last());
        lemma_lines_append(rest, b);
    }
}

/// A text without a newline, ended by one, is one line.
pub proof fn lemma_lines_single(x: Seq<char>)
    requires
        forall|k: int| 0 <= k < x.len() ==> x[k] != '\n',
    ensures
        lines(x + seq!['\n']) == seq![strip_cr(x)],
{
    let s = x + seq!['\n'];
    lemma_find_char_first(s, '\n', 0, x.len() as int);
    assert(s.take(x.len() as int) =~= x);
    assert(s.skip(x.len() as int + 1) =~= Seq::<char>::empty());
    assert(lines(Seq::<char>::empty()) =~= Seq::<Seq<char>>::empty());
    assert(lines(s.skip(x.len() as int + 1)) =~= Seq::<Seq<char>>::empty());
    assert(lines(s) =~= seq![strip_cr(x)] + Seq::<Seq<char>>::empty());
}

/// `str::starts_with` with a string pattern.
pub open spec fn starts_with(s: Seq<char>, p: Seq<char>) -> bool {
    p.len() <= s.len() && s.take(p.len() as int) == p
}

/// A string starts with a one-character pattern when its first character is
/// that character.
pub proof fn lemma_starts_with_char(s: Seq<char>, c: char)
    ensures
        starts_with(s, seq![c]) == (s.len() > 0 && s[0] == c),
{
    if s.len() > 0 {
        if s.take(1) == seq![c] {
            assert(s.take(1)[0] == s[0]);
        } else if s[0] == c {
            assert(s.take(1) =~= seq![c]);
        }
    }
}

/// A string ends with a one-character pattern when its last character is
/// that character.
pub proof fn lemma_ends_with_char(s: Seq<char>, c: char)
    ensures
        ends_with(s, seq![c]) == (s.len() > 0 && s[s.len() - 1] == c),
{
    if s.len() > 0 {
        if s.skip(s.len() - 1) == seq![c] {
            assert(s.skip(s.len() - 1)[0] == s[s.len() - 1]);
        } else if s[s.len() - 1] == c {
            assert(s.skip(s.len() - 1) =~= seq![c]);
        }
    }
}

/// `str::ends_with` with a string pattern.
pub open spec fn ends_with(s: Seq<char>, p: Seq<char>) -> bool {
    p.len() <= s.len() && s.skip(s.len() - p.len()) == p
}

/// `s` without a final carriage return.
pub open spec fn strip_cr(s: Seq<char>) -> Seq<char> {
    if s.len() > 0 && s.last() == '\r' {
        s.drop_last()
    } else {
        s
    }
}

/// `str::lines`: pieces separated by `\n` (a `\r` right before the `\n` is
/// dropped); a final line terminator does not start another line.
pub open spec fn lines(s: Seq<char>) -> Seq<Seq<char>>
    decreases s.len(),
{
    if s.len() == 0 {
        seq![]
    } else {
        match find_char(s, '\n') {
            Some(i) => {
                proof {
                    lemma_find_char_from(s, '\n', 0);
                }
                seq![strip_cr(s.take(i))] + lines(s.skip(i + 1))
            },
            None => seq![s],
        }
    }
}

/// `'0'..='9'`.
pub open spec fn is_digit(c: char) -> bool {
    '0' <= c && c <= '9'
}

pub open spec fn digit_value(c: char) -> nat {
    (c as u32 - '0' as u32) as nat
}

pub open spec fn all_digits(s: Seq<char>) -> bool {
    forall|i: int| 0 <= i < s.len() ==> is_digit(#[trigger] s[i])
}

/// Value of a string of decimal digits.
pub open spec fn dec_value(s: Seq<char>) -> nat
    decreases s.len(),
{
    if s.len() == 0 {
        0
    } else {
        dec_value(s.drop_last()) * 10 + digit_value(s.last())
    }
}

/// The digits of an unsigned number, after an optional `+`.
pub open spec fn unsigned_body(s: Seq<char>) -> Seq<char> {
    if s.len() > 0 && s[0] == '+' {
        s.drop_first()
    } else {
        s
    }
}

/// `str::parse` for an unsigned integer type whose largest value is `max`.
pub open spec fn parse_unsigned(s: Seq<char>, max: nat) -> Option<nat> {
    let d = unsigned_body(s);
    if d.len() > 0 && all_digits(d) && dec_value(d) <= max {
        Some(dec_value(d))
    } else {
        None
    }
}

/// `str::parse::<u64>`.
pub open spec fn parse_u64(s: Seq<char>) -> Option<u64> {
    match parse_unsigned(s, u64::MAX as nat) {
        Some(n) => Some(n as u64),
        None => None,
    }
}

/// `str::parse::<u32>`.
pub open spec fn parse_u32(s: Seq<char>) -> Option<u32> {
    match parse_unsigned(s, u32::MAX as nat) {
        Some(n) => Some(n as u32),
        None => None,
    }
}

/// `str::parse::<u16>`.
pub open spec fn parse_u16(s: Seq<char>) -> Option<u16> {
    match parse_unsigned(s, u16::MAX as nat) {
        Some(n) => Some(n as u16),
        None => None,
    }
}

/// `str::parse::<i32>`: an optional sign, then at least one digit, in range.
pub open spec fn parse_i32(s: Seq<char>) -> Option<i32> {
    if s.len() > 0 && s[0] == '-' {
        let d = s.drop_first();
        if d.len() > 0 && all_digits(d) && dec_value(d) <= 0x8000_0000 {
            Some((0 - dec_value(d)) as i32)
        } else {
            None
        }
    } else {
        match parse_unsigned(s, i32::MAX as nat) {
            Some(n) => Some(n as i32),
            None => None,
        }
    }
}

pub open spec fn digit_char(d: nat) -> char {
    (d + '0' as u32) as char
}

/// Decimal representation of `n`, as written by `Display`.
pub open spec fn dec_string(n: nat) -> Seq<char>
    decreases n,
{
    if n < 10 {
        seq![digit_char(n)]
    } else {
        dec_string(n / 10).push(digit_char(n % 10))
    }
}

/// Decimal representation of a signed number.
pub open spec fn int_string(n: int) -> Seq<char> {
    if n < 0 {
        seq!['-'] + dec_string((0 - n) as nat)
    } else {
        dec_string(n as nat)
    }
}

// ──────────────────────────── executable code ─────────────────────────────

/// Appends `c` to `s` (`String::push`).
#[verifier::external_body]
fn string_push(s: &mut String, c: char)
    ensures
        final(s)@ == old(s)@.push(c),
{
    s.push(c);
}

/// What `str::to_lowercase` returns for a string: its lowercase equivalent
/// by the Unicode `Lowercase` property, which may differ in length.
pub uninterp spec fn lowercase(s: Seq<char>) -> Seq<char>;

/// Every character of `s` is ASCII.
pub open spec fn all_ascii(s: Seq<char>) -> bool {
    forall|i: int| 0 <= i < s.len() ==> (#[trigger] s[i] as u32) < 128
}

/// `s` with each of `A` to `Z` turned into `a` to `z`, the rest kept.
pub open spec fn ascii_lowercase(s: Seq<char>) -> Seq<char> {
    s.map_values(
        |c: char|
            if 'A' <= c && c <= 'Z' {
                ((c as u32) + 32) as char
            } else {
                c
            },
    )
}

/// `str::to_lowercase`. The contract names the result; of it, it states
/// only that an ASCII string is lower-cased character by character, `A` to
/// `Z` becoming `a` to `z` (the Unicode lowercase mappings of the ASCII
/// characters). What Unicode maps the other characters to is left unstated.
#[verifier::external_body]
pub(crate) fn to_lowercase(s: &str) -> (r: String)
    ensures
        r@ == lowercase(s@),
        all_ascii(s@) ==> r@ == ascii_lowercase(s@),
{
    s.to_lowercase()
}

/// Whether two strings are equal.
pub fn eq_strings(a: &String, b: &String) -> (r: bool)
    ensures
        r == (a@ == b@),
{
    let va = chars_of(a.as_str());
    let vb = chars_of(b.as_str());
    assert(va@.subrange(0, va@.len() as int) =~= va@);
    eq_range(&va, 0, va.len(), &vb)
}

/// Whether a string is the literal `lit`.
pub fn string_is(s: &String, lit: &str) -> (r: bool)
    ensures
        r == (s@ == lit@),
{
    let v = chars_of(s.as_str());
    assert(v@.subrange(0, v@.len() as int) =~= v@);
    eq_str(&v, 0, v.len(), lit)
}

/// Collects the characters of a string slice, in order.
pub fn chars_of(s: &str) -> (v: Vec<char>)
    ensures
        v@ == s@,
{
    let mut v: Vec<char> = Vec::new();
    for c in it: s.chars()
        invariant
            v@ == it.seq().take(it.index() as int),
    {
        v.push(c);
    }
    v
}

/// A `String` holding the characters `v[lo..hi]`.
pub fn string_of_range(v: &Vec<char>, lo: usize, hi: usize) -> (s: String)
    requires
        lo <= hi <= v.len(),
    ensures
        s@ == v@.subrange(lo as int, hi as int),
{
    let mut s = String::new();
    let mut i = lo;
    while i < hi
        invariant
            lo <= i <= hi <= v.len(),
            s@ == v@.subrange(lo as int, i as int),
        decreases hi - i,
    {
        string_push(&mut s, v[i]);
        assert(v@.subrange(lo as int, i + 1) =~= v@.subrange(lo as int, i as int).push(v@[i as int]));
        i += 1;
    }
    s
}

/// A `String` holding the characters of `v`.
pub fn string_of(v: &Vec<char>) -> (s: String)
    ensures
        s@ == v@,
{
    let s = string_of_range(v, 0, v.len());
    assert(v@.subrange(0, v@.len() as int) =~= v@);
    s
}

/// Appends `w` to `out`.
pub fn push_all(out: &mut Vec<char>, w: &Vec<char>)
    ensures
        final(out)@ == old(out)@ + w@,
{
    let mut i: usize = 0;
    while i < w.len()
        invariant
            i <= w.len(),
            out@ == old(out)@ + w@.take(i as int),
        decreases w.len() - i,
    {
        out.push(w[i]);
        assert(w@.take(i + 1) =~= w@.take(i as int).push(w@[i as int]));
        i += 1;
    }
    assert(w@.take(w.len() as int) =~= w@);
}

/// Appends the characters of `s` to `out`.
pub fn push_str(out: &mut Vec<char>, s: &str)
    ensures
        final(out)@ == old(out)@ + s@,
{
    let w = chars_of(s);
    push_all(out, &w);
}

/// Appends `v[lo..hi]` to `out`.
pub fn push_range(out: &mut Vec<char>, v: &Vec<char>, lo: usize, hi: usize)
    requires
        lo <= hi <= v.len(),
    ensures
        final(out)@ == old(out)@ + v@.subrange(lo as int, hi as int),
{
    let mut i = lo;
    while i < hi
        invariant
            lo <= i <= hi <= v.len(),
            out@ == old(out)@ + v@.subrange(lo as int, i as int),
        decreases hi - i,
    {
        out.push(v[i]);
        assert(v@.subrange(lo as int, i + 1) =~= v@.subrange(lo as int, i as int).push(v@[i as int]));
        i += 1;
    }
}

/// `char::is_whitespace`.
pub fn is_ws_char(c: char) -> (b: bool)
    ensures
        b == is_ws(c),
{
    let u = c as u32;
    (0x09 <= u && u <= 0x0D) || u == 0x20 || u == 0x85 || u == 0xA0 || u == 0x1680 || (0x2000
        <= u && u <= 0x200A) || u == 0x2028 || u == 0x2029 || u == 0x202F || u == 0x205F || u
        == 0x3000
}

/// The bounds of `trim(v[lo..hi])` inside `v`.
pub fn trim_range(v: &Vec<char>, lo: usize, hi: usize) -> (r: (usize, usize))
    requires
        lo <= hi <= v.len(),
    ensures
        lo <= r.0 <= r.1 <= hi,
        v@.subrange(r.0 as int, r.1 as int) == trim(v@.subrange(lo as int, hi as int)),
{
    let mut a = lo;
    while a < hi && is_ws_char(v[a])
        invariant
            lo <= a <= hi <= v.len(),
            trim_start(v@.subrange(lo as int, hi as int)) == trim_start(
                v@.subrange(a as int, hi as int),
            ),
        decreases hi - a,
    {
        assert(v@.subrange(a as int, hi as int).drop_first() =~= v@.subrange(a + 1, hi as int));
        a += 1;
    }
    assert(trim_start(v@.subrange(a as int, hi as int)) == v@.subrange(a as int, hi as int));
    let mut b = hi;
    while b > a && is_ws_char(v[b - 1])
        invariant
            lo <= a <= b <= hi <= v.len(),
            trim(v@.subrange(lo as int, hi as int)) == trim_end(v@.subrange(a as int, b as int)),
        decreases b - a,
    {
        assert(v@.subrange(a as int, b as int).drop_last() =~= v@.subrange(a as int, b - 1));
        b -= 1;
    }
    (a, b)
}

/// Whether `c` is one of the characters of `set`.
pub fn in_set(c: char, set: &Vec<char>) -> (b: bool)
    ensures
        b == set@.contains(c),
{
    let mut i: usize = 0;
    while i < set.len()
        invariant
            i <= set.len(),
            forall|k: int| 0 <= k < i ==> set@[k] != c,
        decreases set.len() - i,
    {
        if set[i] == c {
            return true;
        }
        i += 1;
    }
    false
}

/// The bounds of `trim_set(v[lo..hi], set)` inside `v`.
pub fn trim_set_range(v: &Vec<char>, lo: usize, hi: usize, set: &Vec<char>) -> (r: (usize, usize))
    requires
        lo <= hi <= v.len(),
    ensures
        lo <= r.0 <= r.1 <= hi,
        v@.subrange(r.0 as int, r.1 as int) == trim_set(v@.subrange(lo as int, hi as int), set@),
{
    let mut a = lo;
    while a < hi && in_set(v[a], set)
        invariant
            lo <= a <= hi <= v.len(),
            trim_start_set(v@.subrange(lo as int, hi as int), set@) == trim_start_set(
                v@.subrange(a as int, hi as int),
                set@,
            ),
        decreases hi - a,
    {
        assert(v@.subrange(a as int, hi as int).drop_first() =~= v@.subrange(a + 1, hi as int));
        a += 1;
    }
    assert(trim_start_set(v@.subrange(a as int, hi as int), set@) == v@.subrange(
        a as int,
        hi as int,
    ));
    let mut b = hi;
    while b > a && in_set(v[b - 1], set)
        invariant
            lo <= a <= b <= hi <= v.len(),
            trim_set(v@.subrange(lo as int, hi as int), set@) == trim_end_set(
                v@.subrange(a as int, b as int),
                set@,
            ),
        decreases b - a,
    {
        assert(v@.subrange(a as int, b as int).drop_last() =~= v@.subrange(a as int, b - 1));
        b -= 1;
    }
    (a, b)
}


/// The pieces of `v` that the index pairs of `r` delimit.
pub open spec fn ranges_view(v: Seq<char>, r: Seq<(usize, usize)>) -> Seq<Seq<char>> {
    r.map_values(|p: (usize, usize)| v.subrange(p.0 as int, p.1 as int))
}

/// Every index pair of `r` is an ordered range inside `lo..hi`.
pub open spec fn ranges_within(r: Seq<(usize, usize)>, lo: int, hi: int) -> bool {
    forall|k: int| 0 <= k < r.len() ==> lo <= (#[trigger] r[k]).0 <= r[k].1 <= hi
}

/// The whitespace-separated tokens of `v[lo..hi]`, as index ranges.
pub fn tokens_range(v: &Vec<char>, lo: usize, hi: usize) -> (r: Vec<(usize, usize)>)
    requires
        lo <= hi <= v.len(),
    ensures
        ranges_within(r@, lo as int, hi as int),
        ranges_view(v@, r@) == tokens(v@.subrange(lo as int, hi as int)),
{
    let mut r: Vec<(usize, usize)> = Vec::new();
    let mut i = lo;
    while i < hi
        invariant
            lo <= i <= hi <= v.len(),
            ranges_within(r@, lo as int, i as int),
            tokens(v@.subrange(lo as int, hi as int)) == ranges_view(v@, r@) + tokens(
                v@.subrange(i as int, hi as int),
            ),
        decreases hi - i,
    {
        let ghost s = v@.subrange(i as int, hi as int);
        if is_ws_char(v[i]) {
            assert(s.drop_first() =~= v@.subrange(i + 1, hi as int));
            i += 1;
        } else {
            let mut j = i;
            while j < hi && !is_ws_char(v[j])
                invariant
                    i <= j <= hi <= v.len(),
                    s == v@.subrange(i as int, hi as int),
                    word_len(s) == (j - i) + word_len(v@.subrange(j as int, hi as int)),
                decreases hi - j,
            {
                assert(v@.subrange(j as int, hi as int).drop_first() =~= v@.subrange(
                    j + 1,
                    hi as int,
                ));
                j += 1;
            }
            assert(word_len(s) == j - i);
            assert(s.take(j - i) =~= v@.subrange(i as int, j as int));
            assert(s.skip(j - i) =~= v@.subrange(j as int, hi as int));
            let ghost old_r = r@;
            r.push((i, j));
            assert(ranges_view(v@, r@) =~= ranges_view(v@, old_r) + seq![
                v@.subrange(i as int, j as int),
            ]);
            i = j;
        }
    }
    assert(tokens(v@.subrange(i as int, hi as int)) =~= Seq::<Seq<char>>::empty());
    assert(ranges_view(v@, r@) + Seq::<Seq<char>>::empty() =~= ranges_view(v@, r@));
    r
}

/// The lines of `v[lo..hi]` (see `lines`), as index ranges.
pub fn lines_range(v: &Vec<char>, lo: usize, hi: usize) -> (r: Vec<(usize, usize)>)
    requires
        lo <= hi <= v.len(),
    ensures
        ranges_within(r@, lo as int, hi as int),
        ranges_view(v@, r@) == lines(v@.subrange(lo as int, hi as int)),
{
    let mut r: Vec<(usize, usize)> = Vec::new();
    let mut start = lo;
    while start < hi
        invariant
            lo <= start <= hi <= v.len(),
            ranges_within(r@, lo as int, start as int),
            lines(v@.subrange(lo as int, hi as int)) == ranges_view(v@, r@) + lines(
                v@.subrange(start as int, hi as int),
            ),
        decreases hi - start,
    {
        let ghost s = v@.subrange(start as int, hi as int);
        let mut j = start;
        while j < hi && v[j] != '\n'
            invariant
                start <= j <= hi <= v.len(),
                s == v@.subrange(start as int, hi as int),
                find_char(s, '\n') == find_char_from(s, '\n', j - start),
            decreases hi - j,
        {
            j += 1;
        }
        let ghost old_r = r@;
        if j < hi {
            assert(find_char(s, '\n') == Some((j - start) as int));
            let e = if j > start && v[j - 1] == '\r' {
                j - 1
            } else {
                j
            };
            assert(s.take(j - start) =~= v@.subrange(start as int, j as int));
            assert(strip_cr(s.take(j - start)) =~= v@.subrange(start as int, e as int));
            assert(s.skip(j - start + 1) =~= v@.subrange(j + 1, hi as int));
            r.push((start, e));
            assert(ranges_view(v@, r@) =~= ranges_view(v@, old_r) + seq![
                v@.subrange(start as int, e as int),
            ]);
            start = j + 1;
        } else {
            assert(find_char(s, '\n') is None);
            r.push((start, hi));
            assert(ranges_view(v@, r@) =~= ranges_view(v@, old_r) + seq![s]);
            assert(lines(v@.subrange(hi as int, hi as int)) =~= Seq::<Seq<char>>::empty());
            start = hi;
        }
    }
    assert(lines(v@.subrange(start as int, hi as int)) =~= Seq::<Seq<char>>::empty());
    assert(ranges_view(v@, r@) + Seq::<Seq<char>>::empty() =~= ranges_view(v@, r@));
    r
}

/// Whether `p` occurs in `v` at position `i`.
pub fn occurs_at_exec(v: &Vec<char>, p: &Vec<char>, i: usize) -> (b: bool)
    ensures
        b == occurs_at(v@, p@, i as int),
{
    if i > v.len() || p.len() > v.len() - i {
        return false;
    }
    let mut k: usize = 0;
    while k < p.len()
        invariant
            i + p.len() <= v.len(),
            k <= p.len(),
            forall|m: int| 0 <= m < k ==> v@[i + m] == p@[m],
        decreases p.len() - k,
    {
        if v[i + k] != p[k] {
            assert(v@.subrange(i as int, i + p.len())[k as int] != p@[k as int]);
            return false;
        }
        k += 1;
    }
    assert(v@.subrange(i as int, i + p.len()) =~= p@);
    true
}

/// `find(v, p)`.
pub fn find_exec(v: &Vec<char>, p: &Vec<char>) -> (r: Option<usize>)
    ensures
        r matches Some(i) ==> find(v@, p@) == Some(i as int),
        r is None ==> find(v@, p@) is None,
{
    if p.len() > v.len() {
        return None;
    }
    let last = v.len() - p.len();
    let mut i: usize = 0;
    loop
        invariant
            i <= last,
            last + p.len() == v.len(),
            find(v@, p@) == find_from(v@, p@, i as int),
        decreases last - i,
    {
        if occurs_at_exec(v, p, i) {
            return Some(i);
        }
        if i == last {
            assert(find_from(v@, p@, i + 1) is None);
            return None;
        }
        i += 1;
    }
}

/// `rfind(v, p)`.
pub fn rfind_exec(v: &Vec<char>, p: &Vec<char>) -> (r: Option<usize>)
    ensures
        r matches Some(i) ==> rfind(v@, p@) == Some(i as int),
        r is None ==> rfind(v@, p@) is None,
{
    if p.len() > v.len() {
        return None;
    }
    let mut i: usize = v.len() - p.len();
    loop
        invariant
            i + p.len() <= v.len(),
            rfind(v@, p@) == rfind_from(v@, p@, i as int),
        decreases i,
    {
        if occurs_at_exec(v, p, i) {
            return Some(i);
        }
        if i == 0 {
            assert(rfind_from(v@, p@, -1) is None);
            return None;
        }
        i -= 1;
    }
}

/// Whether `v[lo..hi]` starts with `p`.
pub fn starts_with_range(v: &Vec<char>, lo: usize, hi: usize, p: &Vec<char>) -> (b: bool)
    requires
        lo <= hi <= v.len(),
    ensures
        b == starts_with(v@.subrange(lo as int, hi as int), p@),
{
    let ghost s = v@.subrange(lo as int, hi as int);
    if p.len() > hi - lo {
        return false;
    }
    let mut k: usize = 0;
    while k < p.len()
        invariant
            lo + p.len() <= hi <= v.len(),
            s == v@.subrange(lo as int, hi as int),
            k <= p.len(),
            forall|m: int| 0 <= m < k ==> v@[lo + m] == p@[m],
        decreases p.len() - k,
    {
        if v[lo + k] != p[k] {
            assert(s.take(p.len() as int)[k as int] != p@[k as int]);
            return false;
        }
        k += 1;
    }
    assert(s.take(p.len() as int) =~= p@);
    true
}

/// Whether `v[lo..hi]` equals `p`.
pub fn eq_range(v: &Vec<char>, lo: usize, hi: usize, p: &Vec<char>) -> (b: bool)
    requires
        lo <= hi <= v.len(),
    ensures
        b == (v@.subrange(lo as int, hi as int) == p@),
{
    if hi - lo != p.len() {
        return false;
    }
    let b = starts_with_range(v, lo, hi, p);
    assert(v@.subrange(lo as int, hi as int).take(p.len() as int) =~= v@.subrange(
        lo as int,
        hi as int,
    ));
    b
}

/// Whether `v[lo..hi]` equals the characters of `lit`.
pub fn eq_str(v: &Vec<char>, lo: usize, hi: usize, lit: &str) -> (b: bool)
    requires
        lo <= hi <= v.len(),
    ensures
        b == (v@.subrange(lo as int, hi as int) == lit@),
{
    let p = chars_of(lit);
    eq_range(v, lo, hi, &p)
}

/// Position of the first occurrence of `c` in `v[lo..hi]`, relative to `lo`.
pub fn find_char_range(v: &Vec<char>, lo: usize, hi: usize, c: char) -> (r: Option<usize>)
    requires
        lo <= hi <= v.len(),
    ensures
        r matches Some(i) ==> find_char(v@.subrange(lo as int, hi as int), c) == Some(i as int),
        r is None ==> find_char(v@.subrange(lo as int, hi as int), c) is None,
{
    let ghost s = v@.subrange(lo as int, hi as int);
    let mut j = lo;
    while j < hi
        invariant
            lo <= j <= hi <= v.len(),
            s == v@.subrange(lo as int, hi as int),
            find_char(s, c) == find_char_from(s, c, j - lo),
        decreases hi - j,
    {
        if v[j] == c {
            return Some(j - lo);
        }
        j += 1;
    }
    None
}

pub proof fn lemma_dec_value_prefix(s: Seq<char>, k: int)
    requires
        0 <= k <= s.len(),
    ensures
        dec_value(s.take(k)) <= dec_value(s),
    decreases s.len(),
{
    if k == s.len() {
        assert(s.take(k) =~= s);
    } else {
        lemma_dec_value_prefix(s.drop_last(), k);
        assert(s.drop_last().take(k) =~= s.take(k));
    }
}

pub proof fn lemma_dec_value_step(s: Seq<char>, k: int)
    requires
        0 <= k < s.len(),
    ensures
        dec_value(s.take(k + 1)) == dec_value(s.take(k)) * 10 + digit_value(s[k]),
{
    assert(s.take(k + 1).drop_last() =~= s.take(k));
}

/// The decimal representation of `n` is a non-empty string of digits whose
/// value is `n`.
pub proof fn lemma_dec_string(n: nat)
    ensures
        dec_string(n).len() > 0,
        all_digits(dec_string(n)),
        dec_value(dec_string(n)) == n,
    decreases n,
{
    if n < 10 {
        let c = digit_char(n);
        assert(c as u32 == n + 48);
        assert(dec_string(n).drop_last() =~= Seq::<char>::empty());
        assert(dec_value(Seq::<char>::empty()) == 0);
        assert(digit_value(c) == n);
        assert(dec_value(dec_string(n)) == dec_value(dec_string(n).drop_last()) * 10 + digit_value(c));
    } else {
        lemma_dec_string(n / 10);
        let c = digit_char(n % 10);
        assert(c as u32 == n % 10 + 48);
        let s = dec_string(n);
        assert(s.drop_last() =~= dec_string(n / 10));
        assert(s.last() == c);
        assert(digit_value(c) == n % 10);
        assert(dec_value(s) == dec_value(dec_string(n / 10)) * 10 + n % 10);
        assert((n / 10) * 10 + n % 10 == n) by (nonlinear_arith);
        assert forall|i: int| 0 <= i < s.len() implies is_digit(#[trigger] s[i]) by {
            if i < s.len() - 1 {
                assert(s[i] == dec_string(n / 10)[i]);
            }
        }
    }
}

/// Scanning the digits of a number that fits from position `k` gives it.
pub proof fn lemma_scan_digits(d: Seq<char>, max: nat, k: int)
    requires
        all_digits(d),
        dec_value(d) <= max,
        0 <= k <= d.len(),
    ensures
        scan_digits(d, max, k, dec_value(d.take(k))) == Ok::<nat, IntError>(dec_value(d)),
    decreases d.len() - k,
{
    if k == d.len() {
        assert(d.take(k) =~= d);
    } else {
        assert(is_digit(d[k]));
        lemma_dec_value_step(d, k);
        lemma_dec_value_prefix(d, k + 1);
        lemma_scan_digits(d, max, k + 1);
    }
}

/// Reading the decimal representation of a number that fits gives it back.
pub proof fn lemma_parse_dec_string(n: nat, max: nat)
    requires
        n <= max,
    ensures
        parse_unsigned_detailed(dec_string(n), max) == Ok::<nat, IntError>(n),
        parse_unsigned(dec_string(n), max) == Some(n),
{
    lemma_dec_string(n);
    let s = dec_string(n);
    assert(is_digit(s[0]));
    assert(unsigned_body(s) == s);
    assert(s.take(0) =~= Seq::<char>::empty());
    lemma_scan_digits(s, max, 0);
}

/// A text without whitespace at either end, followed by a newline, is
/// trimmed back to it.
pub proof fn lemma_trim_line(s: Seq<char>)
    requires
        s.len() > 0,
        !is_ws(s[0]),
        !is_ws(s.last()),
    ensures
        trim(s + seq!['\n']) == s,
{
    let t = s + seq!['\n'];
    assert(t[0] == s[0]);
    assert(trim_start(t) == t);
    assert(t.drop_last() =~= s);
    assert(trim_end(s) == s);
}

/// A number written out and followed by a newline is trimmed back to it.
pub proof fn lemma_trim_dec_line(n: nat)
    ensures
        trim(dec_string(n) + seq!['\n']) == dec_string(n),
{
    lemma_dec_string(n);
    let s = dec_string(n);
    let t = s + seq!['\n'];
    assert(t[0] == s[0]);
    assert(is_digit(s[0]) && is_digit(s.last()));
    assert(!is_ws(t[0]));
    assert(trim_start(t) == t);
    assert(t.drop_last() =~= s);
    assert(!is_ws(s.last()));
    assert(trim_end(s) == s);
}

/// `parse_unsigned(v[lo..hi], max)`.
pub fn parse_unsigned_range(v: &Vec<char>, lo: usize, hi: usize, max: u64) -> (r: Option<u64>)
    requires
        lo <= hi <= v.len(),
    ensures
        r matches Some(n) ==> parse_unsigned(v@.subrange(lo as int, hi as int), max as nat)
            == Some(n as nat),
        r is None ==> parse_unsigned(v@.subrange(lo as int, hi as int), max as nat) is None,
{
    let ghost s = v@.subrange(lo as int, hi as int);
    let mut a = lo;
    if a < hi && v[a] == '+' {
        a += 1;
    }
    let ghost d = unsigned_body(s);
    assert(d =~= v@.subrange(a as int, hi as int));
    if a == hi {
        return None;
    }
    let mut acc: u64 = 0;
    let mut k = a;
    while k < hi
        invariant
            lo <= a <= k <= hi <= v.len(),
            d == v@.subrange(a as int, hi as int),
            d == unsigned_body(v@.subrange(lo as int, hi as int)),
            forall|m: int| 0 <= m < k - a ==> is_digit(#[trigger] d[m]),
            acc as nat == dec_value(d.take(k - a)),
            acc <= max,
        decreases hi - k,
    {
        let c = v[k];
        assert(d[k - a] == c);
        if !('0' <= c && c <= '9') {
            assert(!is_digit(d[k - a]));
            assert(!all_digits(d));
            return None;
        }
        let dv = (c as u32 - '0' as u32) as u64;
        proof {
            lemma_dec_value_step(d, k - a);
        }
        if dv > max || acc > (max - dv) / 10 {
            proof {
                lemma_dec_value_prefix(d, k - a + 1);
                if dv <= max {
                    assert(acc * 10 + dv > max) by (nonlinear_arith)
                        requires
                            acc > (max - dv) / 10,
                            dv <= max,
                    ;
                }
            }
            return None;
        }
        assert(acc * 10 + dv <= max) by (nonlinear_arith)
            requires
                acc <= (max - dv) / 10,
                dv <= 9,
        ;
        acc = acc * 10 + dv;
        k += 1;
    }
    assert(d.take(hi - a) =~= d);
    assert(all_digits(d));
    Some(acc)
}

/// `str::parse::<u64>` on `v[lo..hi]`.
pub fn parse_u64_range(v: &Vec<char>, lo: usize, hi: usize) -> (r: Option<u64>)
    requires
        lo <= hi <= v.len(),
    ensures
        r == parse_u64(v@.subrange(lo as int, hi as int)),
{
    parse_unsigned_range(v, lo, hi, u64::MAX)
}

/// `str::parse::<u32>` on `v[lo..hi]`.
pub fn parse_u32_range(v: &Vec<char>, lo: usize, hi: usize) -> (r: Option<u32>)
    requires
        lo <= hi <= v.len(),
    ensures
        r == parse_u32(v@.subrange(lo as int, hi as int)),
{
    match parse_unsigned_range(v, lo, hi, u32::MAX as u64) {
        Some(n) => Some(n as u32),
        None => None,
    }
}

/// `str::parse::<u16>` on `v[lo..hi]`.
pub fn parse_u16_range(v: &Vec<char>, lo: usize, hi: usize) -> (r: Option<u16>)
    requires
        lo <= hi <= v.len(),
    ensures
        r == parse_u16(v@.subrange(lo as int, hi as int)),
{
    match parse_unsigned_range(v, lo, hi, u16::MAX as u64) {
        Some(n) => Some(n as u16),
        None => None,
    }
}

/// `str::parse::<i32>` on `v[lo..hi]`.
pub fn parse_i32_range(v: &Vec<char>, lo: usize, hi: usize) -> (r: Option<i32>)
    requires
        lo <= hi <= v.len(),
    ensures
        r == parse_i32(v@.subrange(lo as int, hi as int)),
{
    let ghost s = v@.subrange(lo as int, hi as int);
    if lo < hi && v[lo] == '-' {
        assert(s.drop_first() =~= v@.subrange(lo + 1, hi as int));
        if lo + 1 < hi && v[lo + 1] == '+' {
            // a second sign is not a digit
            assert(!is_digit(s.drop_first()[0]));
            return None;
        }
        assert(unsigned_body(s.drop_first()) == s.drop_first());
        match parse_unsigned_range(v, lo + 1, hi, 0x8000_0000) {
            Some(n) => Some((0 - (n as i64)) as i32),
            None => None,
        }
    } else {
        match parse_unsigned_range(v, lo, hi, i32::MAX as u64) {
            Some(n) => Some(n as i32),
            None => None,
        }
    }
}

/// Appends the decimal digits of `n` to `out`.
pub fn push_dec(out: &mut Vec<char>, n: u64)
    ensures
        final(out)@ == old(out)@ + dec_string(n as nat),
    decreases n,
{
    if n < 10 {
        out.push(((n as u8) + 48u8) as char);
        assert(old(out)@ + dec_string(n as nat) =~= old(out)@.push(((n as u8) + 48u8) as char));
    } else {
        push_dec(out, n / 10);
        out.push((((n % 10) as u8) + 48u8) as char);
        assert(old(out)@ + dec_string(n as nat) =~= old(out)@ + dec_string((n / 10) as nat) + seq![
            (((n % 10) as u8) + 48u8) as char,
        ]);
    }
}

/// Appends the decimal representation of the signed `n` to `out`.
pub fn push_int(out: &mut Vec<char>, n: i64)
    requires
        n > i64::MIN,
    ensures
        final(out)@ == old(out)@ + int_string(n as int),
{
    if n < 0 {
        out.push('-');
        push_dec(out, (0 - n) as u64);
        assert(old(out)@ + int_string(n as int) =~= old(out)@.push('-') + dec_string(
            (0 - n) as nat,
        ));
    } else {
        push_dec(out, n as u64);
    }
}

/// The decimal representation of `n` (`u64::to_string`).
pub fn u64_to_string(n: u64) -> (s: String)
    ensures
        s@ == dec_string(n as nat),
{
    let mut v: Vec<char> = Vec::new();
    push_dec(&mut v, n);
    assert(v@ =~= dec_string(n as nat));
    string_of(&v)
}

/// `str::trim` into a new `String`.
pub fn trim_string(s: &str) -> (r: String)
    ensures
        r@ == trim(s@),
{
    let v = chars_of(s);
    let (a, b) = trim_range(&v, 0, v.len());
    assert(v@.subrange(0, v@.len() as int) =~= v@);
    string_of_range(&v, a, b)
}

/// A `String` with the characters of `s` (`str::to_string`).
pub fn owned(s: &str) -> (r: String)
    ensures
        r@ == s@,
{
    s.to_owned()
}

/// The views of a sequence of strings.
pub open spec fn strings_view(v: Seq<String>) -> Seq<Seq<char>> {
    v.map_values(|s: String| s@)
}

/// Why `str::parse` rejected a number (`std::num::IntErrorKind`).
#[derive(Debug, Clone, Copy, PartialEq, Eq, Structural)]
pub enum IntError {
    Empty,
    InvalidDigit,
    PosOverflow,
    NegOverflow,
}

/// The message of a `ParseIntError` (its `Display`).
pub open spec fn int_error_text(e: IntError) -> Seq<char> {
    match e {
        IntError::Empty => "cannot parse integer from empty string"@,
        IntError::InvalidDigit => "invalid digit found in string"@,
        IntError::PosOverflow => "number too large to fit in target type"@,
        IntError::NegOverflow => "number too small to fit in target type"@,
    }
}

/// The digits of `d` from position `k` on, added to `acc`, up to `max`; the
/// first character that is not a digit, or the first digit that overflows,
/// is the error.
pub open spec fn scan_digits(d: Seq<char>, max: nat, k: int, acc: nat) -> Result<nat, IntError>
    decreases d.len() - k,
{
    if k < 0 || k >= d.len() {
        Ok(acc)
    } else if !is_digit(d[k]) {
        Err(IntError::InvalidDigit)
    } else if acc * 10 + digit_value(d[k]) > max {
        Err(IntError::PosOverflow)
    } else {
        scan_digits(d, max, k + 1, acc * 10 + digit_value(d[k]))
    }
}

/// `str::parse` for an unsigned integer type whose largest value is `max`,
/// with the reason of a failure.
pub open spec fn parse_unsigned_detailed(s: Seq<char>, max: nat) -> Result<nat, IntError> {
    if s.len() == 0 {
        Err(IntError::Empty)
    } else if s.len() == 1 && (s[0] == '+' || s[0] == '-') {
        Err(IntError::InvalidDigit)
    } else {
        scan_digits(unsigned_body(s), max, 0, 0)
    }
}

/// `parse_unsigned_detailed(v[lo..hi], max)`.
pub fn parse_unsigned_detailed_range(v: &Vec<char>, lo: usize, hi: usize, max: u64) -> (r: Result<
    u64,
    IntError,
>)
    requires
        lo <= hi <= v.len(),
    ensures
        r matches Ok(n) ==> parse_unsigned_detailed(v@.subrange(lo as int, hi as int), max as nat)
            == Ok::<nat, IntError>(n as nat),
        r matches Err(e) ==> parse_unsigned_detailed(v@.subrange(lo as int, hi as int), max as nat)
            == Err::<nat, IntError>(e),
{
    let ghost s = v@.subrange(lo as int, hi as int);
    if lo == hi {
        return Err(IntError::Empty);
    }
    if hi - lo == 1 && (v[lo] == '+' || v[lo] == '-') {
        return Err(IntError::InvalidDigit);
    }
    let mut a = lo;
    if v[a] == '+' {
        a += 1;
    }
    let ghost d = unsigned_body(s);
    assert(d =~= v@.subrange(a as int, hi as int));
    let mut acc: u64 = 0;
    let mut k = a;
    while k < hi
        invariant
            lo <= a <= k <= hi <= v.len(),
            d == v@.subrange(a as int, hi as int),
            parse_unsigned_detailed(s, max as nat) == scan_digits(d, max as nat, k - a, acc as nat),
            s == v@.subrange(lo as int, hi as int),
            acc <= max,
        decreases hi - k,
    {
        let c = v[k];
        assert(d[k - a] == c);
        if !('0' <= c && c <= '9') {
            return Err(IntError::InvalidDigit);
        }
        let dv = (c as u32 - '0' as u32) as u64;
        if dv > max || acc > (max - dv) / 10 {
            proof {
                if dv <= max {
                    assert(acc * 10 + dv > max) by (nonlinear_arith)
                        requires
                            acc > (max - dv) / 10,
                            dv <= max,
                    ;
                }
            }
            return Err(IntError::PosOverflow);
        }
        assert(acc * 10 + dv <= max) by (nonlinear_arith)
            requires
                acc <= (max - dv) / 10,
                dv <= 9,
        ;
        acc = acc * 10 + dv;
        k += 1;
    }
    Ok(acc)
}

/// The `Display` text of a parse error.
pub fn int_error_message(e: IntError) -> (s: String)
    ensures
        s@ == int_error_text(e),
{
    match e {
        IntError::Empty => owned("cannot parse integer from empty string"),
        IntError::InvalidDigit => owned("invalid digit found in string"),
        IntError::PosOverflow => owned("number too large to fit in target type"),
        IntError::NegOverflow => owned("number too small to fit in target type"),
    }
}

/// Appends the characters of `s` to `out`.
pub fn push_string(out: &mut Vec<char>, s: &String)
    ensures
        final(out)@ == old(out)@ + s@,
{
    push_str(out, s.as_str());
}

} // verus!
