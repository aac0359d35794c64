//! Text primitives: searching, splitting, trimming and decimal numbers.
//!
//! Every function works on `str` and `String` and is specified over the
//! sequence of characters that the text holds.
use vstd::prelude::*;
use vstd::string::*;
use vstd::utf8::*;
use crate::bytes::same_bytes;

verus! {

/// `String::push` appends one character to the text.
pub assume_specification[ String::push ](s: &mut String, c: char)
    ensures
        final(s)@ == old(s)@.push(c),
;

/// The text that stands for `bytes` once what is not UTF-8 has been replaced.
pub uninterp spec fn lossy_text(bytes: Seq<u8>) -> Seq<char>;

/// `std::str::from_utf8`: the text that `bytes` encode, where they are UTF-8.
#[verifier::external_body]
pub(crate) fn utf8_text(bytes: &[u8]) -> (text: Option<String>)
    ensures
        match text {
            Some(t) => valid_utf8(bytes@) && t@ == decode_utf8(bytes@),
            None => !valid_utf8(bytes@),
        },
{
    std::str::from_utf8(bytes).ok().map(str::to_owned)
}

/// `String::from_utf8_lossy`: the text that `bytes` encode, with replacement
/// characters for what is not UTF-8. Trusted: it depends on the bytes alone, and
/// nothing is replaced where the bytes are UTF-8. Which characters replace
/// malformed bytes is left unsaid.
#[verifier::external_body]
pub(crate) fn utf8_text_lossy(bytes: &[u8]) -> (text: String)
    ensures
        text@ == lossy_text(bytes@),
        valid_utf8(bytes@) ==> text@ == decode_utf8(bytes@),
{
    String::from_utf8_lossy(bytes).into_owned()
}

// ---------------------------------------------------------------------------
// Models
// ---------------------------------------------------------------------------
/// The text that bytes from a client are read as: what they encode where they are
/// UTF-8, else with replacements.
pub open spec fn text_of_bytes(bytes: Seq<u8>) -> Seq<char> {
    if valid_utf8(bytes) {
        decode_utf8(bytes)
    } else {
        lossy_text(bytes)
    }
}

/// `pattern` stands in `s` at index `i`.
pub open spec fn occurs_at<A>(s: Seq<A>, pattern: Seq<A>, i: int) -> bool {
    &&& 0 <= i
    &&& i + pattern.len() <= s.len()
    &&& s.subrange(i, i + pattern.len()) == pattern
}

/// The first index at or after `from` where `pattern` stands in `s`.
pub open spec fn find_from<A>(s: Seq<A>, pattern: Seq<A>, from: int) -> Option<int>
    decreases s.len() + 1 - from,
{
    if from < 0 || from + pattern.len() > s.len() {
        None
    } else if occurs_at(s, pattern, from) {
        Some(from)
    } else {
        find_from(s, pattern, from + 1)
    }
}

/// The first index where `pattern` stands in `s`.
pub open spec fn find<A>(s: Seq<A>, pattern: Seq<A>) -> Option<int> {
    find_from(s, pattern, 0)
}

/// `pattern` stands somewhere in `s`.
pub open spec fn contains<A>(s: Seq<A>, pattern: Seq<A>) -> bool {
    exists|i: int| occurs_at(s, pattern, i)
}

/// `s` begins with `pattern`.
pub open spec fn starts_with<A>(s: Seq<A>, pattern: Seq<A>) -> bool {
    occurs_at(s, pattern, 0)
}

/// The pieces of `s` between the separators, empty ones included.
pub open spec fn split_on<A>(s: Seq<A>, separator: Seq<A>) -> Seq<Seq<A>>
    decreases s.len(),
{
    match find(s, separator) {
        Some(i) if 0 <= i && 0 < separator.len() && i + separator.len() <= s.len() => {
            seq![s.take(i)] + split_on(s.skip(i + separator.len()), separator)
        },
        _ => seq![s],
    }
}

/// The pieces laid out one after the other with `separator` between them.
pub open spec fn join<A>(pieces: Seq<Seq<A>>, separator: Seq<A>) -> Seq<A>
    decreases pieces.len(),
{
    if pieces.len() == 0 {
        Seq::empty()
    } else if pieces.len() == 1 {
        pieces[0]
    } else {
        join(pieces.drop_last(), separator) + separator + pieces.last()
    }
}

/// The characters with the Unicode property `White_Space`.
pub open spec fn white_space(c: char) -> bool {
    let n = c as u32;
    ||| 0x09 <= n <= 0x0d
    ||| n == 0x20
    ||| n == 0x85
    ||| n == 0xa0
    ||| n == 0x1680
    ||| 0x2000 <= n <= 0x200a
    ||| n == 0x2028
    ||| n == 0x2029
    ||| n == 0x202f
    ||| n == 0x205f
    ||| n == 0x3000
}

/// `s` without its leading white space.
pub open spec fn trim_start(s: Seq<char>) -> Seq<char>
    decreases s.len(),
{
    if s.len() > 0 && white_space(s[0]) {
        trim_start(s.skip(1))
    } else {
        s
    }
}

/// `s` without its trailing white space.
pub open spec fn trim_end(s: Seq<char>) -> Seq<char>
    decreases s.len(),
{
    if s.len() > 0 && white_space(s.last()) {
        trim_end(s.drop_last())
    } else {
        s
    }
}

/// `s` without white space at either end.
pub open spec fn trim(s: Seq<char>) -> Seq<char> {
    trim_end(trim_start(s))
}

/// The number of characters of `s` before its first white space.
pub open spec fn word_len(s: Seq<char>) -> nat
    decreases s.len(),
{
    if s.len() == 0 || white_space(s[0]) {
        0
    } else {
        1 + word_len(s.skip(1))
    }
}

/// The maximal runs of `s` that hold no white space.
pub open spec fn words(s: Seq<char>) -> Seq<Seq<char>>
    decreases s.len(),
{
    if s.len() == 0 {
        Seq::empty()
    } else if white_space(s[0]) {
        words(s.skip(1))
    } else {
        let n = word_len(s);
        if 0 < n <= s.len() {
            seq![s.take(n as int)] + words(s.skip(n as int))
        } else {
            Seq::empty()
        }
    }
}

/// `c` with `A` to `Z` mapped to `a` to `z`.
pub open spec fn lower_char(c: char) -> char {
    if 'A' <= c && c <= 'Z' {
        ((c as u8) + 32) as u8 as char
    } else {
        c
    }
}

/// `c` with `a` to `z` mapped to `A` to `Z`.
pub open spec fn upper_char(c: char) -> char {
    if 'a' <= c && c <= 'z' {
        ((c as u8) - 32) as u8 as char
    } else {
        c
    }
}

/// `s` with the ASCII letters in lower case.
pub open spec fn lower(s: Seq<char>) -> Seq<char> {
    s.map_values(|c: char| lower_char(c))
}

/// `s` with the ASCII letters in upper case.
pub open spec fn upper(s: Seq<char>) -> Seq<char> {
    s.map_values(|c: char| upper_char(c))
}

/// `c` is one of `0` to `9`.
pub open spec fn is_digit(c: char) -> bool {
    '0' <= c && c <= '9'
}

/// The number that the digit `c` stands for.
pub open spec fn digit_value(c: char) -> nat {
    (c as u32 - '0' as u32) as nat
}

/// Every character of `s` is a digit.
pub open spec fn all_digits(s: Seq<char>) -> bool {
    forall|i: int| 0 <= i < s.len() ==> is_digit(#[trigger] s[i])
}

/// The number that a run of digits stands for in base ten.
pub open spec fn decimal_value(s: Seq<char>) -> nat
    decreases s.len(),
{
    if s.len() == 0 {
        0
    } else {
        10 * decimal_value(s.drop_last()) + digit_value(s.last())
    }
}

/// `s` without one leading `+`.
pub open spec fn without_plus(s: Seq<char>) -> Seq<char> {
    if s.len() > 0 && s[0] == '+' {
        s.skip(1)
    } else {
        s
    }
}

/// The unsigned number that `s` writes: digits, at least one, after at most one
/// `+`, for a number not above `max`.
pub open spec fn parse_unsigned(s: Seq<char>, max: nat) -> Option<nat> {
    let digits = without_plus(s);
    if digits.len() > 0 && all_digits(digits) && decimal_value(digits) <= max {
        Some(decimal_value(digits))
    } else {
        None
    }
}

/// The digit that stands for `n`.
pub open spec fn digit_char(n: nat) -> char {
    (48 + n % 10) as u8 as char
}

/// The decimal digits of `n`, without leading zeros.
pub open spec fn decimal(n: nat) -> Seq<char>
    decreases n,
{
    if n < 10 {
        seq![digit_char(n)]
    } else {
        decimal(n / 10).push(digit_char(n))
    }
}

/// The characters of each text.
pub open spec fn texts(list: Seq<String>) -> Seq<Seq<char>> {
    list.map_values(|s: String| s@)
}

/// The characters of a text that may be absent.
pub open spec fn optional_text(text: Option<String>) -> Option<Seq<char>> {
    match text {
        Some(s) => Some(s@),
        None => None,
    }
}

/// The characters of names and values.
pub open spec fn pair_views(pairs: Seq<(&str, &str)>) -> Seq<(Seq<char>, Seq<char>)> {
    pairs.map_values(|p: (&str, &str)| (p.0@, p.1@))
}

// ---------------------------------------------------------------------------
// Characters and whole texts
// ---------------------------------------------------------------------------
/// The characters of `s`, in order.
pub fn chars_of(s: &str) -> (out: Vec<char>)
    ensures
        out@ == s@,
{
    let mut out: Vec<char> = Vec::new();
    for c in iter: s.chars()
        invariant
            iter.seq() == s@,
            out@ == s@.take(iter.index() as int),
    {
        out.push(c);
        assert(out@ =~= s@.take(iter.index() + 1));
    }
    assert(out@ =~= s@);
    out
}

/// The text made of `chars[start..end]`.
pub fn text_of(chars: &[char], start: usize, end: usize) -> (out: String)
    requires
        start <= end <= chars@.len(),
    ensures
        out@ == chars@.subrange(start as int, end as int),
{
    let mut out = String::new();
    let mut i: usize = start;
    assert(out@ =~= chars@.subrange(start as int, start as int));
    while i < end
        invariant
            start <= i <= end <= chars@.len(),
            out@ == chars@.subrange(start as int, i as int),
        decreases end - i,
    {
        out.push(chars[i]);
        assert(out@ =~= chars@.subrange(start as int, i + 1));
        i += 1;
    }
    out
}

/// Whether two texts hold the same characters.
pub fn same_text(a: &str, b: &str) -> (same: bool)
    ensures
        same == (a@ == b@),
{
    let same = same_bytes(a.as_bytes(), b.as_bytes());
    proof {
        encode_utf8_decode_utf8(a@);
        encode_utf8_decode_utf8(b@);
    }
    same
}

// ---------------------------------------------------------------------------
// Searching and splitting
// ---------------------------------------------------------------------------
/// Whether `pattern` stands in `chars` at index `at`.
fn chars_at(chars: &[char], pattern: &[char], at: usize) -> (found: bool)
    requires
        at + pattern@.len() <= chars@.len(),
    ensures
        found == occurs_at(chars@, pattern@, at as int),
{
    let total: usize = chars.len();
    let mut i: usize = 0;
    while i < pattern.len()
        invariant
            i <= pattern@.len(),
            at + pattern@.len() <= chars@.len() == total,
            forall|j: int| 0 <= j < i ==> chars@[at + j] == pattern@[j],
        decreases pattern@.len() - i,
    {
        if chars[at + i] != pattern[i] {
            assert(chars@.subrange(at as int, at + pattern@.len())[i as int] != pattern@[i as int]);
            return false;
        }
        i += 1;
    }
    assert(chars@.subrange(at as int, at + pattern@.len()) =~= pattern@);
    true
}

/// The first index at or after `from` where `pattern` stands in `chars`.
pub fn find_chars(chars: &[char], pattern: &[char], from: usize) -> (found: Option<usize>)
    requires
        from <= chars@.len(),
    ensures
        match found {
            Some(i) => find_from(chars@, pattern@, from as int) == Some(i as int),
            None => find_from(chars@, pattern@, from as int) is None,
        },
{
    let mut i: usize = from;
    while pattern.len() <= chars.len() && i <= chars.len() - pattern.len()
        invariant
            from <= i <= chars@.len() + 1,
            find_from(chars@, pattern@, from as int) == find_from(chars@, pattern@, i as int),
        decreases chars@.len() + 1 - i,
    {
        if chars_at(chars, pattern, i) {
            return Some(i);
        }
        assert(0 < pattern@.len()) by {
            if pattern@.len() == 0 {
                assert(chars@.subrange(i as int, i as int) =~= pattern@);
            }
        }
        i += 1;
    }
    None
}

/// What `find_from` returns: the least index at which the pattern stands.
pub proof fn lemma_find_from<A>(s: Seq<A>, pattern: Seq<A>, from: int)
    requires
        0 <= from,
    ensures
        match find_from(s, pattern, from) {
            Some(i) => {
                &&& from <= i
                &&& occurs_at(s, pattern, i)
                &&& forall|j: int| from <= j < i ==> !#[trigger] occurs_at(s, pattern, j)
            },
            None => forall|j: int| from <= j ==> !#[trigger] occurs_at(s, pattern, j),
        },
    decreases s.len() + 1 - from,
{
    if from + pattern.len() <= s.len() && !occurs_at(s, pattern, from) {
        lemma_find_from(s, pattern, from + 1);
    }
}

/// Whether `pattern` stands somewhere in `s`.
pub fn contains_text(s: &str, pattern: &str) -> (found: bool)
    ensures
        found == contains(s@, pattern@),
{
    let chars = chars_of(s);
    let wanted = chars_of(pattern);
    proof {
        lemma_find_from(s@, pattern@, 0);
    }
    match find_chars(&chars, &wanted, 0) {
        Some(_) => true,
        None => false,
    }
}

/// Whether `s` begins with `pattern`.
pub fn starts_with_text(s: &str, pattern: &str) -> (found: bool)
    ensures
        found == starts_with(s@, pattern@),
{
    let chars = chars_of(s);
    let wanted = chars_of(pattern);
    wanted.len() <= chars.len() && chars_at(&chars, &wanted, 0)
}

/// The characters of `s` before and after the first `separator`.
pub open spec fn split_once(s: Seq<char>, separator: Seq<char>) -> Option<(Seq<char>, Seq<char>)> {
    match find(s, separator) {
        Some(i) => Some((s.take(i), s.skip(i + separator.len()))),
        None => None,
    }
}

/// Splits `s` at the first `separator`.
pub fn split_text_once(s: &str, separator: &str) -> (parts: Option<(String, String)>)
    ensures
        match parts {
            Some((left, right)) => split_once(s@, separator@) == Some((left@, right@)),
            None => split_once(s@, separator@) is None,
        },
{
    let chars = chars_of(s);
    let wanted = chars_of(separator);
    proof {
        lemma_find_from(s@, separator@, 0);
    }
    match find_chars(&chars, &wanted, 0) {
        Some(i) => {
            let total: usize = chars.len();
            let left = text_of(&chars, 0, i);
            let right = text_of(&chars, i + wanted.len(), total);
            assert(left@ =~= s@.take(i as int));
            assert(right@ =~= s@.skip(i + separator@.len()));
            Some((left, right))
        },
        None => None,
    }
}

proof fn lemma_find_shift<A>(s: Seq<A>, pattern: Seq<A>, base: int, from: int)
    requires
        0 <= base <= s.len(),
        0 <= from,
    ensures
        find_from(s, pattern, base + from) == match find_from(s.skip(base), pattern, from) {
            Some(i) => Some(base + i),
            None => None,
        },
    decreases s.len() + 1 - base - from,
{
    if base + from + pattern.len() <= s.len() {
        assert(s.subrange(base + from, base + from + pattern.len()) =~= s.skip(base).subrange(
            from,
            from + pattern.len(),
        ));
        if !occurs_at(s, pattern, base + from) {
            lemma_find_shift(s, pattern, base, from + 1);
        }
    }
}

/// The pieces of `s` between the separators, empty ones included.
pub fn split_text(s: &str, separator: &str) -> (pieces: Vec<String>)
    requires
        separator@.len() > 0,
    ensures
        texts(pieces@) == split_on(s@, separator@),
{
    let chars = chars_of(s);
    let wanted = chars_of(separator);
    let total: usize = chars.len();
    let mut pieces: Vec<String> = Vec::new();
    let mut start: usize = 0;
    assert(s@.skip(0) =~= s@);
    assert(texts(pieces@) + split_on(s@, separator@) =~= split_on(s@, separator@));
    loop
        invariant
            chars@ == s@,
            wanted@ == separator@,
            separator@.len() > 0,
            start <= chars@.len() == total,
            split_on(s@, separator@) == texts(pieces@) + split_on(
                s@.skip(start as int),
                separator@,
            ),
        decreases s@.len() - start,
    {
        let ghost rest = s@.skip(start as int);
        proof {
            lemma_find_shift(s@, separator@, start as int, 0);
            lemma_find_from(s@, separator@, start as int);
        }
        let ghost before = pieces@;
        match find_chars(&chars, &wanted, start) {
            Some(i) => {
                let piece = text_of(&chars, start, i);
                assert(piece@ =~= rest.take(i - start));
                pieces.push(piece);
                assert(rest.skip(i - start + separator@.len()) =~= s@.skip(i + separator@.len()));
                let ghost first = seq![rest.take(i - start)];
                start = i + wanted.len();
                assert(texts(pieces@) + split_on(s@.skip(start as int), separator@) =~= texts(before)
                    + (first + split_on(s@.skip(start as int), separator@)));
            },
            None => {
                let piece = text_of(&chars, start, total);
                assert(piece@ =~= rest);
                pieces.push(piece);
                assert(texts(pieces@) =~= texts(before) + seq![rest]);
                return pieces;
            },
        }
    }
}

/// Whether `c` has the Unicode property `White_Space`.
pub fn is_white_space(c: char) -> (white: bool)
    ensures
        white == white_space(c),
{
    let n: u32 = c as u32;
    (0x09 <= n && n <= 0x0d) || n == 0x20 || n == 0x85 || n == 0xa0 || n == 0x1680 || (0x2000 <= n
        && n <= 0x200a) || n == 0x2028 || n == 0x2029 || n == 0x202f || n == 0x205f || n == 0x3000
}

/// `s` without white space at either end.
pub fn trim_text(s: &str) -> (out: String)
    ensures
        out@ == trim(s@),
{
    let chars = chars_of(s);
    let mut start: usize = 0;
    assert(s@.skip(0) =~= s@);
    while start < chars.len() && is_white_space(chars[start])
        invariant
            chars@ == s@,
            start <= chars@.len(),
            trim_start(s@) == trim_start(s@.skip(start as int)),
        decreases chars@.len() - start,
    {
        assert(s@.skip(start as int).skip(1) =~= s@.skip(start + 1));
        start += 1;
    }
    let mut end: usize = chars.len();
    let ghost rest = s@.skip(start as int);
    assert(rest =~= s@.subrange(start as int, end as int));
    assert(trim_start(s@) == rest);
    while end > start && is_white_space(chars[end - 1])
        invariant
            chars@ == s@,
            start <= end <= chars@.len(),
            trim_end(rest) == trim_end(s@.subrange(start as int, end as int)),
        decreases end,
    {
        assert(s@.subrange(start as int, end as int).drop_last() =~= s@.subrange(
            start as int,
            end - 1,
        ));
        end -= 1;
    }
    text_of(&chars, start, end)
}

proof fn lemma_word_len(s: Seq<char>)
    ensures
        word_len(s) <= s.len(),
        s.len() > 0 && !white_space(s[0]) ==> word_len(s) > 0,
    decreases s.len(),
{
    if s.len() > 0 && !white_space(s[0]) {
        lemma_word_len(s.skip(1));
    }
}

/// The maximal runs of `s` that hold no white space.
pub fn words_of(s: &str) -> (out: Vec<String>)
    ensures
        texts(out@) == words(s@),
{
    let chars = chars_of(s);
    let mut out: Vec<String> = Vec::new();
    let mut start: usize = 0;
    assert(s@.skip(0) =~= s@);
    assert(texts(out@) + words(s@) =~= words(s@));
    while start < chars.len()
        invariant
            chars@ == s@,
            start <= chars@.len(),
            words(s@) == texts(out@) + words(s@.skip(start as int)),
        decreases chars@.len() - start,
    {
        let ghost rest = s@.skip(start as int);
        if is_white_space(chars[start]) {
            assert(rest.skip(1) =~= s@.skip(start + 1));
            start += 1;
        } else {
            let mut end: usize = start;
            while end < chars.len() && !is_white_space(chars[end])
                invariant
                    chars@ == s@,
                    start <= end <= chars@.len(),
                    rest == s@.skip(start as int),
                    word_len(rest) == end - start + word_len(s@.skip(end as int)),
                decreases chars@.len() - end,
            {
                assert(s@.skip(end as int).skip(1) =~= s@.skip(end + 1));
                end += 1;
            }
            proof {
                lemma_word_len(rest);
            }
            let ghost before = out@;
            let word = text_of(&chars, start, end);
            assert(word@ =~= rest.take(end - start));
            out.push(word);
            assert(rest.skip(end - start) =~= s@.skip(end as int));
            assert(texts(out@) + words(s@.skip(end as int)) =~= texts(before) + (seq![word@]
                + words(s@.skip(end as int))));
            start = end;
        }
    }
    assert(texts(out@) + words(s@.skip(start as int)) =~= texts(out@));
    out
}

// ---------------------------------------------------------------------------
// Letter case
// ---------------------------------------------------------------------------
/// `s` with the ASCII letters in lower case.
pub fn lower_text(s: &str) -> (out: String)
    ensures
        out@ == lower(s@),
{
    let chars = chars_of(s);
    let mut out = String::new();
    let mut i: usize = 0;
    while i < chars.len()
        invariant
            chars@ == s@,
            i <= chars@.len(),
            out@ == lower(s@.take(i as int)),
        decreases chars@.len() - i,
    {
        let c = chars[i];
        let mapped = if 'A' <= c && c <= 'Z' {
            (c as u8 + 32) as char
        } else {
            c
        };
        out.push(mapped);
        assert(out@ =~= lower(s@.take(i + 1)));
        i += 1;
    }
    assert(s@.take(i as int) =~= s@);
    out
}

/// `s` with the ASCII letters in upper case.
pub fn upper_text(s: &str) -> (out: String)
    ensures
        out@ == upper(s@),
{
    let chars = chars_of(s);
    let mut out = String::new();
    let mut i: usize = 0;
    while i < chars.len()
        invariant
            chars@ == s@,
            i <= chars@.len(),
            out@ == upper(s@.take(i as int)),
        decreases chars@.len() - i,
    {
        let c = chars[i];
        let mapped = if 'a' <= c && c <= 'z' {
            (c as u8 - 32) as char
        } else {
            c
        };
        out.push(mapped);
        assert(out@ =~= upper(s@.take(i + 1)));
        i += 1;
    }
    assert(s@.take(i as int) =~= s@);
    out
}

/// Whether two texts are equal up to the case of ASCII letters.
pub fn same_text_ignoring_case(a: &str, b: &str) -> (same: bool)
    ensures
        same == (lower(a@) == lower(b@)),
{
    let left = lower_text(a);
    let right = lower_text(b);
    same_text(left.as_str(), right.as_str())
}

// ---------------------------------------------------------------------------
// Numbers
// ---------------------------------------------------------------------------
proof fn lemma_decimal_value_prefix(s: Seq<char>, n: int)
    requires
        0 <= n <= s.len(),
    ensures
        decimal_value(s.take(n)) <= decimal_value(s),
    decreases s.len(),
{
    if n == s.len() {
        assert(s.take(n) =~= s);
    } else {
        assert(s.drop_last().take(n) =~= s.take(n));
        lemma_decimal_value_prefix(s.drop_last(), n);
    }
}

/// The unsigned number that `s` writes, where it is not above `max`.
pub fn parse_number(s: &str, max: u64) -> (number: Option<u64>)
    ensures
        match number {
            Some(n) => parse_unsigned(s@, max as nat) == Some(n as nat),
            None => parse_unsigned(s@, max as nat) is None,
        },
{
    let chars = chars_of(s);
    let start: usize = if chars.len() > 0 && chars[0] == '+' {
        1
    } else {
        0
    };
    let ghost digits = without_plus(s@);
    assert(digits =~= s@.skip(start as int));
    if start == chars.len() {
        return None;
    }
    let mut value: u64 = 0;
    let mut i: usize = start;
    while i < chars.len()
        invariant
            chars@ == s@,
            start <= i <= chars@.len(),
            digits == s@.skip(start as int),
            value <= max,
            digits == without_plus(s@),
            forall|j: int| 0 <= j < i - start ==> is_digit(#[trigger] digits[j]),
            value == decimal_value(digits.take(i - start)),
        decreases chars@.len() - i,
    {
        let c = chars[i];
        assert(digits[i - start] == c);
        if !('0' <= c && c <= '9') {
            return None;
        }
        let digit: u64 = (c as u8 - 48) as u64;
        proof {
            assert(digits.take(i + 1 - start).drop_last() =~= digits.take(i - start));
            lemma_decimal_value_prefix(digits, i + 1 - start);
        }
        if value > max / 10 || digit > max - value * 10 {
            return None;
        }
        value = value * 10 + digit;
        i += 1;
    }
    assert(digits.take(i - start) =~= digits);
    Some(value)
}

/// The decimal digits of `n`.
pub fn decimal_text(n: u64) -> (out: String)
    ensures
        out@ == decimal(n as nat),
{
    let mut digits: Vec<char> = Vec::new();
    let mut rest: u64 = n;
    while rest >= 10
        invariant
            decimal(n as nat) =~= decimal(rest as nat) + digits@.reverse(),
        decreases rest,
    {
        let ghost before = digits@;
        digits.push((48 + (rest % 10) as u8) as char);
        assert(digits@.reverse() =~= seq![digit_char(rest as nat)] + before.reverse());
        rest = rest / 10;
    }
    let ghost before = digits@;
    digits.push((48 + rest as u8) as char);
    assert(digits@.reverse() =~= seq![digit_char(rest as nat)] + before.reverse());
    let mut out = String::new();
    let mut left: usize = digits.len();
    while left > 0
        invariant
            left <= digits@.len(),
            decimal(n as nat) == digits@.reverse(),
            out@ == digits@.reverse().take(digits@.len() - left),
        decreases left,
    {
        left -= 1;
        out.push(digits[left]);
        assert(out@ =~= digits@.reverse().take(digits@.len() - left));
    }
    assert(out@ =~= digits@.reverse());
    out
}

pub(crate) proof fn lemma_decimal_digits(n: nat)
    ensures
        decimal(n).len() > 0,
        all_digits(decimal(n)),
        decimal_value(decimal(n)) == n,
    decreases n,
{
    assert(digit_value(digit_char(n)) == n % 10);
    assert(is_digit(digit_char(n)));
    if n < 10 {
        assert(decimal(n).drop_last() =~= Seq::empty());
        assert(decimal_value(Seq::empty()) == 0);
    } else {
        lemma_decimal_digits(n / 10);
        assert(decimal(n).drop_last() =~= decimal(n / 10));
    }
}

/// Reading back the decimal digits of a number gives the number.
pub proof fn parse_unsigned_of_decimal(n: nat, max: nat)
    requires
        n <= max,
    ensures
        parse_unsigned(decimal(n), max) == Some(n),
{
    lemma_decimal_digits(n);
    assert(is_digit(decimal(n)[0]));
    assert(without_plus(decimal(n)) == decimal(n));
}

// ---------------------------------------------------------------------------
// Joining
// ---------------------------------------------------------------------------
/// The texts laid out one after the other with `separator` between them.
pub fn join_texts(pieces: &Vec<String>, separator: &str) -> (out: String)
    ensures
        out@ == join(texts(pieces@), separator@),
{
    let mut out = String::new();
    let mut i: usize = 0;
    while i < pieces.len()
        invariant
            i <= pieces@.len(),
            out@ == join(texts(pieces@).take(i as int), separator@),
        decreases pieces@.len() - i,
    {
        let ghost all = texts(pieces@);
        if i > 0 {
            out.append(separator);
        }
        out.append(pieces[i].as_str());
        proof {
            assert(all.take(i + 1).drop_last() =~= all.take(i as int));
            if i == 0 {
                assert(out@ =~= all[0]);
            }
        }
        i += 1;
    }
    assert(texts(pieces@).take(i as int) =~= texts(pieces@));
    out
}

proof fn lemma_join_front<A>(pieces: Seq<Seq<A>>, separator: Seq<A>)
    requires
        pieces.len() > 1,
    ensures
        join(pieces, separator) == pieces[0] + separator + join(pieces.skip(1), separator),
    decreases pieces.len(),
{
    if pieces.len() == 2 {
        assert(pieces.drop_last().len() == 1);
        assert(join(pieces.drop_last(), separator) == pieces[0]);
        assert(join(pieces.skip(1), separator) == pieces[1]);
        assert(join(pieces, separator) =~= pieces[0] + separator + join(pieces.skip(1), separator));
    } else {
        lemma_join_front(pieces.drop_last(), separator);
        assert(pieces.drop_last().skip(1) =~= pieces.skip(1).drop_last());
        assert(join(pieces, separator) =~= pieces[0] + separator + join(pieces.skip(1), separator));
    }
}

/// Splitting loses nothing: joining the pieces with the separator gives the text
/// back, and no piece holds the separator.
pub proof fn joining_undoes_splitting<A>(s: Seq<A>, separator: Seq<A>)
    requires
        separator.len() > 0,
    ensures
        join(split_on(s, separator), separator) == s,
        split_on(s, separator).len() > 0,
        forall|k: int|
            0 <= k < split_on(s, separator).len() ==> !contains(
                #[trigger] split_on(s, separator)[k],
                separator,
            ),
    decreases s.len(),
{
    lemma_find_from(s, separator, 0);
    let pieces = split_on(s, separator);
    match find(s, separator) {
        Some(i) => {
            let rest = s.skip(i + separator.len());
            joining_undoes_splitting(rest, separator);
            lemma_join_front(pieces, separator);
            assert(pieces.skip(1) =~= split_on(rest, separator));
            assert(s.subrange(i, i + separator.len()) == separator);
            assert(s =~= s.take(i) + s.subrange(i, i + separator.len()) + rest);
            assert forall|k: int| 0 <= k < pieces.len() implies !contains(
                #[trigger] pieces[k],
                separator,
            ) by {
                if k == 0 {
                    if contains(s.take(i), separator) {
                        let j = choose|j: int| occurs_at(s.take(i), separator, j);
                        assert(s.take(i).subrange(j, j + separator.len()) =~= s.subrange(
                            j,
                            j + separator.len(),
                        ));
                        assert(occurs_at(s, separator, j));
                    }
                } else {
                    assert(pieces[k] == split_on(rest, separator)[k - 1]);
                }
            }
        },
        None => {
            assert(pieces =~= seq![s]);
            if contains(s, separator) {
                let j = choose|j: int| occurs_at(s, separator, j);
                assert(occurs_at(s, separator, j));
            }
        },
    }
}

proof fn lemma_trim_start(s: Seq<char>)
    ensures
        trim_start(s).len() <= s.len(),
        trim_start(s) == s.skip(s.len() - trim_start(s).len()),
        trim_start(s).len() > 0 ==> !white_space(trim_start(s)[0]),
    decreases s.len(),
{
    if s.len() > 0 && white_space(s[0]) {
        lemma_trim_start(s.skip(1));
        let n = s.skip(1).len() - trim_start(s).len();
        assert(s.skip(1).skip(n) =~= s.skip(n + 1));
    } else {
        assert(s.skip(0) =~= s);
    }
}

proof fn lemma_trim_end(s: Seq<char>)
    ensures
        trim_end(s).len() <= s.len(),
        trim_end(s) == s.take(trim_end(s).len() as int),
        trim_end(s).len() > 0 ==> !white_space(trim_end(s).last()),
    decreases s.len(),
{
    if s.len() > 0 && white_space(s.last()) {
        lemma_trim_end(s.drop_last());
        assert(s.drop_last().take(trim_end(s).len() as int) =~= s.take(trim_end(s).len() as int));
    } else {
        assert(s.take(s.len() as int) =~= s);
    }
}

/// A trimmed text neither begins nor ends with white space.
pub proof fn trimmed_text_has_no_outer_white_space(s: Seq<char>)
    ensures
        trim(s).len() > 0 ==> !white_space(trim(s)[0]) && !white_space(trim(s).last()),
{
    lemma_trim_start(s);
    lemma_trim_end(trim_start(s));
}

// ---------------------------------------------------------------------------
// Heads and bodies
// ---------------------------------------------------------------------------
/// The text holds no line feed.
pub open spec fn is_one_line(s: Seq<char>) -> bool {
    forall|i: int| 0 <= i < s.len() ==> #[trigger] s[i] != '\n'
}

/// The text is made of lines that are not empty, each with its line break: it ends
/// with a line feed, and no two line feeds are closer than a line break and one
/// more character.
pub(crate) open spec fn is_head(s: Seq<char>) -> bool {
    &&& s.len() >= 2
    &&& s[s.len() - 2] == '\r'
    &&& s[s.len() - 1] == '\n'
    &&& forall|i: int, j: int|
        0 <= i < j < s.len() && #[trigger] s[i] == '\n' && #[trigger] s[j] == '\n' ==> j - i >= 3
}

/// A line with its line break, on its own.
pub(crate) proof fn lemma_first_line(line: Seq<char>)
    requires
        is_one_line(line),
    ensures
        is_head(line + "\r\n"@),
{
    reveal_strlit("\r\n");
    let s = line + "\r\n"@;
    assert forall|i: int, j: int|
        0 <= i < j < s.len() && #[trigger] s[i] == '\n' && #[trigger] s[j] == '\n' implies j - i
        >= 3 by {
        if i < line.len() {
            assert(s[i] == line[i]);
        }
    }
}

/// One more line.
pub(crate) proof fn lemma_next_line(head: Seq<char>, line: Seq<char>)
    requires
        is_head(head),
        is_one_line(line),
        line.len() > 0,
    ensures
        is_head(head + line + "\r\n"@),
{
    reveal_strlit("\r\n");
    let s = head + line + "\r\n"@;
    assert forall|i: int, j: int|
        0 <= i < j < s.len() && #[trigger] s[i] == '\n' && #[trigger] s[j] == '\n' implies j - i
        >= 3 by {
        if i < head.len() {
            assert(s[i] == head[i]);
        } else if i < head.len() + line.len() {
            assert(s[i] == line[i - head.len()]);
        }
        if j < head.len() {
            assert(s[j] == head[j]);
        } else if j < head.len() + line.len() {
            assert(s[j] == line[j - head.len()]);
        }
    }
}

/// A reader that looks for the first blank line after a head finds what follows
/// it.
pub(crate) proof fn lemma_body_after_head(head: Seq<char>, body: Seq<char>)
    requires
        is_head(head),
    ensures
        split_once(head + "\r\n"@ + body, "\r\n\r\n"@) == Some(
            (head.take(head.len() - 2), body),
        ),
{
    reveal_strlit("\r\n");
    reveal_strlit("\r\n\r\n");
    let t = head + "\r\n"@ + body;
    let blank = "\r\n\r\n"@;
    let n = head.len() - 2;
    assert(t.subrange(n, n + 4) =~= blank);
    assert(occurs_at(t, blank, n));
    assert forall|i: int| 0 <= i < n implies !#[trigger] occurs_at(t, blank, i) by {
        if occurs_at(t, blank, i) {
            let here = t.subrange(i, i + 4);
            assert(here[1] == '\n' && here[3] == '\n');
            assert(t[i + 1] == here[1] && t[i + 3] == here[3]);
            assert(head[i + 1] == t[i + 1]);
            if i + 3 < head.len() {
                assert(head[i + 3] == t[i + 3]);
            }
        }
    }
    lemma_find_from(t, blank, 0);
    assert(t.take(n) =~= head.take(n));
    assert(t.skip(n + 4) =~= body);
}

proof fn lemma_find_break(line: Seq<char>, rest: Seq<char>)
    requires
        is_one_line(line),
    ensures
        find(line + "\r\n"@ + rest, "\r\n"@) == Some(line.len() as int),
        find(line, "\r\n"@) is None,
{
    reveal_strlit("\r\n");
    let s = line + "\r\n"@ + rest;
    let n = line.len() as int;
    assert(s.subrange(n, n + 2) =~= "\r\n"@);
    assert(occurs_at(s, "\r\n"@, n));
    assert forall|i: int| 0 <= i < n implies !#[trigger] occurs_at(s, "\r\n"@, i) by {
        if occurs_at(s, "\r\n"@, i) {
            assert(s.subrange(i, i + 2)[1] == '\n');
            assert(s[i + 1] == '\n');
            if i + 1 < n {
                assert(line[i + 1] == s[i + 1]);
            }
        }
    }
    lemma_find_from(s, "\r\n"@, 0);
    assert forall|i: int| 0 <= i implies !#[trigger] occurs_at(line, "\r\n"@, i) by {
        if occurs_at(line, "\r\n"@, i) {
            assert(line.subrange(i, i + 2)[1] == '\n');
            assert(line[i + 1] == '\n');
        }
    }
    lemma_find_from(line, "\r\n"@, 0);
}

/// Lines that were joined by line breaks are split again into the same lines.
pub proof fn splitting_undoes_joining(lines: Seq<Seq<char>>)
    requires
        lines.len() > 0,
        forall|i: int| 0 <= i < lines.len() ==> is_one_line(#[trigger] lines[i]),
    ensures
        split_on(join(lines, "\r\n"@), "\r\n"@) == lines,
    decreases lines.len(),
{
    reveal_strlit("\r\n");
    let first = lines[0];
    if lines.len() == 1 {
        lemma_find_break(first, Seq::empty());
        assert(split_on(first, "\r\n"@) =~= lines);
    } else {
        let others = lines.skip(1);
        let rest = join(others, "\r\n"@);
        assert forall|i: int| 0 <= i < others.len() implies is_one_line(#[trigger] others[i]) by {
            assert(others[i] == lines[i + 1]);
        }
        splitting_undoes_joining(others);
        lemma_join_front(lines, "\r\n"@);
        lemma_find_break(first, rest);
        let s = first + "\r\n"@ + rest;
        assert(s.take(first.len() as int) =~= first);
        assert(s.skip(first.len() as int + 2) =~= rest);
        assert(seq![first] + others =~= lines);
    }
}

// ---------------------------------------------------------------------------
// Words and pieces
// ---------------------------------------------------------------------------
/// The text is not empty and holds no white space.
pub open spec fn is_word(s: Seq<char>) -> bool {
    s.len() > 0 && forall|i: int| 0 <= i < s.len() ==> !white_space(#[trigger] s[i])
}

proof fn lemma_word_len_exact(word: Seq<char>, rest: Seq<char>)
    requires
        forall|i: int| 0 <= i < word.len() ==> !white_space(#[trigger] word[i]),
        rest.len() > 0 ==> white_space(rest[0]),
    ensures
        word_len(word + rest) == word.len(),
    decreases word.len(),
{
    let s = word + rest;
    if word.len() > 0 {
        assert(s[0] == word[0]);
        assert(s.skip(1) =~= word.skip(1) + rest);
        assert forall|i: int| 0 <= i < word.skip(1).len() implies !white_space(
            #[trigger] word.skip(1)[i],
        ) by {
            assert(word.skip(1)[i] == word[i + 1]);
        }
        lemma_word_len_exact(word.skip(1), rest);
    } else {
        assert(s =~= rest);
    }
}

/// A word that white space or the end follows is the first of the words.
pub(crate) proof fn lemma_words_front(word: Seq<char>, rest: Seq<char>)
    requires
        is_word(word),
        rest.len() > 0 ==> white_space(rest[0]),
    ensures
        words(word + rest) == seq![word] + words(rest),
{
    let s = word + rest;
    lemma_word_len_exact(word, rest);
    assert(s[0] == word[0]);
    assert(s.take(word.len() as int) =~= word);
    assert(s.skip(word.len() as int) =~= rest);
}

/// A space before the words does not count.
pub(crate) proof fn lemma_words_after_space(rest: Seq<char>)
    ensures
        words(seq![' '] + rest) == words(rest),
{
    let s = seq![' '] + rest;
    assert(s.skip(1) =~= rest);
    assert(white_space(s[0]));
}

/// Where a character stands for the first time.
pub(crate) proof fn lemma_find_char(front: Seq<char>, c: char, rest: Seq<char>)
    requires
        !front.contains(c),
    ensures
        find(front + seq![c] + rest, seq![c]) == Some(front.len() as int),
        split_once(front + seq![c] + rest, seq![c]) == Some((front, rest)),
        find(front, seq![c]) is None,
        split_once(front, seq![c]) is None,
{
    let s = front + seq![c] + rest;
    let n = front.len() as int;
    assert(s.subrange(n, n + 1) =~= seq![c]);
    assert(occurs_at(s, seq![c], n));
    assert forall|i: int| 0 <= i < n implies !#[trigger] occurs_at(s, seq![c], i) by {
        if occurs_at(s, seq![c], i) {
            assert(s.subrange(i, i + 1)[0] == c);
            assert(front[i] == c);
        }
    }
    lemma_find_from(s, seq![c], 0);
    assert forall|i: int| 0 <= i implies !#[trigger] occurs_at(front, seq![c], i) by {
        if occurs_at(front, seq![c], i) {
            assert(front.subrange(i, i + 1)[0] == c);
            assert(front[i] == c);
        }
    }
    lemma_find_from(front, seq![c], 0);
    assert(s.take(n) =~= front);
    assert(s.skip(n + 1) =~= rest);
}

/// Pieces that were joined by a character that none of them holds are split again into
/// the same pieces.
pub proof fn splitting_at_a_character_undoes_joining(pieces: Seq<Seq<char>>, c: char)
    requires
        pieces.len() > 0,
        forall|i: int| 0 <= i < pieces.len() ==> !(#[trigger] pieces[i]).contains(c),
    ensures
        split_on(join(pieces, seq![c]), seq![c]) == pieces,
    decreases pieces.len(),
{
    let first = pieces[0];
    assert(!pieces[0].contains(c));
    if pieces.len() == 1 {
        lemma_find_char(first, c, Seq::empty());
        assert(split_on(first, seq![c]) =~= pieces);
    } else {
        let others = pieces.skip(1);
        let rest = join(others, seq![c]);
        assert forall|i: int| 0 <= i < others.len() implies !(#[trigger] others[i]).contains(c) by {
            assert(others[i] == pieces[i + 1]);
        }
        splitting_at_a_character_undoes_joining(others, c);
        lemma_join_front(pieces, seq![c]);
        lemma_find_char(first, c, rest);
        let s = first + seq![c] + rest;
        assert(s.take(first.len() as int) =~= first);
        assert(s.skip(first.len() as int + 1) =~= rest);
        assert(seq![first] + others =~= pieces);
    }
}

/// The white space characters are those of Unicode.
pub proof fn white_space_is_that_of_unicode(c: char, white: bool)
    requires
        call_ensures(is_white_space, (c,), white),
    ensures
        c == ' ' || c == '\t' || c == '\n' || c == '\r' ==> white,
        ({
            let n = c as u32;
            &&& 0x21 <= n <= 0x84 ==> !white
            &&& n < 9 || 0x0e <= n < 0x20 ==> !white
            &&& n == 0x0b || n == 0x0c || n == 0x85 || n == 0xa0 || n == 0x1680 ==> white
            &&& 0x2000 <= n <= 0x200a || n == 0x2028 || n == 0x2029 || n == 0x202f || n == 0x205f || n
                == 0x3000 ==> white
            &&& n > 0x3000 ==> !white
        }),
{
}

/// Letters change their case by 32 places; all other characters stay.
pub proof fn cases_are_thirty_two_apart(s: &str, low: String, up: String, i: int)
    requires
        call_ensures(lower_text, (s,), low),
        call_ensures(upper_text, (s,), up),
        0 <= i < s@.len(),
    ensures
        low@.len() == s@.len() && up@.len() == s@.len(),
        0x41 <= s@[i] as u32 <= 0x5a ==> low@[i] as u32 == s@[i] as u32 + 32 && up@[i] == s@[i],
        0x61 <= s@[i] as u32 <= 0x7a ==> up@[i] as u32 == s@[i] as u32 - 32 && low@[i] == s@[i],
        !(0x41 <= s@[i] as u32 <= 0x5a) && !(0x61 <= s@[i] as u32 <= 0x7a) ==> low@[i] == s@[i]
            && up@[i] == s@[i],
{
}

/// A number is written in decimal digits without leading zeros, and read back from them;
/// one more digit at the end counts ten times what stands before and itself.
pub proof fn numbers_are_written_in_digits(
    n: u64,
    text: String,
    same: &str,
    max: u64,
    read: Option<u64>,
    longer: u64,
    more: String,
)
    requires
        call_ensures(decimal_text, (n,), text),
        same@ == text@,
        call_ensures(parse_number, (same, max), read),
        call_ensures(decimal_text, (longer,), more),
    ensures
        n < 10 ==> text@.len() == 1 && text@[0] as u32 == 48 + n,
        n <= max ==> read == Some(n),
        n > max ==> read is None,
        n > 0 && longer / 10 == n ==> more@ == text@.push(more@.last()) && more@.last() as u32 == 48
            + longer % 10,
{
    lemma_decimal_digits(n as nat);
    if n <= max {
        parse_unsigned_of_decimal(n as nat, max as nat);
    } else {
        assert(is_digit(decimal(n as nat)[0]));
        assert(without_plus(decimal(n as nat)) == decimal(n as nat));
    }
    if n > 0 && longer / 10 == n {
        assert(decimal(longer as nat) == decimal(longer as nat / 10).push(digit_char(longer as nat)));
        assert(longer as nat / 10 == n as nat);
    }
}

/// Trimming takes white space off both ends and nothing else.
pub proof fn trimming_takes_off_white_space(s: &str, out: String)
    requires
        call_ensures(trim_text, (s,), out),
    ensures
        out@.len() > 0 ==> !white_space(out@[0]) && !white_space(out@.last()),
        s@.len() > 0 && !white_space(s@[0]) && !white_space(s@.last()) ==> out@ == s@,
        exists|a: int, b: int|
            0 <= a <= b <= s@.len() && out@ == #[trigger] s@.subrange(a, b) && (forall|i: int|
                (0 <= i < a || b <= i < s@.len()) ==> white_space(#[trigger] s@[i])),
{
    trimmed_text_has_no_outer_white_space(s@);
    lemma_trim_start(s@);
    let start = trim_start(s@);
    lemma_trim_end(start);
    lemma_trimmed_off(s@);
    lemma_trimmed_end_off(start);
    let a = s@.len() - start.len();
    let b = a + out@.len();
    assert(out@ =~= s@.subrange(a, b));
    assert forall|i: int| (0 <= i < a || b <= i < s@.len()) implies white_space(
        #[trigger] s@[i],
    ) by {
        if i >= b {
            assert(s@[i] == start[i - a]);
        }
    }
    if s@.len() > 0 && !white_space(s@[0]) && !white_space(s@.last()) {
        if a > 0 {
            assert(white_space(s@[0]));
        }
        if b < s@.len() {
            assert(white_space(s@[s@.len() - 1]));
        }
        assert(s@.subrange(0, s@.len() as int) =~= s@);
    }
}

proof fn lemma_trimmed_off(s: Seq<char>)
    ensures
        forall|i: int|
            0 <= i < s.len() - trim_start(s).len() ==> white_space(#[trigger] s[i]),
    decreases s.len(),
{
    if s.len() > 0 && white_space(s[0]) {
        lemma_trimmed_off(s.skip(1));
        assert forall|i: int| 0 <= i < s.len() - trim_start(s).len() implies white_space(
            #[trigger] s[i],
        ) by {
            if i > 0 {
                assert(s[i] == s.skip(1)[i - 1]);
            }
        }
    }
}

proof fn lemma_trimmed_end_off(s: Seq<char>)
    ensures
        forall|i: int| trim_end(s).len() <= i < s.len() ==> white_space(#[trigger] s[i]),
    decreases s.len(),
{
    if s.len() > 0 && white_space(s.last()) {
        lemma_trimmed_end_off(s.drop_last());
        assert forall|i: int| trim_end(s).len() <= i < s.len() implies white_space(
            #[trigger] s[i],
        ) by {
            if i < s.len() - 1 {
                assert(s[i] == s.drop_last()[i]);
            }
        }
    }
}

/// A number may be written with one plus before its digits; anything else that is not a
/// digit, and nothing at all, makes it no number.
pub proof fn numbers_may_have_a_plus(
    n: u64,
    text: &str,
    max: u64,
    read: Option<u64>,
    other: &str,
    none: Option<u64>,
    i: int,
)
    requires
        call_ensures(parse_number, (text, max), read),
        text@ == seq!['+'] + decimal(n as nat),
        n <= max,
        call_ensures(parse_number, (other, max), none),
        other@.len() == 0 || 0 < i < other@.len() && !('0' <= other@[i] && other@[i] <= '9'),
    ensures
        read == Some(n),
        none is None,
{
    lemma_decimal_digits(n as nat);
    assert(text@.skip(1) =~= decimal(n as nat));
    if other@.len() > 0 {
        let digits = without_plus(other@);
        let at = i - (other@.len() - digits.len());
        assert(digits[at] == other@[i]);
        assert(!is_digit(digits[at]));
    }
}

/// Texts are the same without regard to case where each pair of characters is, up to the
/// case of letters.
pub proof fn case_does_not_count(a: &str, b: &str, same: bool, low: String, other: String)
    requires
        call_ensures(same_text_ignoring_case, (a, b), same),
        call_ensures(lower_text, (a,), low),
        call_ensures(lower_text, (b,), other),
    ensures
        same <==> low@ == other@,
{
}

/// What stands between separators is what splitting gives, and joining undoes it.
pub proof fn pieces_are_what_stands_between(
    s: &str,
    separator: &str,
    pieces: Vec<String>,
    joined: String,
)
    requires
        separator@.len() > 0,
        call_ensures(split_text, (s, separator), pieces),
        call_ensures(join_texts, (&pieces, separator), joined),
    ensures
        joined@ == s@,
        pieces@.len() > 0,
        forall|k: int|
            0 <= k < pieces@.len() ==> !contains((#[trigger] pieces@[k])@, separator@),
{
    joining_undoes_splitting(s@, separator@);
    let all = texts(pieces@);
    assert(all.len() == pieces@.len());
    assert forall|k: int| 0 <= k < pieces@.len() implies !contains(
        (#[trigger] pieces@[k])@,
        separator@,
    ) by {
        assert(all[k] == pieces@[k]@);
    }
}

} // verus!
