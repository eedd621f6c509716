//! Text as the exchange, the key-value store and the chat write it: decimal numerals, words,
//! prefixes and suffixes.

use vstd::prelude::*;

verus! {

/// The character of a decimal digit.
pub open spec fn digit_char(d: int) -> char {
    (48 + d) as char
}

/// Whether a character is one of the ten ASCII digits.
pub open spec fn is_digit(c: char) -> bool {
    '0' <= c && c <= '9'
}

/// The shortest decimal numeral of a number.
pub open spec fn digits(n: nat) -> Seq<char>
    decreases n,
{
    if n < 10 {
        seq![digit_char(n as int)]
    } else {
        digits(n / 10).push(digit_char((n % 10) as int))
    }
}

/// A run of zeros.
pub open spec fn zeros(n: nat) -> Seq<char> {
    Seq::new(n, |i: int| '0')
}

/// A numeral filled up with zeros on the left to a width.
pub open spec fn padded(n: nat, width: nat) -> Seq<char> {
    let s = digits(n);
    if s.len() < width {
        zeros((width - s.len()) as nat) + s
    } else {
        s
    }
}

/// The number that a run of digits writes.
pub open spec fn digits_value(s: Seq<char>) -> nat
    decreases s.len(),
{
    if s.len() == 0 {
        0
    } else {
        digits_value(s.drop_last()) * 10 + (s.last() as int - 48) as nat
    }
}

/// Whether every character is a digit.
pub open spec fn all_digits(s: Seq<char>) -> bool {
    forall|i: int| 0 <= i < s.len() ==> is_digit(#[trigger] s[i])
}

/// The number that a text writes: digits, with a plus sign in front of them or not.
pub open spec fn natural_of(s: Seq<char>) -> Option<nat> {
    let t = if s.len() > 0 && s[0] == '+' { s.skip(1) } else { s };
    if t.len() > 0 && all_digits(t) { Some(digits_value(t)) } else { None }
}

/// The number that a text writes, where it is no larger than `limit`.
pub open spec fn bounded_natural(s: Seq<char>, limit: int) -> Option<int> {
    match natural_of(s) {
        Some(n) => if n <= limit { Some(n as int) } else { None },
        None => None,
    }
}

/// A numeral is read back as the number that it was written for.
pub proof fn numeral_round_trip(n: nat)
    ensures
        natural_of(digits(n)) == Some(n),
{
    lemma_digits(n);
    assert(digits(n)[0] != '+');
}

proof fn lemma_digits(n: nat)
    ensures
        digits(n).len() > 0,
        all_digits(digits(n)),
        digits_value(digits(n)) == n,
    decreases n,
{
    reveal_with_fuel(digits_value, 2);
    if n < 10 {
        assert(digits(n).drop_last() =~= Seq::<char>::empty());
    } else {
        lemma_digits(n / 10);
        assert(digits(n).drop_last() =~= digits(n / 10));
    }
}

proof fn lemma_value_grows(s: Seq<char>, i: int)
    requires
        0 <= i <= s.len(),
    ensures
        digits_value(s.take(i)) <= digits_value(s),
    decreases s.len() - i,
{
    if i < s.len() {
        lemma_value_grows(s, i + 1);
        assert(s.take(i + 1).drop_last() =~= s.take(i));
    } else {
        assert(s.take(i) =~= s);
    }
}

/// `String::push`: the character is put behind the text.
pub assume_specification[ String::push ](s: &mut String, c: char)
    ensures
        final(s)@ == old(s)@.push(c),
;

/// The characters of a text, one by one.
pub fn chars_of(s: &str) -> (r: Vec<char>)
    ensures
        r@ == s@,
{
    let mut r: Vec<char> = Vec::new();
    for c in it: s.chars()
        invariant
            r@ == it.seq().take(it.index() as int),
            it.seq() == s@,
    {
        r.push(c);
    }
    r
}

/// The text made of these characters.
pub fn text_of(v: &[char]) -> (r: String)
    ensures
        r@ == v@,
{
    let mut r = String::new();
    let mut i: usize = 0;
    while i < v.len()
        invariant
            i <= v.len(),
            r@ == v@.take(i as int),
        decreases v.len() - i,
    {
        r.push(v[i]);
        i = i + 1;
    }
    r
}

/// Whether two texts are the same.
pub fn same(a: &str, b: &str) -> (r: bool)
    ensures
        r == (a@ == b@),
{
    a.to_string() == b.to_string()
}

/// The decimal numeral of a number.
pub fn number_text(n: u128) -> (r: String)
    ensures
        r@ == digits(n as nat),
    decreases n,
{
    let last: u8 = (n % 10) as u8;
    let c: char = (48 + last) as char;
    if n < 10 {
        let mut r = String::new();
        r.push(c);
        r
    } else {
        let mut r = number_text(n / 10);
        r.push(c);
        r
    }
}

/// The decimal numeral of a number, filled up with zeros on the left to a width.
pub fn padded_text(n: u128, width: usize) -> (r: String)
    ensures
        r@ == padded(n as nat, width as nat),
{
    let s = number_text(n);
    let len: usize = s.as_str().unicode_len();
    let mut r = String::new();
    let mut i: usize = len;
    while i < width
        invariant
            r@ == zeros((i - len) as nat),
            len <= i,
            i <= width || i == len,
        decreases width - i,
    {
        r.push('0');
        i = i + 1;
    }
    let r = r.concat(s.as_str());
    r
}

/// Reads a text as a number no larger than `limit`.
fn parse_bounded(s: &str, limit: u128) -> (r: Option<u128>)
    requires
        limit <= 0xffff_ffff_ffff_ffff,
    ensures
        match r {
            Some(n) => bounded_natural(s@, limit as int) == Some(n as int),
            None => bounded_natural(s@, limit as int) is None,
        },
{
    let v = chars_of(s);
    let start: usize = if v.len() > 0 && v[0] == '+' { 1 } else { 0 };
    let ghost t = if s@.len() > 0 && s@[0] == '+' { s@.skip(1) } else { s@ };
    assert(t =~= s@.skip(start as int));
    if v.len() == start {
        return None;
    }
    let mut n: u128 = 0;
    let mut i: usize = start;
    while i < v.len()
        invariant
            start <= i <= v.len(),
            v@ == s@,
            t == s@.skip(start as int),
            n == digits_value(t.take(i - start)),
            n <= limit,
            limit <= 0xffff_ffff_ffff_ffff,
            forall|j: int| 0 <= j < i - start ==> is_digit(#[trigger] t[j]),
            t.len() > 0,
            t == (if s@.len() > 0 && s@[0] == '+' { s@.skip(1) } else { s@ }),
        decreases v.len() - i,
    {
        let c = v[i];
        assert(t[i - start] == c);
        if c < '0' || c > '9' {
            assert(!is_digit(t[i - start]));
            return None;
        }
        let d: u128 = c as u128 - 48;
        assert(t.take(i + 1 - start).drop_last() =~= t.take(i - start));
        n = n * 10 + d;
        if n > limit {
            proof {
                lemma_value_grows(t, i + 1 - start);
            }
            return None;
        }
        i = i + 1;
    }
    assert(t.take(i - start) =~= t);
    Some(n)
}

/// Reads a text as a number of 64 bits.
pub fn parse_u64(s: &str) -> (r: Option<u64>)
    ensures
        match r {
            Some(n) => bounded_natural(s@, u64::MAX as int) == Some(n as int),
            None => bounded_natural(s@, u64::MAX as int) is None,
        },
{
    match parse_bounded(s, 0xffff_ffff_ffff_ffff) {
        Some(n) => Some(n as u64),
        None => None,
    }
}

/// Reads a text as a number of 32 bits.
pub fn parse_u32(s: &str) -> (r: Option<u32>)
    ensures
        match r {
            Some(n) => bounded_natural(s@, u32::MAX as int) == Some(n as int),
            None => bounded_natural(s@, u32::MAX as int) is None,
        },
{
    match parse_bounded(s, 0xffff_ffff) {
        Some(n) => Some(n as u32),
        None => None,
    }
}

/// Reads a text as a number of the machine's size.
pub fn parse_usize(s: &str) -> (r: Option<usize>)
    ensures
        match r {
            Some(n) => bounded_natural(s@, usize::MAX as int) == Some(n as int),
            None => bounded_natural(s@, usize::MAX as int) is None,
        },
{
    match parse_bounded(s, usize::MAX as u128) {
        Some(n) => Some(n as usize),
        None => None,
    }
}

/// Whether a text stands in another at a place.
pub open spec fn stands_at(hay: Seq<char>, needle: Seq<char>, at: int) -> bool {
    0 <= at && at + needle.len() <= hay.len() && hay.subrange(at, at + needle.len()) == needle
}

/// Whether a text holds another.
pub open spec fn holds(hay: Seq<char>, needle: Seq<char>) -> bool {
    exists|at: int| stands_at(hay, needle, at)
}

/// Whether a text starts with another.
pub open spec fn starts(s: Seq<char>, prefix: Seq<char>) -> bool {
    stands_at(s, prefix, 0)
}

/// Whether a text ends with another.
pub open spec fn ends(s: Seq<char>, suffix: Seq<char>) -> bool {
    stands_at(s, suffix, s.len() - suffix.len())
}

fn check_at(hay: &Vec<char>, needle: &Vec<char>, at: usize) -> (r: bool)
    ensures
        r == stands_at(hay@, needle@, at as int),
{
    if at > hay.len() || needle.len() > hay.len() - at {
        return false;
    }
    let mut i: usize = 0;
    while i < needle.len()
        invariant
            i <= needle.len(),
            at + needle.len() <= hay.len(),
            forall|j: int| 0 <= j < i ==> hay@[at + j] == #[trigger] needle@[j],
        decreases needle.len() - i,
    {
        if hay[at + i] != needle[i] {
            assert(hay@.subrange(at as int, at + needle.len())[i as int] == hay@[at + i]);
            return false;
        }
        i = i + 1;
    }
    assert(hay@.subrange(at as int, at + needle.len()) =~= needle@);
    true
}

/// Whether a text holds another.
pub fn contains(hay: &str, needle: &str) -> (r: bool)
    ensures
        r == holds(hay@, needle@),
{
    let h = chars_of(hay);
    let n = chars_of(needle);
    let mut at: usize = 0;
    while at <= h.len()
        invariant
            at <= h.len() + 1,
            h@ == hay@,
            n@ == needle@,
            forall|k: int| 0 <= k < at ==> !#[trigger] stands_at(hay@, needle@, k),
        decreases h.len() + 1 - at,
    {
        if check_at(&h, &n, at) {
            return true;
        }
        if at == h.len() {
            return false;
        }
        at = at + 1;
    }
    false
}

/// Whether a text starts with another.
pub fn starts_with(s: &str, prefix: &str) -> (r: bool)
    ensures
        r == starts(s@, prefix@),
{
    check_at(&chars_of(s), &chars_of(prefix), 0)
}

/// Whether a text ends with another.
pub fn ends_with(s: &str, suffix: &str) -> (r: bool)
    ensures
        r == ends(s@, suffix@),
{
    let v = chars_of(s);
    let t = chars_of(suffix);
    if t.len() > v.len() {
        return false;
    }
    check_at(&v, &t, v.len() - t.len())
}

/// Whether a character is white space.
pub open spec fn white(c: char) -> bool {
    ||| '\u{9}' <= c && c <= '\u{d}'
    ||| c == ' '
    ||| c == '\u{85}'
    ||| c == '\u{a0}'
    ||| c == '\u{1680}'
    ||| '\u{2000}' <= c && c <= '\u{200a}'
    ||| c == '\u{2028}'
    ||| c == '\u{2029}'
    ||| c == '\u{202f}'
    ||| c == '\u{205f}'
    ||| c == '\u{3000}'
}

fn is_white(c: char) -> (r: bool)
    ensures
        r == white(c),
{
    ('\u{9}' <= c && c <= '\u{d}') || c == ' ' || c == '\u{85}' || c == '\u{a0}' || c == '\u{1680}'
        || ('\u{2000}' <= c && c <= '\u{200a}') || c == '\u{2028}' || c == '\u{2029}' || c
        == '\u{202f}' || c == '\u{205f}' || c == '\u{3000}'
}

/// A text without the white space at its start.
pub open spec fn trim_start(s: Seq<char>) -> Seq<char>
    decreases s.len(),
{
    if s.len() > 0 && white(s[0]) { trim_start(s.skip(1)) } else { s }
}

/// A text without the white space at its end.
pub open spec fn trim_end(s: Seq<char>) -> Seq<char>
    decreases s.len(),
{
    if s.len() > 0 && white(s.last()) { trim_end(s.drop_last()) } else { s }
}

/// A text without the white space around it.
pub open spec fn trimmed(s: Seq<char>) -> Seq<char> {
    trim_end(trim_start(s))
}

/// A text without the white space around it.
pub fn trim(s: &str) -> (r: String)
    ensures
        r@ == trimmed(s@),
{
    let v = chars_of(s);
    let mut a: usize = 0;
    assert(s@.skip(0) =~= s@);
    while a < v.len() && is_white(v[a])
        invariant
            a <= v.len(),
            v@ == s@,
            trim_start(s@) == trim_start(s@.skip(a as int)),
        decreases v.len() - a,
    {
        assert(s@.skip(a as int).skip(1) =~= s@.skip(a + 1));
        a = a + 1;
    }
    let ghost t = s@.skip(a as int);
    assert(trim_start(s@) == t);
    let mut b: usize = v.len();
    assert(t.take(b - a) =~= t);
    while b > a && is_white(v[b - 1])
        invariant
            a <= b <= v.len(),
            v@ == s@,
            t == s@.skip(a as int),
            trim_end(t) == trim_end(t.take(b - a)),
        decreases b,
    {
        assert(t.take(b - a).drop_last() =~= t.take(b - 1 - a));
        assert(t.take(b - a).last() == s@[b - 1]);
        b = b - 1;
    }
    if b > a {
        assert(t.take(b - a).last() == s@[b - 1]);
    }
    let mut r = String::new();
    let mut i: usize = a;
    while i < b
        invariant
            a <= i <= b <= v.len(),
            v@ == s@,
            r@ == s@.subrange(a as int, i as int),
        decreases b - i,
    {
        r.push(v[i]);
        assert(s@.subrange(a as int, i + 1) =~= s@.subrange(a as int, i as int).push(s@[i as int]));
        i = i + 1;
    }
    assert(s@.subrange(a as int, b as int) =~= t.take(b - a));
    r
}

/// A word, where there is one.
pub open spec fn one_word(word: Seq<char>) -> Seq<Seq<char>> {
    if word.len() > 0 { seq![word] } else { Seq::empty() }
}

/// The words of a text from a place on, the first of them started already.
pub open spec fn words_from(s: Seq<char>, i: int, word: Seq<char>) -> Seq<Seq<char>>
    decreases s.len() - i,
{
    if i < 0 || i >= s.len() {
        one_word(word)
    } else if white(s[i]) {
        one_word(word) + words_from(s, i + 1, Seq::empty())
    } else {
        words_from(s, i + 1, word.push(s[i]))
    }
}

/// The words of a text: what white space keeps apart.
pub open spec fn words_of(s: Seq<char>) -> Seq<Seq<char>> {
    words_from(s, 0, Seq::empty())
}

/// Texts as what they hold.
pub open spec fn texts(v: Seq<String>) -> Seq<Seq<char>> {
    v.map_values(|s: String| s@)
}

/// The words of a text.
pub fn words(s: &str) -> (r: Vec<String>)
    ensures
        texts(r@) == words_of(s@),
{
    let v = chars_of(s);
    let mut out: Vec<String> = Vec::new();
    let mut word = String::new();
    let mut i: usize = 0;
    assert(texts(out@) =~= Seq::empty());
    assert(texts(out@) + words_from(s@, 0, word@) =~= words_of(s@));
    while i < v.len()
        invariant
            i <= v.len(),
            v@ == s@,
            texts(out@) + words_from(s@, i as int, word@) == words_of(s@),
        decreases v.len() - i,
    {
        let ghost before = texts(out@);
        if is_white(v[i]) {
            let ghost w = word@;
            if !word.as_str().is_empty() {
                out.push(word);
            }
            word = String::new();
            assert(texts(out@) =~= before + one_word(w));
            assert(texts(out@) + words_from(s@, i + 1, Seq::empty()) =~= before + (one_word(w)
                + words_from(s@, i + 1, Seq::empty())));
        } else {
            word.push(v[i]);
        }
        i = i + 1;
    }
    let ghost before = texts(out@);
    let ghost w = word@;
    if !word.as_str().is_empty() {
        out.push(word);
    }
    assert(texts(out@) =~= before + one_word(w));
    out
}

/// A text with a character taken out wherever it stands.
pub open spec fn without(s: Seq<char>, c: char) -> Seq<char>
    decreases s.len(),
{
    if s.len() == 0 {
        s
    } else if s.last() == c {
        without(s.drop_last(), c)
    } else {
        without(s.drop_last(), c).push(s.last())
    }
}

/// A text with a character taken out wherever it stands.
pub fn remove_char(s: &str, c: char) -> (r: String)
    ensures
        r@ == without(s@, c),
{
    let v = chars_of(s);
    let mut r = String::new();
    let mut i: usize = 0;
    while i < v.len()
        invariant
            i <= v.len(),
            v@ == s@,
            r@ == without(s@.take(i as int), c),
        decreases v.len() - i,
    {
        assert(s@.take(i + 1).drop_last() =~= s@.take(i as int));
        if v[i] != c {
            r.push(v[i]);
        }
        i = i + 1;
    }
    assert(s@.take(i as int) =~= s@);
    r
}

/// A text without a prefix, taken off as often as it stands there.
pub open spec fn stripped(s: Seq<char>, prefix: Seq<char>) -> Seq<char>
    decreases s.len(),
{
    if prefix.len() > 0 && starts(s, prefix) {
        stripped(s.skip(prefix.len() as int), prefix)
    } else {
        s
    }
}

/// A text without a prefix, taken off as often as it stands there.
pub fn strip_prefixes(s: &str, prefix: &str) -> (r: String)
    ensures
        r@ == stripped(s@, prefix@),
{
    let v = chars_of(s);
    let p = chars_of(prefix);
    let mut at: usize = 0;
    assert(s@.skip(0) =~= s@);
    while p.len() > 0 && check_at(&v, &p, at)
        invariant
            at <= v.len(),
            v@ == s@,
            p@ == prefix@,
            stripped(s@, prefix@) == stripped(s@.skip(at as int), prefix@),
        decreases v.len() - at,
    {
        proof {
            assert(s@.skip(at as int).subrange(0, prefix@.len() as int) =~= s@.subrange(
                at as int,
                at + prefix@.len(),
            ));
            assert(s@.skip(at as int).skip(prefix@.len() as int) =~= s@.skip(at + prefix@.len()));
        }
        at = at + p.len();
    }
    proof {
        if starts(s@.skip(at as int), prefix@) {
            assert(s@.skip(at as int).subrange(0, prefix@.len() as int) =~= s@.subrange(
                at as int,
                at + prefix@.len(),
            ));
        }
    }
    let mut r = String::new();
    let mut i: usize = at;
    while i < v.len()
        invariant
            at <= i <= v.len(),
            v@ == s@,
            r@ == s@.subrange(at as int, i as int),
        decreases v.len() - i,
    {
        r.push(v[i]);
        assert(s@.subrange(at as int, i + 1) =~= s@.subrange(at as int, i as int).push(
            s@[i as int],
        ));
        i = i + 1;
    }
    assert(s@.subrange(at as int, v.len() as int) =~= s@.skip(at as int));
    r
}

/// A text without a suffix, taken off as often as it stands there.
pub open spec fn stripped_end(s: Seq<char>, suffix: Seq<char>) -> Seq<char>
    decreases s.len(),
{
    if suffix.len() > 0 && ends(s, suffix) {
        stripped_end(s.take(s.len() - suffix.len()), suffix)
    } else {
        s
    }
}

/// A text without a suffix, taken off as often as it stands there.
pub fn strip_suffixes(s: &str, suffix: &str) -> (r: String)
    ensures
        r@ == stripped_end(s@, suffix@),
{
    let v = chars_of(s);
    let t = chars_of(suffix);
    let mut end: usize = v.len();
    assert(s@.take(end as int) =~= s@);
    while t.len() > 0 && end >= t.len() && check_at_end(&v, &t, end)
        invariant
            end <= v.len(),
            v@ == s@,
            t@ == suffix@,
            stripped_end(s@, suffix@) == stripped_end(s@.take(end as int), suffix@),
        decreases end,
    {
        assert(s@.take(end as int).take(end - suffix@.len()) =~= s@.take(end - suffix@.len()));
        end = end - t.len();
    }
    let mut r = String::new();
    let mut i: usize = 0;
    while i < end
        invariant
            i <= end <= v.len(),
            v@ == s@,
            r@ == s@.take(i as int),
        decreases end - i,
    {
        r.push(v[i]);
        assert(s@.take(i + 1) =~= s@.take(i as int).push(s@[i as int]));
        i = i + 1;
    }
    r
}

/// Whether the first part of a text ends with another text.
fn check_at_end(v: &Vec<char>, t: &Vec<char>, end: usize) -> (r: bool)
    requires
        t.len() <= end <= v.len(),
    ensures
        r == ends(v@.take(end as int), t@),
{
    let r = check_at(v, t, end - t.len());
    assert(v@.take(end as int).subrange(end - t.len(), end as int) =~= v@.subrange(
        end - t.len(),
        end as int,
    ));
    r
}

/// A text in upper case.
pub uninterp spec fn upper_of(s: Seq<char>) -> Seq<char>;

/// A text in lower case.
pub uninterp spec fn lower_of(s: Seq<char>) -> Seq<char>;

/// An ASCII character in upper case.
pub open spec fn ascii_upper(c: char) -> char {
    if 'a' <= c && c <= 'z' { (c as int - 32) as char } else { c }
}

/// An ASCII character in lower case.
pub open spec fn ascii_lower(c: char) -> char {
    if 'A' <= c && c <= 'Z' { (c as int + 32) as char } else { c }
}

/// Whether every character is an ASCII character.
pub open spec fn all_ascii(s: Seq<char>) -> bool {
    forall|i: int| 0 <= i < s.len() ==> #[trigger] s[i] <= '\u{7f}'
}

/// `str::to_uppercase`: the text in upper case by the rules of Unicode, which for ASCII is letter by
/// letter.
#[verifier::external_body]
pub(crate) fn to_upper(s: &str) -> (r: String)
    ensures
        r@ == upper_of(s@),
        all_ascii(s@) ==> r@ == s@.map_values(|c: char| ascii_upper(c)),
{
    s.to_uppercase()
}

/// `str::to_lowercase`: the text in lower case by the rules of Unicode, which for ASCII is letter by
/// letter.
#[verifier::external_body]
pub(crate) fn to_lower(s: &str) -> (r: String)
    ensures
        r@ == lower_of(s@),
        all_ascii(s@) ==> r@ == s@.map_values(|c: char| ascii_lower(c)),
{
    s.to_lowercase()
}

/// What is left of a text without the white space around it is a part of it that neither starts nor ends with white
/// space, and all that was taken off is white space.
pub proof fn trimmed_is_bare(s: Seq<char>)
    ensures
        trimmed(s).len() > 0 ==> !white(trimmed(s)[0]) && !white(trimmed(s).last()),
        exists|a: int, b: int|
            0 <= a <= b <= s.len() && trimmed(s) == #[trigger] s.subrange(a, b) && (forall|i: int|
                0 <= i < a || b <= i < s.len() ==> white(#[trigger] s[i])),
{
    lemma_trim_start(s);
    let t = trim_start(s);
    let a = s.len() - t.len();
    lemma_trim_end(t);
    let n = trimmed(s).len() as int;
    assert(trimmed(s) =~= s.subrange(a, a + n));
    assert forall|i: int| 0 <= i < a || a + n <= i < s.len() implies white(#[trigger] s[i]) by {
        if i >= a + n {
            assert(t[i - a] == s[i]);
        }
    }
}

proof fn lemma_trim_start(s: Seq<char>)
    ensures
        trim_start(s).len() <= s.len(),
        trim_start(s) == s.skip(s.len() - trim_start(s).len()),
        forall|i: int| 0 <= i < s.len() - trim_start(s).len() ==> white(#[trigger] s[i]),
        trim_start(s).len() > 0 ==> !white(trim_start(s)[0]),
    decreases s.len(),
{
    if s.len() > 0 && white(s[0]) {
        let t = s.skip(1);
        lemma_trim_start(t);
        let k = s.len() - trim_start(s).len();
        assert(t.skip(k - 1) =~= s.skip(k));
        assert forall|i: int| 0 <= i < k implies white(#[trigger] s[i]) by {
            if i > 0 {
                assert(t[i - 1] == s[i]);
            }
        }
    } else {
        assert(s.skip(0) =~= s);
    }
}

proof fn lemma_trim_end(s: Seq<char>)
    ensures
        trim_end(s).len() <= s.len(),
        trim_end(s) == s.take(trim_end(s).len() as int),
        forall|i: int| trim_end(s).len() <= i < s.len() ==> white(#[trigger] s[i]),
        trim_end(s).len() > 0 ==> !white(trim_end(s).last()) && trim_end(s)[0] == s[0],
    decreases s.len(),
{
    if s.len() > 0 && white(s.last()) {
        let t = s.drop_last();
        lemma_trim_end(t);
        let k = trim_end(s).len() as int;
        assert(t.take(k) =~= s.take(k));
        assert forall|i: int| k <= i < s.len() implies white(#[trigger] s[i]) by {
            if i < t.len() {
                assert(t[i] == s[i]);
            }
        }
    } else {
        assert(s.take(s.len() as int) =~= s);
    }
}

/// A text without white space is one word, or none where it is empty.
pub proof fn bare_text_is_one_word(s: Seq<char>)
    requires
        forall|i: int| 0 <= i < s.len() ==> !white(#[trigger] s[i]),
    ensures
        s.len() == 0 ==> words_of(s).len() == 0,
        s.len() > 0 ==> words_of(s) == seq![s],
{
    lemma_one_word(s, 0, Seq::empty());
    assert(Seq::<char>::empty() + s.skip(0) =~= s);
}

proof fn lemma_one_word(s: Seq<char>, i: int, word: Seq<char>)
    requires
        0 <= i <= s.len(),
        forall|k: int| 0 <= k < s.len() ==> !white(#[trigger] s[k]),
    ensures
        words_from(s, i, word) == one_word(word + s.skip(i)),
    decreases s.len() - i,
{
    if i < s.len() {
        lemma_one_word(s, i + 1, word.push(s[i]));
        assert(word.push(s[i]) + s.skip(i + 1) =~= word + s.skip(i));
    } else {
        assert(word + s.skip(i) =~= word);
    }
}

/// White space keeps words apart: the words of two texts with white space between them are those of the one and then
/// those of the other.
pub proof fn white_space_parts_words(a: Seq<char>, c: char, b: Seq<char>)
    requires
        white(c),
    ensures
        words_of(a + seq![c] + b) == words_of(a) + words_of(b),
{
    lemma_parted(a, c, b, 0, Seq::empty());
}

proof fn lemma_parted(a: Seq<char>, c: char, b: Seq<char>, i: int, word: Seq<char>)
    requires
        white(c),
        0 <= i <= a.len(),
    ensures
        words_from(a + seq![c] + b, i, word) == words_from(a, i, word) + words_of(b),
    decreases a.len() - i,
{
    let s = a + seq![c] + b;
    if i < a.len() {
        assert(s[i] == a[i]);
        if white(a[i]) {
            lemma_parted(a, c, b, i + 1, Seq::empty());
            assert(words_from(s, i, word) =~= words_from(a, i, word) + words_of(b));
        } else {
            lemma_parted(a, c, b, i + 1, word.push(a[i]));
        }
    } else {
        assert(s[i] == c);
        lemma_words_shift(s, b, a.len() as int + 1, 0, Seq::empty());
    }
}

proof fn lemma_words_shift(s: Seq<char>, b: Seq<char>, by: int, i: int, word: Seq<char>)
    requires
        0 <= i <= b.len(),
        by >= 0,
        s.len() == by + b.len(),
        forall|k: int| 0 <= k < b.len() ==> s[by + k] == #[trigger] b[k],
    ensures
        words_from(s, by + i, word) == words_from(b, i, word),
    decreases b.len() - i,
{
    if i < b.len() {
        assert(s[by + i] == b[i]);
        lemma_words_shift(s, b, by, i + 1, Seq::empty());
        lemma_words_shift(s, b, by, i + 1, word.push(b[i]));
    }
}

/// A text that a suffix was taken off does not end with it any more, and it starts the text.
pub proof fn suffix_is_gone(s: Seq<char>, suffix: Seq<char>)
    requires
        suffix.len() > 0,
    ensures
        !ends(stripped_end(s, suffix), suffix),
        stripped_end(s, suffix).len() <= s.len(),
        stripped_end(s, suffix) == s.take(stripped_end(s, suffix).len() as int),
        !ends(s, suffix) ==> stripped_end(s, suffix) == s,
    decreases s.len(),
{
    if ends(s, suffix) {
        let t = s.take(s.len() - suffix.len());
        suffix_is_gone(t, suffix);
        let k = stripped_end(s, suffix).len() as int;
        assert(t.take(k) =~= s.take(k));
    } else {
        assert(s.take(s.len() as int) =~= s);
    }
}

/// A text that a prefix was taken off does not start with it any more, and it ends the text.
pub proof fn prefix_is_gone(s: Seq<char>, prefix: Seq<char>)
    requires
        prefix.len() > 0,
    ensures
        !starts(stripped(s, prefix), prefix),
        stripped(s, prefix).len() <= s.len(),
        stripped(s, prefix) == s.skip(s.len() - stripped(s, prefix).len()),
        !starts(s, prefix) ==> stripped(s, prefix) == s,
    decreases s.len(),
{
    if starts(s, prefix) {
        let t = s.skip(prefix.len() as int);
        prefix_is_gone(t, prefix);
        let k = s.len() - stripped(s, prefix).len();
        assert(t.skip(k - prefix.len()) =~= s.skip(k));
    } else {
        assert(s.skip(0) =~= s);
    }
}

/// A numeral that is filled up with zeros has the width at least, and is read as the number.
pub proof fn padded_keeps_number(n: nat, width: nat)
    ensures
        padded(n, width).len() >= width,
        padded(n, width).len() == if digits(n).len() < width { width } else { digits(n).len() },
        digits_value(padded(n, width)) == n,
{
    lemma_digits(n);
    let d = digits(n);
    if d.len() < width {
        lemma_zeros_in_front((width - d.len()) as nat, d);
    }
}

proof fn lemma_zeros_in_front(k: nat, d: Seq<char>)
    requires
        all_digits(d),
    ensures
        digits_value(zeros(k) + d) == digits_value(d),
    decreases d.len(), k,
{
    if d.len() == 0 {
        if k > 0 {
            lemma_zeros_in_front((k - 1) as nat, d);
            assert((zeros(k) + d).drop_last() =~= zeros((k - 1) as nat) + d);
            assert((zeros(k) + d).last() == '0');
        } else {
            assert(zeros(k) + d =~= d);
        }
    } else {
        let front = d.drop_last();
        assert forall|i: int| 0 <= i < front.len() implies is_digit(#[trigger] front[i]) by {
            assert(front[i] == d[i]);
        }
        lemma_zeros_in_front(k, front);
        assert((zeros(k) + d).drop_last() =~= zeros(k) + front);
        assert((zeros(k) + d).last() == d.last());
    }
}

/// Taking a character out of a text leaves none of it, and all others in their order.
pub proof fn character_is_gone(s: Seq<char>, c: char)
    ensures
        !without(s, c).contains(c),
        without(s, c) == s.filter(|x: char| x != c),
    decreases s.len(),
{
    reveal(Seq::filter);
    if s.len() > 0 {
        character_is_gone(s.drop_last(), c);
        let rest = without(s.drop_last(), c);
        if s.last() != c {
            assert(!rest.push(s.last()).contains(c)) by {
                if rest.push(s.last()).contains(c) {
                    let k = choose|k: int| 0 <= k < rest.len() + 1 && rest.push(s.last())[k] == c;
                    assert(rest[k] == c);
                }
            }
        }
    }
}

} // verus!
