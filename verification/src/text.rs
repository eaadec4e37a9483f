//! Text handling: comparing, trimming and splitting strings by their characters.
use vstd::arithmetic::power::pow;
use vstd::prelude::*;
use vstd::string::StrSliceExecFns;
use vstd::string::StringExecFns;

verus! {

/// The characters of `s`.
pub fn chars_of(s: &str) -> (v: Vec<char>)
    ensures
        v@ == s@,
{
    let mut v: Vec<char> = Vec::new();
    for c in it: s.chars()
        invariant
            v@ == it.seq().take(it.index() as int),
            it.seq() == s@,
    {
        v.push(c);
    }
    v
}

/// Whether two strings hold the same characters.
pub fn same(a: &str, b: &str) -> (eq: bool)
    ensures
        eq == (a@ == b@),
{
    let x: Vec<char> = chars_of(a);
    let y: Vec<char> = chars_of(b);
    if x.len() != y.len() {
        return false;
    }
    let mut i: usize = 0;
    while i < x.len()
        invariant
            x@ == a@,
            y@ == b@,
            x@.len() == y@.len(),
            i <= x@.len(),
            forall|j: int| 0 <= j < i ==> x@[j] == y@[j],
        decreases x@.len() - i,
    {
        if x[i] != y[i] {
            return false;
        }
        i = i + 1;
    }
    assert(a@ =~= b@);
    true
}

/// `a` followed by `b`.
pub fn cat(a: &str, b: &str) -> (s: String)
    ensures
        s@ == a@ + b@,
{
    let mut s: String = a.to_owned();
    s.append(b);
    s
}

/// `a`, `b` and `c`, one after the other.
pub fn cat3(a: &str, b: &str, c: &str) -> (s: String)
    ensures
        s@ == a@ + b@ + c@,
{
    let mut s: String = a.to_owned();
    s.append(b);
    s.append(c);
    s
}

/// Whether `s` starts with `prefix`.
pub fn starts_with(s: &str, prefix: &str) -> (yes: bool)
    ensures
        yes == prefix@.is_prefix_of(s@),
{
    let x: Vec<char> = chars_of(s);
    let y: Vec<char> = chars_of(prefix);
    if x.len() < y.len() {
        return false;
    }
    let mut i: usize = 0;
    while i < y.len()
        invariant
            x@ == s@,
            y@ == prefix@,
            y@.len() <= x@.len(),
            i <= y@.len(),
            forall|j: int| 0 <= j < i ==> x@[j] == y@[j],
        decreases y@.len() - i,
    {
        if x[i] != y[i] {
            assert(s@.subrange(0, prefix@.len() as int)[i as int] != prefix@[i as int]);
            return false;
        }
        i = i + 1;
    }
    assert(s@.subrange(0, prefix@.len() as int) =~= prefix@);
    true
}

/// `s` without its first `n` characters.
pub fn skip_chars<'a>(s: &'a str, n: usize) -> (r: &'a str)
    requires
        n <= s@.len(),
    ensures
        r@ == s@.skip(n as int),
{
    let len: usize = s.unicode_len();
    let r: &'a str = s.substring_char(n, len);
    assert(r@ =~= s@.skip(n as int));
    r
}

/// The first `n` characters of `s`.
pub fn take_chars<'a>(s: &'a str, n: usize) -> (r: &'a str)
    requires
        n <= s@.len(),
    ensures
        r@ == s@.take(n as int),
{
    let r: &'a str = s.substring_char(0, n);
    assert(r@ =~= s@.take(n as int));
    r
}

/// The Unicode `White_Space` property.
pub open spec fn white(c: char) -> bool {
    ||| '\u{9}' <= c <= '\u{d}'
    ||| c == ' '
    ||| c == '\u{85}'
    ||| c == '\u{a0}'
    ||| c == '\u{1680}'
    ||| '\u{2000}' <= c <= '\u{200a}'
    ||| c == '\u{2028}'
    ||| c == '\u{2029}'
    ||| c == '\u{202f}'
    ||| c == '\u{205f}'
    ||| c == '\u{3000}'
}

/// Whether `c` has the Unicode `White_Space` property.
pub fn is_white(c: char) -> (yes: bool)
    ensures
        yes == white(c),
{
    ('\u{9}' <= c && c <= '\u{d}') || c == ' ' || c == '\u{85}' || c == '\u{a0}' || c == '\u{1680}'
        || ('\u{2000}' <= c && c <= '\u{200a}') || c == '\u{2028}' || c == '\u{2029}' || c
        == '\u{202f}' || c == '\u{205f}' || c == '\u{3000}'
}

/// `s` without the white space before it.
pub open spec fn trim_start_spec(s: Seq<char>) -> Seq<char>
    decreases s.len(),
{
    if s.len() > 0 && white(s[0]) {
        trim_start_spec(s.skip(1))
    } else {
        s
    }
}

/// `s` without the white space after it.
pub open spec fn trim_end_spec(s: Seq<char>) -> Seq<char>
    decreases s.len(),
{
    if s.len() > 0 && white(s.last()) {
        trim_end_spec(s.drop_last())
    } else {
        s
    }
}

/// `s` without the white space around it.
pub open spec fn trim_spec(s: Seq<char>) -> Seq<char> {
    trim_end_spec(trim_start_spec(s))
}

/// `s` without the white space before it.
pub fn trim_start<'a>(s: &'a str) -> (r: &'a str)
    ensures
        r@ == trim_start_spec(s@),
{
    let v: Vec<char> = chars_of(s);
    let mut n: usize = 0;
    assert(s@.skip(0) =~= s@);
    while n < v.len() && is_white(v[n])
        invariant
            v@ == s@,
            n <= v@.len(),
            trim_start_spec(s@) == trim_start_spec(s@.skip(n as int)),
        decreases v@.len() - n,
    {
        assert(s@.skip(n as int).skip(1) =~= s@.skip(n + 1));
        n = n + 1;
    }
    skip_chars(s, n)
}

/// `s` without the white space after it.
pub fn trim_end<'a>(s: &'a str) -> (r: &'a str)
    ensures
        r@ == trim_end_spec(s@),
{
    let v: Vec<char> = chars_of(s);
    let mut n: usize = v.len();
    assert(s@.take(s@.len() as int) =~= s@);
    while n > 0 && is_white(v[n - 1])
        invariant
            v@ == s@,
            n <= v@.len(),
            trim_end_spec(s@) == trim_end_spec(s@.take(n as int)),
        decreases n,
    {
        assert(s@.take(n as int).drop_last() =~= s@.take(n - 1));
        n = n - 1;
    }
    take_chars(s, n)
}

/// `s` without the white space around it.
pub fn trim<'a>(s: &'a str) -> (r: &'a str)
    ensures
        r@ == trim_spec(s@),
{
    trim_end(trim_start(s))
}

/// What each of some strings holds.
pub open spec fn views(v: Seq<String>) -> Seq<Seq<char>> {
    v.map_values(|s: String| s@)
}

/// Some strings, one after the other, with `sep` between them.
pub open spec fn joined(v: Seq<Seq<char>>, sep: Seq<char>) -> Seq<char>
    decreases v.len(),
{
    if v.len() == 0 {
        Seq::empty()
    } else if v.len() == 1 {
        v[0]
    } else {
        joined(v.drop_last(), sep) + sep + v.last()
    }
}

/// Some strings, one after the other, with `sep` between them.
pub fn join(v: &[String], sep: &str) -> (s: String)
    ensures
        s@ == joined(views(v@), sep@),
{
    let mut s: String = String::new();
    let mut i: usize = 0;
    let ghost all = views(v@);
    assert(all.take(0) =~= Seq::empty());
    while i < v.len()
        invariant
            all == views(v@),
            i <= v@.len(),
            s@ == joined(all.take(i as int), sep@),
        decreases v@.len() - i,
    {
        assert(all.take(i + 1).drop_last() =~= all.take(i as int));
        if i > 0 {
            s.append(sep);
        } else {
            assert(s@ + v@[0]@ =~= v@[0]@);
        }
        s.append(v[i].as_str());
        i = i + 1;
    }
    assert(all.take(v@.len() as int) =~= all);
    s
}

/// How many characters of `s` come before the first `c`; all of them, if there
/// is none.
pub open spec fn before(s: Seq<char>, c: char) -> int
    decreases s.len(),
{
    if s.len() == 0 || s[0] == c {
        0
    } else {
        1 + before(s.skip(1), c)
    }
}

/// `before` counts exactly the characters ahead of the first `c`.
pub proof fn lemma_before(s: Seq<char>, c: char)
    ensures
        0 <= before(s, c) <= s.len(),
        before(s, c) < s.len() ==> s[before(s, c)] == c,
        forall|i: int| 0 <= i < before(s, c) ==> s[i] != c,
    decreases s.len(),
{
    if !(s.len() == 0 || s[0] == c) {
        let t = s.skip(1);
        lemma_before(t, c);
        assert forall|i: int| 0 <= i < before(s, c) implies s[i] != c by {
            if i > 0 {
                assert(s[i] == t[i - 1]);
            }
        }
    }
}

/// How many characters of `s` come before the first `c`.
pub fn count_before(s: &str, c: char) -> (n: usize)
    ensures
        n == before(s@, c),
        n <= s@.len(),
{
    let v: Vec<char> = chars_of(s);
    let mut n: usize = 0;
    assert(s@.skip(0) =~= s@);
    while n < v.len() && v[n] != c
        invariant
            v@ == s@,
            n <= v@.len(),
            before(s@, c) == n + before(s@.skip(n as int), c),
        decreases v@.len() - n,
    {
        assert(s@.skip(n as int).skip(1) =~= s@.skip(n + 1));
        n = n + 1;
    }
    n
}

/// How many characters of `s` come before the first white space.
pub open spec fn word_len(s: Seq<char>) -> int
    decreases s.len(),
{
    if s.len() == 0 || white(s[0]) {
        0
    } else {
        1 + word_len(s.skip(1))
    }
}

/// A text that does not start with white space starts with a word.
pub proof fn lemma_word_len(s: Seq<char>)
    ensures
        0 <= word_len(s) <= s.len(),
        s.len() > 0 && !white(s[0]) ==> word_len(s) > 0,
    decreases s.len(),
{
    if !(s.len() == 0 || white(s[0])) {
        lemma_word_len(s.skip(1));
    }
}

/// Nothing white is left at the start.
pub proof fn lemma_trim_start_len(s: Seq<char>)
    ensures
        trim_start_spec(s).len() <= s.len(),
        trim_start_spec(s).len() > 0 ==> !white(trim_start_spec(s)[0]),
    decreases s.len(),
{
    if s.len() > 0 && white(s[0]) {
        lemma_trim_start_len(s.skip(1));
    }
}

/// The words of `s`: what white space separates.
pub open spec fn words(s: Seq<char>) -> Seq<Seq<char>>
    decreases s.len(),
{
    let t = trim_start_spec(s);
    if t.len() == 0 {
        Seq::empty()
    } else {
        proof {
            lemma_trim_start_len(s);
            lemma_word_len(t);
        }
        seq![t.take(word_len(t))] + words(t.skip(word_len(t)))
    }
}

/// The words of `s`: what white space separates.
pub fn split_words(s: &str) -> (v: Vec<String>)
    ensures
        views(v@) == words(s@),
{
    let mut v: Vec<String> = Vec::new();
    let mut rest: &str = trim_start(s);
    assert(views(v@) =~= Seq::empty());
    proof {
        lemma_trim_start_len(s@);
        lemma_trim_start_idempotent(s@);
        assert(words(s@) =~= views(v@) + words(rest@));
    }
    while !rest.is_empty()
        invariant
            rest@ == trim_start_spec(rest@),
            words(s@) == views(v@) + words(rest@),
        decreases rest@.len(),
    {
        let ghost t = rest@;
        let ghost was = v@;
        proof {
            lemma_trim_start_len(t);
            lemma_word_len(t);
        }
        let cs: Vec<char> = chars_of(rest);
        let mut n: usize = 0;
        assert(t.skip(0) =~= t);
        while n < cs.len() && !is_white(cs[n])
            invariant
                cs@ == t,
                n <= t.len(),
                word_len(t) == n + word_len(t.skip(n as int)),
            decreases t.len() - n,
        {
            assert(t.skip(n as int).skip(1) =~= t.skip(n + 1));
            n = n + 1;
        }
        let word: String = take_chars(rest, n).to_owned();
        let after: &str = skip_chars(rest, n);
        v.push(word);
        rest = trim_start(after);
        proof {
            lemma_trim_start_len(after@);
            lemma_trim_start_idempotent(after@);
            assert(words(after@) == words(rest@));
            assert(views(v@) =~= views(was).push(word@));
            assert(views(was) + (seq![word@] + words(rest@)) =~= views(v@) + words(rest@));
        }
    }
    assert(views(v@) + words(rest@) =~= views(v@));
    v
}

/// Trimming what is trimmed changes nothing.
pub proof fn lemma_trim_start_idempotent(s: Seq<char>)
    ensures
        trim_start_spec(trim_start_spec(s)) == trim_start_spec(s),
{
    lemma_trim_start_len(s);
}

/// What is left of a text once the white space after it is gone starts as it
/// did.
pub proof fn lemma_trim_end_first(s: Seq<char>)
    ensures
        trim_end_spec(s).len() > 0 ==> trim_end_spec(s)[0] == s[0],
    decreases s.len(),
{
    if s.len() > 0 && white(s.last()) {
        lemma_trim_end_first(s.drop_last());
    }
}

/// A text that white space does not make up has a word, and its first word is
/// not empty.
pub proof fn lemma_first_word(s: Seq<char>)
    requires
        trim_spec(s).len() > 0,
    ensures
        words(trim_spec(s)).len() > 0,
        words(trim_spec(s))[0].len() > 0,
{
    let t = trim_spec(s);
    lemma_trim_start_len(s);
    lemma_trim_end_first(trim_start_spec(s));
    lemma_word_len(t);
}

/// An ASCII letter in lower case; anything else unchanged.
pub open spec fn ascii_lower(c: char) -> char {
    if 'A' <= c <= 'Z' {
        (c as u8 + 32) as char
    } else {
        c
    }
}

/// `s` with its ASCII letters in lower case.
pub open spec fn lower(s: Seq<char>) -> Seq<char> {
    s.map_values(|c: char| ascii_lower(c))
}

/// Whether `s` is `word` once its ASCII letters are in lower case.
pub fn same_lower(s: &str, word: &str) -> (eq: bool)
    ensures
        eq == (lower(s@) == word@),
{
    let x: Vec<char> = chars_of(s);
    let y: Vec<char> = chars_of(word);
    if x.len() != y.len() {
        return false;
    }
    let mut i: usize = 0;
    while i < x.len()
        invariant
            x@ == s@,
            y@ == word@,
            x@.len() == y@.len(),
            i <= x@.len(),
            forall|j: int| 0 <= j < i ==> ascii_lower(x@[j]) == y@[j],
        decreases x@.len() - i,
    {
        let c: char = x[i];
        let d: char = if 'A' <= c && c <= 'Z' { (c as u8 + 32) as char } else { c };
        if d != y[i] {
            assert(lower(s@)[i as int] != word@[i as int]);
            return false;
        }
        i = i + 1;
    }
    assert(lower(s@) =~= word@);
    true
}

/// The lower-case hex digit of a number below 16.
pub open spec fn hex_digit(d: int) -> char {
    if d < 10 {
        (d + 48) as char
    } else {
        (d + 87) as char
    }
}

/// The lower-case hex digit of a number below 16.
pub fn hex_str(d: u8) -> (s: &'static str)
    requires
        d < 16,
    ensures
        s@ == seq![hex_digit(d as int)],
{
    proof {
        reveal_strlit("0");
        reveal_strlit("1");
        reveal_strlit("2");
        reveal_strlit("3");
        reveal_strlit("4");
        reveal_strlit("5");
        reveal_strlit("6");
        reveal_strlit("7");
        reveal_strlit("8");
        reveal_strlit("9");
        reveal_strlit("a");
        reveal_strlit("b");
        reveal_strlit("c");
        reveal_strlit("d");
        reveal_strlit("e");
        reveal_strlit("f");
    }
    let s: &'static str = match d {
        0 => "0",
        1 => "1",
        2 => "2",
        3 => "3",
        4 => "4",
        5 => "5",
        6 => "6",
        7 => "7",
        8 => "8",
        9 => "9",
        10 => "a",
        11 => "b",
        12 => "c",
        13 => "d",
        14 => "e",
        _ => "f",
    };
    assert(s@ =~= seq![hex_digit(d as int)]);
    s
}

/// The two lower-case hex digits of a byte.
pub open spec fn hex_byte(b: u8) -> Seq<char> {
    seq![hex_digit(b as int / 16), hex_digit(b as int % 16)]
}

/// Append the two lower-case hex digits of a byte.
pub fn push_hex_byte(s: &mut String, b: u8)
    ensures
        final(s)@ == old(s)@ + hex_byte(b),
{
    s.append(hex_str(b / 16));
    s.append(hex_str(b % 16));
    assert(s@ =~= old(s)@ + hex_byte(b));
}

/// The value of a digit, hex or decimal.
pub open spec fn digit_value(c: char, hex: bool) -> Option<int> {
    if '0' <= c <= '9' {
        Some(c as int - '0' as int)
    } else if hex && 'a' <= c <= 'f' {
        Some(c as int - 'a' as int + 10)
    } else if hex && 'A' <= c <= 'F' {
        Some(c as int - 'A' as int + 10)
    } else {
        None
    }
}

/// The number that digits stand for; `None` if there is anything else among
/// them.
pub open spec fn digits_value(s: Seq<char>, hex: bool) -> Option<int>
    decreases s.len(),
{
    if s.len() == 0 {
        Some(0)
    } else {
        match (digits_value(s.drop_last(), hex), digit_value(s.last(), hex)) {
            (Some(n), Some(d)) => Some(
                if hex {
                    16 * n + d
                } else {
                    10 * n + d
                },
            ),
            _ => None,
        }
    }
}

/// `s` without a plus sign in front.
pub open spec fn without_sign(s: Seq<char>) -> Seq<char> {
    if s.len() > 0 && s[0] == '+' {
        s.skip(1)
    } else {
        s
    }
}

/// The number that a text stands for: at least one digit, and a plus sign in
/// front if one likes.
pub open spec fn number_of(s: Seq<char>, hex: bool) -> Option<int> {
    let digits = without_sign(s);
    if digits.len() == 0 {
        None
    } else {
        digits_value(digits, hex)
    }
}

/// More digits never make a number smaller.
proof fn lemma_digits_prefix(s: Seq<char>, hex: bool, k: int)
    requires
        0 <= k <= s.len(),
    ensures
        digits_value(s, hex) matches Some(n) ==> (digits_value(s.take(k), hex) matches Some(m) && 0
            <= m <= n),
    decreases s.len() - k,
{
    if k < s.len() {
        lemma_digits_prefix(s, hex, k + 1);
        assert(s.take(k + 1).drop_last() =~= s.take(k));
        lemma_digits_natural(s.take(k), hex);
    } else {
        assert(s.take(k) =~= s);
        lemma_digits_natural(s, hex);
    }
}

proof fn lemma_digits_natural(s: Seq<char>, hex: bool)
    ensures
        digits_value(s, hex) matches Some(n) ==> 0 <= n,
    decreases s.len(),
{
    if s.len() > 0 {
        lemma_digits_natural(s.drop_last(), hex);
    }
}

/// The value of a digit, hex or decimal.
fn digit(c: char, hex: bool) -> (d: Option<u32>)
    ensures
        match d {
            Some(v) => digit_value(c, hex) == Some(v as int) && v < 16,
            None => digit_value(c, hex) is None,
        },
{
    if '0' <= c && c <= '9' {
        Some(c as u32 - '0' as u32)
    } else if hex && 'a' <= c && c <= 'f' {
        Some(c as u32 - 'a' as u32 + 10)
    } else if hex && 'A' <= c && c <= 'F' {
        Some(c as u32 - 'A' as u32 + 10)
    } else {
        None
    }
}

/// The number that a text stands for, if it is at most `max`.
pub fn parse_number(s: &str, hex: bool, max: u64) -> (number: Option<u64>)
    ensures
        match number {
            Some(n) => number_of(s@, hex) == Some(n as int) && n <= max,
            None => number_of(s@, hex) matches Some(n) ==> n > max,
        },
{
    let v: Vec<char> = chars_of(s);
    let start: usize = if v.len() > 0 && v[0] == '+' { 1 } else { 0 };
    let ghost digits = without_sign(s@);
    assert(digits =~= s@.skip(start as int));
    if start == v.len() {
        return None;
    }
    let mut n: u128 = 0;
    let mut at: usize = start;
    assert(digits.take(0) =~= Seq::empty());
    while at < v.len()
        invariant
            v@ == s@,
            start <= at <= v@.len(),
            start < v@.len(),
            digits == s@.skip(start as int),
            digits == without_sign(s@),
            digits_value(digits.take(at - start), hex) == Some(n as int),
            n <= max,
        decreases v@.len() - at,
    {
        proof {
            assert(digits.take(at - start + 1).drop_last() =~= digits.take(at - start));
            assert(digits[at - start] == s@[at as int]);
            lemma_digits_prefix(digits, hex, at - start + 1);
        }
        match digit(v[at], hex) {
            None => {
                return None;
            },
            Some(d) => {
                n = if hex { 16 * n + d as u128 } else { 10 * n + d as u128 };
                if n > max as u128 {
                    return None;
                }
            },
        }
        at = at + 1;
    }
    assert(digits.take(at - start) =~= digits);
    Some(n as u64)
}

// --- laws ---------------------------------------------------------------------

/// White space is these characters and no others.
pub proof fn law_white_space(c: char)
    ensures
        white(c) <==> ({
            let u = c as u32;
            ||| u == 9 || u == 10 || u == 11 || u == 12 || u == 13
            ||| u == 32 || u == 0x85 || u == 0xa0 || u == 0x1680
            ||| 0x2000 <= u <= 0x200a
            ||| u == 0x2028 || u == 0x2029 || u == 0x202f || u == 0x205f || u == 0x3000
        }),
{
}

/// Where a text ends once the white space after it is gone.
pub proof fn lemma_trim_end(s: Seq<char>) -> (j: int)
    ensures
        0 <= j <= s.len(),
        trim_end_spec(s) == s.take(j),
        j > 0 ==> !white(s[j - 1]),
        forall|k: int| j <= k < s.len() ==> white(s[k]),
    decreases s.len(),
{
    if s.len() > 0 && white(s.last()) {
        let j = lemma_trim_end(s.drop_last());
        assert(s.drop_last().take(j) =~= s.take(j));
        assert(forall|k: int| 0 <= k < s.len() - 1 ==> s.drop_last()[k] == s[k]);
        j
    } else {
        assert(s.take(s.len() as int) =~= s);
        s.len() as int
    }
}

/// Where a text starts once the white space before it is gone.
pub proof fn lemma_trim_start(s: Seq<char>) -> (i: int)
    ensures
        0 <= i <= s.len(),
        trim_start_spec(s) == s.skip(i),
        i < s.len() ==> !white(s[i]),
        forall|k: int| 0 <= k < i ==> white(s[k]),
    decreases s.len(),
{
    if s.len() > 0 && white(s[0]) {
        let t = s.skip(1);
        let i = lemma_trim_start(t);
        assert(t.skip(i) =~= s.skip(i + 1));
        assert forall|k: int| 0 <= k < i + 1 implies white(s[k]) by {
            if k > 0 {
                assert(t[k - 1] == s[k]);
            }
        }
        i + 1
    } else {
        assert(s.skip(0) =~= s);
        0
    }
}

/// Trimming cuts nothing but white space off the two ends, and all of it.
pub proof fn law_trim(s: Seq<char>) -> (cut: (int, int))
    ensures
        0 <= cut.0 <= cut.1 <= s.len(),
        trim_spec(s) == s.subrange(cut.0, cut.1),
        forall|k: int| 0 <= k < cut.0 ==> white(s[k]),
        forall|k: int| cut.1 <= k < s.len() ==> white(s[k]),
        cut.0 < cut.1 ==> !white(s[cut.0]) && !white(s[cut.1 - 1]),
        trim_start_spec(s) == s.skip(cut.0),
{
    let i = lemma_trim_start(s);
    let t = s.skip(i);
    let j = lemma_trim_end(t);
    assert(t.take(j) =~= s.subrange(i, i + j));
    assert forall|k: int| i + j <= k < s.len() implies white(s[k]) by {
        assert(t[k - i] == s[k]);
    }
    (i, i + j)
}

/// White space around a text that has none at its ends is what trimming cuts
/// off.
pub proof fn law_trim_gives_back(a: Seq<char>, s: Seq<char>, b: Seq<char>)
    requires
        forall|k: int| 0 <= k < a.len() ==> white(#[trigger] a[k]),
        forall|k: int| 0 <= k < b.len() ==> white(#[trigger] b[k]),
        s.len() > 0 ==> !white(s[0]) && !white(s.last()),
    ensures
        trim_spec(a + s + b) == s,
{
    let t = a + s + b;
    let (i, j) = law_trim(t);
    if s.len() > 0 {
        assert(t[a.len() as int] == s[0]);
        assert(t[a.len() + s.len() - 1] == s.last());
        if i < a.len() {
            assert(white(a[i]));
        }
        if j > a.len() + s.len() {
            assert(white(b[j - 1 - a.len() - s.len()]));
        }
        assert(t.subrange(i, j) =~= s);
    } else {
        if i < j {
            if i < a.len() {
                assert(white(a[i]));
            } else {
                assert(white(b[i - a.len()]));
            }
        }
        assert(t.subrange(i, j) =~= s);
    }
}

proof fn lemma_word_len_is(s: Seq<char>, n: int)
    requires
        0 <= n <= s.len(),
        forall|k: int| 0 <= k < n ==> !white(#[trigger] s[k]),
        n < s.len() ==> white(s[n]),
    ensures
        word_len(s) == n,
    decreases n,
{
    if n > 0 {
        let t = s.skip(1);
        assert(forall|k: int| 0 <= k < t.len() ==> t[k] == s[k + 1]);
        lemma_word_len_is(t, n - 1);
    }
}

proof fn lemma_word_len_holds(s: Seq<char>)
    ensures
        0 <= word_len(s) <= s.len(),
        forall|k: int| 0 <= k < word_len(s) ==> !white(#[trigger] s[k]),
        word_len(s) < s.len() ==> white(s[word_len(s)]),
    decreases s.len(),
{
    if s.len() > 0 && !white(s[0]) {
        let t = s.skip(1);
        lemma_word_len_holds(t);
        assert forall|k: int| 0 <= k < word_len(s) implies !white(#[trigger] s[k]) by {
            if k > 0 {
                assert(t[k - 1] == s[k]);
            }
        }
    }
}

/// White space, wherever it stands, parts the words before it from those after
/// it.
pub proof fn law_white_space_parts_words(a: Seq<char>, w: char, b: Seq<char>)
    requires
        white(w),
    ensures
        words(a + seq![w] + b) == words(a) + words(b),
    decreases a.len(),
{
    let s = a + seq![w] + b;
    if a.len() == 0 {
        assert(s.skip(1) =~= b);
        assert(trim_start_spec(s) == trim_start_spec(b));
        assert(words(a) =~= Seq::empty());
        assert(words(s) =~= words(b));
        assert(words(a) + words(b) =~= words(b));
    } else if white(a[0]) {
        let t = a.skip(1);
        assert(s.skip(1) =~= t + seq![w] + b);
        law_white_space_parts_words(t, w, b);
        assert(trim_start_spec(s) == trim_start_spec(s.skip(1)));
        assert(trim_start_spec(a) == trim_start_spec(t));
        assert(words(s) == words(s.skip(1)));
        assert(words(a) == words(t));
    } else {
        lemma_word_len_holds(a);
        let n = word_len(a);
        lemma_word_len(a);
        assert(forall|k: int| 0 <= k < a.len() ==> s[k] == a[k]);
        assert(s[a.len() as int] == w);
        lemma_word_len_is(s, n);
        let t = a.skip(n);
        assert(s.skip(n) =~= t + seq![w] + b);
        law_white_space_parts_words(t, w, b);
        assert(s.take(n) =~= a.take(n));
        let one = seq![a.take(n)];
        assert(words(s) == one + words(s.skip(n)));
        assert(words(a) == one + words(t));
        assert(one + (words(t) + words(b)) =~= (one + words(t)) + words(b));
    }
}

/// A text without white space is one word, unless it is empty.
pub proof fn law_one_word(s: Seq<char>)
    requires
        forall|k: int| 0 <= k < s.len() ==> !white(#[trigger] s[k]),
    ensures
        s.len() > 0 ==> words(s) == seq![s],
        s.len() == 0 ==> words(s).len() == 0,
{
    if s.len() > 0 {
        let n = s.len() as int;
        lemma_word_len_is(s, n);
        assert(trim_start_spec(s) == s);
        assert(s.take(n) =~= s);
        assert(s.skip(n) =~= Seq::empty());
        assert(words(s.skip(n)) =~= Seq::empty());
        assert(words(s) =~= seq![s]);
    }
}

/// Joining two lists is joining each, with the separator between.
pub proof fn law_joined_splits(a: Seq<Seq<char>>, b: Seq<Seq<char>>, x: Seq<char>, sep: Seq<char>)
    requires
        a.len() > 0,
        b.len() > 0,
    ensures
        joined(a + b, sep) == joined(a, sep) + sep + joined(b, sep),
        joined(seq![x], sep) == x,
        joined(Seq::empty(), sep).len() == 0,
    decreases b.len(),
{
    let ab = a + b;
    assert(ab.drop_last() =~= a + b.drop_last());
    if b.len() == 1 {
        assert(ab.drop_last() =~= a);
        assert(ab.last() == b[0]);
        assert(joined(ab, sep) =~= joined(a, sep) + sep + joined(b, sep));
    } else {
        law_joined_splits(a, b.drop_last(), x, sep);
        assert(ab.last() == b.last());
        assert(joined(ab, sep) =~= joined(a, sep) + sep + joined(b, sep));
    }
}

/// Lower case moves the letters from `A` to `Z`, and nothing else, up by 32.
pub proof fn law_lower(s: Seq<char>, i: int)
    requires
        0 <= i < s.len(),
    ensures
        lower(s).len() == s.len(),
        65 <= s[i] as u32 <= 90 ==> lower(s)[i] as u32 == s[i] as u32 + 32,
        !(65 <= s[i] as u32 <= 90) ==> lower(s)[i] == s[i],
{
}

/// The digits, by their codes.
pub proof fn law_digits(c: char)
    ensures
        ({
            let u = c as u32;
            &&& 48 <= u <= 57 ==> digit_value(c, false) == Some(u - 48) && digit_value(c, true)
                == Some(u - 48)
            &&& 97 <= u <= 102 ==> digit_value(c, true) == Some(u - 87)
            &&& 65 <= u <= 70 ==> digit_value(c, true) == Some(u - 55)
            &&& !(48 <= u <= 57) ==> digit_value(c, false) is None
            &&& !(48 <= u <= 57 || 97 <= u <= 102 || 65 <= u <= 70) ==> digit_value(c, true) is None
        }),
{
}

/// The hex digits that are written are lower case, and read back.
pub proof fn law_hex_digits(d: int)
    requires
        0 <= d < 16,
    ensures
        digit_value(hex_digit(d), true) == Some(d),
        d < 10 ==> hex_digit(d) as u32 == 48 + d,
        d >= 10 ==> hex_digit(d) as u32 == 87 + d,
{
}

/// Digits stand for what place value says: those of the first part count as
/// many powers of the radix higher as the second part is long.
pub proof fn law_place_value(a: Seq<char>, b: Seq<char>, hex: bool)
    ensures
        digits_value(a + b, hex) == match (digits_value(a, hex), digits_value(b, hex)) {
            (Some(x), Some(y)) => Some(
                x * pow(
                    if hex {
                        16
                    } else {
                        10
                    },
                    b.len(),
                ) + y,
            ),
            _ => None,
        },
        b.len() == 1 ==> digits_value(b, hex) == digit_value(b[0], hex),
    decreases b.len(),
{
    let r: int = if hex {
        16
    } else {
        10
    };
    reveal(pow);
    if b.len() == 0 {
        assert(a + b =~= a);
        assert(pow(r, 0) == 1);
    } else {
        assert((a + b).drop_last() =~= a + b.drop_last());
        law_place_value(a, b.drop_last(), hex);
        assert(b.len() == 1 ==> b.drop_last() =~= Seq::empty());
        assert(digits_value(Seq::empty(), hex) == Some(0int));
        if digits_value(a, hex) is Some && digits_value(b.drop_last(), hex) is Some {
            let x = digits_value(a, hex)->0;
            let p = pow(r, (b.len() - 1) as nat);
            assert(pow(r, b.len()) == r * p);
            let y = digits_value(b.drop_last(), hex)->0;
            assert(r * (x * p + y) == x * (r * p) + r * y) by (nonlinear_arith);
        }
    }
}

/// A number is digits, at least one, and may have one plus sign in front.
pub proof fn law_number(s: Seq<char>, hex: bool)
    requires
        s.len() > 0 ==> s[0] != '+',
    ensures
        s.len() > 0 ==> number_of(s, hex) == digits_value(s, hex),
        s.len() > 0 ==> number_of(seq!['+'] + s, hex) == digits_value(s, hex),
        s.len() == 0 ==> number_of(s, hex) is None && number_of(seq!['+'] + s, hex) is None,
{
    assert((seq!['+'] + s).skip(1) =~= s);
}

} // verus!
