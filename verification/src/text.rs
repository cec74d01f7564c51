//! Text handling for PLY headers: lines, UTF-8, Unicode whitespace,
//! `trim`, `split_whitespace` and unsigned decimal parsing, each with the
//! meaning that `std` gives it.

use vstd::prelude::*;
use vstd::utf8::*;

verus! {

/// Unicode `White_Space`, the property that `char::is_whitespace` tests.
pub open spec fn is_ws(c: char) -> bool {
    let u = c as u32;
    (0x9 <= u && u <= 0xd) || u == 0x20 || u == 0x85 || u == 0xa0 || u == 0x1680 || (0x2000 <= u
        && u <= 0x200a) || u == 0x2028 || u == 0x2029 || u == 0x202f || u == 0x205f || u == 0x3000
}

/// Whether `c` is Unicode whitespace.
pub fn is_whitespace(c: char) -> (b: bool)
    ensures
        b == is_ws(c),
{
    let u = c as u32;
    (0x9 <= u && u <= 0xd) || u == 0x20 || u == 0x85 || u == 0xa0 || u == 0x1680 || (0x2000 <= u
        && u <= 0x200a) || u == 0x2028 || u == 0x2029 || u == 0x202f || u == 0x205f || u == 0x3000
}

/// `s` without its leading whitespace.
pub open spec fn trim_start(s: Seq<char>) -> Seq<char>
    decreases s.len(),
{
    if s.len() > 0 && is_ws(s[0]) {
        trim_start(s.drop_first())
    } else {
        s
    }
}

/// `s` without its trailing whitespace.
pub open spec fn trim_end(s: Seq<char>) -> Seq<char>
    decreases s.len(),
{
    if s.len() > 0 && is_ws(s.last()) {
        trim_end(s.drop_last())
    } else {
        s
    }
}

/// `str::trim`: `s` without leading and trailing whitespace.
pub open spec fn trim(s: Seq<char>) -> Seq<char> {
    trim_end(trim_start(s))
}

/// The end of the run of non-whitespace characters that starts at `i`.
pub open spec fn token_end(s: Seq<char>, i: int) -> int
    decreases s.len() - i,
{
    if 0 <= i < s.len() && !is_ws(s[i]) {
        token_end(s, i + 1)
    } else {
        i
    }
}

pub proof fn lemma_token_end(s: Seq<char>, i: int)
    requires
        0 <= i <= s.len(),
    ensures
        i <= token_end(s, i) <= s.len(),
        i < s.len() && !is_ws(s[i]) ==> token_end(s, i) > i,
    decreases s.len() - i,
{
    if i < s.len() && !is_ws(s[i]) {
        lemma_token_end(s, i + 1);
    }
}

/// The whitespace-separated words of `s` from index `i` on.
pub open spec fn split_from(s: Seq<char>, i: int) -> Seq<Seq<char>>
    decreases s.len() - i,
{
    if i < 0 || i >= s.len() {
        seq![]
    } else if is_ws(s[i]) {
        split_from(s, i + 1)
    } else {
        let t = token_end(s, i);
        proof {
            lemma_token_end(s, i);
        }
        seq![s.subrange(i, t)] + split_from(s, t)
    }
}

/// `str::split_whitespace`: the non-empty runs of non-whitespace characters.
pub open spec fn split_ws(s: Seq<char>) -> Seq<Seq<char>> {
    split_from(s, 0)
}

/// The view of a list of character vectors.
pub open spec fn words_view(v: Seq<Vec<char>>) -> Seq<Seq<char>> {
    v.map_values(|w: Vec<char>| w@)
}

/// `str::trim`.
pub fn trim_chars(s: &Vec<char>) -> (t: Vec<char>)
    ensures
        t@ == trim(s@),
{
    let len = s.len();
    let mut i: usize = 0;
    assert(s@.subrange(0, len as int) =~= s@);
    while i < len && is_whitespace(s[i])
        invariant
            len == s@.len(),
            i <= len,
            trim_start(s@) == trim_start(s@.subrange(i as int, len as int)),
        decreases len - i,
    {
        assert(s@.subrange(i as int, len as int).drop_first() =~= s@.subrange(
            i + 1,
            len as int,
        ));
        i = i + 1;
    }
    let ghost start = s@.subrange(i as int, len as int);
    assert(trim_start(s@) == start);
    let mut j: usize = len;
    while j > i && is_whitespace(s[j - 1])
        invariant
            len == s@.len(),
            i <= j <= len,
            start == s@.subrange(i as int, len as int),
            trim_end(start) == trim_end(s@.subrange(i as int, j as int)),
        decreases j,
    {
        assert(s@.subrange(i as int, j as int).drop_last() =~= s@.subrange(i as int, j - 1));
        j = j - 1;
    }
    let mut t: Vec<char> = Vec::new();
    let mut k = i;
    while k < j
        invariant
            len == s@.len(),
            i <= k <= j <= len,
            t@ == s@.subrange(i as int, k as int),
        decreases j - k,
    {
        t.push(s[k]);
        assert(t@ =~= s@.subrange(i as int, k + 1));
        k = k + 1;
    }
    t
}

/// `str::split_whitespace`, collected.
pub fn split_whitespace(s: &Vec<char>) -> (words: Vec<Vec<char>>)
    ensures
        words_view(words@) == split_ws(s@),
{
    let len = s.len();
    let mut words: Vec<Vec<char>> = Vec::new();
    let mut i: usize = 0;
    assert(words_view(words@) =~= seq![]);
    while i < len
        invariant
            len == s@.len(),
            i <= len,
            split_ws(s@) == words_view(words@) + split_from(s@, i as int),
        decreases len - i,
    {
        if is_whitespace(s[i]) {
            i = i + 1;
        } else {
            let mut j = i;
            let mut w: Vec<char> = Vec::new();
            while j < len && !is_whitespace(s[j])
                invariant
                    len == s@.len(),
                    i <= j <= len,
                    token_end(s@, i as int) == token_end(s@, j as int),
                    w@ == s@.subrange(i as int, j as int),
                decreases len - j,
            {
                w.push(s[j]);
                assert(w@ =~= s@.subrange(i as int, j + 1));
                j = j + 1;
            }
            let ghost before = words@;
            words.push(w);
            assert(words_view(words@) =~= words_view(before).push(w@));
            assert(split_from(s@, i as int) == seq![w@] + split_from(s@, j as int));
            assert(words_view(words@) + split_from(s@, j as int) =~= words_view(before)
                + split_from(s@, i as int));
            i = j;
        }
    }
    assert(words_view(words@) + split_from(s@, len as int) =~= words_view(words@));
    words
}

/// Whether `a` spells the literal `lit`.
pub fn chars_eq(a: &[char], lit: &str) -> (b: bool)
    ensures
        b == (a@ == lit@),
{
    let n = lit.unicode_len();
    if a.len() != n {
        return false;
    }
    let mut i: usize = 0;
    while i < n
        invariant
            n == lit@.len(),
            a@.len() == n,
            i <= n,
            forall|k: int| 0 <= k < i ==> a@[k] == lit@[k],
        decreases n - i,
    {
        if a[i] != lit.get_char(i) {
            return false;
        }
        i = i + 1;
    }
    assert(a@ =~= lit@);
    true
}

/// Whether `a` begins with the literal `lit`.
pub fn starts_with(a: &[char], lit: &str) -> (b: bool)
    ensures
        b == lit@.is_prefix_of(a@),
{
    let n = lit.unicode_len();
    if a.len() < n {
        return false;
    }
    let mut i: usize = 0;
    while i < n
        invariant
            n == lit@.len(),
            a@.len() >= n,
            i <= n,
            forall|k: int| 0 <= k < i ==> a@[k] == lit@[k],
        decreases n - i,
    {
        if a[i] != lit.get_char(i) {
            return false;
        }
        i = i + 1;
    }
    assert(lit@ =~= a@.subrange(0, n as int));
    true
}

/// An ASCII decimal digit.
pub open spec fn is_digit(c: char) -> bool {
    '0' <= c && c <= '9'
}

/// The value of a decimal digit character.
pub open spec fn digit_value(c: char) -> nat {
    if c == '1' {
        1
    } else if c == '2' {
        2
    } else if c == '3' {
        3
    } else if c == '4' {
        4
    } else if c == '5' {
        5
    } else if c == '6' {
        6
    } else if c == '7' {
        7
    } else if c == '8' {
        8
    } else if c == '9' {
        9
    } else {
        0
    }
}

fn digit_of(c: char) -> (v: usize)
    ensures
        v == digit_value(c),
        v <= 9,
{
    if c == '1' {
        1
    } else if c == '2' {
        2
    } else if c == '3' {
        3
    } else if c == '4' {
        4
    } else if c == '5' {
        5
    } else if c == '6' {
        6
    } else if c == '7' {
        7
    } else if c == '8' {
        8
    } else if c == '9' {
        9
    } else {
        0
    }
}

/// The number that a string of decimal digits spells.
pub open spec fn digits_value(s: Seq<char>) -> nat
    decreases s.len(),
{
    if s.len() == 0 {
        0
    } else {
        digits_value(s.drop_last()) * 10 + digit_value(s.last())
    }
}

/// A run of one or more ASCII digits whose value fits in `usize`.
pub open spec fn parse_digits(d: Seq<char>) -> Option<usize> {
    if d.len() > 0 && (forall|k: int| 0 <= k < d.len() ==> is_digit(#[trigger] d[k]))
        && digits_value(d) <= usize::MAX {
        Some(digits_value(d) as usize)
    } else {
        None
    }
}

/// `str::parse::<usize>`: an optional `+`, then one or more ASCII digits,
/// whose value fits in `usize`.
pub open spec fn parse_usize_spec(s: Seq<char>) -> Option<usize> {
    if s.len() > 0 && s[0] == '+' {
        parse_digits(s.drop_first())
    } else {
        parse_digits(s)
    }
}

proof fn lemma_digits_value_prefix(s: Seq<char>, k: int)
    requires
        0 <= k <= s.len(),
        forall|j: int| 0 <= j < s.len() ==> is_digit(#[trigger] s[j]),
    ensures
        digits_value(s.subrange(0, k)) <= digits_value(s),
    decreases s.len(),
{
    if k == s.len() {
        assert(s.subrange(0, k) =~= s);
    } else {
        let p = s.drop_last();
        assert(p.subrange(0, k) =~= s.subrange(0, k));
        lemma_digits_value_prefix(p, k);
    }
}

/// `str::parse::<usize>`.
pub fn parse_usize(s: &[char]) -> (r: Option<usize>)
    ensures
        r == parse_usize_spec(s@),
{
    let len = s.len();
    let start: usize = if len > 0 && s[0] == '+' {
        1
    } else {
        0
    };
    let ghost d = s@.subrange(start as int, len as int);
    assert(parse_usize_spec(s@) == parse_digits(d)) by {
        if start == 1 {
            assert(d =~= s@.drop_first());
        } else {
            assert(d =~= s@);
        }
    }
    if start == len {
        assert(d.len() == 0);
        return None;
    }
    let mut k = start;
    while k < len
        invariant
            len == s@.len(),
            start <= k <= len,
            d =~= s@.subrange(start as int, len as int),
            parse_usize_spec(s@) == parse_digits(d),
            forall|j: int| start <= j < k ==> is_digit(#[trigger] s@[j]),
        decreases len - k,
    {
        if !('0' <= s[k] && s[k] <= '9') {
            assert(!is_digit(d[k - start]));
            return None;
        }
        k = k + 1;
    }
    assert(forall|j: int| 0 <= j < d.len() ==> is_digit(#[trigger] d[j])) by {
        assert forall|j: int| 0 <= j < d.len() implies is_digit(#[trigger] d[j]) by {
            assert(d[j] == s@[start + j]);
        }
    }
    let mut acc: usize = 0;
    let mut i = start;
    while i < len
        invariant
            len == s@.len(),
            start <= i <= len,
            d =~= s@.subrange(start as int, len as int),
            parse_usize_spec(s@) == parse_digits(d),
            forall|j: int| 0 <= j < d.len() ==> is_digit(#[trigger] d[j]),
            acc == digits_value(d.subrange(0, i - start)),
        decreases len - i,
    {
        let dv = digit_of(s[i]);
        assert(d.subrange(0, i + 1 - start).drop_last() =~= d.subrange(0, i - start));
        assert(d.subrange(0, i + 1 - start).last() == s@[i as int]);
        match acc.checked_mul(10) {
            Some(m) => match m.checked_add(dv) {
                Some(v) => {
                    acc = v;
                },
                None => {
                    proof {
                        lemma_digits_value_prefix(d, i + 1 - start);
                        assert(digits_value(d.subrange(0, i + 1 - start)) == acc * 10 + dv);
                    }
                    return None;
                },
            },
            None => {
                proof {
                    lemma_digits_value_prefix(d, i + 1 - start);
                    assert(digits_value(d.subrange(0, i + 1 - start)) >= acc * 10) by (nonlinear_arith)
                        requires
                            digits_value(d.subrange(0, i + 1 - start)) == digits_value(
                                d.subrange(0, i - start),
                            ) * 10 + digit_value(d.subrange(0, i + 1 - start).last()),
                            acc == digits_value(d.subrange(0, i - start)),
                    ;
                }
                return None;
            },
        }
        i = i + 1;
    }
    assert(d.subrange(0, len - start) =~= d);
    Some(acc)
}

/// The end of the line that starts at `pos`: just past its `\n`, or the end
/// of the bytes when no `\n` follows.
pub open spec fn line_end(b: Seq<u8>, pos: int) -> int
    decreases b.len() - pos,
{
    if pos < 0 || pos >= b.len() {
        b.len() as int
    } else if b[pos] == 10 {
        pos + 1
    } else {
        line_end(b, pos + 1)
    }
}

pub proof fn lemma_line_end(b: Seq<u8>, pos: int)
    requires
        0 <= pos <= b.len(),
    ensures
        pos <= line_end(b, pos) <= b.len(),
        pos < b.len() ==> line_end(b, pos) > pos,
    decreases b.len() - pos,
{
    if pos < b.len() && b[pos] != 10 {
        lemma_line_end(b, pos + 1);
    }
}

/// Finds the end of the line that starts at `pos`.
pub fn find_line_end(b: &[u8], pos: usize) -> (e: usize)
    requires
        pos <= b@.len(),
    ensures
        e == line_end(b@, pos as int),
{
    let len = b.len();
    let mut i = pos;
    while i < len && b[i] != 10
        invariant
            len == b@.len(),
            pos <= i <= len,
            line_end(b@, pos as int) == line_end(b@, i as int),
        decreases len - i,
    {
        i = i + 1;
    }
    if i < len {
        i + 1
    } else {
        i
    }
}

/// `std::str::from_utf8`, its characters collected: `None` unless the bytes
/// are valid UTF-8, else the characters that they encode.
#[verifier::external_body]
pub(crate) fn utf8_chars(bytes: &[u8]) -> (r: Option<Vec<char>>)
    ensures
        r is Some <==> valid_utf8(bytes@),
        r matches Some(v) ==> v@ == decode_utf8(bytes@),
{
    match std::str::from_utf8(bytes) {
        Ok(s) => Some(s.chars().collect()),
        Err(_) => None,
    }
}

} // verus!
