//! Text operations of the option dictionaries: case mappings, whitespace collapsing,
//! substring search, and decimal numbers read and written as `std` does.
use vstd::prelude::*;
use vstd::string::*;

use crate::text::{ascii_lower, char_is_whitespace, is_unicode_whitespace, range_eq};

verus! {

/// The ASCII uppercase form of a character; other characters are unchanged.
pub open spec fn ascii_upper_char(c: char) -> char {
    if 'a' <= c && c <= 'z' {
        ((c as u32) - 32) as char
    } else {
        c
    }
}

/// `s` with each ASCII letter in uppercase.
pub open spec fn ascii_upper(s: Seq<char>) -> Seq<char> {
    Seq::new(s.len(), |i: int| ascii_upper_char(s[i]))
}

/// `str::to_ascii_uppercase`: maps `a`..=`z` to `A`..=`Z` and leaves every other character.
#[verifier::external_body]
pub(crate) fn to_ascii_uppercase(s: &str) -> (res: String)
    ensures
        res@ == ascii_upper(s@),
{
    s.to_ascii_uppercase()
}

/// `s` with each ASCII letter in lowercase.
pub open spec fn ascii_lowercase(s: Seq<char>) -> Seq<char> {
    Seq::new(s.len(), |i: int| ascii_lower(s[i]) as char)
}

/// `str::to_ascii_lowercase`: maps `A`..=`Z` to `a`..=`z` and leaves every other character.
#[verifier::external_body]
pub(crate) fn to_ascii_lowercase(s: &str) -> (res: String)
    ensures
        res@ == ascii_lowercase(s@),
{
    s.to_ascii_lowercase()
}

/// The Unicode lowercase mapping of a string, as `str::to_lowercase` computes it.
pub uninterp spec fn unicode_lowercase(s: Seq<char>) -> Seq<char>;

/// `str::to_lowercase`: the Unicode lowercase mapping of `s`, named by `unicode_lowercase`.
#[verifier::external_body]
pub(crate) fn to_lowercase(s: &str) -> (res: String)
    ensures
        res@ == unicode_lowercase(s@),
{
    s.to_lowercase()
}

/// The character of a decimal digit.
pub open spec fn digit_char(d: nat) -> char {
    (('0' as u32) + d) as char
}

/// The decimal digits of `n`, most significant first, without leading zeros.
pub open spec fn decimal(n: nat) -> Seq<char>
    decreases n,
{
    if n < 10 {
        seq![digit_char(n)]
    } else {
        decimal(n / 10).push(digit_char(n % 10))
    }
}

/// `s` with zeros in front up to `width` characters, as `{:0width$}` formats.
pub open spec fn zero_padded(s: Seq<char>, width: nat) -> Seq<char> {
    if s.len() < width {
        Seq::new((width - s.len()) as nat, |i: int| '0') + s
    } else {
        s
    }
}

/// Appends the decimal digits of `n` to `out`.
pub fn push_decimal(out: &mut String, n: u64)
    ensures
        final(out)@ == old(out)@ + decimal(n as nat),
    decreases n,
{
    let digits = "0123456789";
    proof {
        reveal_strlit("0123456789");
    }
    if n >= 10 {
        push_decimal(out, n / 10);
    }
    let d = (n % 10) as usize;
    let c = digits.substring_char(d, d + 1);
    proof {
        assert(c@ =~= seq![digit_char(d as nat)]);
    }
    out.append(c);
    proof {
        assert(final(out)@ =~= old(out)@ + decimal(n as nat));
    }
}

/// `n.to_string()` for an unsigned integer.
pub fn decimal_string(n: u64) -> (res: String)
    ensures
        res@ == decimal(n as nat),
{
    let mut s = String::new();
    push_decimal(&mut s, n);
    assert(s@ =~= decimal(n as nat));
    s
}

/// Appends `n` in decimal, zero-padded to three digits.
pub fn push_decimal_width3(out: &mut String, n: u64)
    ensures
        final(out)@ == old(out)@ + zero_padded(decimal(n as nat), 3),
{
    let zeros = "00";
    proof {
        reveal_strlit("00");
        lemma_decimal_len_small(n as nat);
    }
    if n < 10 {
        out.append(zeros);
    } else if n < 100 {
        out.append(zeros.substring_char(0, 1));
    }
    push_decimal(out, n);
    proof {
        let d = decimal(n as nat);
        if n < 10 {
            assert(Seq::new((3 - d.len()) as nat, |i: int| '0') =~= "00"@);
        } else if n < 100 {
            assert(Seq::new((3 - d.len()) as nat, |i: int| '0') =~= "00"@.subrange(0, 1));
        }
        assert(final(out)@ =~= old(out)@ + zero_padded(d, 3));
    }
}

/// One or two digits for numbers below a hundred, at least three otherwise.
proof fn lemma_decimal_len_small(n: nat)
    ensures
        n < 10 ==> decimal(n).len() == 1,
        10 <= n < 100 ==> decimal(n).len() == 2,
        n >= 100 ==> decimal(n).len() >= 3,
    decreases n,
{
    if n >= 10 {
        lemma_decimal_len_small(n / 10);
    }
}

/// An ASCII decimal digit.
pub open spec fn is_digit(c: char) -> bool {
    '0' <= c && c <= '9'
}

/// The number that a run of decimal digits spells.
pub open spec fn digits_value(s: Seq<char>) -> nat
    decreases s.len(),
{
    if s.len() == 0 {
        0
    } else {
        digits_value(s.drop_last()) * 10 + ((s.last() as u32) - ('0' as u32)) as nat
    }
}

/// Every character of `s` is a decimal digit.
pub open spec fn all_digits(s: Seq<char>) -> bool {
    forall|i: int| 0 <= i < s.len() ==> is_digit(#[trigger] s[i])
}

/// `s` without one leading `+`.
pub open spec fn unsigned_body(s: Seq<char>) -> Seq<char> {
    if s.len() > 0 && s[0] == '+' {
        s.subrange(1, s.len() as int)
    } else {
        s
    }
}

/// `str::parse::<u32>`: an optional `+`, then one or more decimal digits whose value fits.
pub open spec fn parse_u32(s: Seq<char>) -> Option<u32> {
    let body = unsigned_body(s);
    if body.len() > 0 && all_digits(body) && digits_value(body) <= u32::MAX {
        Some(digits_value(body) as u32)
    } else {
        None
    }
}

/// A longer run of digits spells at least as much as its prefix.
proof fn lemma_digits_value_grows(s: Seq<char>, k: int)
    requires
        0 <= k <= s.len(),
        forall|i: int| 0 <= i < s.len() ==> is_digit(#[trigger] s[i]),
    ensures
        digits_value(s.subrange(0, k)) <= digits_value(s),
    decreases s.len() - k,
{
    if k < s.len() {
        lemma_digits_value_grows(s, k + 1);
        assert(s.subrange(0, k + 1).drop_last() =~= s.subrange(0, k));
    } else {
        assert(s.subrange(0, k) =~= s);
    }
}

/// `s.parse::<u32>().ok()`.
pub fn parse_u32_exec(s: &str) -> (res: Option<u32>)
    ensures
        res == parse_u32(s@),
{
    let n = s.unicode_len();
    let mut start: usize = 0;
    if n > 0 && s.get_char(0) == '+' {
        start = 1;
    }
    let ghost body = s@.subrange(start as int, n as int);
    proof {
        if n > 0 && s@[0] == '+' {
        } else {
            assert(body =~= s@);
        }
        assert(body == unsigned_body(s@));
    }
    if start == n {
        return None;
    }
    let mut acc: u64 = 0;
    let mut i = start;
    while i < n
        invariant
            n == s@.len(),
            start <= i <= n,
            body == s@.subrange(start as int, n as int),
            body == unsigned_body(s@),
            forall|j: int| 0 <= j < i - start ==> is_digit(#[trigger] body[j]),
            acc as nat == digits_value(body.subrange(0, i - start)),
            acc <= u32::MAX,
        decreases n - i,
    {
        let c = s.get_char(i);
        if !('0' <= c && c <= '9') {
            assert(!is_digit(body[i - start]));
            return None;
        }
        let next = acc * 10 + ((c as u32) - ('0' as u32)) as u64;
        proof {
            assert(body.subrange(0, i + 1 - start).drop_last() =~= body.subrange(0, i - start));
            assert(body[i - start] == c);
        }
        if next > u32::MAX as u64 {
            proof {
                if all_digits(body) {
                    lemma_digits_value_grows(body, i + 1 - start);
                }
            }
            return None;
        }
        acc = next;
        i = i + 1;
    }
    assert(body.subrange(0, n - start) =~= body);
    Some(acc as u32)
}


/// `p` occurs in `s` as a run of consecutive characters.
pub open spec fn contains_seq(s: Seq<char>, p: Seq<char>) -> bool {
    exists|i: int| 0 <= i && i + p.len() <= s.len() && #[trigger] s.subrange(i, i + p.len()) == p
}

/// `str::contains` with a string pattern.
pub fn str_contains(s: &str, p: &str) -> (res: bool)
    ensures
        res == contains_seq(s@, p@),
{
    let n = s.unicode_len();
    let m = p.unicode_len();
    if m > n {
        return false;
    }
    let mut i: usize = 0;
    loop
        invariant
            n == s@.len(),
            m == p@.len(),
            m <= n,
            i <= n - m,
            forall|j: int| 0 <= j < i ==> #[trigger] s@.subrange(j, j + m) != p@,
        decreases n - m - i,
    {
        if range_eq(s, i, i + m, p) {
            return true;
        }
        if i == n - m {
            return false;
        }
        i = i + 1;
    }
}


/// The number of characters before the first whitespace of `s`.
pub open spec fn word_len(s: Seq<char>) -> nat
    decreases s.len(),
{
    if s.len() > 0 && !is_unicode_whitespace(s[0]) {
        1 + word_len(s.subrange(1, s.len() as int))
    } else {
        0
    }
}

/// The whitespace-separated words of `s`, in order, as `str::split_whitespace` gives them.
pub open spec fn words(s: Seq<char>) -> Seq<Seq<char>>
    decreases s.len(),
{
    if s.len() == 0 {
        Seq::empty()
    } else if is_unicode_whitespace(s[0]) {
        words(s.subrange(1, s.len() as int))
    } else {
        let k = word_len(s);
        if 1 <= k <= s.len() {
            seq![s.subrange(0, k as int)] + words(s.subrange(k as int, s.len() as int))
        } else {
            Seq::empty()
        }
    }
}

/// The pieces joined with one space between neighbours, as `join(" ")` does.
pub open spec fn join_spaced(pieces: Seq<Seq<char>>) -> Seq<char>
    decreases pieces.len(),
{
    if pieces.len() == 0 {
        Seq::empty()
    } else if pieces.len() == 1 {
        pieces[0]
    } else {
        join_spaced(pieces.drop_last()) + seq![' '] + pieces.last()
    }
}

/// The words of `s` joined by single spaces: every run of whitespace becomes one space and
/// the ends are trimmed.
pub open spec fn collapse_whitespace(s: Seq<char>) -> Seq<char> {
    join_spaced(words(s))
}

/// A word's length is where its first whitespace stands.
proof fn lemma_word_len(s: Seq<char>, k: int)
    requires
        0 <= k <= s.len(),
        forall|j: int| 0 <= j < k ==> !is_unicode_whitespace(#[trigger] s[j]),
        k == s.len() || is_unicode_whitespace(s[k]),
    ensures
        word_len(s) == k,
    decreases k,
{
    if k > 0 {
        let r = s.subrange(1, s.len() as int);
        assert forall|j: int| 0 <= j < k - 1 implies !is_unicode_whitespace(#[trigger] r[j]) by {
            assert(r[j] == s[j + 1]);
        };
        if k < s.len() {
            assert(r[k - 1] == s[k]);
        }
        lemma_word_len(r, k - 1);
    }
}

/// `value.split_whitespace().collect::<Vec<_>>().join(" ")`.
pub fn collapse_whitespace_exec(s: &str) -> (res: String)
    ensures
        res@ == collapse_whitespace(s@),
{
    let n = s.unicode_len();
    let mut out = String::new();
    let ghost mut done: Seq<Seq<char>> = Seq::empty();
    let mut started = false;
    let mut i: usize = 0;
    proof {
        assert(s@.subrange(0, n as int) =~= s@);
    }
    while i < n
        invariant
            n == s@.len(),
            i <= n,
            words(s@) == done + words(s@.subrange(i as int, n as int)),
            out@ == join_spaced(done),
            started == (done.len() > 0),
        decreases n - i,
    {
        let ghost rest = s@.subrange(i as int, n as int);
        if char_is_whitespace(s.get_char(i)) {
            proof {
                assert(rest.subrange(1, rest.len() as int) =~= s@.subrange(i + 1, n as int));
            }
            i = i + 1;
        } else {
            let mut j = i + 1;
            while j < n && !char_is_whitespace(s.get_char(j))
                invariant
                    n == s@.len(),
                    i < j <= n,
                    forall|x: int| i <= x < j ==> !is_unicode_whitespace(#[trigger] s@[x]),
                decreases n - j,
            {
                j = j + 1;
            }
            let ghost w = s@.subrange(i as int, j as int);
            proof {
                assert forall|x: int| 0 <= x < j - i implies !is_unicode_whitespace(
                    #[trigger] rest[x],
                ) by {
                    assert(rest[x] == s@[i + x]);
                };
                if j < n {
                    assert(rest[j - i] == s@[j as int]);
                }
                lemma_word_len(rest, j - i);
                assert(rest.subrange(0, j - i) =~= w);
                assert(rest.subrange(j - i, rest.len() as int) =~= s@.subrange(j as int, n as int));
                assert(words(rest) == seq![w] + words(s@.subrange(j as int, n as int)));
                assert(done + words(rest) =~= done.push(w) + words(s@.subrange(j as int, n as int)));
                assert(done.push(w).drop_last() =~= done);
            }
            let piece = s.substring_char(i, j);
            if started {
                out.append(" ");
            }
            out.append(piece);
            proof {
                reveal_strlit(" ");
                done = done.push(w);
            }
            started = true;
            i = j;
        }
    }
    proof {
        assert(s@.subrange(n as int, n as int) =~= Seq::<char>::empty());
        assert(done + Seq::<Seq<char>>::empty() =~= done);
    }
    out
}

} // verus!
