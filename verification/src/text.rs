use vstd::prelude::*;

verus! {

/// The code point of the ASCII lowercase form of a character; other characters keep theirs.
pub open spec fn ascii_lower(c: char) -> u32 {
    if 'A' <= c && c <= 'Z' {
        (c as u32 + 32) as u32
    } else {
        c as u32
    }
}

/// Equality of two character sequences when ASCII letters are compared without case.
pub open spec fn eq_ascii_nocase(a: Seq<char>, b: Seq<char>) -> bool {
    &&& a.len() == b.len()
    &&& forall|i: int| 0 <= i < a.len() ==> ascii_lower(#[trigger] a[i]) == ascii_lower(b[i])
}

/// `s` begins with `prefix`.
pub open spec fn has_prefix(s: Seq<char>, prefix: Seq<char>) -> bool {
    prefix.len() <= s.len() && s.subrange(0, prefix.len() as int) == prefix
}

/// The pieces of `s` between occurrences of `sep`, in order; there is always at least one.
pub open spec fn split_on(s: Seq<char>, sep: char) -> Seq<Seq<char>>
    decreases s.len(),
{
    if s.len() == 0 {
        seq![Seq::<char>::empty()]
    } else if s.last() == sep {
        split_on(s.drop_last(), sep).push(Seq::<char>::empty())
    } else {
        let pieces = split_on(s.drop_last(), sep);
        pieces.update(pieces.len() - 1, pieces.last().push(s.last()))
    }
}

/// `split_on` never yields an empty list of pieces.
pub proof fn lemma_split_on_nonempty(s: Seq<char>, sep: char)
    ensures
        split_on(s, sep).len() >= 1,
    decreases s.len(),
{
    if s.len() > 0 {
        lemma_split_on_nonempty(s.drop_last(), sep);
    }
}

/// Extending a scanned prefix by one character either starts a new piece or grows the last.
pub proof fn lemma_split_on_step(s: Seq<char>, i: int, sep: char)
    requires
        0 <= i < s.len(),
    ensures
        split_on(s.subrange(0, i + 1), sep) == (if s[i] == sep {
            split_on(s.subrange(0, i), sep).push(Seq::<char>::empty())
        } else {
            let pieces = split_on(s.subrange(0, i), sep);
            pieces.update(pieces.len() - 1, pieces.last().push(s[i]))
        }),
{
    let t = s.subrange(0, i + 1);
    assert(t.drop_last() =~= s.subrange(0, i));
    assert(t.last() == s[i]);
}

/// Scanning starts with one empty piece.
pub proof fn lemma_split_init(s: Seq<char>, sep: char)
    ensures
        split_on(s.subrange(0, 0), sep) == Seq::<Seq<char>>::empty().push(s.subrange(0, 0)),
{
    assert(s.subrange(0, 0) =~= Seq::<char>::empty());
    assert(split_on(s.subrange(0, 0), sep) =~= Seq::<Seq<char>>::empty().push(s.subrange(0, 0)));
}

/// A separator at `i` closes the open piece `[start, i)` and opens an empty one.
pub proof fn lemma_split_close(
    s: Seq<char>,
    start: int,
    i: int,
    done: Seq<Seq<char>>,
    sep: char,
)
    requires
        0 <= start <= i < s.len(),
        s[i] == sep,
        split_on(s.subrange(0, i), sep) == done.push(s.subrange(start, i)),
    ensures
        split_on(s.subrange(0, i + 1), sep) == done.push(s.subrange(start, i)).push(
            s.subrange(i + 1, i + 1),
        ),
        done.push(s.subrange(start, i)).drop_last() == done,
{
    lemma_split_on_step(s, i, sep);
    assert(s.subrange(i + 1, i + 1) =~= Seq::<char>::empty());
    assert(done.push(s.subrange(start, i)).drop_last() =~= done);
}

/// A non-separator at `i` extends the open piece to `[start, i + 1)`.
pub proof fn lemma_split_extend(
    s: Seq<char>,
    start: int,
    i: int,
    done: Seq<Seq<char>>,
    sep: char,
)
    requires
        0 <= start <= i < s.len(),
        s[i] != sep,
        split_on(s.subrange(0, i), sep) == done.push(s.subrange(start, i)),
    ensures
        split_on(s.subrange(0, i + 1), sep) == done.push(s.subrange(start, i + 1)),
{
    lemma_split_on_step(s, i, sep);
    assert(s.subrange(start, i).push(s[i]) =~= s.subrange(start, i + 1));
    assert(done.push(s.subrange(start, i)).update(done.len() as int, s.subrange(start, i + 1))
        =~= done.push(s.subrange(start, i + 1)));
}

/// At the end of the scan the pieces are those of the whole string.
pub proof fn lemma_split_finish(s: Seq<char>, start: int, done: Seq<Seq<char>>, sep: char)
    requires
        0 <= start <= s.len(),
        split_on(s.subrange(0, s.len() as int), sep) == done.push(s.subrange(start, s.len() as int)),
    ensures
        split_on(s, sep) == done.push(s.subrange(start, s.len() as int)),
        done.push(s.subrange(start, s.len() as int)).drop_last() == done,
{
    assert(s.subrange(0, s.len() as int) =~= s);
    assert(done.push(s.subrange(start, s.len() as int)).drop_last() =~= done);
}

/// Unicode `White_Space`, the set that `char::is_whitespace` and `str::trim` use.
pub open spec fn is_unicode_whitespace(c: char) -> bool {
    let v = c as u32;
    ||| (0x09 <= v && v <= 0x0D)
    ||| v == 0x20
    ||| v == 0x85
    ||| v == 0xA0
    ||| v == 0x1680
    ||| (0x2000 <= v && v <= 0x200A)
    ||| v == 0x2028
    ||| v == 0x2029
    ||| v == 0x202F
    ||| v == 0x205F
    ||| v == 0x3000
}

/// Number of leading whitespace characters of `s`.
pub open spec fn leading_ws(s: Seq<char>) -> nat
    decreases s.len(),
{
    if s.len() > 0 && is_unicode_whitespace(s[0]) {
        1 + leading_ws(s.subrange(1, s.len() as int))
    } else {
        0
    }
}

/// Number of trailing whitespace characters of `s`.
pub open spec fn trailing_ws(s: Seq<char>) -> nat
    decreases s.len(),
{
    if s.len() > 0 && is_unicode_whitespace(s.last()) {
        1 + trailing_ws(s.drop_last())
    } else {
        0
    }
}

/// `s` without leading and trailing whitespace.
pub open spec fn trim(s: Seq<char>) -> Seq<char> {
    let lead = leading_ws(s);
    if lead == s.len() {
        Seq::<char>::empty()
    } else {
        s.subrange(lead as int, s.len() - trailing_ws(s))
    }
}

pub proof fn lemma_leading_ws_bound(s: Seq<char>)
    ensures
        leading_ws(s) <= s.len(),
        forall|j: int| 0 <= j < leading_ws(s) ==> is_unicode_whitespace(#[trigger] s[j]),
        leading_ws(s) < s.len() ==> !is_unicode_whitespace(s[leading_ws(s) as int]),
    decreases s.len(),
{
    if s.len() > 0 && is_unicode_whitespace(s[0]) {
        let t = s.subrange(1, s.len() as int);
        lemma_leading_ws_bound(t);
        assert forall|j: int| 0 <= j < leading_ws(s) implies is_unicode_whitespace(#[trigger] s[j]) by {
            if j > 0 {
                assert(s[j] == t[j - 1]);
            }
        }
        if leading_ws(s) < s.len() {
            assert(s[leading_ws(s) as int] == t[leading_ws(t) as int]);
        }
    }
}

pub proof fn lemma_trailing_ws_bound(s: Seq<char>)
    ensures
        trailing_ws(s) <= s.len(),
        forall|j: int|
            s.len() - trailing_ws(s) <= j < s.len() ==> is_unicode_whitespace(#[trigger] s[j]),
        trailing_ws(s) < s.len() ==> !is_unicode_whitespace(s[s.len() - trailing_ws(s) - 1]),
    decreases s.len(),
{
    if s.len() > 0 && is_unicode_whitespace(s.last()) {
        let t = s.drop_last();
        lemma_trailing_ws_bound(t);
        assert forall|j: int| s.len() - trailing_ws(s) <= j < s.len() implies is_unicode_whitespace(
            #[trigger] s[j],
        ) by {
            if j < s.len() - 1 {
                assert(s[j] == t[j]);
            }
        }
        if trailing_ws(s) < s.len() {
            assert(s[s.len() - trailing_ws(s) - 1] == t[t.len() - trailing_ws(t) - 1]);
        }
    }
}

/// Whether `c` is Unicode whitespace.
pub fn char_is_whitespace(c: char) -> (res: bool)
    ensures
        res == is_unicode_whitespace(c),
{
    let v = c as u32;
    (0x09 <= v && v <= 0x0D) || v == 0x20 || v == 0x85 || v == 0xA0 || v == 0x1680 || (0x2000
        <= v && v <= 0x200A) || v == 0x2028 || v == 0x2029 || v == 0x202F || v == 0x205F || v
        == 0x3000
}

/// Code point of the ASCII lowercase of one character.
pub fn char_ascii_lower(c: char) -> (res: u32)
    ensures
        res == ascii_lower(c),
{
    if 'A' <= c && c <= 'Z' {
        (c as u32) + 32
    } else {
        c as u32
    }
}

/// Exact equality of two strings, character by character.
pub fn str_eq(a: &str, b: &str) -> (res: bool)
    ensures
        res == (a@ == b@),
{
    let n = a.unicode_len();
    if n != b.unicode_len() {
        return false;
    }
    let mut i: usize = 0;
    while i < n
        invariant
            n == a@.len(),
            n == b@.len(),
            i <= n,
            forall|j: int| 0 <= j < i ==> a@[j] == b@[j],
        decreases n - i,
    {
        if a.get_char(i) != b.get_char(i) {
            return false;
        }
        i = i + 1;
    }
    assert(a@ =~= b@);
    true
}

/// `str::eq_ignore_ascii_case`: equal when ASCII letters are compared without case.
pub fn eq_ignore_ascii_case(a: &str, b: &str) -> (res: bool)
    ensures
        res == eq_ascii_nocase(a@, b@),
{
    let n = a.unicode_len();
    if n != b.unicode_len() {
        return false;
    }
    let mut i: usize = 0;
    while i < n
        invariant
            n == a@.len(),
            n == b@.len(),
            i <= n,
            forall|j: int| 0 <= j < i ==> ascii_lower(#[trigger] a@[j]) == ascii_lower(b@[j]),
        decreases n - i,
    {
        let x = char_ascii_lower(a.get_char(i));
        let y = char_ascii_lower(b.get_char(i));
        if x != y {
            assert(ascii_lower(a@[i as int]) != ascii_lower(b@[i as int]));
            return false;
        }
        i = i + 1;
    }
    true
}

/// Whether the characters of `s` in `[start, end)` begin with `prefix`.
pub fn range_has_prefix(s: &str, start: usize, end: usize, prefix: &str) -> (res: bool)
    requires
        start <= end <= s@.len(),
    ensures
        res == has_prefix(s@.subrange(start as int, end as int), prefix@),
{
    let p = prefix.unicode_len();
    if p > end - start {
        return false;
    }
    let mut i: usize = 0;
    while i < p
        invariant
            p == prefix@.len(),
            start + p <= end <= s@.len(),
            i <= p,
            forall|j: int| 0 <= j < i ==> s@[start + j] == prefix@[j],
        decreases p - i,
    {
        if s.get_char(start + i) != prefix.get_char(i) {
            assert(s@.subrange(start as int, end as int).subrange(0, p as int)[i as int]
                != prefix@[i as int]);
            return false;
        }
        i = i + 1;
    }
    assert(s@.subrange(start as int, end as int).subrange(0, p as int) =~= prefix@);
    true
}

/// Whether the characters of `s` in `[start, end)` are exactly `word`.
pub fn range_eq(s: &str, start: usize, end: usize, word: &str) -> (res: bool)
    requires
        start <= end <= s@.len(),
    ensures
        res == (s@.subrange(start as int, end as int) == word@),
{
    let n = word.unicode_len();
    if n != end - start {
        return false;
    }
    let r = range_has_prefix(s, start, end, word);
    proof {
        let t = s@.subrange(start as int, end as int);
        assert(t.subrange(0, n as int) =~= t);
    }
    r
}

/// `str::trim` on a character range of `s`: the bounds of the trimmed range.
pub fn trim_range(s: &str, start: usize, end: usize) -> (res: (usize, usize))
    requires
        start <= end <= s@.len(),
    ensures
        start <= res.0 <= res.1 <= end,
        s@.subrange(res.0 as int, res.1 as int) == trim(s@.subrange(start as int, end as int)),
{
    let ghost t = s@.subrange(start as int, end as int);
    proof {
        lemma_leading_ws_bound(t);
        lemma_trailing_ws_bound(t);
    }
    let mut lo = start;
    while lo < end && char_is_whitespace(s.get_char(lo))
        invariant
            start <= lo <= end <= s@.len(),
            t == s@.subrange(start as int, end as int),
            forall|j: int| start <= j < lo ==> is_unicode_whitespace(#[trigger] s@[j]),
            leading_ws(t) <= t.len(),
            forall|j: int| 0 <= j < leading_ws(t) ==> is_unicode_whitespace(#[trigger] t[j]),
            leading_ws(t) < t.len() ==> !is_unicode_whitespace(t[leading_ws(t) as int]),
            lo - start <= leading_ws(t),
        decreases end - lo,
    {
        assert(t[lo - start] == s@[lo as int]);
        lo = lo + 1;
    }
    assert(lo - start == leading_ws(t)) by {
        if lo < end {
            assert(t[lo - start] == s@[lo as int]);
        }
    }
    if lo == end {
        assert(s@.subrange(lo as int, lo as int) =~= Seq::<char>::empty());
        return (lo, lo);
    }
    let mut hi = end;
    while hi > lo && char_is_whitespace(s.get_char(hi - 1))
        invariant
            start <= lo < end <= s@.len(),
            lo - start == leading_ws(t),
            lo <= hi <= end,
            t == s@.subrange(start as int, end as int),
            forall|j: int| hi <= j < end ==> is_unicode_whitespace(#[trigger] s@[j]),
            trailing_ws(t) <= t.len(),
            forall|j: int|
                t.len() - trailing_ws(t) <= j < t.len() ==> is_unicode_whitespace(#[trigger] t[j]),
            trailing_ws(t) < t.len() ==> !is_unicode_whitespace(t[t.len() - trailing_ws(t) - 1]),
            end - hi <= trailing_ws(t),
            !is_unicode_whitespace(s@[lo as int]),
        decreases hi - lo,
    {
        assert(t[hi - 1 - start] == s@[hi - 1]);
        hi = hi - 1;
    }
    assert(end - hi == trailing_ws(t)) by {
        if hi > lo {
            assert(t[hi - 1 - start] == s@[hi - 1]);
        } else {
            assert(t[lo - start] == s@[lo as int]);
        }
    }
    assert(s@.subrange(lo as int, hi as int) =~= t.subrange(
        leading_ws(t) as int,
        t.len() - trailing_ws(t),
    ));
    (lo, hi)
}

/// Strict lexicographic order of character sequences, as strings order.
pub open spec fn seq_lt(a: Seq<char>, b: Seq<char>) -> bool
    decreases a.len(),
{
    if a.len() == 0 {
        b.len() > 0
    } else if b.len() == 0 {
        false
    } else if a[0] != b[0] {
        a[0] < b[0]
    } else {
        seq_lt(a.drop_first(), b.drop_first())
    }
}

proof fn lemma_seq_lt_skip(a: Seq<char>, b: Seq<char>, i: int)
    requires
        0 <= i <= a.len(),
        i <= b.len(),
        a.subrange(0, i) == b.subrange(0, i),
    ensures
        seq_lt(a, b) == seq_lt(a.skip(i), b.skip(i)),
    decreases i,
{
    if i > 0 {
        assert(a[0] == a.subrange(0, i)[0]);
        assert(b[0] == b.subrange(0, i)[0]);
        assert(a.drop_first().subrange(0, i - 1) =~= a.subrange(0, i).drop_first());
        assert(b.drop_first().subrange(0, i - 1) =~= b.subrange(0, i).drop_first());
        lemma_seq_lt_skip(a.drop_first(), b.drop_first(), i - 1);
        assert(a.drop_first().skip(i - 1) =~= a.skip(i));
        assert(b.drop_first().skip(i - 1) =~= b.skip(i));
    } else {
        assert(a.skip(0) =~= a);
        assert(b.skip(0) =~= b);
    }
}

/// Whether `a` orders strictly before `b`, as strings order.
pub fn str_lt(a: &str, b: &str) -> (res: bool)
    ensures
        res == seq_lt(a@, b@),
{
    let n = a.unicode_len();
    let m = b.unicode_len();
    let mut i: usize = 0;
    while i < n && i < m
        invariant
            n == a@.len(),
            m == b@.len(),
            i <= n,
            i <= m,
            a@.subrange(0, i as int) == b@.subrange(0, i as int),
        decreases n - i,
    {
        let x = a.get_char(i);
        let y = b.get_char(i);
        if x != y {
            proof {
                lemma_seq_lt_skip(a@, b@, i as int);
                assert(a@.skip(i as int)[0] == x);
                assert(b@.skip(i as int)[0] == y);
            }
            return x < y;
        }
        proof {
            assert(a@.subrange(0, i + 1) =~= a@.subrange(0, i as int).push(x));
            assert(b@.subrange(0, i + 1) =~= b@.subrange(0, i as int).push(y));
        }
        i = i + 1;
    }
    proof {
        lemma_seq_lt_skip(a@, b@, i as int);
        if i == n {
            assert(a@.skip(i as int).len() == 0);
        } else {
            assert(b@.skip(i as int).len() == 0);
        }
    }
    i == n && i < m
}


/// No sequence orders before itself.
pub proof fn lemma_seq_lt_irreflexive(a: Seq<char>)
    ensures
        !seq_lt(a, a),
    decreases a.len(),
{
    if a.len() > 0 {
        lemma_seq_lt_irreflexive(a.drop_first());
    }
}

/// Two distinct sequences are ordered one way or the other, and not both ways.
pub proof fn lemma_seq_lt_total(a: Seq<char>, b: Seq<char>)
    ensures
        a != b ==> seq_lt(a, b) || seq_lt(b, a),
        !(seq_lt(a, b) && seq_lt(b, a)),
    decreases a.len(),
{
    if a.len() > 0 && b.len() > 0 {
        if a[0] == b[0] {
            lemma_seq_lt_total(a.drop_first(), b.drop_first());
            if a.drop_first() == b.drop_first() {
                assert(a =~= b) by {
                    assert forall|i: int| 0 <= i < a.len() implies a[i] == b[i] by {
                        if i > 0 {
                            assert(a[i] == a.drop_first()[i - 1]);
                            assert(b[i] == b.drop_first()[i - 1]);
                        }
                    }
                }
            }
        } else {
        }
    } else if a.len() == 0 && b.len() == 0 {
        assert(a =~= b);
    }
}

/// The order of sequences is transitive.
pub proof fn lemma_seq_lt_transitive(a: Seq<char>, b: Seq<char>, c: Seq<char>)
    requires
        seq_lt(a, b),
        seq_lt(b, c),
    ensures
        seq_lt(a, c),
    decreases a.len(),
{
    if a.len() > 0 && b.len() > 0 && c.len() > 0 {
        if a[0] == b[0] && b[0] == c[0] {
            lemma_seq_lt_transitive(a.drop_first(), b.drop_first(), c.drop_first());
        }
    }
}

} // verus!
