//! Character-level text helpers shared by the parsers of this crate.

use vstd::prelude::*;

verus! {

/// The Unicode `White_Space` property, as used by `char::is_whitespace` and
/// `str::trim`.
pub open spec fn is_ws(c: char) -> bool {
    ||| ('\u{9}' <= c && c <= '\u{d}')
    ||| c == ' '
    ||| c == '\u{85}'
    ||| c == '\u{a0}'
    ||| c == '\u{1680}'
    ||| ('\u{2000}' <= c && c <= '\u{200a}')
    ||| c == '\u{2028}'
    ||| c == '\u{2029}'
    ||| c == '\u{202f}'
    ||| c == '\u{205f}'
    ||| c == '\u{3000}'
}

/// Whether `c` is whitespace in the Unicode sense.
pub fn char_is_whitespace(c: char) -> (b: bool)
    ensures
        b == is_ws(c),
{
    ('\u{9}' <= c && c <= '\u{d}') || c == ' ' || c == '\u{85}' || c == '\u{a0}' || c == '\u{1680}'
        || ('\u{2000}' <= c && c <= '\u{200a}') || c == '\u{2028}' || c == '\u{2029}' || c
        == '\u{202f}' || c == '\u{205f}' || c == '\u{3000}'
}

/// `s` with its leading whitespace removed.
pub open spec fn trim_start(s: Seq<char>) -> Seq<char>
    decreases s.len(),
{
    if s.len() > 0 && is_ws(s[0]) {
        trim_start(s.drop_first())
    } else {
        s
    }
}

/// `s` with its trailing whitespace removed.
pub open spec fn trim_end(s: Seq<char>) -> Seq<char>
    decreases s.len(),
{
    if s.len() > 0 && is_ws(s.last()) {
        trim_end(s.drop_last())
    } else {
        s
    }
}

/// `s` with leading and trailing whitespace removed, as `str::trim` does.
pub open spec fn trim(s: Seq<char>) -> Seq<char> {
    trim_end(trim_start(s))
}

} // verus!

verus! {

/// Appends `c` to `s` (`String::push`).
#[verifier::external_body]
fn push_char(s: &mut String, c: char)
    ensures
        final(s)@ == old(s)@.push(c),
{
    s.push(c);
}

/// The characters of `s`, in order.
pub fn chars_of(s: &str) -> (v: Vec<char>)
    ensures
        v@ == s@,
{
    let n = s.unicode_len();
    let mut v: Vec<char> = Vec::new();
    let mut i: usize = 0;
    while i < n
        invariant
            n == s@.len(),
            i <= n,
            v@ == s@.subrange(0, i as int),
        decreases n - i,
    {
        let c = s.get_char(i);
        v.push(c);
        i = i + 1;
        assert(v@ =~= s@.subrange(0, i as int));
    }
    assert(v@ =~= s@);
    v
}

/// A `String` holding the characters of `v`.
pub fn string_of(v: &Vec<char>) -> (s: String)
    ensures
        s@ == v@,
{
    let mut s = String::new();
    let mut i: usize = 0;
    while i < v.len()
        invariant
            i <= v.len(),
            s@ == v@.subrange(0, i as int),
        decreases v.len() - i,
    {
        push_char(&mut s, v[i]);
        i = i + 1;
        assert(s@ =~= v@.subrange(0, i as int));
    }
    assert(s@ =~= v@);
    s
}

/// The elements `v[from..to]`.
pub fn sub_chars(v: &Vec<char>, from: usize, to: usize) -> (r: Vec<char>)
    requires
        from <= to <= v.len(),
    ensures
        r@ == v@.subrange(from as int, to as int),
{
    let mut r: Vec<char> = Vec::new();
    let mut i = from;
    while i < to
        invariant
            from <= i <= to <= v.len(),
            r@ == v@.subrange(from as int, i as int),
        decreases to - i,
    {
        r.push(v[i]);
        i = i + 1;
        assert(r@ =~= v@.subrange(from as int, i as int));
    }
    r
}

/// Whether `a` and `b` hold the same characters.
pub fn chars_eq(a: &Vec<char>, b: &Vec<char>) -> (r: bool)
    ensures
        r == (a@ == b@),
{
    if a.len() != b.len() {
        return false;
    }
    let mut i: usize = 0;
    while i < a.len()
        invariant
            a.len() == b.len(),
            i <= a.len(),
            forall|j: int| 0 <= j < i ==> a@[j] == b@[j],
        decreases a.len() - i,
    {
        if a[i] != b[i] {
            return false;
        }
        i = i + 1;
    }
    assert(a@ =~= b@);
    true
}

/// Whether the characters of `a` spell the literal `lit`.
pub fn chars_eq_str(a: &Vec<char>, lit: &str) -> (r: bool)
    ensures
        r == (a@ == lit@),
{
    let b = chars_of(lit);
    chars_eq(a, &b)
}

proof fn lemma_trim_start_skip(s: Seq<char>, a: int)
    requires
        0 <= a <= s.len(),
        forall|j: int| 0 <= j < a ==> is_ws(s[j]),
    ensures
        trim_start(s) == trim_start(s.subrange(a, s.len() as int)),
    decreases a,
{
    if a == 0 {
        assert(s.subrange(0, s.len() as int) =~= s);
    } else {
        let t = s.drop_first();
        assert forall|j: int| 0 <= j < a - 1 implies is_ws(t[j]) by {
            assert(t[j] == s[j + 1]);
        }
        lemma_trim_start_skip(t, a - 1);
        assert(t.subrange(a - 1, t.len() as int) =~= s.subrange(a, s.len() as int));
    }
}

proof fn lemma_trim_end_skip(s: Seq<char>, b: int)
    requires
        0 <= b <= s.len(),
        forall|j: int| b <= j < s.len() ==> is_ws(s[j]),
    ensures
        trim_end(s) == trim_end(s.subrange(0, b)),
    decreases s.len() - b,
{
    if b == s.len() {
        assert(s.subrange(0, b) =~= s);
    } else {
        let t = s.drop_last();
        assert forall|j: int| b <= j < t.len() implies is_ws(t[j]) by {
            assert(t[j] == s[j]);
        }
        lemma_trim_end_skip(t, b);
        assert(t.subrange(0, b) =~= s.subrange(0, b));
    }
}

/// `s` with surrounding whitespace removed (`str::trim`).
pub fn trim_chars(s: &Vec<char>) -> (r: Vec<char>)
    ensures
        r@ == trim(s@),
{
    let n = s.len();
    let mut a: usize = 0;
    while a < n && char_is_whitespace(s[a])
        invariant
            n == s.len(),
            a <= n,
            forall|j: int| 0 <= j < a ==> is_ws(s@[j]),
        decreases n - a,
    {
        a = a + 1;
    }
    let mut b: usize = n;
    while b > a && char_is_whitespace(s[b - 1])
        invariant
            n == s.len(),
            a <= b <= n,
            forall|j: int| b <= j < n ==> is_ws(s@[j]),
        decreases b - a,
    {
        b = b - 1;
    }
    proof {
        lemma_trim_start_skip(s@, a as int);
        let t = s@.subrange(a as int, n as int);
        assert(trim_start(t) == t);
        assert forall|j: int| b - a <= j < t.len() implies is_ws(t[j]) by {
            assert(t[j] == s@[j + a]);
        }
        lemma_trim_end_skip(t, b - a);
        let u = t.subrange(0, b - a);
        assert(u =~= s@.subrange(a as int, b as int));
        assert(trim_end(u) == u);
    }
    sub_chars(s, a, b)
}

} // verus!

verus! {

/// `sep` occurs in `s` starting at index `i`.
pub open spec fn match_at(s: Seq<char>, sep: Seq<char>, i: int) -> bool {
    0 <= i && i + sep.len() <= s.len() && s.subrange(i, i + sep.len()) == sep
}

/// The first index at or after `i` where `sep` occurs in `s`, or -1.
pub open spec fn first_match_from(s: Seq<char>, sep: Seq<char>, i: int) -> int
    decreases s.len() - i,
{
    if i < 0 || i >= s.len() || i + sep.len() > s.len() {
        -1
    } else if match_at(s, sep, i) {
        i
    } else {
        first_match_from(s, sep, i + 1)
    }
}

proof fn lemma_first_match_bounds(s: Seq<char>, sep: Seq<char>, i: int)
    requires
        0 <= i,
    ensures
        first_match_from(s, sep, i) == -1 || (i <= first_match_from(s, sep, i) && match_at(
            s,
            sep,
            first_match_from(s, sep, i),
        )),
    decreases s.len() - i,
{
    if i >= s.len() || i + sep.len() > s.len() {
    } else if match_at(s, sep, i) {
    } else {
        lemma_first_match_bounds(s, sep, i + 1);
    }
}

pub proof fn lemma_first_match_skip(s: Seq<char>, sep: Seq<char>, start: int, i: int)
    requires
        0 <= start <= i,
        forall|j: int| start <= j < i ==> !match_at(s, sep, j),
    ensures
        first_match_from(s, sep, start) == first_match_from(s, sep, i),
    decreases i - start,
{
    if start < i {
        assert(!match_at(s, sep, start));
        lemma_first_match_skip(s, sep, start + 1, i);
    }
}

/// The pieces of `s[start..]` between the non-overlapping occurrences of the
/// non-empty `sep`, found left to right.
pub open spec fn split_from(s: Seq<char>, sep: Seq<char>, start: int) -> Seq<Seq<char>>
    decreases s.len() - start,
{
    if sep.len() == 0 || start < 0 || start > s.len() {
        seq![s.subrange(start, s.len() as int)]
    } else {
        let k = first_match_from(s, sep, start);
        if k < start || k + sep.len() > s.len() {
            seq![s.subrange(start, s.len() as int)]
        } else {
            seq![s.subrange(start, k)] + split_from(s, sep, k + sep.len())
        }
    }
}

/// The pieces of `s` that `str::split` yields for the pattern `sep`. An empty
/// pattern matches before and after every character.
pub open spec fn split(s: Seq<char>, sep: Seq<char>) -> Seq<Seq<char>> {
    if sep.len() == 0 {
        seq![Seq::<char>::empty()] + Seq::new(s.len(), |i: int| seq![s[i]]) + seq![
            Seq::<char>::empty(),
        ]
    } else {
        split_from(s, sep, 0)
    }
}

proof fn lemma_first_match_first(s: Seq<char>, sep: Seq<char>, i: int)
    requires
        0 <= i,
        sep.len() > 0,
    ensures
        first_match_from(s, sep, i) == -1 || (i <= first_match_from(s, sep, i) && match_at(
            s,
            sep,
            first_match_from(s, sep, i),
        )),
        forall|j: int|
            i <= j && (first_match_from(s, sep, i) == -1 || j < first_match_from(s, sep, i))
                ==> !match_at(s, sep, j),
    decreases s.len() - i,
{
    if i >= s.len() || i + sep.len() > s.len() {
    } else if match_at(s, sep, i) {
    } else {
        lemma_first_match_first(s, sep, i + 1);
    }
}

proof fn lemma_first_match_shift(a: Seq<char>, c: Seq<char>, sep: Seq<char>, k: int)
    requires
        0 <= k,
        sep.len() > 0,
    ensures
        first_match_from(a + c, sep, a.len() + k) == (if first_match_from(c, sep, k) < 0 {
            -1
        } else {
            a.len() + first_match_from(c, sep, k)
        }),
    decreases c.len() - k,
{
    let x = a + c;
    let i = a.len() + k;
    if k < c.len() && k + sep.len() <= c.len() {
        assert(x.subrange(i, i + sep.len()) =~= c.subrange(k, k + sep.len()));
        if !match_at(c, sep, k) {
            lemma_first_match_shift(a, c, sep, k + 1);
        }
    }
}

proof fn lemma_split_from_shift(a: Seq<char>, c: Seq<char>, sep: Seq<char>, k: int)
    requires
        0 <= k <= c.len(),
        sep.len() > 0,
    ensures
        split_from(a + c, sep, a.len() + k) == split_from(c, sep, k),
    decreases c.len() - k,
{
    let x = a + c;
    let i = a.len() + k;
    lemma_first_match_shift(a, c, sep, k);
    lemma_first_match_first(c, sep, k);
    let kc = first_match_from(c, sep, k);
    assert(x.subrange(i, x.len() as int) =~= c.subrange(k, c.len() as int));
    if kc >= k && kc + sep.len() <= c.len() {
        assert(x.subrange(i, a.len() + kc) =~= c.subrange(k, kc));
        lemma_split_from_shift(a, c, sep, kc + sep.len());
    }
}

/// A line without a line break, then a line break, then `r`: splitting at
/// line breaks yields the line, then the lines of `r`.
pub proof fn lemma_split_line(u: Seq<char>, r: Seq<char>)
    requires
        forall|j: int| 0 <= j < u.len() ==> u[j] != '\n',
    ensures
        split(u + seq!['\n'] + r, seq!['\n']) == seq![u] + split(r, seq!['\n']),
{
    let nl = seq!['\n'];
    let x = u + nl + r;
    assert forall|j: int| 0 <= j < u.len() implies !match_at(x, nl, j) by {
        if match_at(x, nl, j) {
            assert(x.subrange(j, j + 1)[0] == x[j]);
        }
    }
    lemma_first_match_skip(x, nl, 0, u.len() as int);
    assert(x.subrange(u.len() as int, u.len() as int + 1) =~= nl);
    assert(x.subrange(0, u.len() as int) =~= u);
    assert(x =~= (u + nl) + r);
    lemma_split_from_shift(u + nl, r, nl, 0);
}

/// Inserting the line `b` (with its line break) at a line start of `p + s`
/// inserts `b` into the lines of the text.
pub proof fn lemma_split_insert_line(p: Seq<char>, b: Seq<char>, s: Seq<char>) -> (j: int)
    requires
        p.len() == 0 || p.last() == '\n',
        forall|i: int| 0 <= i < b.len() ==> b[i] != '\n',
    ensures
        0 <= j <= split(p + s, seq!['\n']).len(),
        split(p + b + seq!['\n'] + s, seq!['\n']) == split(p + s, seq!['\n']).insert(j, b),
    decreases p.len(),
{
    let nl = seq!['\n'];
    if p.len() == 0 {
        assert(p + b + nl + s =~= b + nl + s);
        assert(p + s =~= s);
        lemma_split_line(b, s);
        assert(seq![b] + split(s, nl) =~= split(s, nl).insert(0, b));
        0
    } else {
        lemma_first_match_first(p, nl, 0);
        assert(match_at(p, nl, p.len() - 1)) by {
            assert(p.subrange(p.len() - 1, p.len() as int) =~= nl);
        }
        let k = first_match_from(p, nl, 0);
        assert(k >= 0) by {
            if k == -1 {
                assert(!match_at(p, nl, p.len() - 1));
            }
        }
        let u = p.subrange(0, k);
        let q = p.subrange(k + 1, p.len() as int);
        assert forall|i: int| 0 <= i < u.len() implies u[i] != '\n' by {
            if u[i] == '\n' {
                assert(p.subrange(i, i + 1) =~= nl);
                assert(match_at(p, nl, i));
            }
        }
        assert(p.subrange(k, k + 1)[0] == p[k]);
        assert(p =~= u + nl + q);
        let j0 = lemma_split_insert_line(q, b, s);
        assert(p + b + nl + s =~= u + nl + (q + b + nl + s));
        assert(p + s =~= u + nl + (q + s));
        lemma_split_line(u, q + b + nl + s);
        lemma_split_line(u, q + s);
        assert(seq![u] + split(q + s, nl).insert(j0, b) =~= (seq![u] + split(q + s, nl)).insert(
            j0 + 1,
            b,
        ));
        j0 + 1
    }
}

/// Whether `sep` occurs in `s` at index `i`.
fn chars_match_at(s: &Vec<char>, sep: &Vec<char>, i: usize) -> (r: bool)
    requires
        i + sep.len() <= s.len(),
    ensures
        r == match_at(s@, sep@, i as int),
{
    let mut j: usize = 0;
    while j < sep.len()
        invariant
            i + sep.len() <= s.len(),
            j <= sep.len(),
            forall|k: int| 0 <= k < j ==> s@[i + k] == sep@[k],
        decreases sep.len() - j,
    {
        if s[i + j] != sep[j] {
            assert(s@.subrange(i as int, i + sep.len())[j as int] != sep@[j as int]);
            return false;
        }
        j = j + 1;
    }
    assert(s@.subrange(i as int, i + sep.len()) =~= sep@);
    true
}

/// The views of the character vectors in `v`.
pub open spec fn views(v: Seq<Vec<char>>) -> Seq<Seq<char>> {
    Seq::new(v.len(), |i: int| v[i]@)
}

proof fn lemma_views_push(v: Seq<Vec<char>>, x: Vec<char>)
    ensures
        views(v.push(x)) == views(v).push(x@),
{
    assert(views(v.push(x)) =~= views(v).push(x@));
}

/// The pieces of `s` separated by `sep` (`str::split`).
pub fn split_chars(s: &Vec<char>, sep: &Vec<char>) -> (pieces: Vec<Vec<char>>)
    ensures
        views(pieces@) == split(s@, sep@),
{
    let n = s.len();
    let m = sep.len();
    let mut pieces: Vec<Vec<char>> = Vec::new();
    if m == 0 {
        pieces.push(Vec::new());
        let mut i: usize = 0;
        assert(views(pieces@) =~= seq![Seq::<char>::empty()] + Seq::new(
            0 as nat,
            |k: int| seq![s@[k]],
        ));
        while i < n
            invariant
                n == s.len(),
                i <= n,
                views(pieces@) == seq![Seq::<char>::empty()] + Seq::new(
                    i as nat,
                    |k: int| seq![s@[k]],
                ),
            decreases n - i,
        {
            let mut one: Vec<char> = Vec::new();
            one.push(s[i]);
            proof {
                lemma_views_push(pieces@, one);
            }
            pieces.push(one);
            i = i + 1;
            assert(views(pieces@) =~= seq![Seq::<char>::empty()] + Seq::new(
                i as nat,
                |k: int| seq![s@[k]],
            ));
        }
        let e: Vec<char> = Vec::new();
        proof {
            lemma_views_push(pieces@, e);
        }
        pieces.push(e);
        assert(views(pieces@) =~= split(s@, sep@));
        return pieces;
    }
    let mut start: usize = 0;
    let mut i: usize = 0;
    assert(views(pieces@) + split_from(s@, sep@, 0) =~= split(s@, sep@));
    while m <= n && i <= n - m
        invariant
            n == s.len(),
            m == sep.len(),
            m > 0,
            start <= i,
            i <= n,
            views(pieces@) + split_from(s@, sep@, start as int) == split(s@, sep@),
            forall|j: int| start <= j < i ==> !match_at(s@, sep@, j),
        decreases n - i,
    {
        if chars_match_at(s, sep, i) {
            proof {
                lemma_first_match_skip(s@, sep@, start as int, i as int);
                assert(first_match_from(s@, sep@, i as int) == i);
            }
            let piece = sub_chars(s, start, i);
            let ghost before = views(pieces@);
            proof {
                lemma_views_push(pieces@, piece);
            }
            pieces.push(piece);
            assert(split_from(s@, sep@, start as int) == seq![s@.subrange(start as int, i as int)]
                + split_from(s@, sep@, (i + m) as int));
            assert(views(pieces@) + split_from(s@, sep@, (i + m) as int) =~= before
                + split_from(s@, sep@, start as int));
            i = i + m;
            start = i;
        } else {
            i = i + 1;
        }
    }
    proof {
        lemma_first_match_skip(s@, sep@, start as int, i as int);
        assert(first_match_from(s@, sep@, i as int) == -1);
    }
    let last = sub_chars(s, start, n);
    let ghost before = views(pieces@);
    proof {
        lemma_views_push(pieces@, last);
    }
    pieces.push(last);
    assert(views(pieces@) =~= before + split_from(s@, sep@, start as int));
    pieces
}

} // verus!

verus! {

/// `c` is an ASCII decimal digit.
pub open spec fn is_digit(c: char) -> bool {
    '0' <= c && c <= '9'
}

/// The value of the decimal digit `c`.
pub open spec fn digit_value(c: char) -> nat {
    (c as int - '0' as int) as nat
}

/// The number that the decimal digits `d` spell.
pub open spec fn digits_value(d: Seq<char>) -> nat
    decreases d.len(),
{
    if d.len() == 0 {
        0
    } else {
        digits_value(d.drop_last()) * 10 + digit_value(d.last())
    }
}

/// Every character of `d` is an ASCII decimal digit.
pub open spec fn all_digits(d: Seq<char>) -> bool {
    forall|i: int| 0 <= i < d.len() ==> is_digit(#[trigger] d[i])
}

/// What `u8::from_str` (and so `str::parse::<u8>`) returns for `s`: an
/// optional `+` followed by at least one ASCII digit, of value at most 255.
pub open spec fn parse_u8(s: Seq<char>) -> Option<u8> {
    let d = if s.len() > 0 && s[0] == '+' {
        s.drop_first()
    } else {
        s
    };
    if s.len() == 0 || d.len() == 0 || !all_digits(d) || digits_value(d) > 255 {
        None
    } else {
        Some(digits_value(d) as u8)
    }
}

proof fn lemma_digits_value_take(d: Seq<char>, i: int)
    requires
        0 <= i < d.len(),
    ensures
        digits_value(d.take(i + 1)) == digits_value(d.take(i)) * 10 + digit_value(d[i]),
{
    assert(d.take(i + 1).drop_last() =~= d.take(i));
}

proof fn lemma_digits_value_monotone(d: Seq<char>, i: int)
    requires
        0 <= i <= d.len(),
    ensures
        digits_value(d.take(i)) <= digits_value(d),
    decreases d.len() - i,
{
    if i < d.len() {
        lemma_digits_value_take(d, i);
        lemma_digits_value_monotone(d, i + 1);
    } else {
        assert(d.take(i) =~= d);
    }
}

/// What `u16::from_str` returns for `s`: an optional `+` followed by at
/// least one ASCII digit, of value at most 65535.
pub open spec fn parse_u16(s: Seq<char>) -> Option<u16> {
    let d = if s.len() > 0 && s[0] == '+' {
        s.drop_first()
    } else {
        s
    };
    if s.len() == 0 || d.len() == 0 || !all_digits(d) || digits_value(d) > 65535 {
        None
    } else {
        Some(digits_value(d) as u16)
    }
}

/// `u8::from_str` on the characters `s`.
pub fn parse_u8_chars(s: &Vec<char>) -> (r: Option<u8>)
    ensures
        r == parse_u8(s@),
{
    let n = s.len();
    if n == 0 {
        return None;
    }
    let from: usize = if s[0] == '+' {
        1
    } else {
        0
    };
    let ghost d = if s@[0] == '+' {
        s@.drop_first()
    } else {
        s@
    };
    assert(d =~= s@.subrange(from as int, n as int));
    if from == n {
        return None;
    }
    let mut acc: u32 = 0;
    let mut i: usize = from;
    while i < n
        invariant
            n == s.len(),
            from <= i <= n,
            from < n,
            d == s@.subrange(from as int, n as int),
            d == (if s@[0] == '+' {
                s@.drop_first()
            } else {
                s@
            }),
            acc <= 255,
            forall|k: int| 0 <= k < i - from ==> is_digit(#[trigger] d[k]),
            acc == digits_value(d.take(i - from)),
        decreases n - i,
    {
        let c = s[i];
        if !('0' <= c && c <= '9') {
            assert(!is_digit(d[i - from]));
            return None;
        }
        proof {
            lemma_digits_value_take(d, i - from);
        }
        let v = (c as u32) - ('0' as u32);
        acc = acc * 10 + v;
        i = i + 1;
        if acc > 255 {
            proof {
                lemma_digits_value_monotone(d, i - from);
            }
            return None;
        }
    }
    assert(d.take(n - from) =~= d);
    Some(acc as u8)
}

/// `u16::from_str` on the characters `s`.
pub fn parse_u16_chars(s: &Vec<char>) -> (r: Option<u16>)
    ensures
        r == parse_u16(s@),
{
    let n = s.len();
    if n == 0 {
        return None;
    }
    let from: usize = if s[0] == '+' {
        1
    } else {
        0
    };
    let ghost d = if s@[0] == '+' {
        s@.drop_first()
    } else {
        s@
    };
    assert(d =~= s@.subrange(from as int, n as int));
    if from == n {
        return None;
    }
    let mut acc: u32 = 0;
    let mut i: usize = from;
    while i < n
        invariant
            n == s.len(),
            from <= i <= n,
            from < n,
            d == s@.subrange(from as int, n as int),
            d == (if s@[0] == '+' {
                s@.drop_first()
            } else {
                s@
            }),
            acc <= 65535,
            forall|k: int| 0 <= k < i - from ==> is_digit(#[trigger] d[k]),
            acc == digits_value(d.take(i - from)),
        decreases n - i,
    {
        let c = s[i];
        if !('0' <= c && c <= '9') {
            assert(!is_digit(d[i - from]));
            return None;
        }
        proof {
            lemma_digits_value_take(d, i - from);
        }
        let v = (c as u32) - ('0' as u32);
        acc = acc * 10 + v;
        i = i + 1;
        if acc > 65535 {
            proof {
                lemma_digits_value_monotone(d, i - from);
            }
            return None;
        }
    }
    assert(d.take(n - from) =~= d);
    Some(acc as u16)
}

/// The decimal digit character for `d < 10`.
pub open spec fn digit_char(d: nat) -> char {
    if d == 0 {
        '0'
    } else if d == 1 {
        '1'
    } else if d == 2 {
        '2'
    } else if d == 3 {
        '3'
    } else if d == 4 {
        '4'
    } else if d == 5 {
        '5'
    } else if d == 6 {
        '6'
    } else if d == 7 {
        '7'
    } else if d == 8 {
        '8'
    } else {
        '9'
    }
}

/// The decimal representation of `n`, as `Display` writes it.
pub open spec fn decimal(n: nat) -> Seq<char>
    decreases n,
{
    if n < 10 {
        seq![digit_char(n)]
    } else {
        decimal(n / 10).push(digit_char(n % 10))
    }
}

/// The decimal representation of `n` is a non-empty run of ASCII digits
/// that spells `n`.
pub proof fn lemma_decimal_spells(n: nat)
    ensures
        decimal(n).len() > 0,
        all_digits(decimal(n)),
        digits_value(decimal(n)) == n,
    decreases n,
{
    let d = decimal(n);
    assert(digit_value(digit_char(n % 10)) == n % 10);
    if n < 10 {
        assert(d.drop_last() =~= Seq::<char>::empty());
        assert(digits_value(d.drop_last()) == 0);
    } else {
        lemma_decimal_spells(n / 10);
        assert(d.drop_last() =~= decimal(n / 10));
        assert(d.last() == digit_char(n % 10));
        assert(n == (n / 10) * 10 + n % 10);
        assert forall|i: int| 0 <= i < d.len() implies is_digit(#[trigger] d[i]) by {
            if i < d.len() - 1 {
                assert(d[i] == decimal(n / 10)[i]);
            }
        }
    }
}

/// A `u8` written in decimal parses back to itself.
pub proof fn lemma_parse_u8_decimal(n: u8)
    ensures
        parse_u8(decimal(n as nat)) == Some(n),
{
    lemma_decimal_spells(n as nat);
    assert(is_digit(decimal(n as nat)[0]));
}

fn digit_char_exec(d: u64) -> (c: char)
    requires
        d < 10,
    ensures
        c == digit_char(d as nat),
{
    if d == 0 {
        '0'
    } else if d == 1 {
        '1'
    } else if d == 2 {
        '2'
    } else if d == 3 {
        '3'
    } else if d == 4 {
        '4'
    } else if d == 5 {
        '5'
    } else if d == 6 {
        '6'
    } else if d == 7 {
        '7'
    } else if d == 8 {
        '8'
    } else {
        '9'
    }
}

/// Appends the decimal representation of `n` to `out`.
pub fn push_decimal(n: u64, out: &mut Vec<char>)
    ensures
        final(out)@ == old(out)@ + decimal(n as nat),
    decreases n,
{
    if n >= 10 {
        push_decimal(n / 10, out);
    }
    out.push(digit_char_exec(n % 10));
    assert(final(out)@ =~= old(out)@ + decimal(n as nat));
}

/// Appends the characters of `lit` to `out`.
pub fn push_str(out: &mut Vec<char>, lit: &str)
    ensures
        final(out)@ == old(out)@ + lit@,
{
    let cs = chars_of(lit);
    let mut i: usize = 0;
    let ghost start = out@;
    while i < cs.len()
        invariant
            i <= cs.len(),
            cs@ == lit@,
            out@ == start + cs@.take(i as int),
        decreases cs.len() - i,
    {
        out.push(cs[i]);
        i = i + 1;
        assert(out@ =~= start + cs@.take(i as int));
    }
    assert(cs@.take(i as int) =~= cs@);
}

/// Appends the characters of `v` to `out`.
pub fn push_chars(out: &mut Vec<char>, v: &Vec<char>)
    ensures
        final(out)@ == old(out)@ + v@,
{
    let mut i: usize = 0;
    let ghost start = out@;
    while i < v.len()
        invariant
            i <= v.len(),
            out@ == start + v@.take(i as int),
        decreases v.len() - i,
    {
        out.push(v[i]);
        i = i + 1;
        assert(out@ =~= start + v@.take(i as int));
    }
    assert(v@.take(i as int) =~= v@);
}

} // verus!

verus! {

/// The views of the strings in `v`.
pub open spec fn string_views(v: Seq<String>) -> Seq<Seq<char>> {
    Seq::new(v.len(), |i: int| v[i]@)
}

pub proof fn lemma_string_views_push(v: Seq<String>, x: String)
    ensures
        string_views(v.push(x)) == string_views(v).push(x@),
{
    assert(string_views(v.push(x)) =~= string_views(v).push(x@));
}

} // verus!

verus! {

/// The index of the last occurrence of `c` in `s`.
pub open spec fn last_index_of(s: Seq<char>, c: char) -> Option<int>
    decreases s.len(),
{
    if s.len() == 0 {
        None
    } else if s.last() == c {
        Some(s.len() - 1)
    } else {
        last_index_of(s.drop_last(), c)
    }
}

proof fn lemma_last_index_of_prefix(s: Seq<char>, c: char, n: int)
    requires
        0 <= n <= s.len(),
        forall|j: int| n <= j < s.len() ==> s[j] != c,
    ensures
        last_index_of(s, c) == last_index_of(s.take(n), c),
    decreases s.len() - n,
{
    if n < s.len() {
        assert(s.drop_last().take(n) =~= s.take(n));
        lemma_last_index_of_prefix(s.drop_last(), c, n);
    } else {
        assert(s.take(n) =~= s);
    }
}

/// The index of the last `c` in `v` (`str::rfind` by character).
pub fn rfind_char(v: &Vec<char>, c: char) -> (r: Option<usize>)
    ensures
        match last_index_of(v@, c) {
            Some(i) => 0 <= i < v@.len() && r == Some(i as usize),
            None => r is None,
        },
{
    let mut i: usize = v.len();
    while i > 0
        invariant
            i <= v.len(),
            forall|j: int| i <= j < v.len() ==> v@[j] != c,
        decreases i,
    {
        if v[i - 1] == c {
            proof {
                lemma_last_index_of_prefix(v@, c, i as int);
                assert(v@.take(i as int).last() == c);
            }
            return Some(i - 1);
        }
        i = i - 1;
    }
    proof {
        lemma_last_index_of_prefix(v@, c, 0);
        assert(v@.take(0).len() == 0);
    }
    None
}

/// Whether every character of `v` is an ASCII decimal digit.
pub fn chars_all_digits(v: &Vec<char>) -> (b: bool)
    ensures
        b == all_digits(v@),
{
    let mut i: usize = 0;
    while i < v.len()
        invariant
            i <= v.len(),
            forall|j: int| 0 <= j < i ==> is_digit(#[trigger] v@[j]),
        decreases v.len() - i,
    {
        if !('0' <= v[i] && v[i] <= '9') {
            return false;
        }
        i = i + 1;
    }
    true
}

} // verus!
