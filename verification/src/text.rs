//! Character-level text handling: whitespace, trimming, splitting,
//! searching and decimal numbers.
//!
//! Text is handled as sequences of `char`s (`Vec<char>` at run time,
//! `Seq<char>` in contracts), so that every operation below has a plain
//! mathematical meaning.

use vstd::prelude::*;

verus! {

broadcast use vstd::string::group_string_axioms;

// ---------------------------------------------------------------------
// Conversions between strings and character vectors
// ---------------------------------------------------------------------

/// The characters of a string slice, in order.
pub fn chars_of(s: &str) -> (v: Vec<char>)
    ensures
        v@ == s@,
{
    let mut v: Vec<char> = Vec::new();
    for c in it: s.chars()
        invariant
            v@ == it.seq().take(it.index() as int),
            it.seq() == s@,
    {
        v.push(c);
    }
    v
}

/// Builds a `String` holding exactly the given characters.
///
/// Trusted: `FromIterator<&char>` for `String` (std), which appends each
/// character in turn; the contract claims the result holds `v`'s characters
/// in order and nothing else.
#[verifier::external_body]
pub(crate) fn string_from_chars(v: &Vec<char>) -> (s: String)
    ensures
        s@ == v@,
{
    v.iter().collect()
}

/// Appends all characters of `src` to `dst`.
pub fn push_all(dst: &mut Vec<char>, src: &Vec<char>)
    ensures
        final(dst)@ == old(dst)@ + src@,
{
    let ghost start = dst@;
    let n = src.len();
    for i in 0..n
        invariant
            n == src@.len(),
            dst@ == start + src@.take(i as int),
    {
        dst.push(src[i]);
        assert(src@.take(i + 1) == src@.take(i as int).push(src@[i as int]));
    }
    assert(src@.take(n as int) == src@);
}

/// Whether two character vectors hold the same characters.
pub fn chars_eq(a: &Vec<char>, b: &Vec<char>) -> (r: bool)
    ensures
        r == (a@ == b@),
{
    if a.len() != b.len() {
        return false;
    }
    let n = a.len();
    for i in 0..n
        invariant
            n == a@.len(),
            n == b@.len(),
            forall|j: int| 0 <= j < i ==> a@[j] == b@[j],
    {
        if a[i] != b[i] {
            return false;
        }
    }
    assert(a@ =~= b@);
    true
}

// ---------------------------------------------------------------------
// Whitespace and trimming
// ---------------------------------------------------------------------

/// The characters with the Unicode `White_Space` property, which is what
/// `char::is_whitespace` and `str::trim` go by.
pub open spec fn is_ws(c: char) -> bool {
    let u = c as u32;
    ||| 0x09 <= u <= 0x0d
    ||| u == 0x20
    ||| u == 0x85
    ||| u == 0xa0
    ||| u == 0x1680
    ||| 0x2000 <= u <= 0x200a
    ||| u == 0x2028
    ||| u == 0x2029
    ||| u == 0x202f
    ||| u == 0x205f
    ||| u == 0x3000
}

/// Executable `is_ws`.
pub fn is_whitespace(c: char) -> (r: bool)
    ensures
        r == is_ws(c),
{
    let u = c as u32;
    (0x09 <= u && u <= 0x0d) || u == 0x20 || u == 0x85 || u == 0xa0 || u == 0x1680 || (0x2000
        <= u && u <= 0x200a) || u == 0x2028 || u == 0x2029 || u == 0x202f || u == 0x205f || u
        == 0x3000
}

/// `s` without its leading whitespace.
pub open spec fn trim_start(s: Seq<char>) -> Seq<char>
    decreases s.len(),
{
    if s.len() > 0 && is_ws(s[0]) {
        trim_start(s.drop_first())
    } else {
        s
    }
}

/// `s` without its trailing whitespace.
pub open spec fn trim_end(s: Seq<char>) -> Seq<char>
    decreases s.len(),
{
    if s.len() > 0 && is_ws(s.last()) {
        trim_end(s.drop_last())
    } else {
        s
    }
}

/// `s` without leading and trailing whitespace, as `str::trim` gives it.
pub open spec fn trim(s: Seq<char>) -> Seq<char> {
    trim_end(trim_start(s))
}

/// Executable `trim`.
pub fn trim_chars(s: &Vec<char>) -> (r: Vec<char>)
    ensures
        r@ == trim(s@),
{
    let n = s.len();
    let mut i: usize = 0;
    assert(s@.subrange(0, n as int) == s@);
    while i < n && is_whitespace(s[i])
        invariant
            i <= n,
            n == s@.len(),
            trim_start(s@) == trim_start(s@.subrange(i as int, n as int)),
        decreases n - i,
    {
        assert(s@.subrange(i as int, n as int).drop_first() == s@.subrange(i + 1, n as int));
        i = i + 1;
    }
    let mut j: usize = n;
    while j > i && is_whitespace(s[j - 1])
        invariant
            i <= j <= n,
            n == s@.len(),
            trim_start(s@) == s@.subrange(i as int, n as int),
            trim(s@) == trim_end(s@.subrange(i as int, j as int)),
        decreases j - i,
    {
        assert(s@.subrange(i as int, j as int).drop_last() == s@.subrange(i as int, j - 1));
        j = j - 1;
    }
    let mut r: Vec<char> = Vec::new();
    let mut k: usize = i;
    while k < j
        invariant
            i <= k <= j <= n,
            n == s@.len(),
            r@ == s@.subrange(i as int, k as int),
        decreases j - k,
    {
        r.push(s[k]);
        assert(s@.subrange(i as int, k + 1) == s@.subrange(i as int, k as int).push(s@[k as int]));
        k = k + 1;
    }
    r
}

// ---------------------------------------------------------------------
// Splitting and searching
// ---------------------------------------------------------------------

/// The pieces of `s` between occurrences of `sep`, as `str::split` with a
/// `char` pattern yields them: one more piece than there are separators,
/// empty pieces included.
pub open spec fn split(s: Seq<char>, sep: char) -> Seq<Seq<char>>
    decreases s.len(),
{
    if s.len() == 0 {
        seq![Seq::<char>::empty()]
    } else {
        let p = split(s.drop_last(), sep);
        if s.last() == sep {
            p.push(Seq::<char>::empty())
        } else {
            p.update(p.len() - 1, p.last().push(s.last()))
        }
    }
}

/// The views of a vector of character vectors.
pub open spec fn views(v: Seq<Vec<char>>) -> Seq<Seq<char>> {
    v.map_values(|x: Vec<char>| x@)
}

/// A split always has at least one piece.
pub proof fn lemma_split_nonempty(s: Seq<char>, sep: char)
    ensures
        split(s, sep).len() >= 1,
    decreases s.len(),
{
    if s.len() > 0 {
        lemma_split_nonempty(s.drop_last(), sep);
    }
}

/// Executable `split`.
pub fn split_chars(s: &Vec<char>, sep: char) -> (r: Vec<Vec<char>>)
    ensures
        views(r@) == split(s@, sep),
{
    let mut done: Vec<Vec<char>> = Vec::new();
    let mut cur: Vec<char> = Vec::new();
    let n = s.len();
    assert(views(done@).push(cur@) == split(s@.take(0), sep));
    for i in 0..n
        invariant
            n == s@.len(),
            views(done@).push(cur@) == split(s@.take(i as int), sep),
    {
        let c = s[i];
        let ghost before = s@.take(i as int);
        assert(s@.take(i + 1).drop_last() == before);
        assert(s@.take(i + 1).last() == c);
        if c == sep {
            let old_cur = cur;
            cur = Vec::new();
            let ghost d0 = done@;
            done.push(old_cur);
            assert(views(done@) == views(d0).push(old_cur@));
        } else {
            cur.push(c);
        }
    }
    let ghost d0 = done@;
    done.push(cur);
    assert(views(done@) == views(d0).push(cur@));
    assert(s@.take(n as int) == s@);
    done
}

/// The pieces joined in order with `sep` between neighbours.
pub open spec fn join(pieces: Seq<Seq<char>>, sep: Seq<char>) -> Seq<char>
    decreases pieces.len(),
{
    if pieces.len() == 0 {
        Seq::empty()
    } else if pieces.len() == 1 {
        pieces[0]
    } else {
        join(pieces.drop_last(), sep) + sep + pieces.last()
    }
}

/// Growing the last piece grows the joined text at its end.
pub proof fn lemma_join_extend_last(pieces: Seq<Seq<char>>, sep: Seq<char>, c: char)
    requires
        pieces.len() > 0,
    ensures
        join(pieces.update(pieces.len() - 1, pieces.last().push(c)), sep) == join(pieces, sep)
            + seq![c],
{
    let q = pieces.update(pieces.len() - 1, pieces.last().push(c));
    if pieces.len() == 1 {
        assert(q[0] == pieces[0].push(c));
        assert(pieces[0].push(c) =~= pieces[0] + seq![c]);
    } else {
        assert(q.drop_last() =~= pieces.drop_last());
        assert(q.last() =~= pieces.last() + seq![c]);
        assert(join(q, sep) =~= join(pieces.drop_last(), sep) + sep + pieces.last() + seq![c]);
    }
}

/// Splitting is undone by joining with the separator, and no piece holds
/// the separator: the pieces are exactly the stretches of `s` between its
/// occurrences of `sep`.
pub proof fn lemma_split_join(s: Seq<char>, sep: char)
    ensures
        join(split(s, sep), seq![sep]) == s,
        forall|k: int|
            0 <= k < split(s, sep).len() ==> !(#[trigger] split(s, sep)[k]).contains(sep),
    decreases s.len(),
{
    if s.len() == 0 {
        assert(split(s, sep)[0] =~= Seq::<char>::empty());
        assert(join(split(s, sep), seq![sep]) =~= s);
    } else {
        let p = s.drop_last();
        let c = s.last();
        lemma_split_join(p, sep);
        lemma_split_nonempty(p, sep);
        let sp = split(p, sep);
        if c == sep {
            let q = sp.push(Seq::<char>::empty());
            assert(q.drop_last() =~= sp);
            assert(join(q, seq![sep]) =~= p + seq![sep]);
            assert(p + seq![sep] =~= s);
            assert forall|k: int| 0 <= k < q.len() implies !(#[trigger] q[k]).contains(sep) by {
                if k < sp.len() {
                    assert(q[k] == sp[k]);
                } else {
                    assert(q[k] =~= Seq::<char>::empty());
                }
            }
        } else {
            let q = sp.update(sp.len() - 1, sp.last().push(c));
            lemma_join_extend_last(sp, seq![sep], c);
            assert(p + seq![c] =~= s);
            assert forall|k: int| 0 <= k < q.len() implies !(#[trigger] q[k]).contains(sep) by {
                if k < sp.len() - 1 {
                    assert(q[k] == sp[k]);
                } else {
                    let last = sp.last();
                    assert(!sp[sp.len() - 1].contains(sep));
                    if q[k].contains(sep) {
                        let j = choose|j: int| 0 <= j < q[k].len() && q[k][j] == sep;
                        if j < last.len() {
                            assert(last[j] == sep);
                        }
                    }
                }
            }
        }
    }
}

/// Joining two non-empty runs of pieces puts one separator between them.
pub proof fn lemma_join_concat(a: Seq<Seq<char>>, b: Seq<Seq<char>>, sep: Seq<char>)
    requires
        a.len() > 0,
        b.len() > 0,
    ensures
        join(a + b, sep) == join(a, sep) + sep + join(b, sep),
    decreases b.len(),
{
    if b.len() == 1 {
        assert((a + b).drop_last() =~= a);
        assert((a + b).last() == b[0]);
    } else {
        lemma_join_concat(a, b.drop_last(), sep);
        assert((a + b).drop_last() =~= a + b.drop_last());
        assert((a + b).last() == b.last());
        assert(join(a + b, sep) =~= join(a, sep) + sep + join(b.drop_last(), sep) + sep + b.last());
    }
}

/// The second piece of a split is the text between the first and the
/// second separator (or the end): `s` is the first piece, a separator, the
/// second piece, and then nothing or another separator; neither piece holds
/// the separator.
pub proof fn lemma_split_second(s: Seq<char>, sep: char)
    requires
        split(s, sep).len() >= 2,
    ensures
        ({
            let p = split(s, sep);
            exists|rest: Seq<char>|
                s == p[0] + seq![sep] + p[1] + rest && (rest.len() == 0 || rest[0] == sep)
                    && !p[0].contains(sep) && !p[1].contains(sep)
        }),
{
    let p = split(s, sep);
    lemma_split_join(s, sep);
    let two = p.take(2);
    assert(two.drop_last() =~= seq![p[0]]);
    assert(join(two.drop_last(), seq![sep]) == p[0]);
    assert(two.last() == p[1]);
    assert(join(two, seq![sep]) =~= p[0] + seq![sep] + p[1]);
    if p.len() == 2 {
        assert(p.take(2) =~= p);
        let rest = Seq::<char>::empty();
        assert(s =~= p[0] + seq![sep] + p[1] + rest);
    } else {
        let tail = p.skip(2);
        assert(two + tail =~= p);
        lemma_join_concat(two, tail, seq![sep]);
        let rest = seq![sep] + join(tail, seq![sep]);
        assert(s =~= p[0] + seq![sep] + p[1] + rest);
        assert(rest[0] == sep);
    }
    assert(!p[0].contains(sep));
    assert(!p[1].contains(sep));
}

/// `trim` removes whitespace at both ends and nothing else: it gives a
/// stretch `s[i..j]` of `s`, everything before `i` and from `j` on is
/// whitespace, and the result neither starts nor ends with whitespace.
pub proof fn lemma_trim_shape(s: Seq<char>)
    ensures
        exists|i: int, j: int|
            0 <= i <= j <= s.len() && trim(s) == s.subrange(i, j) && (forall|k: int|
                0 <= k < i ==> is_ws(#[trigger] s[k])) && (forall|k: int|
                j <= k < s.len() ==> is_ws(#[trigger] s[k])),
        trim(s).len() > 0 ==> !is_ws(trim(s)[0]) && !is_ws(trim(s).last()),
{
    lemma_trim_start_shape(s);
    let i = s.len() - trim_start(s).len();
    let u = trim_start(s);
    lemma_trim_end_shape(u);
    let j = i + trim_end(u).len();
    assert(trim(s) =~= s.subrange(i, j));
    assert forall|k: int| j <= k < s.len() implies is_ws(#[trigger] s[k]) by {
        assert(s[k] == u[k - i]);
    }
    if trim(s).len() > 0 {
        assert(trim(s)[0] == u[0]);
    }
}

proof fn lemma_trim_start_shape(s: Seq<char>)
    ensures
        trim_start(s).len() <= s.len(),
        trim_start(s) == s.subrange(s.len() - trim_start(s).len(), s.len() as int),
        forall|k: int| 0 <= k < s.len() - trim_start(s).len() ==> is_ws(#[trigger] s[k]),
        trim_start(s).len() > 0 ==> !is_ws(trim_start(s)[0]),
    decreases s.len(),
{
    if s.len() > 0 && is_ws(s[0]) {
        lemma_trim_start_shape(s.drop_first());
        assert forall|k: int| 0 <= k < s.len() - trim_start(s).len() implies is_ws(
            #[trigger] s[k],
        ) by {
            if k > 0 {
                assert(s[k] == s.drop_first()[k - 1]);
            }
        }
        assert(trim_start(s) =~= s.subrange(s.len() - trim_start(s).len(), s.len() as int));
    } else {
        assert(s.subrange(0, s.len() as int) =~= s);
    }
}

proof fn lemma_trim_end_shape(s: Seq<char>)
    ensures
        trim_end(s).len() <= s.len(),
        trim_end(s) == s.subrange(0, trim_end(s).len() as int),
        forall|k: int| trim_end(s).len() <= k < s.len() ==> is_ws(#[trigger] s[k]),
        trim_end(s).len() > 0 ==> !is_ws(trim_end(s).last()),
    decreases s.len(),
{
    if s.len() > 0 && is_ws(s.last()) {
        lemma_trim_end_shape(s.drop_last());
        assert forall|k: int| trim_end(s).len() <= k < s.len() implies is_ws(#[trigger] s[k]) by {
            if k < s.len() - 1 {
                assert(s[k] == s.drop_last()[k]);
            }
        }
        assert(trim_end(s) =~= s.subrange(0, trim_end(s).len() as int));
    } else {
        assert(s.subrange(0, s.len() as int) =~= s);
    }
}

/// Whether `i` is the index of the first occurrence of `c` in `s`.
pub open spec fn is_first(s: Seq<char>, c: char, i: int) -> bool {
    0 <= i < s.len() && s[i] == c && forall|j: int| 0 <= j < i ==> s[j] != c
}

/// The text before and after the first occurrence of `c`, as
/// `str::split_once` with a `char` pattern gives them; `None` when `c` does
/// not occur.
pub open spec fn split_once(s: Seq<char>, c: char) -> Option<(Seq<char>, Seq<char>)> {
    if exists|i: int| is_first(s, c, i) {
        let i = choose|i: int| is_first(s, c, i);
        Some((s.take(i), s.skip(i + 1)))
    } else {
        None
    }
}

/// Executable `split_once`.
pub fn split_once_chars(s: &Vec<char>, c: char) -> (r: Option<(Vec<char>, Vec<char>)>)
    ensures
        match r {
            Some((a, b)) => split_once(s@, c) == Some((a@, b@)),
            None => split_once(s@, c) is None,
        },
{
    let n = s.len();
    let mut i: usize = 0;
    while i < n && s[i] != c
        invariant
            i <= n,
            n == s@.len(),
            forall|j: int| 0 <= j < i ==> s@[j] != c,
        decreases n - i,
    {
        i = i + 1;
    }
    if i == n {
        assert forall|k: int| !is_first(s@, c, k) by {
            if 0 <= k < n {
                assert(s@[k] != c);
            }
        }
        return None;
    }
    assert(is_first(s@, c, i as int));
    proof {
        let k = choose|k: int| is_first(s@, c, k);
        assert(k == i) by {
            if k < i {
                assert(s@[k] != c);
            } else if k > i {
                assert(s@[i as int] != c);
            }
        }
    }
    let mut a: Vec<char> = Vec::new();
    let mut b: Vec<char> = Vec::new();
    for k in 0..i
        invariant
            i < n,
            n == s@.len(),
            a@ == s@.take(k as int),
    {
        a.push(s[k]);
        assert(s@.take(k + 1) == s@.take(k as int).push(s@[k as int]));
    }
    let mut k: usize = i + 1;
    assert(s@.subrange(i + 1, i + 1) =~= Seq::<char>::empty());
    while k < n
        invariant
            i < k <= n,
            n == s@.len(),
            b@ == s@.subrange(i + 1, k as int),
        decreases n - k,
    {
        b.push(s[k]);
        assert(s@.subrange(i + 1, k + 1) == s@.subrange(i + 1, k as int).push(s@[k as int]));
        k = k + 1;
    }
    assert(b@ == s@.skip(i + 1));
    Some((a, b))
}

/// Whether `pat` occurs in `s` starting at index `i`.
pub open spec fn occurs_at(s: Seq<char>, pat: Seq<char>, i: int) -> bool {
    0 <= i && i + pat.len() <= s.len() && s.subrange(i, i + pat.len()) == pat
}

/// Whether `pat` occurs anywhere in `s`, as `str::contains` tests it.
pub open spec fn contains(s: Seq<char>, pat: Seq<char>) -> bool {
    exists|i: int| occurs_at(s, pat, i)
}

fn matches_at(s: &Vec<char>, pat: &Vec<char>, i: usize) -> (r: bool)
    requires
        i + pat@.len() <= s@.len(),
    ensures
        r == occurs_at(s@, pat@, i as int),
{
    let m = pat.len();
    for k in 0..m
        invariant
            m == pat@.len(),
            i + m <= s@.len(),
            s@.len() == s.len(),
            forall|j: int| 0 <= j < k ==> s@[i + j] == pat@[j],
    {
        if s[i + k] != pat[k] {
            assert(s@.subrange(i as int, i + m)[k as int] != pat@[k as int]);
            return false;
        }
    }
    assert(s@.subrange(i as int, i + m) =~= pat@);
    true
}

/// Executable `contains`.
pub fn contains_chars(s: &Vec<char>, pat: &Vec<char>) -> (r: bool)
    ensures
        r == contains(s@, pat@),
{
    let n = s.len();
    let m = pat.len();
    if m > n {
        return false;
    }
    if m == 0 {
        assert(s@.subrange(0, 0) =~= pat@);
        assert(occurs_at(s@, pat@, 0));
        return true;
    }
    let last = n - m;
    let mut i: usize = 0;
    while i <= last
        invariant
            n == s@.len(),
            m == pat@.len(),
            last == n - m,
            last < n,
            i <= last + 1,
            forall|j: int| 0 <= j < i ==> !occurs_at(s@, pat@, j),
        decreases last + 1 - i,
    {
        if matches_at(s, pat, i) {
            return true;
        }
        i = i + 1;
    }
    assert forall|j: int| !occurs_at(s@, pat@, j) by {
        if 0 <= j && j + m <= n {
            assert(j < i);
        }
    }
    false
}

// ---------------------------------------------------------------------
// Decimal numbers
// ---------------------------------------------------------------------

/// Whether `c` is an ASCII decimal digit.
pub open spec fn is_digit(c: char) -> bool {
    '0' <= c <= '9'
}

/// The value of an ASCII decimal digit.
pub open spec fn digit_value(c: char) -> int {
    c as int - '0' as int
}

/// The value of a sequence of decimal digits, most significant first.
pub open spec fn digits_value(d: Seq<char>) -> int
    decreases d.len(),
{
    if d.len() == 0 {
        0
    } else {
        digits_value(d.drop_last()) * 10 + digit_value(d.last())
    }
}

/// Whether every character of `d` is a decimal digit.
pub open spec fn all_digits(d: Seq<char>) -> bool {
    forall|i: int| 0 <= i < d.len() ==> is_digit(#[trigger] d[i])
}

/// Whether `c` is a sign character.
pub open spec fn is_sign(c: char) -> bool {
    c == '+' || c == '-'
}

/// What `str::parse::<i64>` gives: an optional sign, then one or more
/// decimal digits, with the value in the range of `i64`; `None` for any
/// other text.
pub open spec fn parse_i64(s: Seq<char>) -> Option<i64> {
    if s.len() == 0 {
        None
    } else if is_sign(s[0]) && s.len() == 1 {
        None
    } else {
        let d = if is_sign(s[0]) {
            s.drop_first()
        } else {
            s
        };
        let v = if s[0] == '-' {
            -digits_value(d)
        } else {
            digits_value(d)
        };
        if all_digits(d) && i64::MIN <= v <= i64::MAX {
            Some(v as i64)
        } else {
            None
        }
    }
}

/// A value of digits is never negative.
pub proof fn lemma_digits_value_nonneg(d: Seq<char>)
    requires
        all_digits(d),
    ensures
        digits_value(d) >= 0,
    decreases d.len(),
{
    if d.len() > 0 {
        assert(is_digit(d[d.len() - 1]));
        assert(all_digits(d.drop_last()));
        lemma_digits_value_nonneg(d.drop_last());
    }
}

/// Appending digits never makes the value smaller.
pub proof fn lemma_digits_value_grows(d: Seq<char>, k: int)
    requires
        all_digits(d),
        0 <= k <= d.len(),
    ensures
        digits_value(d.take(k)) <= digits_value(d),
    decreases d.len() - k,
{
    if k < d.len() {
        lemma_digits_value_grows(d, k + 1);
        let t = d.take(k + 1);
        assert(t.drop_last() == d.take(k));
        assert(is_digit(t.last()));
        assert(all_digits(d.take(k))) by {
            assert forall|i: int| 0 <= i < d.take(k).len() implies is_digit(#[trigger] d.take(k)[i]) by {
                assert(d.take(k)[i] == d[i]);
            }
        }
        lemma_digits_value_nonneg(d.take(k));
    } else {
        assert(d.take(k) == d);
    }
}

/// One more digit: the prefix value grows by the usual decimal rule.
proof fn lemma_digits_take_step(d: Seq<char>, k: int)
    requires
        0 <= k < d.len(),
        all_digits(d.take(k)),
        is_digit(d[k]),
    ensures
        all_digits(d.take(k + 1)),
        digits_value(d.take(k + 1)) == digits_value(d.take(k)) * 10 + digit_value(d[k]),
{
    assert(d.take(k + 1).drop_last() == d.take(k));
    assert(d.take(k + 1).last() == d[k]);
    assert forall|j: int| 0 <= j < d.take(k + 1).len() implies is_digit(
        #[trigger] d.take(k + 1)[j],
    ) by {
        if j < k {
            assert(d.take(k + 1)[j] == d.take(k)[j]);
        }
    }
}

/// The value of the digits `s[start..]`, if they are all digits and the
/// value is at most `limit`.
fn parse_digits(s: &Vec<char>, start: usize, limit: u128) -> (r: Option<u128>)
    requires
        start <= s@.len(),
        limit <= 9223372036854775808u128,
    ensures
        ({
            let d = s@.subrange(start as int, s@.len() as int);
            match r {
                Some(v) => all_digits(d) && v == digits_value(d) && v <= limit,
                None => !all_digits(d) || digits_value(d) > limit,
            }
        }),
{
    let n = s.len();
    let ghost d = s@.subrange(start as int, n as int);
    let mut acc: u128 = 0;
    let mut i: usize = start;
    assert(d.take(0) =~= Seq::<char>::empty());
    while i < n
        invariant
            start <= i <= n,
            n == s@.len(),
            limit <= 9223372036854775808u128,
            d == s@.subrange(start as int, n as int),
            acc <= limit,
            acc == digits_value(d.take(i - start)),
            all_digits(d.take(i - start)),
        decreases n - i,
    {
        let c = s[i];
        let ghost k: int = i - start;
        assert(d[k] == c);
        if !('0' <= c && c <= '9') {
            assert(!is_digit(d[k]));
            return None;
        }
        let dv: u128 = ((c as u32) - ('0' as u32)) as u128;
        proof {
            lemma_digits_take_step(d, k);
        }
        acc = acc * 10 + dv;
        if acc > limit {
            proof {
                if all_digits(d) {
                    lemma_digits_value_grows(d, k + 1);
                }
            }
            return None;
        }
        i = i + 1;
    }
    assert(d.take(n - start) == d);
    Some(acc)
}

/// Executable `parse_i64`.
pub fn parse_i64_chars(s: &Vec<char>) -> (r: Option<i64>)
    ensures
        r == parse_i64(s@),
{
    let n = s.len();
    if n == 0 {
        return None;
    }
    let first = s[0];
    let signed = first == '+' || first == '-';
    if signed && n == 1 {
        return None;
    }
    let neg = first == '-';
    let start: usize = if signed {
        1
    } else {
        0
    };
    let limit: u128 = if neg {
        9223372036854775808u128
    } else {
        9223372036854775807u128
    };
    assert(s@.subrange(start as int, n as int) == if is_sign(s@[0]) {
        s@.drop_first()
    } else {
        s@
    });
    match parse_digits(s, start, limit) {
        None => None,
        Some(acc) => {
            let v: i64 = if neg {
                (0i128 - (acc as i128)) as i64
            } else {
                acc as i64
            };
            Some(v)
        },
    }
}

/// The decimal digit character for `d` in `0..10`.
pub open spec fn digit_char(d: int) -> char {
    if d == 0 {
        '0'
    } else if d == 1 {
        '1'
    } else if d == 2 {
        '2'
    } else if d == 3 {
        '3'
    } else if d == 4 {
        '4'
    } else if d == 5 {
        '5'
    } else if d == 6 {
        '6'
    } else if d == 7 {
        '7'
    } else if d == 8 {
        '8'
    } else {
        '9'
    }
}

fn digit_char_exec(d: u64) -> (c: char)
    requires
        d < 10,
    ensures
        c == digit_char(d as int),
{
    if d == 0 {
        '0'
    } else if d == 1 {
        '1'
    } else if d == 2 {
        '2'
    } else if d == 3 {
        '3'
    } else if d == 4 {
        '4'
    } else if d == 5 {
        '5'
    } else if d == 6 {
        '6'
    } else if d == 7 {
        '7'
    } else if d == 8 {
        '8'
    } else {
        '9'
    }
}

/// The decimal text of a natural number, without leading zeros.
pub open spec fn nat_text(n: nat) -> Seq<char>
    decreases n,
{
    if n < 10 {
        seq![digit_char(n as int)]
    } else {
        nat_text(n / 10) + seq![digit_char((n % 10) as int)]
    }
}

/// The decimal text of an integer, as `to_string` writes it: a minus sign
/// before negative values, no sign otherwise.
pub open spec fn int_text(n: int) -> Seq<char> {
    if n < 0 {
        seq!['-'] + nat_text((-n) as nat)
    } else {
        nat_text(n as nat)
    }
}

fn u64_to_chars(n: u64) -> (r: Vec<char>)
    ensures
        r@ == nat_text(n as nat),
{
    let mut acc: Vec<char> = Vec::new();
    let mut m: u64 = n;
    while m >= 10
        invariant
            nat_text(n as nat) == nat_text(m as nat) + acc@,
        decreases m,
    {
        let c = digit_char_exec(m % 10);
        let ghost old_acc = acc@;
        acc.insert(0, c);
        assert(acc@ == seq![c] + old_acc);
        assert(nat_text(m as nat) == nat_text((m / 10) as nat) + seq![c]);
        assert(nat_text((m / 10) as nat) + seq![c] + old_acc == nat_text((m / 10) as nat)
            + acc@);
        m = m / 10;
    }
    let c = digit_char_exec(m);
    let ghost old_acc = acc@;
    acc.insert(0, c);
    assert(acc@ == seq![c] + old_acc);
    assert(nat_text(m as nat) == seq![c]);
    acc
}

/// Executable `int_text` for `i64`.
pub fn i64_to_chars(n: i64) -> (r: Vec<char>)
    ensures
        r@ == int_text(n as int),
{
    if n < 0 {
        let m: u64 = (0i128 - (n as i128)) as u64;
        let digits = u64_to_chars(m);
        let mut r: Vec<char> = Vec::new();
        r.push('-');
        push_all(&mut r, &digits);
        r
    } else {
        u64_to_chars(n as u64)
    }
}

/// The decimal text of a natural number is a non-empty run of digits whose
/// value is that number.
pub proof fn lemma_nat_text_digits(n: nat)
    ensures
        nat_text(n).len() > 0,
        all_digits(nat_text(n)),
        digits_value(nat_text(n)) == n,
    decreases n,
{
    if n < 10 {
        let s = nat_text(n);
        assert(s.drop_last() =~= Seq::<char>::empty());
        assert(digits_value(s.drop_last()) == 0);
        assert(s.last() == digit_char(n as int));
        assert(digit_value(digit_char(n as int)) == n);
        assert(digits_value(s) == digits_value(s.drop_last()) * 10 + digit_value(s.last()));
    } else {
        lemma_nat_text_digits(n / 10);
        let p = nat_text(n / 10);
        let d = digit_char((n % 10) as int);
        let s = nat_text(n);
        assert(s == p + seq![d]);
        assert(s.drop_last() =~= p);
        assert(s.last() == d);
        assert(digit_value(d) == n % 10);
        assert((n / 10) * 10 + n % 10 == n) by (nonlinear_arith);
        assert(digits_value(s) == digits_value(p) * 10 + digit_value(d));
        assert forall|i: int| 0 <= i < s.len() implies is_digit(#[trigger] s[i]) by {
            if i < p.len() {
                assert(s[i] == p[i]);
            }
        }
    }
}

/// Reading the decimal text of a number gives the number back: the text
/// written for a table cell is the number it stands for.
pub proof fn lemma_int_text_parses(v: i64)
    ensures
        parse_i64(int_text(v as int)) == Some(v),
{
    if v < 0 {
        let m = (-(v as int)) as nat;
        lemma_nat_text_digits(m);
        let s = int_text(v as int);
        assert(s.drop_first() =~= nat_text(m));
        assert(s[0] == '-');
    } else {
        lemma_nat_text_digits(v as nat);
        let s = nat_text(v as nat);
        assert(is_digit(s[0]));
    }
}

/// The decimal text of an integer holds only digits and a leading minus
/// sign, so no `/` or other separator.
pub proof fn lemma_int_text_chars(n: int)
    ensures
        forall|i: int|
            0 <= i < int_text(n).len() ==> is_digit(#[trigger] int_text(n)[i]) || (i == 0 && n
                < 0 && int_text(n)[i] == '-'),
{
    if n < 0 {
        let m = (-n) as nat;
        lemma_nat_text_digits(m);
        assert forall|i: int| 0 < i < int_text(n).len() implies is_digit(#[trigger] int_text(n)[i]) by {
            assert(int_text(n)[i] == nat_text(m)[i - 1]);
        }
    } else {
        lemma_nat_text_digits(n as nat);
    }
}

} // verus!
