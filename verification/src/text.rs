//! Character-sequence utilities: searching, splitting, decimal numbers.
//!
//! Every textual format of the package manager is built from a few primitive
//! operations on strings: finding the first occurrence of a separator,
//! splitting at it, and reading or writing decimal numbers. They are stated
//! here over `Seq<char>`, the view of `str` and `String`.
use vstd::prelude::*;
use vstd::std_specs::iter::IteratorSpec;

verus! {

broadcast use vstd::string::group_string_axioms;

// ---------------------------------------------------------------------------
// Searching
// ---------------------------------------------------------------------------

/// `p` occurs in `s` starting at index `i`.
pub open spec fn matches_at(s: Seq<char>, p: Seq<char>, i: int) -> bool {
    &&& 0 <= i
    &&& i + p.len() <= s.len()
    &&& s.subrange(i, i + p.len()) == p
}

/// Index of the leftmost occurrence of `p` in `s`, or -1 when there is none.
pub open spec fn find_pat(s: Seq<char>, p: Seq<char>) -> int
    decreases s.len(),
{
    if p.len() > s.len() {
        -1
    } else if s.subrange(0, p.len() as int) == p {
        0
    } else if s.len() == 0 {
        -1
    } else {
        let r = find_pat(s.drop_first(), p);
        if r < 0 {
            -1
        } else {
            r + 1
        }
    }
}

/// Index of the first occurrence of the character `c` in `s`, or -1.
pub open spec fn find_char(s: Seq<char>, c: char) -> int {
    find_pat(s, seq![c])
}

/// Characterisation of `find_pat`: the leftmost match, or -1 when none exists.
pub proof fn lemma_find_pat(s: Seq<char>, p: Seq<char>)
    ensures
        find_pat(s, p) >= 0 ==> matches_at(s, p, find_pat(s, p)),
        find_pat(s, p) >= 0 ==> forall|j: int| 0 <= j < find_pat(s, p) ==> !matches_at(s, p, j),
        find_pat(s, p) < 0 ==> forall|j: int| !matches_at(s, p, j),
        find_pat(s, p) >= -1,
        find_pat(s, p) >= 0 ==> find_pat(s, p) + p.len() <= s.len(),
    decreases s.len(),
{
    if p.len() > s.len() {
    } else if p.len() == 0 {
        assert(s.subrange(0, 0) =~= p);
    } else if s.subrange(0, p.len() as int) == p {
    } else {
        let t = s.drop_first();
        lemma_find_pat(t, p);
        assert forall|j: int| 1 <= j && matches_at(s, p, j) implies matches_at(t, p, j - 1) by {
            assert(t.subrange(j - 1, j - 1 + p.len()) =~= s.subrange(j, j + p.len()));
        }
        assert forall|j: int| 0 <= j && matches_at(t, p, j) implies matches_at(s, p, j + 1) by {
            assert(t.subrange(j, j + p.len()) =~= s.subrange(j + 1, j + 1 + p.len()));
        }
    }
}

/// A leftmost match is what `find_pat` returns.
pub proof fn lemma_find_pat_at(s: Seq<char>, p: Seq<char>, i: int)
    requires
        matches_at(s, p, i),
        forall|j: int| 0 <= j < i ==> !matches_at(s, p, j),
    ensures
        find_pat(s, p) == i,
{
    lemma_find_pat(s, p);
    if find_pat(s, p) < 0 {
        assert(!matches_at(s, p, i));
    } else if find_pat(s, p) < i {
        assert(!matches_at(s, p, find_pat(s, p)));
    } else if find_pat(s, p) > i {
        assert(!matches_at(s, p, i));
    }
}

/// Without any match, `find_pat` is -1.
pub proof fn lemma_find_pat_none(s: Seq<char>, p: Seq<char>)
    requires
        forall|j: int| !matches_at(s, p, j),
    ensures
        find_pat(s, p) == -1,
{
    lemma_find_pat(s, p);
}

/// For a single character, a match is an equal element.
pub proof fn lemma_matches_char(s: Seq<char>, c: char, i: int)
    ensures
        matches_at(s, seq![c], i) <==> (0 <= i < s.len() && s[i] == c),
{
    if 0 <= i < s.len() {
        if s[i] == c {
            assert(s.subrange(i, i + 1) =~= seq![c]);
        } else {
            assert(s.subrange(i, i + 1)[0] == s[i]);
        }
    }
}

/// `find_char` is the first index holding `c`, or -1.
pub proof fn lemma_find_char(s: Seq<char>, c: char)
    ensures
        find_char(s, c) >= 0 ==> (find_char(s, c) < s.len() && s[find_char(s, c)] == c),
        find_char(s, c) >= 0 ==> forall|j: int| 0 <= j < find_char(s, c) ==> s[j] != c,
        find_char(s, c) < 0 ==> !s.contains(c),
        find_char(s, c) >= -1,
{
    lemma_find_pat(s, seq![c]);
    let r = find_char(s, c);
    if r >= 0 {
        lemma_matches_char(s, c, r);
        assert forall|j: int| 0 <= j < r implies s[j] != c by {
            lemma_matches_char(s, c, j);
        }
    } else {
        assert forall|j: int| 0 <= j < s.len() implies s[j] != c by {
            lemma_matches_char(s, c, j);
        }
    }
}

/// A first occurrence of `c` is what `find_char` returns.
pub proof fn lemma_find_char_at(s: Seq<char>, c: char, i: int)
    requires
        0 <= i < s.len(),
        s[i] == c,
        forall|j: int| 0 <= j < i ==> s[j] != c,
    ensures
        find_char(s, c) == i,
{
    lemma_find_char(s, c);
    let r = find_char(s, c);
    if r < 0 {
        assert(s.contains(c));
    }
}

/// Without `c` in `s`, `find_char` is -1.
pub proof fn lemma_find_char_none(s: Seq<char>, c: char)
    requires
        !s.contains(c),
    ensures
        find_char(s, c) == -1,
{
    lemma_find_char(s, c);
    if find_char(s, c) >= 0 {
        assert(s[find_char(s, c)] == c);
    }
}

/// `find_char` on a concatenation whose left part lacks `c`.
pub proof fn lemma_find_char_concat(a: Seq<char>, b: Seq<char>, c: char)
    requires
        !a.contains(c),
    ensures
        find_char(a + b, c) == (if find_char(b, c) < 0 {
            -1
        } else {
            a.len() + find_char(b, c)
        }),
{
    lemma_find_char(b, c);
    let s = a + b;
    if find_char(b, c) < 0 {
        assert forall|j: int| 0 <= j < s.len() implies s[j] != c by {
            if j < a.len() {
                assert(s[j] == a[j]);
            } else {
                assert(s[j] == b[j - a.len()]);
            }
        }
        assert(!s.contains(c));
        lemma_find_char_none(s, c);
    } else {
        let i = a.len() + find_char(b, c);
        assert forall|j: int| 0 <= j < i implies s[j] != c by {
            if j < a.len() {
                assert(s[j] == a[j]);
            } else {
                assert(s[j] == b[j - a.len()]);
            }
        }
        lemma_find_char_at(s, c, i);
    }
}

// ---------------------------------------------------------------------------
// Splitting
// ---------------------------------------------------------------------------

/// `str::split_once` with a string pattern: the parts before and after the
/// leftmost occurrence of `p`.
pub open spec fn split_once_pat(s: Seq<char>, p: Seq<char>) -> Option<(Seq<char>, Seq<char>)> {
    let i = find_pat(s, p);
    if i < 0 {
        None
    } else {
        Some((s.subrange(0, i), s.subrange(i + p.len(), s.len() as int)))
    }
}

/// `str::split_once` with a character pattern.
pub open spec fn split_once_char(s: Seq<char>, c: char) -> Option<(Seq<char>, Seq<char>)> {
    split_once_pat(s, seq![c])
}

/// `str::split` with a non-empty string pattern: the pieces between the
/// non-overlapping leftmost occurrences of `p`.
pub open spec fn split_pat(s: Seq<char>, p: Seq<char>) -> Seq<Seq<char>>
    decreases s.len(),
{
    if p.len() == 0 {
        seq![s]
    } else {
        let i = find_pat(s, p);
        if i < 0 {
            seq![s]
        } else {
            proof {
                lemma_find_pat(s, p);
            }
            seq![s.subrange(0, i)] + split_pat(s.subrange(i + p.len(), s.len() as int), p)
        }
    }
}

/// `str::split` with a character pattern.
pub open spec fn split_char(s: Seq<char>, c: char) -> Seq<Seq<char>> {
    split_pat(s, seq![c])
}

/// Joins `parts` with `sep` between consecutive parts.
pub open spec fn join(parts: Seq<Seq<char>>, sep: Seq<char>) -> Seq<char>
    decreases parts.len(),
{
    if parts.len() == 0 {
        Seq::empty()
    } else if parts.len() == 1 {
        parts[0]
    } else {
        parts[0] + sep + join(parts.drop_first(), sep)
    }
}

/// Joining as the encoders do it: fold from the left, putting `sep` before a
/// part only when the text so far is not empty.
pub open spec fn fold_join(parts: Seq<Seq<char>>, sep: Seq<char>) -> Seq<char>
    decreases parts.len(),
{
    if parts.len() == 0 {
        Seq::empty()
    } else {
        let acc = fold_join(parts.drop_last(), sep);
        if acc.len() == 0 {
            parts.last()
        } else {
            acc + sep + parts.last()
        }
    }
}

/// A result list with `xs` put in front of a successful remainder.
pub open spec fn prepend<T, E>(xs: Seq<T>, r: Result<Seq<T>, E>) -> Result<Seq<T>, E> {
    match r {
        Ok(rest) => Ok(xs + rest),
        Err(e) => Err(e),
    }
}

pub proof fn lemma_prepend_empty<T, E>(r: Result<Seq<T>, E>)
    ensures
        prepend(Seq::<T>::empty(), r) == r,
{
    match r {
        Ok(x) => {
            assert(Seq::<T>::empty() + x =~= x);
        },
        Err(_) => {},
    }
}

pub proof fn lemma_prepend_assoc<T, E>(xs: Seq<T>, ys: Seq<T>, r: Result<Seq<T>, E>)
    ensures
        prepend(xs, prepend(ys, r)) == prepend(xs + ys, r),
{
    match r {
        Ok(x) => {
            assert(xs + (ys + x) =~= (xs + ys) + x);
        },
        Err(_) => {},
    }
}

/// Splitting a joined list gives the parts back when no part holds the
/// separator and the first part is not empty.
pub proof fn lemma_split_fold_join(parts: Seq<Seq<char>>, c: char)
    requires
        parts.len() >= 1,
        parts[0].len() > 0,
        forall|i: int| 0 <= i < parts.len() ==> !(#[trigger] parts[i]).contains(c),
    ensures
        split_char(fold_join(parts, seq![c]), c) == parts,
        fold_join(parts, seq![c]).len() > 0,
    decreases parts.len(),
{
    if parts.len() == 1 {
        assert(parts.drop_last().len() == 0);
        assert(fold_join(parts, seq![c]) == parts[0]);
        lemma_find_char_none(parts[0], c);
        assert(split_char(parts[0], c) =~= seq![parts[0]]);
    } else {
        let init = parts.drop_last();
        lemma_split_fold_join(init, c);
        let acc = fold_join(init, seq![c]);
        let last = parts.last();
        assert(!last.contains(c));
        // split the joined text at every separator: reason from the right
        lemma_split_append(acc, c, last, init);
        assert(init.push(last) =~= parts);
    }
}

/// `s` holds `c` twice in a row somewhere.
pub open spec fn has_pair(s: Seq<char>, c: char) -> bool {
    exists|i: int| 0 <= i < s.len() - 1 && #[trigger] s[i] == c && s[i + 1] == c
}

/// A text without `cc` is one piece when split at `cc`.
pub proof fn lemma_split_pair_none(a: Seq<char>, c: char)
    requires
        !has_pair(a, c),
    ensures
        split_pat(a, seq![c, c]) == seq![a],
{
    let pp = seq![c, c];
    assert forall|j: int| !matches_at(a, pp, j) by {
        if matches_at(a, pp, j) {
            assert(a.subrange(j, j + 2)[0] == a[j]);
            assert(a.subrange(j, j + 2)[1] == a[j + 1]);
        }
    }
    lemma_find_pat_none(a, pp);
}

/// Splitting at a first `cc` that follows a piece without `cc` and not
/// ending in `c`.
pub proof fn lemma_split_pair_concat(a: Seq<char>, c: char, rest: Seq<char>)
    requires
        !has_pair(a, c),
        a.len() == 0 || a.last() != c,
    ensures
        split_pat(a + seq![c, c] + rest, seq![c, c]) == seq![a] + split_pat(rest, seq![c, c]),
{
    let pp = seq![c, c];
    let s = a + pp + rest;
    assert(s.subrange(a.len() as int, a.len() as int + 2) =~= pp);
    assert forall|j: int| 0 <= j < a.len() implies !matches_at(s, pp, j) by {
        if matches_at(s, pp, j) {
            assert(s.subrange(j, j + 2)[0] == s[j]);
            assert(s.subrange(j, j + 2)[1] == s[j + 1]);
            assert(s[j] == a[j]);
            if j + 1 < a.len() {
                assert(s[j + 1] == a[j + 1]);
            } else {
                assert(a[j] == a.last());
            }
        }
    }
    lemma_find_pat_at(s, pp, a.len() as int);
    assert(s.subrange(0, a.len() as int) =~= a);
    assert(s.subrange(a.len() as int + 2, s.len() as int) =~= rest);
}

/// Splitting parts joined by `cc` at `cc` gives them back when none holds
/// `cc` and none but the last ends in `c`.
pub proof fn lemma_split_pair_join(parts: Seq<Seq<char>>, c: char)
    requires
        parts.len() >= 1,
        forall|i: int| 0 <= i < parts.len() ==> !has_pair(#[trigger] parts[i], c),
        forall|i: int|
            0 <= i < parts.len() - 1 ==> (#[trigger] parts[i]).len() == 0 || parts[i].last() != c,
    ensures
        split_pat(join(parts, seq![c, c]), seq![c, c]) == parts,
    decreases parts.len(),
{
    if parts.len() == 1 {
        lemma_split_pair_none(parts[0], c);
        assert(seq![parts[0]] =~= parts);
    } else {
        let rest = parts.drop_first();
        assert forall|i: int| 0 <= i < rest.len() implies !has_pair(#[trigger] rest[i], c) by {
            assert(rest[i] == parts[i + 1]);
        }
        assert forall|i: int| 0 <= i < rest.len() - 1 implies (#[trigger] rest[i]).len() == 0
            || rest[i].last() != c by {
            assert(rest[i] == parts[i + 1]);
        }
        lemma_split_pair_join(rest, c);
        assert(parts[0].len() == 0 || parts[0].last() != c);
        lemma_split_pair_concat(parts[0], c, join(rest, seq![c, c]));
        assert(seq![parts[0]] + rest =~= parts);
    }
}

proof fn lemma_join_push(parts: Seq<Seq<char>>, sep: Seq<char>, x: Seq<char>)
    requires
        parts.len() >= 1,
    ensures
        join(parts.push(x), sep) == join(parts, sep) + sep + x,
    decreases parts.len(),
{
    let p = parts.push(x);
    assert(p[0] == parts[0]);
    assert(join(p, sep) == p[0] + sep + join(p.drop_first(), sep));
    if parts.len() == 1 {
        assert(p.drop_first() =~= seq![x]);
        assert(join(p.drop_first(), sep) == x);
        assert(join(parts, sep) == parts[0]);
        assert(join(p, sep) =~= join(parts, sep) + sep + x);
    } else {
        lemma_join_push(parts.drop_first(), sep, x);
        assert(p.drop_first() =~= parts.drop_first().push(x));
        assert(join(parts, sep) == parts[0] + sep + join(parts.drop_first(), sep));
        assert(join(p, sep) =~= join(parts, sep) + sep + x);
    }
}

/// With a non-empty first part, joining from the left and folding from the
/// right agree.
pub proof fn lemma_fold_join_is_join(parts: Seq<Seq<char>>, sep: Seq<char>)
    requires
        parts.len() >= 1,
        parts[0].len() > 0,
    ensures
        fold_join(parts, sep) == join(parts, sep),
        fold_join(parts, sep).len() > 0,
    decreases parts.len(),
{
    if parts.len() == 1 {
        assert(parts.drop_last().len() == 0);
        assert(fold_join(parts.drop_last(), sep).len() == 0);
        assert(parts.last() == parts[0]);
    } else {
        let init = parts.drop_last();
        assert(init[0] == parts[0]);
        lemma_fold_join_is_join(init, sep);
        lemma_join_push(init, sep, parts.last());
        assert(init.push(parts.last()) =~= parts);
        assert(fold_join(parts, sep) == fold_join(init, sep) + sep + parts.last());
    }
}

/// Appending a separator and a separator-free part to a text that splits
/// into `parts` adds `last` to the pieces.
pub proof fn lemma_split_append(acc: Seq<char>, c: char, last: Seq<char>, parts: Seq<Seq<char>>)
    requires
        split_char(acc, c) == parts,
        !last.contains(c),
    ensures
        split_char(acc + seq![c] + last, c) == parts.push(last),
    decreases acc.len(),
{
    let s = acc + seq![c] + last;
    let i = find_char(acc, c);
    lemma_find_char(acc, c);
    if i < 0 {
        // acc is the first piece
        lemma_find_char_concat(acc, seq![c] + last, c);
        assert((seq![c] + last)[0] == c);
        lemma_find_char_at(seq![c] + last, c, 0);
        assert(acc + (seq![c] + last) =~= s);
        assert(s.subrange(0, acc.len() as int) =~= acc);
        assert(s.subrange(acc.len() as int + 1, s.len() as int) =~= last);
        lemma_find_char_none(last, c);
        assert(split_char(last, c) =~= seq![last]);
        assert(split_char(acc, c) =~= seq![acc]);
        assert(split_char(s, c) =~= seq![acc] + seq![last]);
        assert(parts.push(last) =~= seq![acc] + seq![last]);
    } else {
        let head = acc.subrange(0, i);
        let tail = acc.subrange(i + 1, acc.len() as int);
        assert(!head.contains(c)) by {
            assert forall|j: int| 0 <= j < head.len() implies head[j] != c by {
                assert(head[j] == acc[j]);
            }
        }
        assert(acc =~= head + seq![c] + tail);
        crate::text::lemma_split_char_concat_text(head, c, tail);
        assert(split_char(acc, c) == seq![head] + split_char(tail, c));
        assert(parts.drop_first() =~= split_char(tail, c));
        lemma_split_append(tail, c, last, parts.drop_first());
        assert(s =~= head + seq![c] + (tail + seq![c] + last));
        crate::text::lemma_split_char_concat_text(head, c, tail + seq![c] + last);
        assert(parts.push(last) =~= seq![head] + parts.drop_first().push(last));
    }
}

/// Splitting at a first separator.
pub proof fn lemma_split_char_concat_text(a: Seq<char>, c: char, rest: Seq<char>)
    requires
        !a.contains(c),
    ensures
        split_char(a + seq![c] + rest, c) == seq![a] + split_char(rest, c),
{
    let s = a + seq![c] + rest;
    lemma_find_char_concat(a, seq![c] + rest, c);
    assert((seq![c] + rest)[0] == c);
    lemma_find_char_at(seq![c] + rest, c, 0);
    assert(a + (seq![c] + rest) =~= s);
    assert(find_pat(s, seq![c]) == a.len());
    assert(s.subrange(0, a.len() as int) =~= a);
    assert(s.subrange(a.len() as int + 1, s.len() as int) =~= rest);
}

// ---------------------------------------------------------------------------
// Decimal numbers
// ---------------------------------------------------------------------------

pub open spec fn is_digit(c: char) -> bool {
    '0' <= c && c <= '9'
}

pub open spec fn digit_value(c: char) -> nat {
    (c as int - '0' as int) as nat
}

pub open spec fn digit_char(d: nat) -> char
    recommends
        d < 10,
{
    (d + '0' as int) as char
}

pub open spec fn all_digits(s: Seq<char>) -> bool {
    forall|i: int| 0 <= i < s.len() ==> #[trigger] is_digit(s[i])
}

/// The number written by the decimal digits `s`, most significant first.
pub open spec fn digits_value(s: Seq<char>) -> nat
    decreases s.len(),
{
    if s.len() == 0 {
        0
    } else {
        digits_value(s.drop_last()) * 10 + digit_value(s.last())
    }
}

/// What `usize::from_str` accepts: an optional `+`, then at least one decimal
/// digit, the value fitting in `usize`.
pub open spec fn parse_usize_spec(s: Seq<char>) -> Option<usize> {
    let d = if s.len() > 0 && s[0] == '+' {
        s.drop_first()
    } else {
        s
    };
    if d.len() > 0 && all_digits(d) && digits_value(d) <= usize::MAX {
        Some(digits_value(d) as usize)
    } else {
        None
    }
}

/// The shortest decimal representation of `n`.
pub open spec fn decimal(n: nat) -> Seq<char>
    decreases n,
{
    if n < 10 {
        seq![digit_char(n)]
    } else {
        decimal(n / 10).push(digit_char(n % 10))
    }
}

pub proof fn lemma_digit_roundtrip(d: nat)
    requires
        d < 10,
    ensures
        is_digit(digit_char(d)),
        digit_value(digit_char(d)) == d,
{
}

/// The decimal representation is a non-empty run of digits denoting `n`,
/// without a leading `+`.
pub proof fn lemma_decimal(n: nat)
    ensures
        decimal(n).len() > 0,
        all_digits(decimal(n)),
        digits_value(decimal(n)) == n,
        decimal(n)[0] != '+',
        decimal(n)[0] != '.',
        !decimal(n).contains('.'),
        !decimal(n).contains('+'),
        !decimal(n).contains('-'),
        !decimal(n).contains(' '),
    decreases n,
{
    if n < 10 {
        lemma_digit_roundtrip(n);
        assert(decimal(n).drop_last() =~= Seq::<char>::empty());
        assert(digits_value(Seq::<char>::empty()) == 0);
        assert(decimal(n).last() == digit_char(n));
    } else {
        lemma_decimal(n / 10);
        lemma_digit_roundtrip(n % 10);
        let s = decimal(n);
        assert(s.drop_last() =~= decimal(n / 10));
        assert(s.last() == digit_char(n % 10));
        assert((n / 10) * 10 + n % 10 == n) by (nonlinear_arith);
        assert(digits_value(s) == digits_value(s.drop_last()) * 10 + digit_value(s.last()));
        assert(digits_value(s.drop_last()) == n / 10);
        assert forall|i: int| 0 <= i < s.len() implies #[trigger] is_digit(s[i]) by {
            if i < s.len() - 1 {
                assert(s[i] == decimal(n / 10)[i]);
            }
        }
        assert forall|c: char| s.contains(c) implies is_digit(c) by {
            let i = choose|i: int| 0 <= i < s.len() && s[i] == c;
            assert(is_digit(s[i]));
        }
    }
}

/// Reading back a decimal representation gives the number.
pub proof fn lemma_parse_decimal(n: usize)
    ensures
        parse_usize_spec(decimal(n as nat)) == Some(n),
{
    lemma_decimal(n as nat);
}

/// Digit strings only grow in value when digits are appended.
pub proof fn lemma_digits_value_prefix(s: Seq<char>, k: int)
    requires
        0 <= k <= s.len(),
    ensures
        digits_value(s.subrange(0, k)) <= digits_value(s),
    decreases s.len() - k,
{
    if k < s.len() {
        lemma_digits_value_prefix(s, k + 1);
        assert(s.subrange(0, k + 1).drop_last() =~= s.subrange(0, k));
    } else {
        assert(s.subrange(0, k) =~= s);
    }
}

// ---------------------------------------------------------------------------
// Executable helpers
// ---------------------------------------------------------------------------

/// `String::push`: appends one character. The contract claims that the
/// text afterwards is the text before followed by `c`, as std documents.
#[verifier::external_body]
pub(crate) fn push_char(s: &mut String, c: char)
    ensures
        final(s)@ == old(s)@.push(c),
{
    s.push(c);
}

/// The characters of a string slice, in order.
pub fn chars_of(s: &str) -> (v: Vec<char>)
    ensures
        v@ == s@,
{
    let mut v: Vec<char> = Vec::new();
    let mut it = s.chars();
    let ghost total = s@;
    loop
        invariant
            v@ + it.remaining() == total,
            it.decrease() is Some,
        ensures
            v@ == total,
        decreases it.decrease()->0,
    {
        let ghost before = it.remaining();
        match it.next() {
            Some(c) => {
                v.push(c);
                assert(v@ + it.remaining() =~= total) by {
                    assert(before =~= seq![c] + it.remaining());
                }
            },
            None => {
                assert(v@ =~= total);
                break ;
            },
        }
    }
    v
}

/// A string holding `v[lo..hi]`.
pub fn string_of(v: &Vec<char>, lo: usize, hi: usize) -> (s: String)
    requires
        lo <= hi <= v.len(),
    ensures
        s@ == v@.subrange(lo as int, hi as int),
{
    let mut s = String::new();
    let mut i = lo;
    while i < hi
        invariant
            lo <= i <= hi <= v.len(),
            s@ == v@.subrange(lo as int, i as int),
        decreases hi - i,
    {
        push_char(&mut s, v[i]);
        assert(s@ =~= v@.subrange(lo as int, i + 1));
        i += 1;
    }
    s
}

/// A string holding all of `v`.
pub fn string_of_all(v: &Vec<char>) -> (s: String)
    ensures
        s@ == v@,
{
    let s = string_of(v, 0, v.len());
    assert(v@.subrange(0, v@.len() as int) =~= v@);
    s
}

/// The characters `v[lo..hi]`.
pub fn slice_chars(v: &Vec<char>, lo: usize, hi: usize) -> (r: Vec<char>)
    requires
        lo <= hi <= v.len(),
    ensures
        r@ == v@.subrange(lo as int, hi as int),
{
    let mut r: Vec<char> = Vec::new();
    let mut i = lo;
    while i < hi
        invariant
            lo <= i <= hi <= v.len(),
            r@ == v@.subrange(lo as int, i as int),
        decreases hi - i,
    {
        r.push(v[i]);
        assert(r@ =~= v@.subrange(lo as int, i + 1));
        i += 1;
    }
    r
}

/// Appends the characters of `v` to `s`.
pub fn append_chars(s: &mut String, v: &Vec<char>)
    ensures
        final(s)@ == old(s)@ + v@,
{
    let mut i: usize = 0;
    while i < v.len()
        invariant
            i <= v.len(),
            s@ == old(s)@ + v@.subrange(0, i as int),
        decreases v.len() - i,
    {
        push_char(s, v[i]);
        assert(s@ =~= old(s)@ + v@.subrange(0, i + 1));
        i += 1;
    }
    assert(v@.subrange(0, v.len() as int) =~= v@);
}

/// Appends a string slice to `s`.
pub fn append_str(s: &mut String, t: &str)
    ensures
        final(s)@ == old(s)@ + t@,
{
    let v = chars_of(t);
    append_chars(s, &v);
}

/// Whether `p` occurs in `v` at `i`.
pub fn matches_at_exec(v: &Vec<char>, p: &Vec<char>, i: usize) -> (b: bool)
    ensures
        b == matches_at(v@, p@, i as int),
{
    if p.len() > v.len() || i > v.len() - p.len() {
        return false;
    }
    let mut k: usize = 0;
    while k < p.len()
        invariant
            k <= p.len(),
            i + p.len() <= v.len(),
            forall|j: int| 0 <= j < k ==> v@[i + j] == p@[j],
        decreases p.len() - k,
    {
        if v[i + k] != p[k] {
            assert(v@.subrange(i as int, i + p.len())[k as int] != p@[k as int]);
            return false;
        }
        k += 1;
    }
    assert(v@.subrange(i as int, i + p.len()) =~= p@);
    true
}

/// The leftmost occurrence of `p` in `v` (`find_pat`).
pub fn find_exec(v: &Vec<char>, p: &Vec<char>) -> (r: Option<usize>)
    ensures
        match r {
            Some(i) => find_pat(v@, p@) == i,
            None => find_pat(v@, p@) == -1,
        },
{
    let mut i: usize = 0;
    while i < v.len()
        invariant
            i <= v.len(),
            forall|j: int| 0 <= j < i ==> !matches_at(v@, p@, j),
        decreases v.len() - i,
    {
        if matches_at_exec(v, p, i) {
            proof {
                lemma_find_pat_at(v@, p@, i as int);
            }
            return Some(i);
        }
        i += 1;
    }
    if matches_at_exec(v, p, i) {
        proof {
            lemma_find_pat_at(v@, p@, i as int);
        }
        return Some(i);
    }
    proof {
        assert forall|j: int| !matches_at(v@, p@, j) by {
            if 0 <= j && j <= i {
            }
        }
        lemma_find_pat_none(v@, p@);
    }
    None
}

/// The first position of `c` in `v` (`find_char`).
pub fn find_char_exec(v: &Vec<char>, c: char) -> (r: Option<usize>)
    ensures
        match r {
            Some(i) => find_char(v@, c) == i,
            None => find_char(v@, c) == -1,
        },
{
    let p = vec![c];
    assert(p@ =~= seq![c]);
    find_exec(v, &p)
}

/// `split_once` with a string pattern.
pub fn split_once_exec(v: &Vec<char>, p: &Vec<char>) -> (r: Option<(Vec<char>, Vec<char>)>)
    ensures
        match r {
            Some((a, b)) => split_once_pat(v@, p@) == Some((a@, b@)),
            None => split_once_pat(v@, p@) is None,
        },
{
    match find_exec(v, p) {
        Some(i) => {
            proof {
                lemma_find_pat(v@, p@);
            }
            let a = slice_chars(v, 0, i);
            let b = slice_chars(v, i + p.len(), v.len());
            Some((a, b))
        },
        None => None,
    }
}

/// `split_once` with a character pattern.
pub fn split_once_char_exec(v: &Vec<char>, c: char) -> (r: Option<(Vec<char>, Vec<char>)>)
    ensures
        match r {
            Some((a, b)) => split_once_char(v@, c) == Some((a@, b@)),
            None => split_once_char(v@, c) is None,
        },
{
    let p = vec![c];
    assert(p@ =~= seq![c]);
    split_once_exec(v, &p)
}

/// `split` with a non-empty string pattern.
pub fn split_exec(v: &Vec<char>, p: &Vec<char>) -> (r: Vec<Vec<char>>)
    requires
        p.len() > 0,
    ensures
        r@.len() == split_pat(v@, p@).len(),
        forall|k: int| 0 <= k < r@.len() ==> #[trigger] r@[k]@ == split_pat(v@, p@)[k],
{
    let mut out: Vec<Vec<char>> = Vec::new();
    let mut rest = slice_chars(v, 0, v.len());
    assert(rest@ =~= v@);
    loop
        invariant_except_break
            seq_views(out@) + split_pat(rest@, p@) == split_pat(v@, p@),
        invariant
            p.len() > 0,
        ensures
            out@.len() == split_pat(v@, p@).len(),
            forall|k: int| 0 <= k < out@.len() ==> #[trigger] out@[k]@ == split_pat(v@, p@)[k],
        decreases rest@.len(),
    {
        match split_once_exec(&rest, p) {
            Some((a, b)) => {
                proof {
                    lemma_find_pat(rest@, p@);
                }
                let ghost old_out = out@;
                let ghost old_rest = rest@;
                out.push(a);
                rest = b;
                proof {
                    assert(seq_views(out@) =~= seq_views(old_out).push(a@));
                    assert(split_pat(old_rest, p@) =~= seq![a@] + split_pat(rest@, p@));
                    assert(seq_views(out@) + split_pat(rest@, p@) =~= seq_views(old_out)
                        + split_pat(old_rest, p@));
                }
            },
            None => {
                let ghost old_out = out@;
                let ghost last = rest@;
                out.push(rest);
                proof {
                    assert(split_pat(last, p@) =~= seq![last]);
                    assert(seq_views(out@) =~= seq_views(old_out).push(last));
                    assert(seq_views(out@) =~= seq_views(old_out) + split_pat(last, p@));
                    assert forall|k: int| 0 <= k < out@.len() implies #[trigger] out@[k]@ == split_pat(v@, p@)[k] by {
                        assert(seq_views(out@)[k] == out@[k]@);
                    }
                }
                break ;
            },
        }
    }
    out
}

/// The views of a sequence of character vectors.
pub open spec fn seq_views(s: Seq<Vec<char>>) -> Seq<Seq<char>> {
    s.map_values(|x: Vec<char>| x@)
}

/// `split` with a character pattern.
pub fn split_char_exec(v: &Vec<char>, c: char) -> (r: Vec<Vec<char>>)
    ensures
        r@.len() == split_char(v@, c).len(),
        forall|k: int| 0 <= k < r@.len() ==> #[trigger] r@[k]@ == split_char(v@, c)[k],
{
    let p = vec![c];
    assert(p@ =~= seq![c]);
    split_exec(v, &p)
}

/// The views of a sequence of strings.
pub open spec fn string_views(s: Seq<String>) -> Seq<Seq<char>> {
    s.map_values(|x: String| x@)
}

/// Joins texts as the encoders do (see [`fold_join`]).
pub fn fold_join_exec(parts: &Vec<String>, sep: &Vec<char>) -> (s: String)
    ensures
        s@ == fold_join(string_views(parts@), sep@),
{
    let mut s = String::new();
    let mut i: usize = 0;
    while i < parts.len()
        invariant
            i <= parts.len(),
            s@ == fold_join(string_views(parts@.subrange(0, i as int)), sep@),
        decreases parts.len() - i,
    {
        let ghost before = s@;
        if !s.as_str().is_empty() {
            append_chars(&mut s, sep);
        }
        append_str(&mut s, parts[i].as_str());
        proof {
            let pre = string_views(parts@.subrange(0, i as int));
            let now = string_views(parts@.subrange(0, i + 1));
            assert(now.drop_last() =~= pre);
            assert(now.last() == parts@[i as int]@);
        }
        i += 1;
    }
    assert(parts@.subrange(0, parts.len() as int) =~= parts@);
    s
}

/// `usize::from_str` on the characters of `v`.
pub fn parse_usize(v: &Vec<char>) -> (r: Option<usize>)
    ensures
        r == parse_usize_spec(v@),
{
    let start: usize = if v.len() > 0 && v[0] == '+' {
        1
    } else {
        0
    };
    let ghost d = if v@.len() > 0 && v@[0] == '+' {
        v@.drop_first()
    } else {
        v@
    };
    assert(d =~= v@.subrange(start as int, v@.len() as int));
    if start >= v.len() {
        return None;
    }
    let mut acc: usize = 0;
    let mut i = start;
    while i < v.len()
        invariant
            start <= i <= v.len(),
            d == v@.subrange(start as int, v@.len() as int),
            d == (if v@.len() > 0 && v@[0] == '+' {
                v@.drop_first()
            } else {
                v@
            }),
            forall|j: int| start <= j < i ==> is_digit(#[trigger] v@[j]),
            acc as nat == digits_value(v@.subrange(start as int, i as int)),
        decreases v.len() - i,
    {
        let c = v[i];
        if !('0' <= c && c <= '9') {
            assert(d[i - start] == c);
            assert(!is_digit(d[i - start]));
            assert(!all_digits(d));
            assert(parse_usize_spec(v@) is None);
            return None;
        }
        let dv = (c as u32 - '0' as u32) as usize;
        assert(v@.subrange(start as int, i + 1).drop_last() =~= v@.subrange(start as int, i as int));
        assert(digit_value(c) == dv);
        assert(digits_value(v@.subrange(start as int, i + 1)) == acc * 10 + dv);
        if acc > (usize::MAX - dv) / 10 {
            proof {
                assert(acc * 10 + dv > usize::MAX) by (nonlinear_arith)
                    requires
                        acc > (usize::MAX - dv) / 10,
                        dv <= 9,
                ;
                if all_digits(d) {
                    lemma_digits_value_prefix(d, i + 1 - start);
                    assert(d.subrange(0, i + 1 - start) =~= v@.subrange(start as int, i + 1));
                    assert(digits_value(d) > usize::MAX);
                }
            }
            return None;
        }
        acc = acc * 10 + dv;
        i += 1;
    }
    assert(v@.subrange(start as int, i as int) =~= d);
    assert(all_digits(d)) by {
        assert forall|j: int| 0 <= j < d.len() implies #[trigger] is_digit(d[j]) by {
            assert(d[j] == v@[start + j]);
        }
    }
    Some(acc)
}

/// The decimal representation of `n`.
pub fn decimal_exec(n: usize) -> (s: Vec<char>)
    ensures
        s@ == decimal(n as nat),
    decreases n,
{
    if n < 10 {
        let c = digit_char_exec(n);
        let v = vec![c];
        assert(v@ =~= seq![digit_char(n as nat)]);
        v
    } else {
        let mut v = decimal_exec(n / 10);
        let c = digit_char_exec(n % 10);
        v.push(c);
        v
    }
}

fn digit_char_exec(d: usize) -> (c: char)
    requires
        d < 10,
    ensures
        c == digit_char(d as nat),
{
    if d == 0 {
        '0'
    } else if d == 1 {
        '1'
    } else if d == 2 {
        '2'
    } else if d == 3 {
        '3'
    } else if d == 4 {
        '4'
    } else if d == 5 {
        '5'
    } else if d == 6 {
        '6'
    } else if d == 7 {
        '7'
    } else if d == 8 {
        '8'
    } else {
        '9'
    }
}

/// Joins `parts` with `sep` between consecutive parts (see [`join`]).
pub fn join_exec(parts: &Vec<Vec<char>>, sep: &Vec<char>) -> (r: Vec<char>)
    ensures
        r@ == join(seq_views(parts@), sep@),
{
    let ghost pv = seq_views(parts@);
    if parts.len() == 0 {
        return Vec::new();
    }
    let mut out: Vec<char> = slice_chars(&parts[parts.len() - 1], 0, parts[parts.len() - 1].len());
    let mut i: usize = parts.len() - 1;
    assert(pv.subrange(i as int, pv.len() as int) =~= seq![pv[i as int]]);
    assert(out@ =~= pv[i as int]);
    while i > 0
        invariant
            0 <= i < parts.len(),
            pv == seq_views(parts@),
            out@ == join(pv.subrange(i as int, pv.len() as int), sep@),
        decreases i,
    {
        let ghost rest = pv.subrange(i as int, pv.len() as int);
        let ghost longer = pv.subrange(i - 1, pv.len() as int);
        assert(longer.drop_first() =~= rest);
        assert(longer[0] == parts@[i - 1]@);
        let mut next: Vec<char> = slice_chars(&parts[i - 1], 0, parts[i - 1].len());
        let mut k: usize = 0;
        let ghost start = next@;
        while k < sep.len()
            invariant
                k <= sep.len(),
                next@ == start + sep@.subrange(0, k as int),
            decreases sep.len() - k,
        {
            next.push(sep[k]);
            assert(next@ =~= start + sep@.subrange(0, k + 1));
            k += 1;
        }
        let mut m: usize = 0;
        let ghost mid = next@;
        while m < out.len()
            invariant
                m <= out.len(),
                next@ == mid + out@.subrange(0, m as int),
            decreases out.len() - m,
        {
            next.push(out[m]);
            assert(next@ =~= mid + out@.subrange(0, m + 1));
            m += 1;
        }
        assert(sep@.subrange(0, sep.len() as int) =~= sep@);
        assert(out@.subrange(0, out.len() as int) =~= out@);
        assert(parts@[i - 1]@.subrange(0, parts@[i - 1]@.len() as int) =~= parts@[i - 1]@);
        assert(next@ =~= longer[0] + sep@ + join(rest, sep@));
        out = next;
        i -= 1;
    }
    assert(pv.subrange(0, pv.len() as int) =~= pv);
    out
}

/// `str::replace`: every non-overlapping leftmost occurrence of the
/// non-empty pattern `p` in `s` replaced by `w`.
pub open spec fn replace_all(s: Seq<char>, p: Seq<char>, w: Seq<char>) -> Seq<char> {
    join(split_pat(s, p), w)
}

/// Replaces every occurrence of `p` (non-empty) in `s` by `w` (see
/// [`replace_all`]).
pub fn replace_exec(s: &str, p: &str, w: &str) -> (r: String)
    requires
        p@.len() > 0,
    ensures
        r@ == replace_all(s@, p@, w@),
{
    let sc = chars_of(s);
    let pc = chars_of(p);
    let wc = chars_of(w);
    let parts = split_exec(&sc, &pc);
    assert(seq_views(parts@) =~= split_pat(s@, p@));
    let joined = join_exec(&parts, &wc);
    string_of_all(&joined)
}

} // verus!
