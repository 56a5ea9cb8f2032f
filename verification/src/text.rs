//! Character-level text operations used throughout the crate, each stated
//! over `Seq<char>`.
//!
//! Whitespace is Unicode `White_Space`, the same set `char::is_whitespace`
//! and `str::trim` use. Case folding is ASCII-only, as with
//! `to_ascii_lowercase` and `eq_ignore_ascii_case`.

use vstd::prelude::*;
use vstd::std_specs::iter::IteratorSpec;

verus! {

// ------------------------------------------------------------ characters

/// Unicode `White_Space`.
pub open spec fn is_ws(c: char) -> bool {
    ||| ('\u{9}' <= c && c <= '\u{d}')
    ||| c == ' '
    ||| c == '\u{85}'
    ||| c == '\u{a0}'
    ||| c == '\u{1680}'
    ||| ('\u{2000}' <= c && c <= '\u{200a}')
    ||| c == '\u{2028}'
    ||| c == '\u{2029}'
    ||| c == '\u{202f}'
    ||| c == '\u{205f}'
    ||| c == '\u{3000}'
}

pub fn is_whitespace(c: char) -> (r: bool)
    ensures
        r == is_ws(c),
{
    ('\u{9}' <= c && c <= '\u{d}') || c == ' ' || c == '\u{85}' || c == '\u{a0}' || c == '\u{1680}'
        || ('\u{2000}' <= c && c <= '\u{200a}') || c == '\u{2028}' || c == '\u{2029}' || c
        == '\u{202f}' || c == '\u{205f}' || c == '\u{3000}'
}

/// ASCII lowercase of one character; everything else is unchanged.
pub open spec fn lower(c: char) -> char {
    if 'A' <= c && c <= 'Z' {
        ((c as u32) + 32) as char
    } else {
        c
    }
}

pub fn to_lower(c: char) -> (r: char)
    ensures
        r == lower(c),
{
    if 'A' <= c && c <= 'Z' {
        let b: u8 = (c as u8) + 32;
        b as char
    } else {
        c
    }
}

/// Unicode `Cc`: the C0 controls, DEL and the C1 controls.
pub open spec fn is_ctrl(c: char) -> bool {
    c <= '\u{1f}' || ('\u{7f}' <= c && c <= '\u{9f}')
}

pub fn is_control(c: char) -> (r: bool)
    ensures
        r == is_ctrl(c),
{
    c <= '\u{1f}' || ('\u{7f}' <= c && c <= '\u{9f}')
}

pub open spec fn is_ascii_alnum(c: char) -> bool {
    ('0' <= c && c <= '9') || ('a' <= c && c <= 'z') || ('A' <= c && c <= 'Z')
}

pub open spec fn is_digit(c: char) -> bool {
    '0' <= c && c <= '9'
}

// ------------------------------------------------------------- sequences

/// The ASCII-lowercased sequence.
pub open spec fn lower_seq(s: Seq<char>) -> Seq<char> {
    s.map_values(|c: char| lower(c))
}

/// `s` with leading whitespace removed.
pub open spec fn trim_start(s: Seq<char>) -> Seq<char>
    decreases s.len(),
{
    if s.len() > 0 && is_ws(s[0]) {
        trim_start(s.drop_first())
    } else {
        s
    }
}

/// `s` with trailing whitespace removed.
pub open spec fn trim_end(s: Seq<char>) -> Seq<char>
    decreases s.len(),
{
    if s.len() > 0 && is_ws(s.last()) {
        trim_end(s.drop_last())
    } else {
        s
    }
}

/// `s` with surrounding whitespace removed (`str::trim`).
pub open spec fn trim(s: Seq<char>) -> Seq<char> {
    trim_end(trim_start(s))
}

pub open spec fn has_ws(s: Seq<char>) -> bool {
    exists|i: int| 0 <= i < s.len() && #[trigger] is_ws(s[i])
}

pub open spec fn has_char(s: Seq<char>, c: char) -> bool {
    exists|i: int| 0 <= i < s.len() && s[i] == c
}

/// `p` occurs in `s` at position `i`.
pub open spec fn occurs_at(s: Seq<char>, p: Seq<char>, i: int) -> bool {
    0 <= i && i + p.len() <= s.len() && s.subrange(i, i + p.len()) == p
}

/// `p` occurs somewhere in `s` (`str::contains`).
pub open spec fn contains(s: Seq<char>, p: Seq<char>) -> bool {
    exists|i: int| occurs_at(s, p, i)
}

pub open spec fn starts_with(s: Seq<char>, p: Seq<char>) -> bool {
    p.len() <= s.len() && s.subrange(0, p.len() as int) == p
}

pub open spec fn ends_with(s: Seq<char>, p: Seq<char>) -> bool {
    p.len() <= s.len() && s.subrange(s.len() - p.len(), s.len() as int) == p
}

/// Index of the first `c` in `s`, if any.
pub open spec fn first_index(s: Seq<char>, c: char) -> Option<int> {
    if has_char(s, c) {
        Some(choose|i: int| 0 <= i < s.len() && s[i] == c && forall|j: int| 0 <= j < i ==> s[j] != c)
    } else {
        None
    }
}

/// Index of the last `c` in `s`, if any.
pub open spec fn last_index(s: Seq<char>, c: char) -> Option<int> {
    if has_char(s, c) {
        Some(
            choose|i: int|
                0 <= i < s.len() && s[i] == c && forall|j: int| i < j < s.len() ==> s[j] != c,
        )
    } else {
        None
    }
}

/// `str::split_once` on one character: the parts before and after its
/// first occurrence.
pub open spec fn split_once(s: Seq<char>, c: char) -> Option<(Seq<char>, Seq<char>)> {
    match first_index(s, c) {
        Some(i) => Some((s.subrange(0, i), s.subrange(i + 1, s.len() as int))),
        None => None,
    }
}

/// `str::rsplit_once` on one character: the parts before and after its
/// last occurrence.
pub open spec fn rsplit_once(s: Seq<char>, c: char) -> Option<(Seq<char>, Seq<char>)> {
    match last_index(s, c) {
        Some(i) => Some((s.subrange(0, i), s.subrange(i + 1, s.len() as int))),
        None => None,
    }
}

/// The maximal runs of non-whitespace in `s` (`str::split_whitespace`).
pub open spec fn words(s: Seq<char>) -> Seq<Seq<char>>
    decreases s.len(),
{
    if s.len() == 0 {
        Seq::empty()
    } else {
        let p = s.drop_last();
        let c = s.last();
        let w = words(p);
        if is_ws(c) {
            w
        } else if p.len() > 0 && !is_ws(p.last()) && w.len() > 0 {
            w.update(w.len() - 1, w.last().push(c))
        } else {
            w.push(seq![c])
        }
    }
}

/// `parts` joined with `sep` between them.
pub open spec fn join(parts: Seq<Seq<char>>, sep: Seq<char>) -> Seq<char>
    decreases parts.len(),
{
    if parts.len() == 0 {
        Seq::empty()
    } else if parts.len() == 1 {
        parts[0]
    } else {
        join(parts.drop_last(), sep) + sep + parts.last()
    }
}

/// Whitespace runs collapsed to one space and the ends trimmed
/// (`split_whitespace` joined with `" "`).
pub open spec fn squash(s: Seq<char>) -> Seq<char> {
    join(words(s), seq![' '])
}

/// The pieces `str::split_inclusive('\n')` yields: runs ending in a
/// newline, plus a final run without one.
pub open spec fn pieces(s: Seq<char>) -> Seq<Seq<char>>
    decreases s.len(),
{
    if s.len() == 0 {
        Seq::empty()
    } else {
        let p = pieces(s.drop_last());
        let c = s.last();
        if p.len() > 0 && p.last().last() != '\n' {
            p.update(p.len() - 1, p.last().push(c))
        } else {
            p.push(seq![c])
        }
    }
}

/// One piece without its line ending (`\n` or `\r\n`).
pub open spec fn line_of(piece: Seq<char>) -> Seq<char> {
    if piece.len() > 0 && piece.last() == '\n' {
        let a = piece.drop_last();
        if a.len() > 0 && a.last() == '\r' {
            a.drop_last()
        } else {
            a
        }
    } else {
        piece
    }
}

/// `str::lines`.
pub open spec fn lines(s: Seq<char>) -> Seq<Seq<char>> {
    pieces(s).map_values(|p: Seq<char>| line_of(p))
}

// ---------------------------------------------------------------- lemmas

pub proof fn lemma_words_nonempty(s: Seq<char>)
    requires
        s.len() > 0,
        !is_ws(s.last()),
    ensures
        words(s).len() > 0,
    decreases s.len(),
{
    let p = s.drop_last();
    if p.len() > 0 && !is_ws(p.last()) {
        lemma_words_nonempty(p);
    }
}

pub proof fn lemma_join_push(parts: Seq<Seq<char>>, x: Seq<char>, sep: Seq<char>)
    ensures
        join(parts.push(x), sep) == if parts.len() == 0 {
            x
        } else {
            join(parts, sep) + sep + x
        },
{
    assert(parts.push(x).drop_last() =~= parts);
    if parts.len() == 0 {
        assert(parts.push(x)[0] == x);
    }
}

pub proof fn lemma_join_extend_last(parts: Seq<Seq<char>>, c: char, sep: Seq<char>)
    requires
        parts.len() > 0,
    ensures
        join(parts.update(parts.len() - 1, parts.last().push(c)), sep) == join(parts, sep).push(c),
{
    let q = parts.update(parts.len() - 1, parts.last().push(c));
    if parts.len() == 1 {
    } else {
        assert(q.drop_last() =~= parts.drop_last());
        assert(join(q, sep) =~= join(parts, sep).push(c));
    }
}

pub proof fn lemma_trim_start_shape(s: Seq<char>)
    ensures
        trim_start(s).len() <= s.len(),
        trim_start(s) == s.subrange(s.len() - trim_start(s).len(), s.len() as int),
        trim_start(s).len() > 0 ==> !is_ws(trim_start(s)[0]),
        forall|i: int| 0 <= i < s.len() - trim_start(s).len() ==> is_ws(#[trigger] s[i]),
    decreases s.len(),
{
    if s.len() > 0 && is_ws(s[0]) {
        lemma_trim_start_shape(s.drop_first());
        let t = trim_start(s.drop_first());
        assert(s.drop_first().subrange(s.drop_first().len() - t.len(), s.drop_first().len() as int)
            =~= s.subrange(s.len() - t.len(), s.len() as int));
        assert forall|i: int| 0 <= i < s.len() - t.len() implies is_ws(#[trigger] s[i]) by {
            if i > 0 {
                assert(s[i] == s.drop_first()[i - 1]);
            }
        }
    } else {
        assert(s.subrange(0, s.len() as int) =~= s);
    }
}

pub proof fn lemma_trim_end_shape(s: Seq<char>)
    ensures
        trim_end(s).len() <= s.len(),
        trim_end(s) == s.subrange(0, trim_end(s).len() as int),
        trim_end(s).len() > 0 ==> !is_ws(trim_end(s).last()),
        forall|i: int| trim_end(s).len() <= i < s.len() ==> is_ws(#[trigger] s[i]),
    decreases s.len(),
{
    if s.len() > 0 && is_ws(s.last()) {
        lemma_trim_end_shape(s.drop_last());
        let t = trim_end(s.drop_last());
        assert(s.drop_last().subrange(0, t.len() as int) =~= s.subrange(0, t.len() as int));
        assert forall|i: int| t.len() <= i < s.len() implies is_ws(#[trigger] s[i]) by {
            if i < s.len() - 1 {
                assert(s[i] == s.drop_last()[i]);
            }
        }
    } else {
        assert(s.subrange(0, s.len() as int) =~= s);
    }
}

/// A sequence whose ends are not whitespace is its own trim.
pub proof fn lemma_trim_fixed(s: Seq<char>)
    requires
        s.len() > 0 ==> !is_ws(s[0]) && !is_ws(s.last()),
    ensures
        trim(s) == s,
{
}

/// Trimming twice is trimming once.
pub proof fn lemma_trim_idempotent(s: Seq<char>)
    ensures
        trim(trim(s)) == trim(s),
        trim(s).len() > 0 ==> !is_ws(trim(s)[0]) && !is_ws(trim(s).last()),
{
    lemma_trim_start_shape(s);
    let a = trim_start(s);
    lemma_trim_end_shape(a);
    let t = trim_end(a);
    if t.len() > 0 {
        assert(t[0] == a[0]);
    }
    lemma_trim_fixed(t);
}

/// Trimming removes only whitespace: a whitespace-free sequence is
/// unchanged.
pub proof fn lemma_trim_no_ws(s: Seq<char>)
    requires
        !has_ws(s),
    ensures
        trim(s) == s,
{
    if s.len() > 0 {
        assert(!is_ws(s[0]));
        assert(!is_ws(s[s.len() - 1]));
    }
}

/// Where `c` occurs, `last_index` names its last occurrence.
pub proof fn lemma_last_index(s: Seq<char>, c: char)
    requires
        has_char(s, c),
    ensures
        last_index(s, c) matches Some(i) && 0 <= i < s.len() && s[i] == c && forall|j: int|
            i < j < s.len() ==> s[j] != c,
    decreases s.len(),
{
    let n = s.len() as int;
    if s[n - 1] == c {
        assert(forall|j: int| n - 1 < j < n ==> s[j] != c);
    } else {
        let t = s.drop_last();
        assert(has_char(t, c)) by {
            let k = choose|k: int| 0 <= k < s.len() && s[k] == c;
            assert(t[k] == c);
        }
        lemma_last_index(t, c);
        let i = last_index(t, c)->0;
        assert(s[i] == c);
        assert forall|j: int| i < j < n implies s[j] != c by {
            if j < n - 1 {
                assert(s[j] == t[j]);
            }
        }
    }
}

pub proof fn lemma_lower_idempotent(s: Seq<char>)
    ensures
        lower_seq(lower_seq(s)) == lower_seq(s),
{
    assert(lower_seq(lower_seq(s)) =~= lower_seq(s));
}

// ------------------------------------------------------ exec: conversion

/// `String::push`: appends the character to the end of the string, as
/// std documents it.
#[verifier::external_body]
fn string_push(s: &mut String, c: char)
    ensures
        final(s)@ == old(s)@.push(c),
{
    s.push(c);
}

/// The characters of a string, in order.
pub fn chars_of(s: &str) -> (v: Vec<char>)
    ensures
        v@ == s@,
{
    let mut v: Vec<char> = Vec::new();
    let mut it = s.chars();
    loop
        invariant
            v@ + it.remaining() == s@,
        decreases s@.len() - v@.len(),
    {
        match it.next() {
            Some(c) => {
                v.push(c);
            },
            None => {
                return v;
            },
        }
    }
}

/// A string holding exactly these characters.
pub fn string_of(v: &[char]) -> (s: String)
    ensures
        s@ == v@,
{
    let mut s = String::new();
    let mut i: usize = 0;
    while i < v.len()
        invariant
            i <= v@.len(),
            s@ == v@.subrange(0, i as int),
        decreases v@.len() - i,
    {
        string_push(&mut s, v[i]);
        i = i + 1;
        assert(s@ =~= v@.subrange(0, i as int));
    }
    assert(v@.subrange(0, v@.len() as int) =~= v@);
    s
}

// ------------------------------------------------------ exec: sequences

/// Copy of `v[from..to]`.
pub fn slice_of(v: &[char], from: usize, to: usize) -> (r: Vec<char>)
    requires
        from <= to <= v@.len(),
    ensures
        r@ == v@.subrange(from as int, to as int),
{
    let mut r: Vec<char> = Vec::new();
    let mut i = from;
    while i < to
        invariant
            from <= i <= to <= v@.len(),
            r@ == v@.subrange(from as int, i as int),
        decreases to - i,
    {
        r.push(v[i]);
        i = i + 1;
        assert(r@ =~= v@.subrange(from as int, i as int));
    }
    r
}

/// A copy.
pub fn copy_of(v: &[char]) -> (r: Vec<char>)
    ensures
        r@ == v@,
{
    let r = slice_of(v, 0, v.len());
    assert(r@ =~= v@);
    r
}

/// Concatenation.
pub fn concat(a: &[char], b: &[char]) -> (r: Vec<char>)
    ensures
        r@ == a@ + b@,
{
    let mut r = slice_of(a, 0, a.len());
    let mut i: usize = 0;
    assert(r@ =~= a@);
    while i < b.len()
        invariant
            i <= b@.len(),
            r@ == a@ + b@.subrange(0, i as int),
        decreases b@.len() - i,
    {
        r.push(b[i]);
        i = i + 1;
        assert(r@ =~= a@ + b@.subrange(0, i as int));
    }
    assert(b@.subrange(0, b@.len() as int) =~= b@);
    r
}

pub fn seq_eq(a: &[char], b: &[char]) -> (r: bool)
    ensures
        r == (a@ == b@),
{
    if a.len() != b.len() {
        return false;
    }
    let mut i: usize = 0;
    while i < a.len()
        invariant
            a@.len() == b@.len(),
            i <= a@.len(),
            forall|j: int| 0 <= j < i ==> a@[j] == b@[j],
        decreases a@.len() - i,
    {
        if a[i] != b[i] {
            return false;
        }
        i = i + 1;
    }
    assert(a@ =~= b@);
    true
}

pub fn lower_of(v: &[char]) -> (r: Vec<char>)
    ensures
        r@ == lower_seq(v@),
{
    let mut r: Vec<char> = Vec::new();
    let mut i: usize = 0;
    while i < v.len()
        invariant
            i <= v@.len(),
            r@ == lower_seq(v@.subrange(0, i as int)),
        decreases v@.len() - i,
    {
        r.push(to_lower(v[i]));
        i = i + 1;
        assert(r@ =~= lower_seq(v@.subrange(0, i as int)));
    }
    assert(v@.subrange(0, v@.len() as int) =~= v@);
    r
}

pub fn eq_ignore_case(a: &[char], b: &[char]) -> (r: bool)
    ensures
        r == (lower_seq(a@) == lower_seq(b@)),
{
    let la = lower_of(a);
    let lb = lower_of(b);
    seq_eq(&la, &lb)
}

pub fn trim_bounds(v: &[char]) -> (r: (usize, usize))
    ensures
        r.0 <= r.1 <= v@.len(),
        trim(v@) == v@.subrange(r.0 as int, r.1 as int),
{
    let n = v.len();
    let mut i: usize = 0;
    assert(v@.subrange(0, n as int) =~= v@);
    while i < n && is_whitespace(v[i])
        invariant
            i <= n == v@.len(),
            trim_start(v@) == trim_start(v@.subrange(i as int, n as int)),
        decreases n - i,
    {
        assert(v@.subrange(i as int, n as int).drop_first() =~= v@.subrange(i + 1, n as int));
        i = i + 1;
    }
    assert(trim_start(v@.subrange(i as int, n as int)) == v@.subrange(i as int, n as int));
    let mut j: usize = n;
    while j > i && is_whitespace(v[j - 1])
        invariant
            i <= j <= n == v@.len(),
            trim(v@) == trim_end(v@.subrange(i as int, j as int)),
        decreases j,
    {
        assert(v@.subrange(i as int, j as int).drop_last() =~= v@.subrange(i as int, j - 1));
        j = j - 1;
    }
    (i, j)
}

/// `str::trim` as characters.
pub fn trimmed(v: &[char]) -> (r: Vec<char>)
    ensures
        r@ == trim(v@),
{
    let (i, j) = trim_bounds(v);
    slice_of(v, i, j)
}

pub fn has_whitespace(v: &[char]) -> (r: bool)
    ensures
        r == has_ws(v@),
{
    let mut i: usize = 0;
    while i < v.len()
        invariant
            i <= v@.len(),
            forall|j: int| 0 <= j < i ==> !is_ws(#[trigger] v@[j]),
        decreases v@.len() - i,
    {
        if is_whitespace(v[i]) {
            return true;
        }
        i = i + 1;
    }
    false
}

pub fn contains_char(v: &[char], c: char) -> (r: bool)
    ensures
        r == has_char(v@, c),
{
    let mut i: usize = 0;
    while i < v.len()
        invariant
            i <= v@.len(),
            forall|j: int| 0 <= j < i ==> v@[j] != c,
        decreases v@.len() - i,
    {
        if v[i] == c {
            return true;
        }
        i = i + 1;
    }
    false
}

pub fn find_char(v: &[char], c: char) -> (r: Option<usize>)
    ensures
        r matches Some(i) ==> i < v@.len() && first_index(v@, c) == Some(i as int),
        r is None ==> first_index(v@, c) is None,
{
    let mut i: usize = 0;
    while i < v.len()
        invariant
            i <= v@.len(),
            forall|j: int| 0 <= j < i ==> v@[j] != c,
        decreases v@.len() - i,
    {
        if v[i] == c {
            proof {
                let k = choose|k: int|
                    0 <= k < v@.len() && v@[k] == c && forall|j: int| 0 <= j < k ==> v@[j] != c;
                assert(v@[i as int] == c);
                if k < i {
                } else if k > i {
                    assert(v@[i as int] != c);
                }
            }
            return Some(i);
        }
        i = i + 1;
    }
    None
}

pub fn rfind_char(v: &[char], c: char) -> (r: Option<usize>)
    ensures
        r matches Some(i) ==> i < v@.len() && last_index(v@, c) == Some(i as int),
        r is None ==> last_index(v@, c) is None,
{
    let mut i: usize = v.len();
    while i > 0
        invariant
            i <= v@.len(),
            forall|j: int| i <= j < v@.len() ==> v@[j] != c,
        decreases i,
    {
        if v[i - 1] == c {
            proof {
                let k = choose|k: int|
                    0 <= k < v@.len() && v@[k] == c && forall|j: int| k < j < v@.len() ==> v@[j] != c;
                assert(v@[i - 1] == c);
                if k < i - 1 {
                    assert(v@[i - 1] != c);
                }
            }
            return Some(i - 1);
        }
        i = i - 1;
    }
    None
}

pub fn split_once_char(v: &[char], c: char) -> (r: Option<(Vec<char>, Vec<char>)>)
    ensures
        r matches Some(p) ==> split_once(v@, c) == Some((p.0@, p.1@)),
        r is None ==> split_once(v@, c) is None,
{
    let n = v.len();
    match find_char(v, c) {
        Some(i) => Some((slice_of(v, 0, i), slice_of(v, i + 1, n))),
        None => None,
    }
}

pub fn rsplit_once_char(v: &[char], c: char) -> (r: Option<(Vec<char>, Vec<char>)>)
    ensures
        r matches Some(p) ==> rsplit_once(v@, c) == Some((p.0@, p.1@)),
        r is None ==> rsplit_once(v@, c) is None,
{
    let n = v.len();
    match rfind_char(v, c) {
        Some(i) => Some((slice_of(v, 0, i), slice_of(v, i + 1, n))),
        None => None,
    }
}

pub fn starts_with_seq(v: &[char], p: &[char]) -> (r: bool)
    ensures
        r == starts_with(v@, p@),
{
    if p.len() > v.len() {
        return false;
    }
    let mut i: usize = 0;
    while i < p.len()
        invariant
            p@.len() <= v@.len(),
            i <= p@.len(),
            forall|j: int| 0 <= j < i ==> v@[j] == p@[j],
        decreases p@.len() - i,
    {
        if v[i] != p[i] {
            assert(v@.subrange(0, p@.len() as int)[i as int] != p@[i as int]);
            return false;
        }
        i = i + 1;
    }
    assert(v@.subrange(0, p@.len() as int) =~= p@);
    true
}

pub fn occurs_at_exec(v: &[char], p: &[char], at: usize) -> (r: bool)
    ensures
        r == occurs_at(v@, p@, at as int),
{
    let n = v.len();
    if at > n || p.len() > n - at {
        return false;
    }
    let mut i: usize = 0;
    while i < p.len()
        invariant
            n == v@.len(),
            at + p@.len() <= n,
            i <= p@.len(),
            forall|j: int| 0 <= j < i ==> v@[at + j] == p@[j],
        decreases p@.len() - i,
    {
        if v[at + i] != p[i] {
            assert(v@.subrange(at as int, at + p@.len())[i as int] != p@[i as int]);
            return false;
        }
        i = i + 1;
    }
    assert(v@.subrange(at as int, at + p@.len()) =~= p@);
    true
}

/// `str::ends_with` on characters.
pub fn ends_with_seq(v: &[char], p: &[char]) -> (r: bool)
    ensures
        r == ends_with(v@, p@),
{
    if p.len() > v.len() {
        return false;
    }
    occurs_at_exec(v, p, v.len() - p.len())
}

pub fn contains_seq(v: &[char], p: &[char]) -> (r: bool)
    ensures
        r == contains(v@, p@),
{
    if p.len() > v.len() {
        return false;
    }
    let last = v.len() - p.len();
    let mut at: usize = 0;
    loop
        invariant
            last == v@.len() - p@.len(),
            at <= last,
            forall|j: int| 0 <= j < at ==> !occurs_at(v@, p@, j),
        decreases last - at,
    {
        if occurs_at_exec(v, p, at) {
            return true;
        }
        if at == last {
            assert forall|j: int| #![auto] !occurs_at(v@, p@, j) by {
                if j > last {
                }
            }
            return false;
        }
        at = at + 1;
    }
}

pub open spec fn line_ok(o: Seq<Seq<char>>, ps: Seq<Seq<char>>, k: int) -> bool {
    o[k] == line_of(ps[k]) && ps[k].len() > 0 && ps[k].last() == '\n'
}

/// The completed lines `o` are the lines of the first `o.len()` pieces of
/// `ps`, each of which ended in a newline.
pub open spec fn closed_lines(o: Seq<Seq<char>>, ps: Seq<Seq<char>>) -> bool {
    forall|k: int| 0 <= k < o.len() ==> #[trigger] line_ok(o, ps, k)
}

/// `str::lines` as characters.
pub fn lines_of(v: &[char]) -> (r: Vec<Vec<char>>)
    ensures
        r.deep_view() == lines(v@),
{
    let mut out: Vec<Vec<char>> = Vec::new();
    let mut cur: Vec<char> = Vec::new();
    let mut i: usize = 0;
    while i < v.len()
        invariant
            i <= v@.len(),
            out.deep_view().len() + (if cur@.len() > 0 { 1int } else { 0int }) == pieces(
                v@.subrange(0, i as int),
            ).len(),
            closed_lines(out.deep_view(), pieces(v@.subrange(0, i as int))),
            cur@.len() > 0 ==> pieces(v@.subrange(0, i as int)).last() == cur@,
            cur@.len() == 0 ==> pieces(v@.subrange(0, i as int)).len() == out.deep_view().len(),
            forall|k: int| 0 <= k < cur@.len() ==> cur@[k] != '\n',
        decreases v@.len() - i,
    {
        let c = v[i];
        let ghost ps = pieces(v@.subrange(0, i as int));
        let ghost ps2 = pieces(v@.subrange(0, i + 1));
        assert(v@.subrange(0, i + 1).drop_last() =~= v@.subrange(0, i as int));
        assert(v@.subrange(0, i + 1).last() == c);
        let ghost old_out = out.deep_view();
        proof {
            if cur@.len() == 0 && ps.len() > 0 {
                assert(line_ok(out.deep_view(), ps, ps.len() - 1));
            }
        }
        if c == '\n' {
            let mut line = slice_of(&cur, 0, cur.len());
            proof {
                if cur@.len() > 0 {
                    assert(ps.last().last() != '\n');
                    assert(ps2 == ps.update(ps.len() - 1, cur@.push(c)));
                } else {
                    assert(ps2 == ps.push(seq![c]));
                    assert(cur@.push(c) =~= seq![c]);
                }
                assert(cur@.push(c).drop_last() =~= cur@);
            }
            let n = line.len();
            if n > 0 && line[n - 1] == '\r' {
                line.truncate(n - 1);
                assert(line@ =~= cur@.drop_last());
            } else {
                assert(line@ =~= cur@);
            }
            let ghost lv = line@;
            assert(line_of(cur@.push(c)) == lv);
            assert(ps2[old_out.len() as int] == cur@.push(c));
            out.push(line);
            cur = Vec::new();
            proof {
                assert(out.deep_view()[old_out.len() as int] == lv);
                assert forall|k: int| 0 <= k < out.deep_view().len() implies #[trigger] line_ok(out.deep_view(), ps2, k) by {
                    if k < old_out.len() {
                        assert(line_ok(old_out, ps, k));
                        assert(out.deep_view()[k] == old_out[k]);
                        assert(ps2[k] == ps[k]);
                    }
                }
            }
        } else {
            assert(closed_lines(old_out, ps));
            proof {
                if cur@.len() > 0 {
                    assert(ps.last().last() != '\n');
                    assert(ps2 == ps.update(ps.len() - 1, cur@.push(c)));
                } else {
                    assert(ps2 == ps.push(seq![c]));
                    assert(cur@.push(c) =~= seq![c]);
                }
            }
            cur.push(c);
            assert(out.deep_view() == old_out);
            proof {
                assert forall|k: int| 0 <= k < old_out.len() implies #[trigger] line_ok(old_out, ps2, k) by {
                    assert(line_ok(old_out, ps, k));
                    if cur@.len() > 1 {
                        assert(k < ps.len() - 1);
                    }
                    assert(ps2[k] == ps[k]);
                }
                assert(closed_lines(old_out, ps2));
            }
        }
        i = i + 1;
    }
    let ghost ps = pieces(v@.subrange(0, i as int));
    assert(v@.subrange(0, i as int) =~= v@);
    let ghost old_out = out.deep_view();
    if cur.len() > 0 {
        proof {
            assert(cur@.last() != '\n');
        }
        let ghost cv = cur@;
        assert(line_of(cv) == cv);
        out.push(cur);
        assert(out.deep_view()[old_out.len() as int] == cv);
    }
    assert forall|k: int| 0 <= k < ps.len() implies #[trigger] lines(v@)[k] == out.deep_view()[k] by {
        if k < old_out.len() {
            assert(out.deep_view()[k] == old_out[k]);
            assert(line_ok(old_out, ps, k));
        }
    }
    assert(out.deep_view() =~= lines(v@));
    out
}

/// `split_whitespace` joined with single spaces.
pub fn squashed(v: &[char]) -> (r: Vec<char>)
    ensures
        r@ == squash(v@),
{
    let mut r: Vec<char> = Vec::new();
    let mut i: usize = 0;
    let mut nwords: usize = 0;
    while i < v.len()
        invariant
            i <= v@.len(),
            r@ == squash(v@.subrange(0, i as int)),
            nwords == words(v@.subrange(0, i as int)).len(),
            nwords <= i,
        decreases v@.len() - i,
    {
        let c = v[i];
        let ghost p = v@.subrange(0, i as int);
        let ghost q = v@.subrange(0, i + 1);
        assert(q.drop_last() =~= p);
        assert(q.last() == c);
        if is_whitespace(c) {
        } else if i > 0 && !is_whitespace(v[i - 1]) {
            proof {
                assert(p.last() == v@[i - 1]);
                lemma_words_nonempty(p);
                lemma_join_extend_last(words(p), c, seq![' ']);
            }
            r.push(c);
        } else {
            proof {
                lemma_join_push(words(p), seq![c], seq![' ']);
            }
            if nwords > 0 {
                r.push(' ');
            }
            r.push(c);
            nwords = nwords + 1;
            proof {
                if words(p).len() == 0 {
                    assert(r@ =~= seq![c]);
                } else {
                    assert(r@ =~= squash(p) + seq![' '] + seq![c]);
                }
            }
        }
        i = i + 1;
    }
    assert(v@.subrange(0, v@.len() as int) =~= v@);
    r
}


/// `v` spells exactly the literal `lit`.
pub fn is_literal(v: &[char], lit: &str) -> (r: bool)
    ensures
        r == (v@ == lit@),
{
    let l = chars_of(lit);
    seq_eq(v, &l)
}

/// The characters `String::from_utf8_lossy` makes of a byte string.
pub uninterp spec fn utf8_lossy(bytes: Seq<u8>) -> Seq<char>;

/// `String::from_utf8_lossy`, as characters: valid UTF-8 decoded, each
/// invalid sequence replaced by U+FFFD. On valid UTF-8 the result is the
/// decoded text (the documentation: a valid slice comes back borrowed, as
/// it is); what the replacements make of invalid input is named rather
/// than stated, and depends on the bytes alone.
#[verifier::external_body]
pub(crate) fn lossy_chars(bytes: &[u8]) -> (r: Vec<char>)
    ensures
        r@ == utf8_lossy(bytes@),
        vstd::utf8::valid_utf8(bytes@) ==> r@ == vstd::utf8::decode_utf8(bytes@),
{
    String::from_utf8_lossy(bytes).chars().collect()
}


/// The character of a decimal digit.
pub open spec fn digit_char(d: int) -> char {
    if d == 0 { '0' } else if d == 1 { '1' } else if d == 2 { '2' } else if d == 3 { '3' }
    else if d == 4 { '4' } else if d == 5 { '5' } else if d == 6 { '6' } else if d == 7 { '7' }
    else if d == 8 { '8' } else { '9' }
}

/// The decimal digits of `n`, most significant first, without leading
/// zeros (`0` is one digit).
pub open spec fn digits(n: nat) -> Seq<char>
    decreases n,
{
    if n < 10 {
        seq![digit_char(n as int)]
    } else {
        digits(n / 10).push(digit_char((n % 10) as int))
    }
}

/// `n` as `Display` writes an integer: a minus sign, then the digits.
pub open spec fn decimal(n: int) -> Seq<char> {
    if n < 0 {
        seq!['-'] + digits((-n) as nat)
    } else {
        digits(n as nat)
    }
}

fn digit_of(d: u64) -> (c: char)
    requires
        d < 10,
    ensures
        c == digit_char(d as int),
{
    if d == 0 { '0' } else if d == 1 { '1' } else if d == 2 { '2' } else if d == 3 { '3' }
    else if d == 4 { '4' } else if d == 5 { '5' } else if d == 6 { '6' } else if d == 7 { '7' }
    else if d == 8 { '8' } else { '9' }
}

pub fn digits_of(n: u64) -> (r: Vec<char>)
    ensures
        r@ == digits(n as nat),
    decreases n,
{
    if n < 10 {
        let mut v: Vec<char> = Vec::new();
        v.push(digit_of(n));
        assert(v@ =~= seq![digit_char(n as int)]);
        v
    } else {
        let mut v = digits_of(n / 10);
        v.push(digit_of(n % 10));
        v
    }
}

/// The decimal text of a signed integer.
pub fn decimal_of(n: i64) -> (r: Vec<char>)
    ensures
        r@ == decimal(n as int),
{
    if n < 0 {
        let magnitude: u64 = ((-(n + 1)) as u64) + 1;
        let d = digits_of(magnitude);
        let mut v: Vec<char> = Vec::new();
        v.push('-');
        assert(v@ =~= seq!['-']);
        concat(&v, &d)
    } else {
        digits_of(n as u64)
    }
}


/// `str::split` on one character: the runs between its occurrences, so
/// `n` occurrences give `n + 1` pieces (an empty input is one empty piece).
pub open spec fn split(s: Seq<char>, c: char) -> Seq<Seq<char>>
    decreases s.len(),
{
    if s.len() == 0 {
        seq![Seq::empty()]
    } else {
        let f = split(s.drop_last(), c);
        if s.last() == c {
            f.push(Seq::empty())
        } else {
            f.update(f.len() - 1, f.last().push(s.last()))
        }
    }
}

/// Views of a list of character vectors.
pub open spec fn views(v: Seq<Vec<char>>) -> Seq<Seq<char>> {
    v.map_values(|x: Vec<char>| x@)
}

/// `str::split` on one character, as characters.
pub fn split_char(v: &[char], c: char) -> (r: Vec<Vec<char>>)
    ensures
        views(r@) == split(v@, c),
{
    let mut out: Vec<Vec<char>> = Vec::new();
    let mut cur: Vec<char> = Vec::new();
    let mut i: usize = 0;
    while i < v.len()
        invariant
            i <= v@.len(),
            views(out@).push(cur@) == split(v@.subrange(0, i as int), c),
        decreases v@.len() - i,
    {
        let x = v[i];
        let ghost prev = views(out@).push(cur@);
        assert(v@.subrange(0, i + 1).drop_last() =~= v@.subrange(0, i as int));
        if x == c {
            let done = cur;
            out.push(done);
            cur = Vec::new();
            assert(views(out@).push(cur@) =~= prev.push(Seq::empty()));
        } else {
            cur.push(x);
            assert(views(out@).push(cur@) =~= prev.update(prev.len() - 1, prev.last().push(x)));
        }
        i = i + 1;
    }
    assert(v@.subrange(0, v@.len() as int) =~= v@);
    out.push(cur);
    out
}

/// `str::trim_end_matches` on one character: every trailing `c` removed.
pub open spec fn strip_end(s: Seq<char>, c: char) -> Seq<char>
    decreases s.len(),
{
    if s.len() > 0 && s.last() == c {
        strip_end(s.drop_last(), c)
    } else {
        s
    }
}

/// What `strip_end` leaves never ends in the character it strips.
pub proof fn lemma_strip_end_shape(s: Seq<char>, c: char)
    ensures
        strip_end(s, c).len() > 0 ==> strip_end(s, c).last() != c,
    decreases s.len(),
{
    if s.len() > 0 && s.last() == c {
        lemma_strip_end_shape(s.drop_last(), c);
    }
}

/// A split always has a piece, no piece holds the separator, and a text
/// that does not end in the separator ends in a nonempty piece.
pub proof fn lemma_split_pieces(s: Seq<char>, c: char)
    ensures
        split(s, c).len() >= 1,
        forall|i: int| 0 <= i < split(s, c).len() ==> !(#[trigger] split(s, c)[i]).contains(c),
        s.len() > 0 && s.last() != c ==> split(s, c).last().len() > 0,
    decreases s.len(),
{
    if s.len() > 0 {
        let p = s.drop_last();
        lemma_split_pieces(p, c);
        let f = split(p, c);
        let r = split(s, c);
        if s.last() == c {
            assert forall|i: int| 0 <= i < r.len() implies !(#[trigger] r[i]).contains(c) by {
                if i < f.len() {
                    assert(r[i] == f[i]);
                } else {
                    assert(r[i] =~= Seq::<char>::empty());
                }
            }
        } else {
            let g = f.last().push(s.last());
            assert forall|i: int| 0 <= i < r.len() implies !(#[trigger] r[i]).contains(c) by {
                if i < f.len() - 1 {
                    assert(r[i] == f[i]);
                } else {
                    assert(r[i] == g);
                    assert(!f[f.len() - 1].contains(c));
                    assert forall|k: int| 0 <= k < g.len() implies g[k] != c by {
                        if k < f.last().len() {
                            assert(g[k] == f.last()[k]);
                        }
                    }
                }
            }
        }
    }
}

/// A text free of the separator splits into itself alone.
pub proof fn lemma_split_free(s: Seq<char>, c: char)
    requires
        !s.contains(c),
    ensures
        split(s, c) == seq![s],
    decreases s.len(),
{
    if s.len() > 0 {
        let p = s.drop_last();
        assert(!p.contains(c)) by {
            if p.contains(c) {
                let i = choose|i: int| 0 <= i < p.len() && p[i] == c;
                assert(s[i] == c);
            }
        }
        lemma_split_free(p, c);
        assert(s[s.len() - 1] == s.last());
        assert(p.push(s.last()) =~= s);
        assert(split(s, c) =~= seq![s]);
    } else {
        assert(s =~= Seq::<char>::empty());
    }
}

/// Splitting at a separator between two texts splits each of them.
pub proof fn lemma_split_concat(a: Seq<char>, b: Seq<char>, c: char)
    ensures
        split(a + seq![c] + b, c) == split(a, c) + split(b, c),
    decreases b.len(),
{
    let s = a + seq![c] + b;
    if b.len() == 0 {
        assert(s.drop_last() =~= a);
        assert(split(s, c) =~= split(a, c) + split(b, c));
    } else {
        let b2 = b.drop_last();
        lemma_split_concat(a, b2, c);
        assert(s.drop_last() =~= a + seq![c] + b2);
        assert(s.last() == b.last());
        lemma_split_pieces(b2, c);
        assert(split(s, c) =~= split(a, c) + split(b, c));
    }
}

/// Pieces free of the separator, joined by it, split back into themselves.
pub proof fn lemma_split_join(parts: Seq<Seq<char>>, c: char)
    requires
        parts.len() >= 1,
        forall|i: int| 0 <= i < parts.len() ==> !(#[trigger] parts[i]).contains(c),
    ensures
        split(join(parts, seq![c]), c) == parts,
    decreases parts.len(),
{
    if parts.len() == 1 {
        lemma_split_free(parts[0], c);
        assert(seq![parts[0]] =~= parts);
    } else {
        let q = parts.drop_last();
        assert forall|i: int| 0 <= i < q.len() implies !(#[trigger] q[i]).contains(c) by {
            assert(q[i] == parts[i]);
        }
        lemma_split_join(q, c);
        lemma_split_concat(join(q, seq![c]), parts.last(), c);
        assert(!parts[parts.len() - 1].contains(c));
        lemma_split_free(parts.last(), c);
        assert(parts =~= q + seq![parts.last()]);
    }
}

/// Lowercasing keeps every piece of a split on a character that is not a
/// letter: the split of the lowercased text is the lowercased pieces.
pub proof fn lemma_split_lower(s: Seq<char>, c: char)
    requires
        !('A' <= c && c <= 'Z'),
        !('a' <= c && c <= 'z'),
    ensures
        split(lower_seq(s), c) == split(s, c).map_values(|p: Seq<char>| lower_seq(p)),
    decreases s.len(),
{
    if s.len() > 0 {
        let p = s.drop_last();
        lemma_split_lower(p, c);
        assert(lower_seq(s).drop_last() =~= lower_seq(p));
        assert(lower_seq(s).last() == lower(s.last()));
        lemma_split_pieces(p, c);
        let f = split(p, c);
        if s.last() == c {
            assert(lower_seq(Seq::<char>::empty()) =~= Seq::<char>::empty());
            assert(split(lower_seq(s), c) =~= split(s, c).map_values(|p: Seq<char>| lower_seq(p)));
        } else {
            assert(lower(s.last()) != c);
            assert(lower_seq(f.last().push(s.last())) =~= lower_seq(f.last()).push(lower(s.last())));
            assert(split(lower_seq(s), c) =~= split(s, c).map_values(|p: Seq<char>| lower_seq(p)));
        }
    } else {
        assert(lower_seq(s) =~= s);
        assert(lower_seq(Seq::<char>::empty()) =~= Seq::<char>::empty());
        assert(split(lower_seq(s), c) =~= split(s, c).map_values(|p: Seq<char>| lower_seq(p)));
    }
}

/// Joining lowercased pieces with a separator lowercasing keeps is
/// lowercasing the joined text.
pub proof fn lemma_join_lower(parts: Seq<Seq<char>>, sep: Seq<char>)
    requires
        lower_seq(sep) == sep,
    ensures
        join(parts.map_values(|p: Seq<char>| lower_seq(p)), sep) == lower_seq(join(parts, sep)),
    decreases parts.len(),
{
    let m = parts.map_values(|p: Seq<char>| lower_seq(p));
    if parts.len() == 0 {
        assert(lower_seq(Seq::<char>::empty()) =~= Seq::<char>::empty());
    } else if parts.len() == 1 {
    } else {
        let q = parts.drop_last();
        lemma_join_lower(q, sep);
        assert(m.drop_last() =~= q.map_values(|p: Seq<char>| lower_seq(p)));
        assert(lower_seq(join(q, sep) + sep + parts.last()) =~= lower_seq(join(q, sep)) + lower_seq(sep)
            + lower_seq(parts.last()));
    }
}

/// A join whose last piece is nonempty ends with that piece's last
/// character.
pub proof fn lemma_join_last(parts: Seq<Seq<char>>, sep: Seq<char>)
    requires
        parts.len() >= 1,
        parts.last().len() > 0,
    ensures
        join(parts, sep).len() > 0,
        join(parts, sep).last() == parts.last().last(),
{
    if parts.len() >= 2 {
        let x = join(parts.drop_last(), sep) + sep;
        assert(join(parts, sep) == x + parts.last());
        assert((x + parts.last())[x.len() + parts.last().len() - 1] == parts.last()[parts.last().len() - 1]);
    }
}

/// `str::trim_end_matches` on one character, as characters.
pub fn stripped_end(v: &[char], c: char) -> (r: Vec<char>)
    ensures
        r@ == strip_end(v@, c),
{
    let mut j: usize = v.len();
    assert(v@.subrange(0, j as int) =~= v@);
    while j > 0 && v[j - 1] == c
        invariant
            j <= v@.len(),
            strip_end(v@, c) == strip_end(v@.subrange(0, j as int), c),
        decreases j,
    {
        assert(v@.subrange(0, j as int).drop_last() =~= v@.subrange(0, j - 1));
        j = j - 1;
    }
    slice_of(v, 0, j)
}

/// `str::trim_start` as characters.
pub fn trimmed_start(v: &[char]) -> (r: Vec<char>)
    ensures
        r@ == trim_start(v@),
{
    let n = v.len();
    let mut i: usize = 0;
    assert(v@.subrange(0, n as int) =~= v@);
    while i < n && is_whitespace(v[i])
        invariant
            i <= n == v@.len(),
            trim_start(v@) == trim_start(v@.subrange(i as int, n as int)),
        decreases n - i,
    {
        assert(v@.subrange(i as int, n as int).drop_first() =~= v@.subrange(i + 1, n as int));
        i = i + 1;
    }
    slice_of(v, i, n)
}

/// `parts` joined with `sep`, as characters.
pub fn join_with(parts: &[Vec<char>], sep: &[char]) -> (r: Vec<char>)
    ensures
        r@ == join(views(parts@), sep@),
{
    let mut acc: Vec<char> = Vec::new();
    let mut i: usize = 0;
    while i < parts.len()
        invariant
            i <= parts@.len(),
            acc@ == join(views(parts@.subrange(0, i as int)), sep@),
        decreases parts@.len() - i,
    {
        let ghost before = views(parts@.subrange(0, i as int));
        assert(views(parts@.subrange(0, i + 1)) =~= before.push(parts@[i as int]@));
        proof {
            lemma_join_push(before, parts@[i as int]@, sep@);
        }
        if i == 0 {
            acc = slice_of(&parts[i], 0, parts[i].len());
        } else {
            let with_sep = concat(&acc, sep);
            acc = concat(&with_sep, &parts[i]);
        }
        i = i + 1;
    }
    assert(parts@.subrange(0, parts@.len() as int) =~= parts@);
    acc
}

/// `v` begins with `lit`, ignoring ASCII case (the comparison of
/// `s.len() >= n && s[..n].eq_ignore_ascii_case(lit)` with `n` the length
/// of `lit`, where the cut falls on a character boundary).
pub open spec fn starts_ci(v: Seq<char>, lit: Seq<char>) -> bool {
    v.len() >= lit.len() && lower_seq(v.take(lit.len() as int)) == lower_seq(lit)
}

/// `starts_ci` as a test.
pub fn starts_with_ci(v: &[char], lit: &str) -> (r: bool)
    ensures
        r == starts_ci(v@, lit@),
{
    let l = chars_of(lit);
    if v.len() < l.len() {
        return false;
    }
    let head = slice_of(v, 0, l.len());
    assert(head@ =~= v@.take(l@.len() as int));
    eq_ignore_case(&head, &l)
}

/// Taking the first `n` bytes of the string of `s` (`&s[..n]`, after a
/// test that it has at least `n`) cannot panic: it is shorter than that,
/// or byte `n` starts a character.
pub open spec fn cut_ok(s: Seq<char>, n: int) -> bool {
    vstd::utf8::encode_utf8(s).len() < n || vstd::utf8::is_char_boundary(
        vstd::utf8::encode_utf8(s),
        n,
    )
}


/// A comma-separated list: each piece trimmed, blanks dropped.
pub open spec fn comma_list_spec(raw: Seq<char>) -> Seq<Seq<char>> {
    split(raw, ',').map_values(|u: Seq<char>| trim(u)).filter(|u: Seq<char>| u.len() > 0)
}

/// Read a comma-separated list, as [`comma_list_spec`] says.
pub fn comma_list(raw: &str) -> (r: Vec<String>)
    ensures
        r@.map_values(|s: String| s@) == comma_list_spec(raw@),
{
    let c = chars_of(raw);
    let pieces = split_char(&c, ',');
    let ghost pv = views(pieces@);
    let ghost trimmed_all = pv.map_values(|u: Seq<char>| trim(u));
    let mut out: Vec<String> = Vec::new();
    let mut i: usize = 0;
    while i < pieces.len()
        invariant
            i <= pieces@.len(),
            pv == views(pieces@),
            pv == split(raw@, ','),
            trimmed_all == pv.map_values(|u: Seq<char>| trim(u)),
            out@.map_values(|s: String| s@) == trimmed_all.take(i as int).filter(|u: Seq<char>| u.len() > 0),
        decreases pieces@.len() - i,
    {
        proof {
            reveal(Seq::filter);
        }
        let t = trimmed(&pieces[i]);
        assert(trimmed_all.take(i + 1).drop_last() =~= trimmed_all.take(i as int));
        assert(trimmed_all.take(i + 1).last() == t@);
        if t.len() > 0 {
            let ghost before = out@.map_values(|s: String| s@);
            out.push(string_of(&t));
            assert(out@.map_values(|s: String| s@) =~= before.push(t@));
        }
        i = i + 1;
    }
    assert(trimmed_all.take(pieces@.len() as int) =~= trimmed_all);
    out
}


/// Whether the first `n` bytes of the UTF-8 of `s` end between two
/// characters, reading from the front.
pub open spec fn boundary_front(s: Seq<char>, n: int) -> bool
    decreases s.len(),
{
    if n == 0 {
        true
    } else if n < 0 || s.len() == 0 {
        false
    } else {
        boundary_front(s.drop_first(), n - utf8_width(s[0]))
    }
}

proof fn lemma_width_encodes(c: char)
    ensures
        vstd::utf8::encode_scalar(c as u32).len() == utf8_width(c),
{
    vstd::utf8::char_is_scalar(c);
}

proof fn lemma_encode_front(s: Seq<char>)
    requires
        s.len() > 0,
    ensures
        vstd::utf8::encode_utf8(s).len() == utf8_width(s[0]) + vstd::utf8::encode_utf8(
            s.drop_first(),
        ).len(),
        vstd::utf8::valid_utf8(vstd::utf8::encode_utf8(s)),
        vstd::utf8::length_of_first_scalar(vstd::utf8::encode_utf8(s)) == utf8_width(s[0]),
        vstd::utf8::pop_first_scalar(vstd::utf8::encode_utf8(s)) == vstd::utf8::encode_utf8(
            s.drop_first(),
        ),
{
    lemma_width_encodes(s[0]);
    vstd::utf8::encode_utf8_first_scalar(s);
    vstd::utf8::encode_utf8_valid_utf8(s);
    let bytes = vstd::utf8::encode_utf8(s);
    let head = vstd::utf8::encode_scalar(s[0] as u32);
    assert(bytes == head + vstd::utf8::encode_utf8(s.drop_first()));
    assert(vstd::utf8::pop_first_scalar(bytes) =~= vstd::utf8::encode_utf8(s.drop_first()));
}

#[verifier::spinoff_prover]
proof fn lemma_boundary_front(s: Seq<char>, n: int)
    requires
        n >= 0,
    ensures
        vstd::utf8::is_char_boundary(vstd::utf8::encode_utf8(s), n) == boundary_front(s, n),
    decreases s.len(),
{
    let bytes = vstd::utf8::encode_utf8(s);
    vstd::utf8::encode_utf8_valid_utf8(s);
    if n == 0 {
    } else if s.len() == 0 {
        assert(bytes =~= Seq::<u8>::empty());
        assert(!vstd::utf8::is_char_boundary(bytes, n));
    } else {
        lemma_encode_front(s);
        let w = utf8_width(s[0]);
        if bytes.len() < n {
            assert(!vstd::utf8::is_char_boundary(bytes, n));
            if n - w >= 0 {
                lemma_boundary_front(s.drop_first(), n - w);
                vstd::utf8::encode_utf8_valid_utf8(s.drop_first());
                assert(!vstd::utf8::is_char_boundary(vstd::utf8::encode_utf8(s.drop_first()), n - w));
            }
        } else {
            assert(vstd::utf8::is_char_boundary(bytes, n) == vstd::utf8::is_char_boundary(
                vstd::utf8::pop_first_scalar(bytes),
                n - vstd::utf8::length_of_first_scalar(bytes),
            ));
            if n - w >= 0 {
                lemma_boundary_front(s.drop_first(), n - w);
            } else {
                assert(!boundary_front(s.drop_first(), n - w));
            }
        }
    }
}

/// Whether `cut_ok(s, n)` holds, read from the front: the string is
/// shorter than `n` bytes, or byte `n` starts a character.
pub fn cut_ok_at(v: &[char], n: usize) -> (r: bool)
    ensures
        r == cut_ok(v@, n as int),
{
    let mut rem: usize = n;
    let mut i: usize = 0;
    proof {
        lemma_boundary_front(v@, n as int);
        assert(v@.skip(0) =~= v@);
    }
    while i < v.len()
        invariant
            i <= v@.len(),
            rem <= n,
            cut_ok(v@, n as int) == (vstd::utf8::encode_utf8(v@.skip(i as int)).len() < rem
                || boundary_front(v@.skip(i as int), rem as int)),
        decreases v@.len() - i,
    {
        if rem == 0 {
            return true;
        }
        let ghost rest = v@.skip(i as int);
        proof {
            lemma_encode_front(rest);
            assert(rest.drop_first() =~= v@.skip(i + 1));
            assert(rest[0] == v@[i as int]);
        }
        let w = utf8_width_of(v[i]);
        if w as usize > rem {
            assert(!boundary_front(rest.drop_first(), rem - w));
            assert(!boundary_front(rest, rem as int));
            return false;
        }
        rem = rem - w as usize;
        i = i + 1;
    }
    proof {
        assert(v@.skip(i as int) =~= Seq::<char>::empty());
        assert(vstd::utf8::encode_utf8(v@.skip(i as int)) =~= Seq::<u8>::empty());
    }
    true
}

/// A copy of an optional string.
pub fn clone_opt(v: &Option<String>) -> (r: Option<String>)
    ensures
        r.deep_view() == v.deep_view(),
{
    match v {
        Some(s) => Some(s.clone()),
        None => None,
    }
}


/// The value of an ASCII digit.
pub open spec fn digit_value(c: char) -> int {
    (c as u32) - 48
}

/// The value of a run of ASCII digits.
pub open spec fn digits_value(s: Seq<char>) -> int
    decreases s.len(),
{
    if s.len() == 0 {
        0
    } else {
        digits_value(s.drop_last()) * 10 + digit_value(s.last())
    }
}

pub open spec fn all_digits(s: Seq<char>) -> bool {
    forall|i: int| 0 <= i < s.len() ==> #[trigger] is_digit(s[i])
}

/// `str::parse::<i64>`: an optional `+` or `-`, then at least one ASCII
/// digit and nothing else, within the range of `i64`.
pub open spec fn parse_int(s: Seq<char>) -> Option<i64> {
    let neg = s.len() > 0 && s[0] == '-';
    let body = if s.len() > 0 && (s[0] == '-' || s[0] == '+') {
        s.drop_first()
    } else {
        s
    };
    if body.len() == 0 || !all_digits(body) {
        None
    } else {
        let v = if neg {
            -digits_value(body)
        } else {
            digits_value(body)
        };
        if i64::MIN <= v <= i64::MAX {
            Some(v as i64)
        } else {
            None
        }
    }
}

proof fn lemma_digits_value_grows(s: Seq<char>, k: int)
    requires
        all_digits(s),
        0 <= k <= s.len(),
    ensures
        digits_value(s.take(k)) <= digits_value(s),
        0 <= digits_value(s.take(k)),
    decreases s.len(),
{
    if s.len() > 0 {
        assert(is_digit(s[s.len() - 1]));
        if k == s.len() {
            assert(s.take(k) =~= s);
            lemma_digits_value_grows(s.drop_last(), k - 1);
            assert(s.drop_last().take(k - 1) =~= s.drop_last());
        } else {
            assert(s.drop_last().take(k) =~= s.take(k));
            assert forall|i: int| 0 <= i < s.drop_last().len() implies #[trigger] is_digit(
                s.drop_last()[i],
            ) by {
                assert(is_digit(s[i]));
            }
            lemma_digits_value_grows(s.drop_last(), k);
            lemma_digits_value_grows(s.drop_last(), s.len() - 1);
            assert(s.drop_last().take(s.len() - 1) =~= s.drop_last());
        }
    }
}

/// `str::parse::<i64>` as characters.
pub fn parse_i64(v: &[char]) -> (r: Option<i64>)
    ensures
        r == parse_int(v@),
{
    let n = v.len();
    let neg = n > 0 && v[0] == '-';
    let start: usize = if n > 0 && (v[0] == '-' || v[0] == '+') { 1 } else { 0 };
    let ghost body = if n > 0 && (v@[0] == '-' || v@[0] == '+') {
        v@.drop_first()
    } else {
        v@
    };
    assert(body =~= v@.subrange(start as int, n as int));
    if start == n {
        return None;
    }
    let limit: u64 = 0x8000_0000_0000_0000;
    let mut acc: u64 = 0;
    let mut i: usize = start;
    while i < n
        invariant
            start <= i <= n == v@.len(),
            body == v@.subrange(start as int, n as int),
            body == (if v@.len() > 0 && (v@[0] == '-' || v@[0] == '+') {
                v@.drop_first()
            } else {
                v@
            }),
            neg == (v@.len() > 0 && v@[0] == '-'),
            start < n,
            limit == 0x8000_0000_0000_0000u64,
            acc <= limit,
            acc == digits_value(body.take(i - start)),
            forall|j: int| 0 <= j < i - start ==> #[trigger] is_digit(body[j]),
        decreases n - i,
    {
        let c = v[i];
        if !('0' <= c && c <= '9') {
            assert(!is_digit(body[i - start]));
            return None;
        }
        assert(body.take(i - start + 1).drop_last() =~= body.take(i - start));
        assert(body.take(i - start + 1).last() == c);
        let d: u64 = ((c as u32) - 48) as u64;
        if acc > (limit - d) / 10 {
            proof {
                assert forall|j: int| 0 <= j < i - start + 1 implies #[trigger] is_digit(
                    body.take(i - start + 1)[j],
                ) by {
                    assert(body.take(i - start + 1)[j] == body[j]);
                }
                assert(acc * 10 + d > limit) by (nonlinear_arith)
                    requires
                        acc > (limit - d) / 10,
                        d <= 9,
                        limit == 0x8000_0000_0000_0000u64,
                ;
                if all_digits(body) {
                    lemma_digits_value_grows(body, i - start + 1);
                }
            }
            return None;
        }
        proof {
            assert(acc * 10 + d <= limit) by (nonlinear_arith)
                requires
                    acc <= (limit - d) / 10,
                    d <= 9,
                    limit == 0x8000_0000_0000_0000u64,
            ;
        }
        acc = acc * 10 + d;
        i = i + 1;
    }
    assert(body.take(n - start) =~= body);
    if neg {
        if acc == limit {
            return Some(i64::MIN);
        }
        Some(-(acc as i64))
    } else {
        if acc == limit {
            return None;
        }
        Some(acc as i64)
    }
}


/// `str::parse` for an unsigned integer type whose largest value is `max`:
/// an optional `+`, then at least one ASCII digit and nothing else, with
/// a value no larger than `max`.
pub open spec fn parse_uint(s: Seq<char>, max: int) -> Option<int> {
    let body = if s.len() > 0 && s[0] == '+' {
        s.drop_first()
    } else {
        s
    };
    if body.len() == 0 || !all_digits(body) || digits_value(body) > max {
        None
    } else {
        Some(digits_value(body))
    }
}

/// `str::parse::<u64>` as characters.
pub fn parse_u64(v: &[char]) -> (r: Option<u64>)
    ensures
        parse_uint(v@, u64::MAX as int) == match r {
            Some(x) => Some(x as int),
            None => None,
        },
{
    let n = v.len();
    let start: usize = if n > 0 && v[0] == '+' { 1 } else { 0 };
    let ghost body = if n > 0 && v@[0] == '+' {
        v@.drop_first()
    } else {
        v@
    };
    assert(body =~= v@.subrange(start as int, n as int));
    if start == n {
        return None;
    }
    let mut acc: u64 = 0;
    let mut i: usize = start;
    while i < n
        invariant
            start <= i <= n == v@.len(),
            start < n,
            body == v@.subrange(start as int, n as int),
            body == (if v@.len() > 0 && v@[0] == '+' {
                v@.drop_first()
            } else {
                v@
            }),
            acc == digits_value(body.take(i - start)),
            forall|j: int| 0 <= j < i - start ==> #[trigger] is_digit(body[j]),
        decreases n - i,
    {
        let c = v[i];
        if !('0' <= c && c <= '9') {
            assert(!is_digit(body[i - start]));
            return None;
        }
        assert(body.take(i - start + 1).drop_last() =~= body.take(i - start));
        assert(body.take(i - start + 1).last() == c);
        let d: u64 = ((c as u32) - 48) as u64;
        if acc > (u64::MAX - d) / 10 {
            proof {
                assert forall|j: int| 0 <= j < i - start + 1 implies #[trigger] is_digit(
                    body.take(i - start + 1)[j],
                ) by {
                    assert(body.take(i - start + 1)[j] == body[j]);
                }
                assert(acc * 10 + d > u64::MAX) by (nonlinear_arith)
                    requires
                        acc > (u64::MAX - d) / 10,
                        d <= 9,
                ;
                if all_digits(body) {
                    lemma_digits_value_grows(body, i - start + 1);
                }
            }
            return None;
        }
        proof {
            assert(acc * 10 + d <= u64::MAX) by (nonlinear_arith)
                requires
                    acc <= (u64::MAX - d) / 10,
                    d <= 9,
            ;
        }
        acc = acc * 10 + d;
        i = i + 1;
    }
    assert(body.take(n - start) =~= body);
    Some(acc)
}

/// The number of bytes UTF-8 spends on `c`.
pub open spec fn utf8_width(c: char) -> int {
    if (c as u32) < 0x80 {
        1
    } else if (c as u32) < 0x800 {
        2
    } else if (c as u32) < 0x10000 {
        3
    } else {
        4
    }
}

/// The length of `s` in UTF-8 bytes.
pub open spec fn utf8_len(s: Seq<char>) -> int
    decreases s.len(),
{
    if s.len() == 0 {
        0
    } else {
        utf8_len(s.drop_last()) + utf8_width(s.last())
    }
}

pub fn utf8_width_of(c: char) -> (w: u64)
    ensures
        w == utf8_width(c),
{
    let u = c as u32;
    if u < 0x80 {
        1
    } else if u < 0x800 {
        2
    } else if u < 0x10000 {
        3
    } else {
        4
    }
}

proof fn lemma_utf8_len_grows(s: Seq<char>, k: int)
    requires
        0 <= k <= s.len(),
    ensures
        0 <= utf8_len(s.take(k)) <= utf8_len(s),
    decreases s.len(),
{
    if s.len() > 0 {
        if k == s.len() {
            assert(s.take(k) =~= s);
            lemma_utf8_len_grows(s.drop_last(), k - 1);
        } else {
            assert(s.drop_last().take(k) =~= s.take(k));
            lemma_utf8_len_grows(s.drop_last(), k);
        }
    }
}

/// Is `v` shorter than `n` bytes in UTF-8?
pub fn utf8_len_below(v: &[char], n: u64) -> (r: bool)
    ensures
        r == (utf8_len(v@) < n),
{
    if n == 0 {
        proof {
            lemma_utf8_len_grows(v@, 0);
        }
        return false;
    }
    let mut acc: u64 = 0;
    let mut i: usize = 0;
    while i < v.len()
        invariant
            i <= v@.len(),
            acc == utf8_len(v@.take(i as int)),
            acc < n,
        decreases v@.len() - i,
    {
        assert(v@.take(i + 1).drop_last() =~= v@.take(i as int));
        assert(v@.take(i + 1).last() == v@[i as int]);
        let w = utf8_width_of(v[i]);
        if w >= n - acc {
            proof {
                lemma_utf8_len_grows(v@, i + 1);
            }
            return false;
        }
        acc = acc + w;
        i = i + 1;
    }
    assert(v@.take(v@.len() as int) =~= v@);
    true
}

} // verus!
