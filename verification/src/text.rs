//! Character-sequence utilities: searching, trimming, splitting and
//! comparing the text that queries and raw log lines are made of.
//!
//! Executable code works on `Vec<char>`; the specification level works on
//! `Seq<char>` views of those vectors.

use vstd::prelude::*;
use vstd::string::*;

verus! {

/// Result of a three-way comparison.
#[derive(Clone, Copy, PartialEq, Eq, Structural, Debug)]
pub enum Cmp {
    Lt,
    Eq,
    Gt,
}

/// Whether a character counts as blank, by the Unicode `White_Space` property.
pub uninterp spec fn uni_ws(c: char) -> bool;

/// Relies on char::is_whitespace: true exactly for Unicode `White_Space`
/// characters; the ASCII blanks are among them, and visible ASCII is not.
#[verifier::external_body]
pub(crate) fn is_ws(c: char) -> (r: bool)
    ensures
        r == uni_ws(c),
        c == ' ' || c == '\t' || c == '\n' || c == '\r' ==> r,
        '!' <= c && c <= '~' ==> !r,
{
    c.is_whitespace()
}

/// What str::to_lowercase returns for the given characters.
pub uninterp spec fn lower_of(s: Seq<char>) -> Seq<char>;

/// Relies on str::to_lowercase: the result is a function of the characters
/// alone, and an empty input yields an empty result.
#[verifier::external_body]
pub(crate) fn to_lower_chars(s: &Vec<char>) -> (r: Vec<char>)
    ensures
        r@ == lower_of(s@),
        s@.len() == 0 ==> r@.len() == 0,
{
    let owned: String = s.iter().collect();
    owned.to_lowercase().chars().collect()
}

/// Relies on collecting an iterator of characters into a String: the string
/// holds exactly the given characters.
#[verifier::external_body]
pub(crate) fn chars_to_string(v: &Vec<char>) -> (r: String)
    ensures
        r@ == v@,
{
    v.iter().collect()
}

/// The characters of a string slice, as a vector.
pub fn str_to_chars(s: &str) -> (r: Vec<char>)
    ensures
        r@ == s@,
{
    let n = s.unicode_len();
    let mut r: Vec<char> = Vec::new();
    let mut i: usize = 0;
    while i < n
        invariant
            n == s@.len(),
            i <= n,
            r@ == s@.subrange(0, i as int),
        decreases n - i,
    {
        let c = s.get_char(i);
        r.push(c);
        proof {
            assert(s@.subrange(0, (i + 1) as int) =~= s@.subrange(0, i as int).push(s@[i as int]));
        }
        i = i + 1;
    }
    proof {
        assert(s@.subrange(0, n as int) =~= s@);
    }
    r
}

/// A copy of a character vector.
pub(crate) fn copy_vec(v: &Vec<char>) -> (r: Vec<char>)
    ensures
        r@ == v@,
{
    let mut r: Vec<char> = Vec::new();
    let mut i: usize = 0;
    while i < v.len()
        invariant
            i <= v@.len(),
            r@ == v@.subrange(0, i as int),
        decreases v@.len() - i,
    {
        r.push(v[i]);
        proof {
            assert(v@.subrange(0, (i + 1) as int) =~= v@.subrange(0, i as int).push(v@[i as int]));
        }
        i = i + 1;
    }
    proof {
        assert(v@.subrange(0, v@.len() as int) =~= v@);
    }
    r
}

/// The characters of `v` from `lo` (inclusive) to `hi` (exclusive).
pub(crate) fn sub_vec(v: &Vec<char>, lo: usize, hi: usize) -> (r: Vec<char>)
    requires
        lo <= hi && hi <= v@.len(),
    ensures
        r@ == v@.subrange(lo as int, hi as int),
{
    let mut r: Vec<char> = Vec::new();
    let mut i: usize = lo;
    while i < hi
        invariant
            lo <= i && i <= hi && hi <= v@.len(),
            r@ == v@.subrange(lo as int, i as int),
        decreases hi - i,
    {
        r.push(v[i]);
        proof {
            assert(v@.subrange(lo as int, (i + 1) as int)
                =~= v@.subrange(lo as int, i as int).push(v@[i as int]));
        }
        i = i + 1;
    }
    r
}

/// The needle `n` occurs in `h` starting at position `i`.
pub open spec fn match_at(h: Seq<char>, n: Seq<char>, i: int) -> bool {
    0 <= i && i + n.len() <= h.len() && h.subrange(i, i + n.len() as int) == n
}

/// The needle `n` occurs somewhere in `h`.
pub open spec fn has_sub(h: Seq<char>, n: Seq<char>) -> bool {
    exists|i: int| match_at(h, n, i)
}

/// The first position at or after `from` where `n` occurs in `h`.
pub open spec fn find_from(h: Seq<char>, n: Seq<char>, from: int) -> Option<int>
    decreases h.len() - from,
{
    if from < 0 || from + n.len() > h.len() {
        None
    } else if n.len() == 0 {
        Some(from)
    } else if match_at(h, n, from) {
        Some(from)
    } else {
        find_from(h, n, from + 1)
    }
}

pub proof fn lemma_match_at_empty(h: Seq<char>, n: Seq<char>, i: int)
    requires
        n.len() == 0,
        0 <= i && i <= h.len(),
    ensures
        match_at(h, n, i),
{
    assert(h.subrange(i, i) =~= n);
}

pub proof fn lemma_find_from_bounds(h: Seq<char>, n: Seq<char>, from: int)
    ensures
        match find_from(h, n, from) {
            Some(i) => from <= i && i + n.len() <= h.len() && match_at(h, n, i),
            None => true,
        },
    decreases h.len() - from,
{
    if from < 0 || from + n.len() > h.len() {
    } else if n.len() == 0 {
        lemma_match_at_empty(h, n, from);
    } else if match_at(h, n, from) {
    } else {
        lemma_find_from_bounds(h, n, from + 1);
    }
}

pub proof fn lemma_find_from_complete(h: Seq<char>, n: Seq<char>, from: int)
    requires
        from >= 0,
    ensures
        match find_from(h, n, from) {
            Some(i) => forall|j: int| from <= j < i ==> !match_at(h, n, j),
            None => forall|j: int| from <= j ==> !match_at(h, n, j),
        },
    decreases h.len() - from,
{
    if from + n.len() > h.len() {
    } else if n.len() == 0 {
    } else if match_at(h, n, from) {
    } else {
        lemma_find_from_complete(h, n, from + 1);
    }
}

/// Whether `n@` occurs in `h@` at position `i`.
pub(crate) fn is_match_at(h: &Vec<char>, n: &Vec<char>, i: usize) -> (r: bool)
    requires
        i + n@.len() <= h@.len(),
    ensures
        r == match_at(h@, n@, i as int),
{
    let hl = h.len();
    let mut j: usize = 0;
    while j < n.len()
        invariant
            i + n@.len() <= h@.len(),
            hl == h@.len(),
            j <= n@.len(),
            forall|k: int| 0 <= k < j ==> h@[i + k] == n@[k],
        decreases n@.len() - j,
    {
        if h[i + j] != n[j] {
            proof {
                assert(!match_at(h@, n@, i as int)) by {
                    if match_at(h@, n@, i as int) {
                        assert(h@.subrange(i as int, i + n@.len())[j as int] == n@[j as int]);
                    }
                }
            }
            return false;
        }
        j = j + 1;
    }
    proof {
        assert(h@.subrange(i as int, i + n@.len()) =~= n@);
    }
    true
}

/// The first position at or after `from` where `n@` occurs in `h@`.
pub(crate) fn find_sub(h: &Vec<char>, n: &Vec<char>, from: usize) -> (r: Option<usize>)
    ensures
        match r {
            Some(i) => find_from(h@, n@, from as int) == Some(i as int),
            None => find_from(h@, n@, from as int) is None,
        },
    decreases h@.len() - from,
{
    if from > h.len() || n.len() > h.len() - from {
        None
    } else if n.len() == 0 {
        Some(from)
    } else if is_match_at(h, n, from) {
        Some(from)
    } else {
        find_sub(h, n, from + 1)
    }
}

/// Whether `n@` occurs anywhere in `h@`.
pub(crate) fn contains_sub(h: &Vec<char>, n: &Vec<char>) -> (r: bool)
    ensures
        r == has_sub(h@, n@),
{
    proof {
        lemma_find_from_bounds(h@, n@, 0);
        lemma_find_from_complete(h@, n@, 0);
    }
    match find_sub(h, n, 0) {
        Some(_) => true,
        None => false,
    }
}

/// `s` with leading blank characters removed.
pub open spec fn trim_start_spec(s: Seq<char>) -> Seq<char>
    decreases s.len(),
{
    if s.len() > 0 && uni_ws(s[0]) {
        trim_start_spec(s.skip(1))
    } else {
        s
    }
}

/// `s` with trailing blank characters removed.
pub open spec fn trim_end_spec(s: Seq<char>) -> Seq<char>
    decreases s.len(),
{
    if s.len() > 0 && uni_ws(s[s.len() - 1]) {
        trim_end_spec(s.take(s.len() - 1))
    } else {
        s
    }
}

/// `s` with blank characters removed from both ends.
pub open spec fn trim_spec(s: Seq<char>) -> Seq<char> {
    trim_end_spec(trim_start_spec(s))
}

/// `v@` with blank characters removed from both ends.
pub(crate) fn trim_chars(v: &Vec<char>) -> (r: Vec<char>)
    ensures
        r@ == trim_spec(v@),
{
    proof {
        assert(v@.skip(0) =~= v@);
    }
    let mut lo: usize = 0;
    while lo < v.len() && is_ws(v[lo])
        invariant
            lo <= v@.len(),
            trim_start_spec(v@) == trim_start_spec(v@.skip(lo as int)),
        decreases v@.len() - lo,
    {
        proof {
            assert(v@.skip(lo as int).skip(1) =~= v@.skip((lo + 1) as int));
        }
        lo = lo + 1;
    }
    let ghost t = v@.skip(lo as int);
    proof {
        if lo < v@.len() {
            assert(trim_start_spec(t) == t);
        } else {
            assert(t =~= Seq::<char>::empty());
        }
        assert(trim_start_spec(v@) == t);
        assert(t.take((v@.len() - lo) as int) =~= t);
    }
    let mut hi: usize = v.len();
    while hi > lo && is_ws(v[hi - 1])
        invariant
            lo <= hi && hi <= v@.len(),
            t == v@.skip(lo as int),
            trim_end_spec(t) == trim_end_spec(t.take((hi - lo) as int)),
        decreases hi,
    {
        proof {
            let m = (hi - lo) as int;
            assert(t.take(m)[m - 1] == v@[hi - 1]);
            assert(t.take(m).take(m - 1) =~= t.take(m - 1));
        }
        hi = hi - 1;
    }
    proof {
        let m = (hi - lo) as int;
        if hi > lo {
            assert(t.take(m)[m - 1] == v@[hi - 1]);
            assert(trim_end_spec(t.take(m)) == t.take(m));
        } else {
            assert(t.take(0) =~= Seq::<char>::empty());
        }
        assert(trim_spec(v@) == t.take(m));
        assert(t.take(m) =~= v@.subrange(lo as int, hi as int));
    }
    sub_vec(v, lo, hi)
}

/// A quote character, as accepted around operands.
pub open spec fn is_quote(c: char) -> bool {
    c == '"' || c == '\''
}

/// `s` with leading quote characters removed.
pub open spec fn qtrim_start_spec(s: Seq<char>) -> Seq<char>
    decreases s.len(),
{
    if s.len() > 0 && is_quote(s[0]) {
        qtrim_start_spec(s.skip(1))
    } else {
        s
    }
}

/// `s` with trailing quote characters removed.
pub open spec fn qtrim_end_spec(s: Seq<char>) -> Seq<char>
    decreases s.len(),
{
    if s.len() > 0 && is_quote(s[s.len() - 1]) {
        qtrim_end_spec(s.take(s.len() - 1))
    } else {
        s
    }
}

/// `s` trimmed of blanks, then of surrounding quote characters: how every
/// operand literal is cleaned before use.
pub open spec fn unquote_spec(s: Seq<char>) -> Seq<char> {
    qtrim_end_spec(qtrim_start_spec(trim_spec(s)))
}

/// `v@` trimmed of blanks, then of surrounding quote characters.
pub(crate) fn unquote_chars(v: &Vec<char>) -> (r: Vec<char>)
    ensures
        r@ == unquote_spec(v@),
{
    let t = trim_chars(v);
    proof {
        assert(t@.skip(0) =~= t@);
    }
    let mut lo: usize = 0;
    while lo < t.len() && (t[lo] == '"' || t[lo] == '\'')
        invariant
            lo <= t@.len(),
            qtrim_start_spec(t@) == qtrim_start_spec(t@.skip(lo as int)),
        decreases t@.len() - lo,
    {
        proof {
            assert(t@.skip(lo as int).skip(1) =~= t@.skip((lo + 1) as int));
        }
        lo = lo + 1;
    }
    let ghost q = t@.skip(lo as int);
    proof {
        if lo < t@.len() {
            assert(qtrim_start_spec(q) == q);
        } else {
            assert(q =~= Seq::<char>::empty());
        }
        assert(qtrim_start_spec(t@) == q);
        assert(q.take((t@.len() - lo) as int) =~= q);
    }
    let mut hi: usize = t.len();
    while hi > lo && (t[hi - 1] == '"' || t[hi - 1] == '\'')
        invariant
            lo <= hi && hi <= t@.len(),
            q == t@.skip(lo as int),
            qtrim_end_spec(q) == qtrim_end_spec(q.take((hi - lo) as int)),
        decreases hi,
    {
        proof {
            let m = (hi - lo) as int;
            assert(q.take(m)[m - 1] == t@[hi - 1]);
            assert(q.take(m).take(m - 1) =~= q.take(m - 1));
        }
        hi = hi - 1;
    }
    proof {
        let m = (hi - lo) as int;
        if hi > lo {
            assert(q.take(m)[m - 1] == t@[hi - 1]);
            assert(qtrim_end_spec(q.take(m)) == q.take(m));
        } else {
            assert(q.take(0) =~= Seq::<char>::empty());
        }
        assert(unquote_spec(v@) == q.take(m));
        assert(q.take(m) =~= t@.subrange(lo as int, hi as int));
    }
    sub_vec(&t, lo, hi)
}

/// `s` begins with `p`.
pub open spec fn starts_with(s: Seq<char>, p: Seq<char>) -> bool {
    match_at(s, p, 0)
}

/// `s` ends with `p`.
pub open spec fn ends_with(s: Seq<char>, p: Seq<char>) -> bool {
    match_at(s, p, s.len() - p.len())
}

/// Whether `v@` begins with `p@`.
pub(crate) fn starts_with_chars(v: &Vec<char>, p: &Vec<char>) -> (r: bool)
    ensures
        r == starts_with(v@, p@),
{
    if p.len() > v.len() {
        false
    } else {
        is_match_at(v, p, 0)
    }
}

/// Whether `v@` ends with `p@`.
pub(crate) fn ends_with_chars(v: &Vec<char>, p: &Vec<char>) -> (r: bool)
    ensures
        r == ends_with(v@, p@),
{
    if p.len() > v.len() {
        false
    } else {
        is_match_at(v, p, v.len() - p.len())
    }
}

/// Whether `a@` and `b@` are the same characters.
pub(crate) fn chars_eq(a: &Vec<char>, b: &Vec<char>) -> (r: bool)
    ensures
        r == (a@ == b@),
{
    if a.len() != b.len() {
        false
    } else {
        let m = is_match_at(a, b, 0);
        proof {
            assert(a@.subrange(0, b@.len() as int) =~= a@);
        }
        m
    }
}

/// Lexicographic comparison of character sequences by code point; on UTF-8
/// encoded text this order agrees with the byte-wise order of `str`.
pub open spec fn lex_cmp_spec(a: Seq<char>, b: Seq<char>) -> Cmp
    decreases a.len(),
{
    if a.len() == 0 && b.len() == 0 {
        Cmp::Eq
    } else if a.len() == 0 {
        Cmp::Lt
    } else if b.len() == 0 {
        Cmp::Gt
    } else if a[0] < b[0] {
        Cmp::Lt
    } else if b[0] < a[0] {
        Cmp::Gt
    } else {
        lex_cmp_spec(a.skip(1), b.skip(1))
    }
}

pub proof fn lemma_lex_cmp_eq(a: Seq<char>, b: Seq<char>)
    ensures
        (lex_cmp_spec(a, b) == Cmp::Eq) <==> (a == b),
    decreases a.len(),
{
    if a.len() == 0 && b.len() == 0 {
        assert(a =~= b);
    } else if a.len() == 0 || b.len() == 0 {
    } else if a[0] < b[0] || b[0] < a[0] {
        assert(a != b) by {
            if a == b {
                assert(a[0] == b[0]);
            }
        }
    } else {
        lemma_lex_cmp_eq(a.skip(1), b.skip(1));
        if lex_cmp_spec(a, b) == Cmp::Eq {
            assert(a =~= seq![a[0]] + a.skip(1));
            assert(b =~= seq![b[0]] + b.skip(1));
        } else {
            if a == b {
                assert(a.skip(1) =~= b.skip(1));
            }
        }
    }
}

pub proof fn lemma_lex_cmp_antisym(a: Seq<char>, b: Seq<char>)
    ensures
        (lex_cmp_spec(a, b) == Cmp::Lt) <==> (lex_cmp_spec(b, a) == Cmp::Gt),
        (lex_cmp_spec(a, b) == Cmp::Eq) <==> (lex_cmp_spec(b, a) == Cmp::Eq),
    decreases a.len(),
{
    if a.len() == 0 && b.len() == 0 {
    } else if a.len() == 0 || b.len() == 0 {
    } else if a[0] < b[0] || b[0] < a[0] {
    } else {
        lemma_lex_cmp_antisym(a.skip(1), b.skip(1));
    }
}

fn lex_cmp_at(a: &Vec<char>, b: &Vec<char>, i: usize) -> (r: Cmp)
    requires
        i <= a@.len(),
        i <= b@.len(),
    ensures
        r == lex_cmp_spec(a@.skip(i as int), b@.skip(i as int)),
    decreases a@.len() - i,
{
    if i == a.len() && i == b.len() {
        Cmp::Eq
    } else if i == a.len() {
        Cmp::Lt
    } else if i == b.len() {
        Cmp::Gt
    } else if a[i] < b[i] {
        Cmp::Lt
    } else if b[i] < a[i] {
        Cmp::Gt
    } else {
        proof {
            assert(a@.skip(i as int).skip(1) =~= a@.skip((i + 1) as int));
            assert(b@.skip(i as int).skip(1) =~= b@.skip((i + 1) as int));
        }
        lex_cmp_at(a, b, i + 1)
    }
}

/// Lexicographic comparison of `a@` and `b@`.
pub(crate) fn lex_cmp(a: &Vec<char>, b: &Vec<char>) -> (r: Cmp)
    ensures
        r == lex_cmp_spec(a@, b@),
{
    let r = lex_cmp_at(a, b, 0);
    proof {
        assert(a@.skip(0) =~= a@);
        assert(b@.skip(0) =~= b@);
    }
    r
}

/// `s` with every occurrence of `from` replaced by `to`, scanning left to
/// right and never rescanning replaced text.
pub open spec fn replace_spec(s: Seq<char>, from: Seq<char>, to: Seq<char>) -> Seq<char>
    decreases s.len(),
{
    if from.len() == 0 || s.len() == 0 {
        s
    } else if match_at(s, from, 0) {
        to + replace_spec(s.skip(from.len() as int), from, to)
    } else {
        seq![s[0]] + replace_spec(s.skip(1), from, to)
    }
}

fn replace_from_idx(s: &Vec<char>, i: usize, from: &Vec<char>, to: &Vec<char>) -> (r: Vec<char>)
    requires
        from@.len() > 0,
        i <= s@.len(),
    ensures
        r@ == replace_spec(s@.skip(i as int), from@, to@),
    decreases s@.len() - i,
{
    let ghost rest0 = s@.skip(i as int);
    if i == s.len() {
        proof {
            assert(rest0 =~= Seq::<char>::empty());
        }
        Vec::new()
    } else if from.len() <= s.len() - i && is_match_at(s, from, i) {
        proof {
            assert(rest0.subrange(0, from@.len() as int)
                =~= s@.subrange(i as int, i + from@.len()));
            assert(match_at(rest0, from@, 0));
        }
        let mut r = copy_vec(to);
        let mut rest = replace_from_idx(s, i + from.len(), from, to);
        r.append(&mut rest);
        proof {
            assert(rest0.skip(from@.len() as int) =~= s@.skip((i + from@.len()) as int));
        }
        r
    } else {
        proof {
            assert(!match_at(rest0, from@, 0)) by {
                if match_at(rest0, from@, 0) {
                    assert(s@.subrange(i as int, i + from@.len())
                        =~= rest0.subrange(0, from@.len() as int));
                    assert(match_at(s@, from@, i as int));
                }
            }
        }
        let mut r: Vec<char> = Vec::new();
        r.push(s[i]);
        let mut rest = replace_from_idx(s, i + 1, from, to);
        r.append(&mut rest);
        proof {
            assert(rest0.skip(1) =~= s@.skip((i + 1) as int));
            assert(rest0[0] == s@[i as int]);
            assert(r@ =~= seq![rest0[0]] + replace_spec(rest0.skip(1), from@, to@));
        }
        r
    }
}

/// `s@` with every occurrence of `from@` replaced by `to@`.
pub(crate) fn replace_chars(s: &Vec<char>, from: &Vec<char>, to: &Vec<char>) -> (r: Vec<char>)
    requires
        from@.len() > 0,
    ensures
        r@ == replace_spec(s@, from@, to@),
{
    let r = replace_from_idx(s, 0, from, to);
    proof {
        assert(s@.skip(0) =~= s@);
    }
    r
}

/// The first position at or after `from` holding the character `c`.
pub open spec fn char_find(s: Seq<char>, c: char, from: int) -> Option<int>
    decreases s.len() - from,
{
    if from < 0 || from >= s.len() {
        None
    } else if s[from] == c {
        Some(from)
    } else {
        char_find(s, c, from + 1)
    }
}

/// What splitting at the first occurrence of `c` yields: the text before it
/// and the text after it, without the separator itself.
pub open spec fn split_once_spec(s: Seq<char>, c: char) -> Option<(Seq<char>, Seq<char>)> {
    match char_find(s, c, 0) {
        Some(i) => Some((s.subrange(0, i), s.subrange(i + 1, s.len() as int))),
        None => None,
    }
}

fn char_find_str(s: &str, c: char, from: usize, n: usize) -> (r: Option<usize>)
    requires
        n == s@.len(),
        from <= n,
    ensures
        match r {
            Some(i) => char_find(s@, c, from as int) == Some(i as int) && from <= i && i < n,
            None => char_find(s@, c, from as int) is None,
        },
    decreases n - from,
{
    if from == n {
        None
    } else if s.get_char(from) == c {
        Some(from)
    } else {
        char_find_str(s, c, from + 1, n)
    }
}

/// Splits `s` at the first occurrence of `delimiter`, which is dropped;
/// `None` when the delimiter does not occur.
pub fn split_once_char<'a>(s: &'a str, delimiter: char) -> (r: Option<(&'a str, &'a str)>)
    ensures
        match r {
            Some(parts) => split_once_spec(s@, delimiter) == Some((parts.0@, parts.1@)),
            None => split_once_spec(s@, delimiter) is None,
        },
{
    let n = s.unicode_len();
    match char_find_str(s, delimiter, 0, n) {
        Some(i) => {
            let a = s.substring_char(0, i);
            let b = s.substring_char(i + 1, n);
            Some((a, b))
        },
        None => None,
    }
}

/// The content of the first double-quoted span in `s`, and the rest of `s`
/// after the closing quote with leading blanks removed.
pub open spec fn extract_quoted_spec(s: Seq<char>) -> Option<(Seq<char>, Seq<char>)> {
    match char_find(s, '"', 0) {
        Some(i) => match char_find(s, '"', i + 1) {
            Some(j) => Some(
                (s.subrange(i + 1, j), trim_start_spec(s.subrange(j + 1, s.len() as int))),
            ),
            None => None,
        },
        None => None,
    }
}

/// Extracts the first double-quoted span of `s`: its content, and the rest of
/// the text after it with leading blanks removed.
pub fn extract_quoted<'a>(s: &'a str) -> (r: Option<(&'a str, &'a str)>)
    ensures
        match r {
            Some(parts) => extract_quoted_spec(s@) == Some((parts.0@, parts.1@)),
            None => extract_quoted_spec(s@) is None,
        },
{
    let n = s.unicode_len();
    match char_find_str(s, '"', 0, n) {
        Some(i) => {
            match char_find_str(s, '"', i + 1, n) {
                Some(j) => {
                    let content = s.substring_char(i + 1, j);
                    let ghost tail = s@.subrange(j + 1, s@.len() as int);
                    let mut k: usize = j + 1;
                    while k < n && is_ws(s.get_char(k))
                        invariant
                            n == s@.len(),
                            j + 1 <= k && k <= n,
                            tail == s@.subrange(j + 1, s@.len() as int),
                            trim_start_spec(tail) == trim_start_spec(s@.subrange(k as int, n as int)),
                        decreases n - k,
                    {
                        proof {
                            let cur = s@.subrange(k as int, n as int);
                            assert(cur[0] == s@[k as int]);
                            assert(cur.skip(1) =~= s@.subrange((k + 1) as int, n as int));
                        }
                        k = k + 1;
                    }
                    proof {
                        let cur = s@.subrange(k as int, n as int);
                        if k < n {
                            assert(cur[0] == s@[k as int]);
                            assert(trim_start_spec(cur) == cur);
                        } else {
                            assert(cur =~= Seq::<char>::empty());
                        }
                    }
                    let rest = s.substring_char(k, n);
                    Some((content, rest))
                },
                None => None,
            }
        },
        None => None,
    }
}

} // verus!
