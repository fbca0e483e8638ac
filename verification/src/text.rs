//! Character-sequence utilities shared by the protocol and transformer code:
//! substring search, global replacement, trimming and tokenizing, all
//! specified over `Seq<char>`.

use vstd::prelude::*;
use vstd::string::StrSliceExecFns;

verus! {

/// ASCII whitespace, the only whitespace the upstream protocol text uses.
pub open spec fn is_space(c: char) -> bool {
    c == ' ' || c == '\t' || c == '\n' || c == '\r' || c == '\u{c}'
}

/// A decimal digit.
pub open spec fn is_digit_char(c: char) -> bool {
    48 <= c as u32 <= 57
}

/// `s` with its leading run of characters satisfying `p` removed.
pub open spec fn trim_start_by(s: Seq<char>, p: spec_fn(char) -> bool) -> Seq<char>
    decreases s.len(),
{
    if s.len() > 0 && p(s[0]) {
        trim_start_by(s.drop_first(), p)
    } else {
        s
    }
}

/// `s` with its trailing run of characters satisfying `p` removed.
pub open spec fn trim_end_by(s: Seq<char>, p: spec_fn(char) -> bool) -> Seq<char>
    decreases s.len(),
{
    if s.len() > 0 && p(s.last()) {
        trim_end_by(s.drop_last(), p)
    } else {
        s
    }
}

/// `s` with leading and trailing runs of characters satisfying `p` removed.
pub open spec fn trim_by(s: Seq<char>, p: spec_fn(char) -> bool) -> Seq<char> {
    trim_end_by(trim_start_by(s, p), p)
}

/// The longest prefix of `s` free of whitespace.
pub open spec fn take_until_space(s: Seq<char>) -> Seq<char>
    decreases s.len(),
{
    if s.len() == 0 || is_space(s[0]) {
        Seq::empty()
    } else {
        seq![s[0]] + take_until_space(s.drop_first())
    }
}

/// The first whitespace-delimited token of `s`, empty if there is none.
pub open spec fn first_token_spec(s: Seq<char>) -> Seq<char> {
    take_until_space(trim_start_by(s, space_pred()))
}

/// The needle `n` occurs in `h` starting at position `i`.
pub open spec fn match_at(h: Seq<char>, n: Seq<char>, i: int) -> bool {
    0 <= i && i + n.len() <= h.len() && h.subrange(i, i + n.len() as int) == n
}

/// The needle `n` occurs somewhere in `h`.
pub open spec fn contains_seq(h: Seq<char>, n: Seq<char>) -> bool {
    exists|i: int| match_at(h, n, i)
}

/// Every occurrence of `n` in `h` replaced by `r`, scanning left to right
/// without rescanning replacement text, as `str::replace` does.
pub open spec fn replace_all_spec(h: Seq<char>, n: Seq<char>, r: Seq<char>) -> Seq<char>
    decreases h.len(),
{
    if n.len() == 0 || h.len() < n.len() {
        h
    } else if h.subrange(0, n.len() as int) == n {
        r + replace_all_spec(h.skip(n.len() as int), n, r)
    } else {
        seq![h[0]] + replace_all_spec(h.skip(1), n, r)
    }
}

/// Whether `n` occurs in `h` at position `i`, by direct comparison.
pub fn match_at_exec(h: &Vec<char>, n: &Vec<char>, i: usize) -> (r: bool)
    requires
        i + n@.len() <= h@.len(),
    ensures
        r == match_at(h@, n@, i as int),
{
    let hl = h.len();
    let nl = n.len();
    let mut j: usize = 0;
    while j < nl
        invariant
            hl == h@.len(),
            nl == n@.len(),
            0 <= j <= nl,
            i + nl <= hl,
            forall|k: int| 0 <= k < j ==> h@[i + k] == n@[k],
        decreases nl - j,
    {
        if h[i + j] != n[j] {
            assert(h@.subrange(i as int, i + n@.len() as int)[j as int] != n@[j as int]);
            return false;
        }
        j += 1;
    }
    assert(h@.subrange(i as int, i + n@.len() as int) =~= n@);
    true
}

/// First position at which `n` occurs in `h`, if any.
pub fn find_seq(h: &Vec<char>, n: &Vec<char>) -> (r: Option<usize>)
    requires
        n@.len() > 0,
    ensures
        match r {
            Some(i) => match_at(h@, n@, i as int) && forall|j: int|
                0 <= j < i ==> !match_at(h@, n@, j),
            None => !contains_seq(h@, n@),
        },
{
    let hl = h.len();
    let nl = n.len();
    if nl > hl {
        assert(forall|i: int| !match_at(h@, n@, i));
        return None;
    }
    let last = hl - nl;
    let mut i: usize = 0;
    while i <= last
        invariant
            hl == h@.len(),
            nl == n@.len(),
            0 < nl <= hl,
            last == hl - nl,
            0 <= i <= last + 1,
            forall|j: int| 0 <= j < i ==> !match_at(h@, n@, j),
        decreases last + 1 - i,
    {
        if match_at_exec(h, n, i) {
            return Some(i);
        }
        i += 1;
    }
    assert(forall|j: int| j > last ==> !match_at(h@, n@, j));
    None
}

/// `n` occurs at `i` and nowhere earlier.
pub open spec fn first_at(h: Seq<char>, n: Seq<char>, i: int) -> bool {
    match_at(h, n, i) && forall|k: int| 0 <= k < i ==> !match_at(h, n, k)
}

/// `n` occurs at `i` and nowhere earlier than `i` from `from` on.
pub open spec fn first_at_from(h: Seq<char>, n: Seq<char>, from: int, i: int) -> bool {
    match_at(h, n, i) && from <= i && forall|k: int| from <= k < i ==> !match_at(h, n, k)
}

/// A first occurrence is unique.
pub proof fn lemma_first_at_unique(h: Seq<char>, n: Seq<char>, i1: int, i2: int)
    requires
        first_at(h, n, i1),
        first_at(h, n, i2),
    ensures
        i1 == i2,
{
    if i1 < i2 {
        assert(!match_at(h, n, i1));
    }
    if i2 < i1 {
        assert(!match_at(h, n, i2));
    }
}

/// A first occurrence from a point on is unique.
pub proof fn lemma_first_at_from_unique(h: Seq<char>, n: Seq<char>, from: int, i1: int, i2: int)
    requires
        first_at_from(h, n, from, i1),
        first_at_from(h, n, from, i2),
    ensures
        i1 == i2,
{
    if i1 < i2 {
        assert(!match_at(h, n, i1));
    }
    if i2 < i1 {
        assert(!match_at(h, n, i2));
    }
}

/// Matches within a suffix are matches of the whole, shifted.
pub proof fn lemma_match_at_skip(h: Seq<char>, n: Seq<char>, from: int, k: int)
    requires
        0 <= from <= h.len(),
    ensures
        match_at(h.skip(from), n, k) <==> (0 <= k && match_at(h, n, from + k)),
{
    let s = h.skip(from);
    if 0 <= k && k + n.len() <= s.len() {
        assert(s.subrange(k, k + n.len() as int) =~= h.subrange(
            from + k,
            from + k + n.len() as int,
        ));
    }
}

/// Whether `n` occurs anywhere in `h`.
pub fn contains_exec(h: &Vec<char>, n: &Vec<char>) -> (r: bool)
    requires
        n@.len() > 0,
    ensures
        r == contains_seq(h@, n@),
{
    find_seq(h, n).is_some()
}

/// Appends all of `src` to `dst`.
pub fn push_all<T: Copy>(dst: &mut Vec<T>, src: &Vec<T>)
    ensures
        final(dst)@ == old(dst)@ + src@,
{
    let mut j: usize = 0;
    let sl = src.len();
    while j < sl
        invariant
            sl == src@.len(),
            0 <= j <= sl,
            dst@ == old(dst)@ + src@.subrange(0, j as int),
        decreases sl - j,
    {
        dst.push(src[j]);
        assert(dst@ =~= old(dst)@ + src@.subrange(0, j + 1));
        j += 1;
    }
    assert(dst@ =~= old(dst)@ + src@);
}

/// Replaces every occurrence of `n` in `h` by `r`, left to right.
pub fn replace_all(h: &Vec<char>, n: &Vec<char>, r: &Vec<char>) -> (out: Vec<char>)
    requires
        n@.len() > 0,
    ensures
        out@ == replace_all_spec(h@, n@, r@),
{
    let mut out: Vec<char> = Vec::new();
    let mut i: usize = 0;
    let hl = h.len();
    let nl = n.len();
    assert(h@.skip(0) =~= h@);
    assert(out@ + replace_all_spec(h@, n@, r@) =~= replace_all_spec(h@, n@, r@));
    while i < hl
        invariant
            hl == h@.len(),
            nl == n@.len(),
            nl > 0,
            0 <= i <= hl,
            replace_all_spec(h@, n@, r@) == out@ + replace_all_spec(h@.skip(i as int), n@, r@),
        decreases hl - i,
    {
        let ghost tail = h@.skip(i as int);
        if nl <= hl - i && match_at_exec(h, n, i) {
            assert(tail.subrange(0, n@.len() as int) =~= h@.subrange(i as int, i + n@.len() as int));
            assert(tail.skip(n@.len() as int) =~= h@.skip(i + n@.len() as int));
            push_all(&mut out, r);
            i += nl;
        } else {
            if nl <= hl - i {
                assert(tail.subrange(0, n@.len() as int) =~= h@.subrange(i as int, i + n@.len() as int));
            }
            assert(tail.skip(1) =~= h@.skip(i + 1));
            assert(seq![tail[0]] =~= seq![h@[i as int]]);
            out.push(h[i]);
            i += 1;
        }
        assert(replace_all_spec(h@, n@, r@) == out@ + replace_all_spec(h@.skip(i as int), n@, r@));
    }
    assert(h@.skip(h@.len() as int) =~= Seq::<char>::empty());
    assert(out@ + Seq::<char>::empty() =~= out@);
    out
}

/// The whitespace predicate as a value, for use with the trimming specs.
pub open spec fn space_pred() -> spec_fn(char) -> bool {
    |c: char| is_space(c)
}

/// The percent-sign predicate as a value, for use with the trimming specs.
pub open spec fn percent_pred() -> spec_fn(char) -> bool {
    |c: char| c == '%'
}

/// Whether `c` is a decimal digit.
pub fn is_digit_exec(c: char) -> (r: bool)
    ensures
        r == is_digit_char(c),
{
    let u = c as u32;
    48 <= u && u <= 57
}

/// Whether `c` is ASCII whitespace.
pub fn is_space_exec(c: char) -> (r: bool)
    ensures
        r == is_space(c),
{
    c == ' ' || c == '\t' || c == '\n' || c == '\r' || c == '\u{c}'
}

/// `h` without leading and trailing ASCII whitespace.
pub fn trim(h: &Vec<char>) -> (out: Vec<char>)
    ensures
        out@ == trim_by(h@, space_pred()),
{
    let ghost p = space_pred();
    let hl = h.len();
    let mut a: usize = 0;
    assert(h@.skip(0) =~= h@);
    while a < hl && is_space_exec(h[a])
        invariant
            p == space_pred(),
            hl == h@.len(),
            0 <= a <= hl,
            trim_start_by(h@, p) == trim_start_by(h@.skip(a as int), p),
        decreases hl - a,
    {
        assert(h@.skip(a as int).drop_first() =~= h@.skip(a + 1));
        a += 1;
    }
    assert(trim_start_by(h@, p) == h@.skip(a as int));
    let mut b: usize = hl;
    assert(h@.subrange(a as int, b as int) =~= h@.skip(a as int));
    while b > a && is_space_exec(h[b - 1])
        invariant
            p == space_pred(),
            hl == h@.len(),
            0 <= a <= b <= hl,
            trim_end_by(h@.skip(a as int), p) == trim_end_by(h@.subrange(a as int, b as int), p),
        decreases b,
    {
        assert(h@.subrange(a as int, b as int).drop_last() =~= h@.subrange(a as int, b - 1));
        assert(h@.subrange(a as int, b as int).last() == h@[b - 1]);
        b -= 1;
    }
    assert(trim_end_by(h@.subrange(a as int, b as int), p) == h@.subrange(a as int, b as int));
    let out = vstd::slice::slice_to_vec(vstd::slice::slice_subrange(h.as_slice(), a, b));
    assert(out@ == trim_by(h@, space_pred()));
    out
}

/// `h` without leading and trailing percent signs, as `trim_matches('%')`.
pub fn trim_percent(h: &Vec<char>) -> (out: Vec<char>)
    ensures
        out@ == trim_by(h@, percent_pred()),
{
    let ghost p = percent_pred();
    let hl = h.len();
    let mut a: usize = 0;
    assert(h@.skip(0) =~= h@);
    while a < hl && h[a] == '%'
        invariant
            p == percent_pred(),
            hl == h@.len(),
            0 <= a <= hl,
            trim_start_by(h@, p) == trim_start_by(h@.skip(a as int), p),
        decreases hl - a,
    {
        assert(h@.skip(a as int).drop_first() =~= h@.skip(a + 1));
        a += 1;
    }
    assert(trim_start_by(h@, p) == h@.skip(a as int));
    let mut b: usize = hl;
    assert(h@.subrange(a as int, b as int) =~= h@.skip(a as int));
    while b > a && h[b - 1] == '%'
        invariant
            p == percent_pred(),
            hl == h@.len(),
            0 <= a <= b <= hl,
            trim_end_by(h@.skip(a as int), p) == trim_end_by(h@.subrange(a as int, b as int), p),
        decreases b,
    {
        assert(h@.subrange(a as int, b as int).drop_last() =~= h@.subrange(a as int, b - 1));
        assert(h@.subrange(a as int, b as int).last() == h@[b - 1]);
        b -= 1;
    }
    assert(trim_end_by(h@.subrange(a as int, b as int), p) == h@.subrange(a as int, b as int));
    let out = vstd::slice::slice_to_vec(vstd::slice::slice_subrange(h.as_slice(), a, b));
    assert(out@ == trim_by(h@, percent_pred()));
    out
}

/// The first whitespace-delimited token of `h`, empty if `h` is all whitespace.
pub fn first_token(h: &Vec<char>) -> (out: Vec<char>)
    ensures
        out@ == first_token_spec(h@),
{
    let ghost p = space_pred();
    let hl = h.len();
    let mut a: usize = 0;
    assert(h@.skip(0) =~= h@);
    while a < hl && is_space_exec(h[a])
        invariant
            p == space_pred(),
            hl == h@.len(),
            0 <= a <= hl,
            trim_start_by(h@, p) == trim_start_by(h@.skip(a as int), p),
        decreases hl - a,
    {
        assert(h@.skip(a as int).drop_first() =~= h@.skip(a + 1));
        a += 1;
    }
    assert(trim_start_by(h@, p) == h@.skip(a as int));
    let mut j: usize = a;
    while j < hl && !is_space_exec(h[j])
        invariant
            hl == h@.len(),
            0 <= a <= j <= hl,
            take_until_space(h@.skip(a as int)) == h@.subrange(a as int, j as int)
                + take_until_space(h@.skip(j as int)),
        decreases hl - j,
    {
        assert(h@.skip(j as int).drop_first() =~= h@.skip(j + 1));
        assert(seq![h@.skip(j as int)[0]] =~= seq![h@[j as int]]);
        assert(h@.subrange(a as int, j as int) + seq![h@[j as int]] =~= h@.subrange(
            a as int,
            j + 1,
        ));
        assert(h@.subrange(a as int, j + 1) + take_until_space(h@.skip(j + 1)) =~= h@.subrange(
            a as int,
            j as int,
        ) + (seq![h@[j as int]] + take_until_space(h@.skip(j + 1))));
        j += 1;
    }
    assert(take_until_space(h@.skip(j as int)) =~= Seq::<char>::empty());
    assert(take_until_space(h@.skip(a as int)) =~= h@.subrange(a as int, j as int));
    let out = vstd::slice::slice_to_vec(vstd::slice::slice_subrange(h.as_slice(), a, j));
    assert(out@ == first_token_spec(h@));
    out
}

/// Index of the first occurrence of `c` in `s`, or `s.len()` if none.
pub open spec fn char_index(s: Seq<char>, c: char) -> int
    decreases s.len(),
{
    if s.len() == 0 {
        0
    } else if s[0] == c {
        0
    } else {
        1 + char_index(s.drop_first(), c)
    }
}

/// `char_index` points at the first occurrence, or past the end.
pub proof fn lemma_char_index(s: Seq<char>, c: char)
    ensures
        0 <= char_index(s, c) <= s.len(),
        forall|j: int| 0 <= j < char_index(s, c) ==> s[j] != c,
        char_index(s, c) < s.len() ==> s[char_index(s, c)] == c,
    decreases s.len(),
{
    if s.len() > 0 && s[0] != c {
        lemma_char_index(s.drop_first(), c);
        assert forall|j: int| 0 <= j < char_index(s, c) implies s[j] != c by {
            if j > 0 {
                assert(s.drop_first()[j - 1] == s[j]);
                assert(j - 1 < char_index(s.drop_first(), c));
            }
        }
        if char_index(s, c) < s.len() {
            assert(s.drop_first()[char_index(s, c) - 1] == s[char_index(s, c)]);
        }
    }
}

/// Compares two character vectors.
pub fn chars_eq(a: &Vec<char>, b: &Vec<char>) -> (r: bool)
    ensures
        r == (a@ == b@),
{
    let al = a.len();
    if al != b.len() {
        assert(a@ != b@);
        return false;
    }
    let mut i: usize = 0;
    while i < al
        invariant
            al == a@.len() == b@.len(),
            0 <= i <= al,
            forall|j: int| 0 <= j < i ==> a@[j] == b@[j],
        decreases al - i,
    {
        if a[i] != b[i] {
            return false;
        }
        i += 1;
    }
    assert(a@ =~= b@);
    true
}

/// First position of the character `c` in `h`, if any.
pub fn find_char(h: &Vec<char>, c: char) -> (r: Option<usize>)
    ensures
        match r {
            Some(i) => 0 <= i < h@.len() && h@[i as int] == c && forall|j: int|
                0 <= j < i ==> h@[j] != c,
            None => forall|j: int| 0 <= j < h@.len() ==> h@[j] != c,
        },
{
    let hl = h.len();
    let mut i: usize = 0;
    while i < hl
        invariant
            hl == h@.len(),
            0 <= i <= hl,
            forall|j: int| 0 <= j < i ==> h@[j] != c,
        decreases hl - i,
    {
        if h[i] == c {
            return Some(i);
        }
        i += 1;
    }
    None
}

/// Whether `h` holds a decimal digit anywhere.
pub fn contains_digit(h: &Vec<char>) -> (r: bool)
    ensures
        r == exists|i: int| 0 <= i < h@.len() && is_digit_char(h@[i]),
{
    let hl = h.len();
    let mut i: usize = 0;
    while i < hl
        invariant
            hl == h@.len(),
            0 <= i <= hl,
            forall|j: int| 0 <= j < i ==> !is_digit_char(h@[j]),
        decreases hl - i,
    {
        let u = h[i] as u32;
        if 48 <= u && u <= 57 {
            assert(is_digit_char(h@[i as int]));
            return true;
        }
        i += 1;
    }
    false
}

/// The characters of `s`, as a vector.
pub fn str_to_chars(s: &str) -> (r: Vec<char>)
    ensures
        r@ == s@,
{
    let n = s.unicode_len();
    let mut r: Vec<char> = Vec::new();
    let mut i: usize = 0;
    while i < n
        invariant
            n == s@.len(),
            0 <= i <= n,
            r@ == s@.subrange(0, i as int),
        decreases n - i,
    {
        r.push(s.get_char(i));
        assert(r@ =~= s@.subrange(0, i + 1));
        i += 1;
    }
    assert(r@ =~= s@);
    r
}

/// Relies on `String: FromIterator<char>`: collecting characters yields the
/// string of exactly those characters, in order.
#[verifier::external_body]
pub fn chars_to_string(v: &Vec<char>) -> (r: String)
    ensures
        r@ == v@,
{
    v.iter().collect()
}

} // verus!
