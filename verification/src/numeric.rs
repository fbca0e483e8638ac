//! Numeric text handling: decimal renderings of unsigned integers, and the
//! fixed-point decimal model the gradebook transformer stores scores in.

use vstd::prelude::*;
use crate::text::is_digit_char;

verus! {

/// The value of a string of decimal digits (most significant first).
pub open spec fn digits_val(s: Seq<char>) -> nat
    decreases s.len(),
{
    if s.len() == 0 {
        0
    } else {
        digits_val(s.drop_last()) * 10 + ((s.last() as u32 - 48) as nat)
    }
}

/// Every character of `s` is a decimal digit.
pub open spec fn all_digits(s: Seq<char>) -> bool {
    forall|i: int| 0 <= i < s.len() ==> is_digit_char(s[i])
}

/// The digit character for `d`.
pub open spec fn digit_to_char(d: nat) -> char {
    if d == 0 {
        '0'
    } else if d == 1 {
        '1'
    } else if d == 2 {
        '2'
    } else if d == 3 {
        '3'
    } else if d == 4 {
        '4'
    } else if d == 5 {
        '5'
    } else if d == 6 {
        '6'
    } else if d == 7 {
        '7'
    } else if d == 8 {
        '8'
    } else {
        '9'
    }
}

/// The canonical decimal rendering of `n`: no leading zeros, except that
/// zero itself is the single digit `0`.
pub open spec fn dec_digits(n: nat) -> Seq<char>
    decreases n,
{
    if n < 10 {
        seq![digit_to_char(n)]
    } else {
        dec_digits(n / 10).push(digit_to_char(n % 10))
    }
}

/// The digit character of `d` carries the code point `48 + d`.
pub proof fn lemma_digit_char_val(d: nat)
    requires
        d < 10,
    ensures
        digit_to_char(d) as u32 == 48 + d,
        is_digit_char(digit_to_char(d)),
{
    if d == 0 {
        assert('0' as u32 == 48);
    } else if d == 1 {
        assert('1' as u32 == 49);
    } else if d == 2 {
        assert('2' as u32 == 50);
    } else if d == 3 {
        assert('3' as u32 == 51);
    } else if d == 4 {
        assert('4' as u32 == 52);
    } else if d == 5 {
        assert('5' as u32 == 53);
    } else if d == 6 {
        assert('6' as u32 == 54);
    } else if d == 7 {
        assert('7' as u32 == 55);
    } else if d == 8 {
        assert('8' as u32 == 56);
    } else {
        assert('9' as u32 == 57);
    }
}

/// The canonical rendering consists of digits and evaluates back to `n`.
pub proof fn lemma_dec_digits(n: nat)
    ensures
        dec_digits(n).len() > 0,
        all_digits(dec_digits(n)),
        digits_val(dec_digits(n)) == n,
    decreases n,
{
    if n < 10 {
        lemma_digit_char_val(n);
        let s = dec_digits(n);
        assert(s.len() == 1);
        assert(s.drop_last() =~= Seq::<char>::empty());
        assert(digits_val(Seq::<char>::empty()) == 0);
        assert(is_digit_char(s[0]));
        assert(digits_val(s) == (s.last() as u32 - 48) as nat);
    } else {
        lemma_dec_digits(n / 10);
        lemma_digit_char_val(n % 10);
        let s = dec_digits(n);
        let p = dec_digits(n / 10);
        assert(s == p.push(digit_to_char(n % 10)));
        assert(s.drop_last() =~= p);
        assert(s.last() == digit_to_char(n % 10));
        assert((s.last() as u32 - 48) as nat == n % 10);
        assert(digits_val(s) == (n / 10) * 10 + n % 10);
        assert(forall|i: int| 0 <= i < s.len() ==> is_digit_char(#[trigger] s[i])) by {
            assert(forall|i: int| 0 <= i < p.len() ==> is_digit_char(#[trigger] p[i]));
            assert(s.len() == p.len() + 1);
            assert(forall|i: int| 0 <= i < p.len() ==> s[i] == p[i]);
            assert(is_digit_char(s[p.len() as int]));
        }
    }
}

/// The value of a digit string only grows as more digits follow.
pub proof fn lemma_digits_val_prefix_mono(s: Seq<char>, i: int)
    requires
        0 <= i <= s.len(),
    ensures
        digits_val(s.take(i)) <= digits_val(s),
    decreases s.len() - i,
{
    if i < s.len() {
        assert(s.take(i + 1).drop_last() =~= s.take(i));
        assert(digits_val(s.take(i + 1)) == digits_val(s.take(i)) * 10 + ((s.take(i + 1).last()
            as u32 - 48) as nat));
        lemma_digits_val_prefix_mono(s, i + 1);
        assert(s.take(s.len() as int) =~= s);
    } else {
        assert(s.take(i) =~= s);
    }
}

/// The digit character for `d`, executable form.
pub fn digit_char_exec(d: u8) -> (c: char)
    requires
        d < 10,
    ensures
        c == digit_to_char(d as nat),
{
    if d == 0 {
        '0'
    } else if d == 1 {
        '1'
    } else if d == 2 {
        '2'
    } else if d == 3 {
        '3'
    } else if d == 4 {
        '4'
    } else if d == 5 {
        '5'
    } else if d == 6 {
        '6'
    } else if d == 7 {
        '7'
    } else if d == 8 {
        '8'
    } else {
        '9'
    }
}

/// Renders `x` in decimal, most significant digit first.
pub fn to_decimal_u128(x: u128) -> (out: Vec<char>)
    ensures
        out@ == dec_digits(x as nat),
    decreases x,
{
    if x < 10 {
        let mut v: Vec<char> = Vec::new();
        v.push(digit_char_exec(x as u8));
        assert(v@ =~= dec_digits(x as nat));
        v
    } else {
        let mut v = to_decimal_u128(x / 10);
        v.push(digit_char_exec((x % 10) as u8));
        assert(v@ =~= dec_digits(x as nat));
        v
    }
}

/// Reads a decimal digit string as a `u128`: all characters must be digits,
/// the string nonempty, and the value in range.
pub fn parse_u128(s: &Vec<char>) -> (r: Option<u128>)
    ensures
        match r {
            Some(v) => s@.len() > 0 && all_digits(s@) && digits_val(s@) == v as nat,
            None => s@.len() == 0 || !all_digits(s@) || digits_val(s@) > u128::MAX,
        },
{
    let sl = s.len();
    if sl == 0 {
        return None;
    }
    let mut acc: u128 = 0;
    let mut i: usize = 0;
    while i < sl
        invariant
            sl == s@.len(),
            0 <= i <= sl,
            all_digits(s@.take(i as int)),
            acc as nat == digits_val(s@.take(i as int)),
        decreases sl - i,
    {
        let u = s[i] as u32;
        if !(48 <= u && u <= 57) {
            assert(!is_digit_char(s@[i as int]));
            return None;
        }
        let d = (u - 48) as u128;
        if acc > (u128::MAX - d) / 10 {
            proof {
                assert(s@.take(i + 1).drop_last() =~= s@.take(i as int));
                assert(digits_val(s@.take(i + 1)) == acc as nat * 10 + d as nat);
                assert(digits_val(s@.take(i + 1)) > u128::MAX);
                lemma_digits_val_prefix_mono(s@, i + 1);
            }
            return None;
        }
        proof {
            assert(s@.take(i + 1).drop_last() =~= s@.take(i as int));
            assert(s@.take(i + 1).last() == s@[i as int]);
            assert(forall|k: int| 0 <= k < i + 1 ==> is_digit_char(#[trigger] s@.take(i + 1)[k]));
        }
        acc = acc * 10 + d;
        i += 1;
    }
    assert(s@.take(sl as int) =~= s@);
    Some(acc)
}

/// The decimal rendering of a signed integer.
pub open spec fn int_dec(x: int) -> Seq<char> {
    if x >= 0 {
        dec_digits(x as nat)
    } else {
        seq!['-'] + dec_digits((-x) as nat)
    }
}

/// Renders a signed integer in decimal.
pub fn to_decimal_i32(x: i32) -> (out: Vec<char>)
    ensures
        out@ == int_dec(x as int),
{
    if x >= 0 {
        to_decimal_u128(x as u128)
    } else {
        let m: u128 = (-(x as i64)) as u128;
        assert(m as nat == (-(x as int)) as nat);
        let mut out: Vec<char> = Vec::new();
        out.push('-');
        crate::text::push_all(&mut out, &to_decimal_u128(m));
        assert(out@ =~= int_dec(x as int));
        out
    }
}

/// A numeric value as the transformer stores it: a signed fixed-point
/// decimal with four places, a signed infinity, or the not-a-number
/// sentinel that stands for "no value". Parsed text beyond four decimal
/// places is ignored; magnitudes beyond the representation saturate to
/// infinity.
#[derive(Clone, Copy, Debug, PartialEq, Eq, Structural)]
pub enum Num {
    Finite { neg: bool, scaled: u64 },
    Inf { neg: bool },
    NaN,
}

/// The signed scaled magnitude of a finite value, in ten-thousandths.
pub open spec fn num_val(n: Num) -> int {
    match n {
        Num::Finite { neg, scaled } => if neg {
            -(scaled as int)
        } else {
            scaled as int
        },
        _ => 0,
    }
}

/// Whether `n` reaches the positive threshold of `t` ten-thousandths:
/// positive infinity does, NaN never does.
pub open spec fn num_at_least(n: Num, t: u64) -> bool {
    match n {
        Num::Finite { .. } => num_val(n) >= t,
        Num::Inf { neg } => !neg,
        Num::NaN => false,
    }
}

/// Whether `n` reaches the positive threshold `t`, executable form.
pub fn num_ge(n: &Num, t: u64) -> (r: bool)
    requires
        t > 0,
    ensures
        r == num_at_least(*n, t),
{
    match n {
        Num::Finite { neg, scaled } => !*neg && *scaled >= t,
        Num::Inf { neg } => !*neg,
        Num::NaN => false,
    }
}

/// Whether `n` is a finite value.
pub fn num_is_finite(n: &Num) -> (r: bool)
    ensures
        r == (*n is Finite),
{
    matches!(n, Num::Finite { .. })
}

/// `n` divided by one hundred: the scaled magnitude divided, truncating;
/// infinities and NaN unchanged.
pub open spec fn num_div100_spec(n: Num) -> Num {
    match n {
        Num::Finite { neg, scaled } => Num::Finite { neg, scaled: scaled / 100 },
        other => other,
    }
}

/// Divides `n` by one hundred, as the weight normalization needs.
pub fn num_div100(n: &Num) -> (r: Num)
    ensures
        r == num_div100_spec(*n),
{
    match n {
        Num::Finite { neg, scaled } => Num::Finite { neg: *neg, scaled: *scaled / 100 },
        Num::Inf { neg } => Num::Inf { neg: *neg },
        Num::NaN => Num::NaN,
    }
}

/// The characters are equal up to ASCII case.
pub open spec fn eq_ic_char(a: char, b: char) -> bool {
    a as u32 == b as u32 || (97 <= a as u32 <= 122 && a as u32 - 32 == b as u32) || (97 <= b
        as u32 <= 122 && b as u32 - 32 == a as u32)
}

/// The strings are equal up to ASCII case.
pub open spec fn eq_ic(a: Seq<char>, b: Seq<char>) -> bool {
    a.len() == b.len() && forall|i: int| 0 <= i < a.len() ==> eq_ic_char(a[i], b[i])
}

/// Compares two strings ignoring ASCII case.
pub fn eq_ignore_case(a: &Vec<char>, b: &Vec<char>) -> (r: bool)
    ensures
        r == eq_ic(a@, b@),
{
    let al = a.len();
    if al != b.len() {
        return false;
    }
    let mut i: usize = 0;
    while i < al
        invariant
            al == a@.len() == b@.len(),
            0 <= i <= al,
            forall|j: int| 0 <= j < i ==> eq_ic_char(a@[j], b@[j]),
        decreases al - i,
    {
        let au = a[i] as u32;
        let bu = b[i] as u32;
        let ok = au == bu || (97 <= au && au <= 122 && au - 32 == bu) || (97 <= bu && bu <= 122
            && bu - 32 == au);
        if !ok {
            assert(!eq_ic_char(a@[i as int], b@[i as int]));
            return false;
        }
        i += 1;
    }
    true
}

/// Index of the first decimal point in `s`, or `s.len()` if there is none.
pub open spec fn dot_index(s: Seq<char>) -> int
    decreases s.len(),
{
    if s.len() == 0 {
        0
    } else if s[0] == '.' {
        0
    } else {
        1 + dot_index(s.drop_first())
    }
}

/// `dot_index` points at the first decimal point, or past the end.
pub proof fn lemma_dot_index(s: Seq<char>)
    ensures
        0 <= dot_index(s) <= s.len(),
        forall|j: int| 0 <= j < dot_index(s) ==> s[j] != '.',
        dot_index(s) < s.len() ==> s[dot_index(s)] == '.',
    decreases s.len(),
{
    if s.len() > 0 && s[0] != '.' {
        lemma_dot_index(s.drop_first());
        assert forall|j: int| 0 <= j < dot_index(s) implies s[j] != '.' by {
            if j > 0 {
                assert(s.drop_first()[j - 1] == s[j]);
                assert(j - 1 < dot_index(s.drop_first()));
            }
        }
    }
}

/// The mantissa is well formed: decimal digits around at most one decimal
/// point, with at least one digit present.
pub open spec fn valid_mantissa(s: Seq<char>) -> bool {
    let d = dot_index(s);
    if d == s.len() {
        s.len() > 0 && all_digits(s)
    } else {
        all_digits(s.take(d)) && all_digits(s.skip(d + 1)) && (d > 0 || s.len() > d + 1)
    }
}

/// The first four fraction digits, zero-padded on the right.
pub open spec fn frac4(fp: Seq<char>) -> Seq<char> {
    (fp + seq!['0', '0', '0', '0']).take(4)
}

/// The value of a well-formed mantissa, in ten-thousandths.
pub open spec fn mantissa_scaled(s: Seq<char>) -> nat {
    let d = dot_index(s);
    if d == s.len() {
        digits_val(s) * 10000
    } else {
        digits_val(s.take(d)) * 10000 + digits_val(frac4(s.skip(d + 1)))
    }
}

/// A finite value of `scaled` ten-thousandths, saturating to infinity.
pub open spec fn finite_or_inf(neg: bool, scaled: nat) -> Num {
    if scaled > u64::MAX {
        Num::Inf { neg }
    } else {
        Num::Finite { neg, scaled: scaled as u64 }
    }
}

/// What parsing numeric text yields: an optional sign, then either a
/// mantissa of digits with at most one decimal point, or the words `inf`,
/// `infinity` or `nan` in any ASCII case; anything else fails.
pub open spec fn parse_num_spec(s: Seq<char>) -> Option<Num> {
    let neg = s.len() > 0 && s[0] == '-';
    let body = if s.len() > 0 && (s[0] == '+' || s[0] == '-') {
        s.drop_first()
    } else {
        s
    };
    if eq_ic(body, "inf"@) || eq_ic(body, "infinity"@) {
        Some(Num::Inf { neg })
    } else if eq_ic(body, "nan"@) {
        Some(Num::NaN)
    } else if valid_mantissa(body) {
        Some(finite_or_inf(neg, mantissa_scaled(body)))
    } else {
        None
    }
}

/// Whether every character of `h` is a decimal digit.
pub fn all_digits_exec(h: &Vec<char>) -> (r: bool)
    ensures
        r == all_digits(h@),
{
    let hl = h.len();
    let mut i: usize = 0;
    while i < hl
        invariant
            hl == h@.len(),
            0 <= i <= hl,
            forall|j: int| 0 <= j < i ==> is_digit_char(#[trigger] h@[j]),
        decreases hl - i,
    {
        let u = h[i] as u32;
        if !(48 <= u && u <= 57) {
            assert(!is_digit_char(h@[i as int]));
            return false;
        }
        i += 1;
    }
    true
}

/// The `k`-th zero-padded fraction digit of `fp`.
fn frac_digit(fp: &Vec<char>, k: usize) -> (c: char)
    requires
        k < 4,
    ensures
        c == frac4(fp@)[k as int],
{
    if k < fp.len() {
        let c = fp[k];
        assert(frac4(fp@)[k as int] == fp@[k as int]);
        c
    } else {
        assert(frac4(fp@)[k as int] == seq!['0', '0', '0', '0'][k - fp@.len()]);
        '0'
    }
}

/// One step of reading the zero-padded four-digit fraction of `fp`.
fn frac_step(fp: &Vec<char>, k: usize, fv: u64) -> (r: u64)
    requires
        k < 4,
        all_digits(fp@),
        fv as nat == digits_val(frac4(fp@).take(k as int)),
        fv <= 999,
    ensures
        r as nat == digits_val(frac4(fp@).take(k + 1)),
        r <= 10 * fv + 9,
{
    let c = frac_digit(fp, k);
    proof {
        assert(frac4(fp@).take(k + 1).drop_last() =~= frac4(fp@).take(k as int));
        assert(frac4(fp@).take(k + 1).last() == frac4(fp@)[k as int]);
        if (k as int) < fp@.len() {
            assert(is_digit_char(fp@[k as int]));
        } else {
            assert('0' as u32 == 48);
        }
    }
    let u = c as u32;
    assert(48 <= u && u <= 57);
    fv * 10 + ((u - 48) as u64)
}

/// Parses numeric text into the fixed-point model: an optional sign, then
/// either a digit mantissa with at most one decimal point, or an infinity
/// or NaN word in any ASCII case. Anything else fails.
pub fn parse_num(s: &Vec<char>) -> (r: Option<Num>)
    ensures
        r == parse_num_spec(s@),
{
    let sl = s.len();
    let neg = sl > 0 && s[0] == '-';
    let start: usize = if sl > 0 && (s[0] == '+' || s[0] == '-') {
        1
    } else {
        0
    };
    let body: Vec<char> = vstd::slice::slice_to_vec(
        vstd::slice::slice_subrange(s.as_slice(), start, sl),
    );
    proof {
        if start == 1 {
            assert(body@ =~= s@.drop_first());
        } else {
            assert(body@ =~= s@);
        }
    }
    let inf_short = crate::text::str_to_chars("inf");
    let inf_long = crate::text::str_to_chars("infinity");
    let nan_word = crate::text::str_to_chars("nan");
    if eq_ignore_case(&body, &inf_short) || eq_ignore_case(&body, &inf_long) {
        return Some(Num::Inf { neg });
    }
    if eq_ignore_case(&body, &nan_word) {
        return Some(Num::NaN);
    }
    let bl = body.len();
    let d: usize = match crate::text::find_char(&body, '.') {
        Some(i) => i,
        None => bl,
    };
    proof {
        lemma_dot_index(body@);
        assert(dot_index(body@) == d);
    }
    let ip: Vec<char> = vstd::slice::slice_to_vec(
        vstd::slice::slice_subrange(body.as_slice(), 0, d),
    );
    assert(ip@ =~= body@.take(d as int));
    let fp: Vec<char> = if d < bl {
        let v = vstd::slice::slice_to_vec(vstd::slice::slice_subrange(body.as_slice(), d + 1, bl));
        assert(v@ =~= body@.skip(d + 1));
        v
    } else {
        let v: Vec<char> = Vec::new();
        v
    };
    if d == bl {
        assert(ip@ =~= body@);
        if bl == 0 || !all_digits_exec(&ip) {
            return None;
        }
    } else {
        if !(all_digits_exec(&ip) && all_digits_exec(&fp) && (d > 0 || bl > d + 1)) {
            return None;
        }
    }
    // Integer part, with saturation tracking.
    let il = ip.len();
    let mut acc: u64 = 0;
    let mut ovf = false;
    let mut i: usize = 0;
    assert(ip@.take(0) =~= Seq::<char>::empty());
    while i < il
        invariant
            il == ip@.len(),
            all_digits(ip@),
            0 <= i <= il,
            !ovf ==> acc as nat == digits_val(ip@.take(i as int)),
            ovf ==> digits_val(ip@.take(i as int)) > u64::MAX,
        decreases il - i,
    {
        assert(is_digit_char(ip@[i as int]));
        let u = ip[i] as u32;
        let dd = (u - 48) as u64;
        proof {
            assert(ip@.take(i + 1).drop_last() =~= ip@.take(i as int));
            assert(ip@.take(i + 1).last() == ip@[i as int]);
            assert(digits_val(ip@.take(i + 1)) == digits_val(ip@.take(i as int)) * 10 + dd as nat);
        }
        if ovf {
        } else if acc > (u64::MAX - dd) / 10 {
            ovf = true;
        } else {
            acc = acc * 10 + dd;
        }
        i += 1;
    }
    assert(ip@.take(il as int) =~= ip@);
    // Fraction part: the first four digits, zero-padded.
    let ghost fseq = frac4(fp@);
    assert(fseq.take(0) =~= Seq::<char>::empty());
    let f1 = frac_step(&fp, 0, 0);
    let f2 = frac_step(&fp, 1, f1);
    let f3 = frac_step(&fp, 2, f2);
    let fv = frac_step(&fp, 3, f3);
    assert(fseq.take(4) =~= fseq);
    assert(fv as nat == digits_val(frac4(fp@)));
    assert(fv <= 9999);
    // Assemble, saturating to infinity past the representable range.
    let ghost total: nat = digits_val(ip@) * 10000 + digits_val(frac4(fp@));
    proof {
        if d == bl {
            assert(fp@ =~= Seq::<char>::empty());
            assert(mantissa_scaled(body@) == digits_val(body@) * 10000);
            assert(digits_val(frac4(fp@)) == fv as nat);
            assert(fv == 0);
            assert(total == mantissa_scaled(body@));
        } else {
            assert(total == mantissa_scaled(body@));
        }
    }
    if ovf {
        assert(total > u64::MAX);
        return Some(Num::Inf { neg });
    }
    if acc > u64::MAX / 10000 {
        assert(acc as nat * 10000 > u64::MAX);
        assert(total > u64::MAX);
        return Some(Num::Inf { neg });
    }
    let t = acc * 10000;
    if fv > u64::MAX - t {
        assert(total > u64::MAX);
        return Some(Num::Inf { neg });
    }
    assert(total == (t + fv) as nat);
    Some(Num::Finite { neg, scaled: t + fv })
}

} // verus!
