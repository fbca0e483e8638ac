//! Standard base64 with `=` padding, written out here so that the token
//! and key pipelines are verified end to end: encoding, strict decoding
//! (canonical padding, zero trailing bits), and their round trip.

use vstd::prelude::*;

verus! {

/// The standard-alphabet character for the six-bit value `v`.
pub open spec fn b64_char(v: int) -> char {
    if v < 26 {
        ((65 + v) as u32) as char
    } else if v < 52 {
        ((71 + v) as u32) as char
    } else if v < 62 {
        ((v - 4) as u32) as char
    } else if v == 62 {
        (43 as u32) as char
    } else {
        (47 as u32) as char
    }
}

/// The six-bit value of a standard-alphabet character, `-1` outside it.
pub open spec fn b64_val(c: char) -> int {
    let u = c as u32;
    if 65 <= u <= 90 {
        u - 65
    } else if 97 <= u <= 122 {
        u - 71
    } else if 48 <= u <= 57 {
        u + 4
    } else if u == 43 {
        62
    } else if u == 47 {
        63
    } else {
        -1
    }
}

/// `b64_val` inverts `b64_char` on six-bit values, which never encode to
/// the padding character.
pub proof fn lemma_b64_char_val(v: int)
    requires
        0 <= v < 64,
    ensures
        b64_val(b64_char(v)) == v,
        b64_char(v) != '=',
{
    assert('=' as u32 == 61);
    if v < 26 {
        assert(b64_char(v) as u32 == 65 + v);
    } else if v < 52 {
        assert(b64_char(v) as u32 == 71 + v);
    } else if v < 62 {
        assert(b64_char(v) as u32 == v - 4);
    } else if v == 62 {
        assert(b64_char(v) as u32 == 43);
    } else {
        assert(b64_char(v) as u32 == 47);
    }
}

/// The four characters encoding a full three-byte group.
pub open spec fn enc3(a: u8, b: u8, c: u8) -> Seq<char> {
    seq![
        b64_char(a as int / 4),
        b64_char((a as int % 4) * 16 + b as int / 16),
        b64_char((b as int % 16) * 4 + c as int / 64),
        b64_char(c as int % 64),
    ]
}

/// The four characters encoding a trailing two-byte group.
pub open spec fn enc2(a: u8, b: u8) -> Seq<char> {
    seq![
        b64_char(a as int / 4),
        b64_char((a as int % 4) * 16 + b as int / 16),
        b64_char((b as int % 16) * 4),
        '=',
    ]
}

/// The four characters encoding a trailing one-byte group.
pub open spec fn enc1(a: u8) -> Seq<char> {
    seq![b64_char(a as int / 4), b64_char((a as int % 4) * 16), '=', '=']
}

/// The base64 encoding of `b`, with padding.
pub open spec fn b64_encode_spec(b: Seq<u8>) -> Seq<char>
    decreases b.len(),
{
    if b.len() == 0 {
        Seq::empty()
    } else if b.len() == 1 {
        enc1(b[0])
    } else if b.len() == 2 {
        enc2(b[0], b[1])
    } else {
        enc3(b[0], b[1], b[2]) + b64_encode_spec(b.skip(3))
    }
}

/// The bytes of one final four-character group: padding only at the end,
/// and any bits beyond the encoded bytes must be zero.
pub open spec fn dec_quad(c0: char, c1: char, c2: char, c3: char) -> Option<Seq<u8>> {
    let v0 = b64_val(c0);
    let v1 = b64_val(c1);
    let v2 = b64_val(c2);
    let v3 = b64_val(c3);
    if v0 < 0 || v1 < 0 {
        None
    } else if c2 == '=' && c3 == '=' {
        if v1 % 16 == 0 {
            Some(seq![(v0 * 4 + v1 / 16) as u8])
        } else {
            None
        }
    } else if c3 == '=' {
        if v2 >= 0 && v2 % 4 == 0 {
            Some(seq![(v0 * 4 + v1 / 16) as u8, ((v1 % 16) * 16 + v2 / 4) as u8])
        } else {
            None
        }
    } else {
        if v2 >= 0 && v3 >= 0 {
            Some(
                seq![
                    (v0 * 4 + v1 / 16) as u8,
                    ((v1 % 16) * 16 + v2 / 4) as u8,
                    ((v2 % 4) * 64 + v3) as u8,
                ],
            )
        } else {
            None
        }
    }
}

/// The strict base64 decoding of `s`: length a multiple of four, padding
/// only in the last group, canonical trailing bits.
pub open spec fn b64_decode_spec(s: Seq<char>) -> Option<Seq<u8>>
    decreases s.len(),
{
    if s.len() == 0 {
        Some(Seq::empty())
    } else if s.len() < 4 {
        None
    } else if s.len() == 4 {
        dec_quad(s[0], s[1], s[2], s[3])
    } else if s[2] == '=' || s[3] == '=' {
        None
    } else {
        match (dec_quad(s[0], s[1], s[2], s[3]), b64_decode_spec(s.skip(4))) {
            (Some(x), Some(y)) => Some(x + y),
            _ => None,
        }
    }
}

/// Decoding inverts encoding.
pub proof fn lemma_b64_round_trip(b: Seq<u8>)
    ensures
        b64_decode_spec(b64_encode_spec(b)) == Some(b),
    decreases b.len(),
{
    let s = b64_encode_spec(b);
    if b.len() == 0 {
        assert(b =~= Seq::<u8>::empty());
    } else if b.len() == 1 {
        let a = b[0];
        lemma_b64_char_val(a as int / 4);
        lemma_b64_char_val((a as int % 4) * 16);
        assert(((a as int % 4) * 16) % 16 == 0 && ((a as int % 4) * 16) / 16 == a as int % 4)
            by (nonlinear_arith);
        assert(s.len() == 4);
        assert(dec_quad(s[0], s[1], s[2], s[3]) == Some(seq![a]));
        assert(b =~= seq![a]);
    } else if b.len() == 2 {
        let a = b[0];
        let bb = b[1];
        lemma_b64_char_val(a as int / 4);
        lemma_b64_char_val((a as int % 4) * 16 + bb as int / 16);
        lemma_b64_char_val((bb as int % 16) * 4);
        assert(((a as int % 4) * 16 + bb as int / 16) % 16 == bb as int / 16 && ((a as int % 4)
            * 16 + bb as int / 16) / 16 == a as int % 4) by (nonlinear_arith);
        assert(((bb as int % 16) * 4) % 4 == 0 && ((bb as int % 16) * 4) / 4 == bb as int % 16)
            by (nonlinear_arith);
        assert(s.len() == 4);
        assert(dec_quad(s[0], s[1], s[2], s[3]) == Some(seq![a, bb]));
        assert(b =~= seq![a, bb]);
    } else {
        let a = b[0];
        let bb = b[1];
        let c = b[2];
        lemma_b64_char_val(a as int / 4);
        lemma_b64_char_val((a as int % 4) * 16 + bb as int / 16);
        lemma_b64_char_val((bb as int % 16) * 4 + c as int / 64);
        lemma_b64_char_val(c as int % 64);
        assert(((a as int % 4) * 16 + bb as int / 16) % 16 == bb as int / 16 && ((a as int % 4)
            * 16 + bb as int / 16) / 16 == a as int % 4) by (nonlinear_arith);
        assert(((bb as int % 16) * 4 + c as int / 64) % 4 == c as int / 64 && ((bb as int % 16)
            * 4 + c as int / 64) / 4 == bb as int % 16) by (nonlinear_arith);
        lemma_b64_round_trip(b.skip(3));
        let rest = b64_encode_spec(b.skip(3));
        assert(s == enc3(a, bb, c) + rest);
        assert(s.len() == 4 + rest.len());
        assert(s[0] == enc3(a, bb, c)[0] && s[1] == enc3(a, bb, c)[1] && s[2] == enc3(a, bb, c)[2]
            && s[3] == enc3(a, bb, c)[3]);
        assert(dec_quad(s[0], s[1], s[2], s[3]) == Some(seq![a, bb, c]));
        if b.len() == 3 {
            assert(b.skip(3) =~= Seq::<u8>::empty());
            assert(rest =~= Seq::<char>::empty());
            assert(s.len() == 4);
            assert(b =~= seq![a, bb, c]);
        } else {
            assert(rest.len() > 0);
            assert(s.len() > 4);
            assert(s.skip(4) =~= rest);
            assert(seq![a, bb, c] + b.skip(3) =~= b);
        }
    }
}

/// The standard-alphabet character for `v`, executable form.
fn enc_char(v: u8) -> (c: char)
    requires
        v < 64,
    ensures
        c == b64_char(v as int),
{
    if v < 26 {
        (65 + v) as char
    } else if v < 52 {
        (71 + v) as char
    } else if v < 62 {
        (v - 4) as char
    } else if v == 62 {
        assert('+' as u32 == 43);
        '+'
    } else {
        assert('/' as u32 == 47);
        '/'
    }
}

/// The six-bit value of `c`, or `None` outside the alphabet.
fn val_of_char(c: char) -> (r: Option<u8>)
    ensures
        match r {
            Some(v) => v < 64 && b64_val(c) == v as int,
            None => b64_val(c) < 0,
        },
{
    let u = c as u32;
    if 65 <= u && u <= 90 {
        Some((u - 65) as u8)
    } else if 97 <= u && u <= 122 {
        Some((u - 71) as u8)
    } else if 48 <= u && u <= 57 {
        Some((u + 4) as u8)
    } else if u == 43 {
        Some(62)
    } else if u == 47 {
        Some(63)
    } else {
        None
    }
}

/// Encodes `b` as base64 text with padding.
pub fn b64_encode(b: &Vec<u8>) -> (out: Vec<char>)
    ensures
        out@ == b64_encode_spec(b@),
{
    let bl = b.len();
    let mut out: Vec<char> = Vec::new();
    let mut i: usize = 0;
    assert(b@.skip(0) =~= b@);
    while bl - i >= 3
        invariant
            bl == b@.len(),
            0 <= i <= bl,
            b64_encode_spec(b@) == out@ + b64_encode_spec(b@.skip(i as int)),
        decreases bl - i,
    {
        let ghost tail = b@.skip(i as int);
        let a = b[i];
        let x = b[i + 1];
        let y = b[i + 2];
        proof {
            assert(tail[0] == a && tail[1] == x && tail[2] == y);
            assert(tail.skip(3) =~= b@.skip(i + 3));
        }
        out.push(enc_char(a / 4));
        out.push(enc_char((a % 4) * 16 + x / 16));
        out.push(enc_char((x % 16) * 4 + y / 64));
        out.push(enc_char(y % 64));
        proof {
            assert(out@ =~= (old_out(out@, 4)) + enc3(a, x, y)) by {
                assert(enc3(a, x, y).len() == 4);
            }
        }
        i += 3;
        assert(b64_encode_spec(b@) == out@ + b64_encode_spec(b@.skip(i as int)));
    }
    let ghost tail = b@.skip(i as int);
    if bl - i == 1 {
        let a = b[i];
        assert(tail[0] == a && tail.len() == 1);
        out.push(enc_char(a / 4));
        out.push(enc_char((a % 4) * 16));
        out.push('=');
        out.push('=');
        assert(out@ =~= old_out(out@, 4) + enc1(a));
    } else if bl - i == 2 {
        let a = b[i];
        let x = b[i + 1];
        assert(tail[0] == a && tail[1] == x && tail.len() == 2);
        out.push(enc_char(a / 4));
        out.push(enc_char((a % 4) * 16 + x / 16));
        out.push(enc_char((x % 16) * 4));
        out.push('=');
        assert(out@ =~= old_out(out@, 4) + enc2(a, x));
    } else {
        assert(tail =~= Seq::<u8>::empty());
        assert(out@ + Seq::<char>::empty() =~= out@);
    }
    out
}

/// The sequence `s` without its last `k` elements; a helper for stating
/// what a run of pushes appended.
pub open spec fn old_out(s: Seq<char>, k: int) -> Seq<char> {
    s.take(s.len() - k)
}

/// Decodes strict base64 text with padding; fails on any other text.
pub fn b64_decode(s: &Vec<char>) -> (r: Option<Vec<u8>>)
    ensures
        match r {
            Some(v) => b64_decode_spec(s@) == Some(v@),
            None => b64_decode_spec(s@) is None,
        },
{
    let sl = s.len();
    if sl % 4 != 0 {
        proof {
            lemma_b64_decode_mod(s@);
        }
        return None;
    }
    let mut out: Vec<u8> = Vec::new();
    let mut i: usize = 0;
    assert(s@.skip(0) =~= s@);
    while i < sl
        invariant
            sl == s@.len(),
            sl % 4 == 0,
            i % 4 == 0,
            0 <= i <= sl,
            match b64_decode_spec(s@.skip(i as int)) {
                Some(y) => b64_decode_spec(s@) == Some(out@ + y),
                None => b64_decode_spec(s@) is None,
            },
        decreases sl - i,
    {
        let ghost tail = s@.skip(i as int);
        assert(tail.len() >= 4 && tail.len() % 4 == 0);
        let c0 = s[i];
        let c1 = s[i + 1];
        let c2 = s[i + 2];
        let c3 = s[i + 3];
        assert(tail[0] == c0 && tail[1] == c1 && tail[2] == c2 && tail[3] == c3);
        let v0 = match val_of_char(c0) {
            Some(v) => v,
            None => {
                return None;
            },
        };
        let v1 = match val_of_char(c1) {
            Some(v) => v,
            None => {
                return None;
            },
        };
        if sl - i > 4 {
            assert(tail.len() > 4);
            if c2 == '=' || c3 == '=' {
                return None;
            }
            let v2 = match val_of_char(c2) {
                Some(v) => v,
                None => {
                    return None;
                },
            };
            let v3 = match val_of_char(c3) {
                Some(v) => v,
                None => {
                    return None;
                },
            };
            proof {
                assert(b64_char(0) != '=') by {
                    lemma_b64_char_val(0);
                }
                assert(dec_quad(c0, c1, c2, c3) == Some(
                    seq![
                        (b64_val(c0) * 4 + b64_val(c1) / 16) as u8,
                        ((b64_val(c1) % 16) * 16 + b64_val(c2) / 4) as u8,
                        ((b64_val(c2) % 4) * 64 + b64_val(c3)) as u8,
                    ],
                ));
                assert(tail.skip(4) =~= s@.skip(i + 4));
            }
            out.push(v0 * 4 + v1 / 16);
            out.push((v1 % 16) * 16 + v2 / 4);
            out.push((v2 % 4) * 64 + v3);
            proof {
                let x = seq![
                    (b64_val(c0) * 4 + b64_val(c1) / 16) as u8,
                    ((b64_val(c1) % 16) * 16 + b64_val(c2) / 4) as u8,
                    ((b64_val(c2) % 4) * 64 + b64_val(c3)) as u8,
                ];
                assert(out@ =~= out@.take(out@.len() - 3) + x);
                if b64_decode_spec(s@.skip(i + 4)) is Some {
                    let y = b64_decode_spec(s@.skip(i + 4))->Some_0;
                    assert(b64_decode_spec(tail) == Some(x + y));
                    assert(out@.take(out@.len() - 3) + (x + y) =~= out@ + y);
                } else {
                    assert(b64_decode_spec(tail) is None);
                }
            }
            i += 4;
        } else {
            assert(tail.len() == 4);
            if c2 == '=' && c3 == '=' {
                if v1 % 16 != 0 {
                    return None;
                }
                out.push(v0 * 4 + v1 / 16);
                proof {
                    assert(dec_quad(c0, c1, c2, c3) == Some(
                        seq![(b64_val(c0) * 4 + b64_val(c1) / 16) as u8],
                    ));
                    assert(out@ =~= out@.take(out@.len() - 1) + seq![
                        (b64_val(c0) * 4 + b64_val(c1) / 16) as u8,
                    ]);
                }
            } else if c3 == '=' {
                let v2 = match val_of_char(c2) {
                    Some(v) => v,
                    None => {
                        return None;
                    },
                };
                if v2 % 4 != 0 {
                    return None;
                }
                out.push(v0 * 4 + v1 / 16);
                out.push((v1 % 16) * 16 + v2 / 4);
                proof {
                    let x = seq![
                        (b64_val(c0) * 4 + b64_val(c1) / 16) as u8,
                        ((b64_val(c1) % 16) * 16 + b64_val(c2) / 4) as u8,
                    ];
                    assert(dec_quad(c0, c1, c2, c3) == Some(x));
                    assert(out@ =~= out@.take(out@.len() - 2) + x);
                }
            } else {
                let v2 = match val_of_char(c2) {
                    Some(v) => v,
                    None => {
                        return None;
                    },
                };
                let v3 = match val_of_char(c3) {
                    Some(v) => v,
                    None => {
                        return None;
                    },
                };
                out.push(v0 * 4 + v1 / 16);
                out.push((v1 % 16) * 16 + v2 / 4);
                out.push((v2 % 4) * 64 + v3);
                proof {
                    let x = seq![
                        (b64_val(c0) * 4 + b64_val(c1) / 16) as u8,
                        ((b64_val(c1) % 16) * 16 + b64_val(c2) / 4) as u8,
                        ((b64_val(c2) % 4) * 64 + b64_val(c3)) as u8,
                    ];
                    assert(dec_quad(c0, c1, c2, c3) == Some(x));
                    assert(out@ =~= out@.take(out@.len() - 3) + x);
                }
            }
            i += 4;
            assert(s@.skip(i as int) =~= Seq::<char>::empty());
        }
    }
    assert(s@.skip(sl as int) =~= Seq::<char>::empty());
    assert(out@ + Seq::<u8>::empty() =~= out@);
    Some(out)
}

/// A length not a multiple of four never decodes.
pub proof fn lemma_b64_decode_mod(s: Seq<char>)
    requires
        s.len() % 4 != 0,
    ensures
        b64_decode_spec(s) is None,
    decreases s.len(),
{
    if s.len() > 4 && !(s[2] == '=' || s[3] == '=') {
        lemma_b64_decode_mod(s.skip(4));
    }
}

} // verus!
