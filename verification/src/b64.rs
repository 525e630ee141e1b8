use vstd::prelude::*;

verus! {

/// The URL-safe base64 alphabet without padding, as JWS uses it: 'A'..'Z',
/// 'a'..'z', '0'..'9', '-' and '_', on bytes.

/// The alphabet byte of a 6-bit value.
pub open spec fn b64_char(v: u8) -> u8 {
    if v < 26 {
        (65 + v) as u8
    } else if v < 52 {
        (97 + (v - 26)) as u8
    } else if v < 62 {
        (48 + (v - 52)) as u8
    } else if v == 62 {
        45u8
    } else {
        95u8
    }
}

/// The 6-bit value of an alphabet byte, `None` outside the alphabet.
pub open spec fn b64_inv(c: u8) -> Option<u8> {
    if 65 <= c <= 90 {
        Some((c - 65) as u8)
    } else if 97 <= c <= 122 {
        Some((c - 97 + 26) as u8)
    } else if 48 <= c <= 57 {
        Some((c - 48 + 52) as u8)
    } else if c == 45 {
        Some(62u8)
    } else if c == 95 {
        Some(63u8)
    } else {
        None
    }
}

/// The base64url encoding of a byte string, three bytes to four characters,
/// with the final group shortened and unpadded.
pub open spec fn b64_encode(b: Seq<u8>) -> Seq<u8>
    decreases b.len(),
{
    if b.len() == 0 {
        Seq::<u8>::empty()
    } else if b.len() == 1 {
        seq![b64_char(b[0] / 4), b64_char(((b[0] % 4) * 16) as u8)]
    } else if b.len() == 2 {
        seq![
            b64_char(b[0] / 4),
            b64_char(((b[0] % 4) * 16 + b[1] / 16) as u8),
            b64_char(((b[1] % 16) * 4) as u8),
        ]
    } else {
        seq![
            b64_char(b[0] / 4),
            b64_char(((b[0] % 4) * 16 + b[1] / 16) as u8),
            b64_char(((b[1] % 16) * 4 + b[2] / 64) as u8),
            b64_char(b[2] % 64),
        ] + b64_encode(b.skip(3))
    }
}

/// The strict inverse: accepts exactly the strings `b64_encode` produces,
/// rejecting stray trailing bits, out-of-alphabet bytes and impossible
/// lengths.
pub open spec fn b64_decode(s: Seq<u8>) -> Option<Seq<u8>>
    decreases s.len(),
{
    if s.len() == 0 {
        Some(Seq::<u8>::empty())
    } else if s.len() == 1 {
        None
    } else if s.len() == 2 {
        match (b64_inv(s[0]), b64_inv(s[1])) {
            (Some(v0), Some(v1)) => if v1 % 16 == 0 {
                Some(seq![(v0 * 4 + v1 / 16) as u8])
            } else {
                None
            },
            _ => None,
        }
    } else if s.len() == 3 {
        match (b64_inv(s[0]), b64_inv(s[1]), b64_inv(s[2])) {
            (Some(v0), Some(v1), Some(v2)) => if v2 % 4 == 0 {
                Some(seq![(v0 * 4 + v1 / 16) as u8, ((v1 % 16) * 16 + v2 / 4) as u8])
            } else {
                None
            },
            _ => None,
        }
    } else {
        match (b64_inv(s[0]), b64_inv(s[1]), b64_inv(s[2]), b64_inv(s[3])) {
            (Some(v0), Some(v1), Some(v2), Some(v3)) => match b64_decode(s.skip(4)) {
                Some(rest) => Some(
                    seq![
                        (v0 * 4 + v1 / 16) as u8,
                        ((v1 % 16) * 16 + v2 / 4) as u8,
                        ((v2 % 4) * 64 + v3) as u8,
                    ] + rest,
                ),
                None => None,
            },
            _ => None,
        }
    }
}

/// The alphabet maps back to the value it encodes.
pub proof fn lemma_b64_inv(v: u8)
    requires
        v < 64,
    ensures
        b64_inv(b64_char(v)) == Some(v),
{
}

/// Encoded output stays inside the alphabet; in particular it never
/// contains a dot, the separator of the credential format.
pub proof fn lemma_encode_in_alphabet(b: Seq<u8>)
    ensures
        forall|i: int|
            0 <= i < b64_encode(b).len() ==> (#[trigger] b64_inv(b64_encode(b)[i])) is Some,
        forall|i: int| 0 <= i < b64_encode(b).len() ==> #[trigger] b64_encode(b)[i] != 46u8,
    decreases b.len(),
{
    if b.len() == 0 {
    } else if b.len() <= 2 {
    } else {
        lemma_encode_in_alphabet(b.skip(3));
        assert forall|i: int| 0 <= i < b64_encode(b).len() implies (#[trigger] b64_inv(
            b64_encode(b)[i],
        )) is Some && b64_encode(b)[i] != 46u8 by {
            if i >= 4 {
                assert(b64_encode(b)[i] == b64_encode(b.skip(3))[i - 4]);
                assert(b64_inv(b64_encode(b.skip(3))[i - 4]) is Some);
                assert(b64_encode(b.skip(3))[i - 4] != 46u8);
            }
        }
    }
}

/// Splitting a value into a quotient-remainder pair by a constant and
/// reading it back is the identity.
proof fn lemma_mul_add_div(x: int, y: int, d: int)
    requires
        d > 0,
        0 <= y < d,
        0 <= x,
    ensures
        (x * d + y) / d == x,
        (x * d + y) % d == y,
{
    vstd::arithmetic::div_mod::lemma_fundamental_div_mod_converse(x * d + y, d, x, y);
}

/// The three bytes of an encoded group are recovered exactly from its four
/// 6-bit values.
proof fn lemma_group_split(b0: u8, b1: u8, b2: u8)
    ensures
        ({
            let v0 = b0 / 4;
            let v1 = ((b0 % 4) * 16 + b1 / 16) as u8;
            let v2 = ((b1 % 16) * 4 + b2 / 64) as u8;
            let v3 = b2 % 64;
            v0 * 4 + v1 / 16 == b0 && (v1 % 16) * 16 + v2 / 4 == b1 && (v2 % 4) * 64 + v3 == b2
        }),
{
    lemma_mul_add_div(b0 as int % 4, b1 as int / 16, 16);
    lemma_mul_add_div(b1 as int % 16, b2 as int / 64, 4);
    vstd::arithmetic::div_mod::lemma_fundamental_div_mod(b0 as int, 4);
    vstd::arithmetic::div_mod::lemma_fundamental_div_mod(b1 as int, 16);
    vstd::arithmetic::div_mod::lemma_fundamental_div_mod(b2 as int, 64);
}

/// Decoding an encoding gives the bytes back.
pub proof fn lemma_b64_round_trip(b: Seq<u8>)
    ensures
        b64_decode(b64_encode(b)) == Some(b),
    decreases b.len(),
{
    let s = b64_encode(b);
    if b.len() == 0 {
        assert(b =~= Seq::<u8>::empty());
    } else if b.len() == 1 {
        lemma_b64_inv(b[0] / 4);
        lemma_b64_inv(((b[0] % 4) * 16) as u8);
        assert(b64_decode(s).unwrap() =~= b);
    } else if b.len() == 2 {
        lemma_b64_inv(b[0] / 4);
        lemma_b64_inv(((b[0] % 4) * 16 + b[1] / 16) as u8);
        lemma_b64_inv(((b[1] % 16) * 4) as u8);
        assert(b64_decode(s).unwrap() =~= b);
    } else {
        lemma_b64_round_trip(b.skip(3));
        lemma_b64_inv(b[0] / 4);
        lemma_b64_inv(((b[0] % 4) * 16 + b[1] / 16) as u8);
        lemma_b64_inv(((b[1] % 16) * 4 + b[2] / 64) as u8);
        lemma_b64_inv(b[2] % 64);
        lemma_group_split(b[0], b[1], b[2]);
        assert(s.len() >= 4);
        assert(s.skip(4) =~= b64_encode(b.skip(3)));
        assert(b64_decode(s).unwrap() =~= seq![b[0], b[1], b[2]] + b.skip(3));
        assert(seq![b[0], b[1], b[2]] + b.skip(3) =~= b);
    }
}

/// Appends the base64url encoding of `b` to `out`.
pub fn encode_into(b: &Vec<u8>, out: &mut Vec<u8>)
    ensures
        final(out)@ == old(out)@ + b64_encode(b@),
{
    let ghost gb = b@;
    proof {
        assert(gb.skip(0) =~= gb);
    }
    let n = b.len();
    let mut i: usize = 0;
    while n - i >= 3
        invariant
            i <= n,
            n == gb.len(),
            gb == b@,
            i % 3 == 0,
            old(out)@ + b64_encode(gb) == out@ + b64_encode(gb.skip(i as int)),
        decreases n - i,
    {
        proof {
            assert(gb.skip(i as int).len() >= 3);
            assert(gb.skip(i as int).skip(3) =~= gb.skip(i as int + 3));
        }
        let b0 = b[i];
        let b1 = b[i + 1];
        let b2 = b[i + 2];
        out.push(enc_byte(b0 / 4));
        out.push(enc_byte((b0 % 4) * 16 + b1 / 16));
        out.push(enc_byte((b1 % 16) * 4 + b2 / 64));
        out.push(enc_byte(b2 % 64));
        proof {
            assert(gb.skip(i as int)[0] == gb[i as int]);
            assert(gb.skip(i as int)[1] == gb[i as int + 1]);
            assert(gb.skip(i as int)[2] == gb[i as int + 2]);
            assert(out@ + b64_encode(gb.skip(i as int + 3)) =~= old(out)@ + b64_encode(gb));
        }
        i += 3;
    }
    if n - i == 1 {
        let b0 = b[i];
        out.push(enc_byte(b0 / 4));
        out.push(enc_byte((b0 % 4) * 16));
        proof {
            assert(gb.skip(i as int).len() == 1);
            assert(gb.skip(i as int)[0] == gb[i as int]);
            assert(out@ =~= old(out)@ + b64_encode(gb));
        }
    } else if n - i == 2 {
        let b0 = b[i];
        let b1 = b[i + 1];
        out.push(enc_byte(b0 / 4));
        out.push(enc_byte((b0 % 4) * 16 + b1 / 16));
        out.push(enc_byte((b1 % 16) * 4));
        proof {
            assert(gb.skip(i as int).len() == 2);
            assert(gb.skip(i as int)[0] == gb[i as int]);
            assert(gb.skip(i as int)[1] == gb[i as int + 1]);
            assert(out@ =~= old(out)@ + b64_encode(gb));
        }
    } else {
        proof {
            assert(gb.skip(i as int).len() == 0);
            assert(b64_encode(gb.skip(i as int)) =~= Seq::<u8>::empty());
            assert(out@ =~= old(out)@ + b64_encode(gb));
        }
    }
}

/// The alphabet byte of a 6-bit value.
fn enc_byte(v: u8) -> (r: u8)
    requires
        v < 64,
    ensures
        r == b64_char(v),
{
    if v < 26 {
        65 + v
    } else if v < 52 {
        97 + (v - 26)
    } else if v < 62 {
        48 + (v - 52)
    } else if v == 62 {
        45
    } else {
        95
    }
}

/// The 6-bit value of an alphabet byte.
fn dec_byte(c: u8) -> (r: Option<u8>)
    ensures
        r == b64_inv(c),
{
    if 65 <= c && c <= 90 {
        Some(c - 65)
    } else if 97 <= c && c <= 122 {
        Some(c - 97 + 26)
    } else if 48 <= c && c <= 57 {
        Some(c - 48 + 52)
    } else if c == 45 {
        Some(62)
    } else if c == 95 {
        Some(63)
    } else {
        None
    }
}

/// Decodes a base64url byte string strictly, as `b64_decode` describes.
pub fn decode(s: &Vec<u8>) -> (r: Option<Vec<u8>>)
    ensures
        match r {
            Some(v) => b64_decode(s@) == Some(v@),
            None => b64_decode(s@) is None,
        },
{
    let ghost gs = s@;
    proof {
        assert(gs.skip(0) =~= gs);
    }
    let n = s.len();
    let mut out: Vec<u8> = Vec::new();
    let mut i: usize = 0;
    while n - i >= 4
        invariant
            i <= n,
            n == gs.len(),
            gs == s@,
            i % 4 == 0,
            match b64_decode(gs) {
                Some(whole) => b64_decode(gs.skip(i as int)) is Some && whole == out@
                    + b64_decode(gs.skip(i as int)).unwrap(),
                None => b64_decode(gs.skip(i as int)) is None,
            },
        decreases n - i,
    {
        proof {
            assert(gs.skip(i as int).len() >= 4);
            assert(gs.skip(i as int).skip(4) =~= gs.skip(i as int + 4));
            assert(gs.skip(i as int)[0] == gs[i as int]);
            assert(gs.skip(i as int)[1] == gs[i as int + 1]);
            assert(gs.skip(i as int)[2] == gs[i as int + 2]);
            assert(gs.skip(i as int)[3] == gs[i as int + 3]);
        }
        let c0 = dec_byte(s[i]);
        let c1 = dec_byte(s[i + 1]);
        let c2 = dec_byte(s[i + 2]);
        let c3 = dec_byte(s[i + 3]);
        match (c0, c1, c2, c3) {
            (Some(v0), Some(v1), Some(v2), Some(v3)) => {
                out.push(v0 * 4 + v1 / 16);
                out.push((v1 % 16) * 16 + v2 / 4);
                out.push((v2 % 4) * 64 + v3);
                proof {
                    if b64_decode(gs) is Some {
                        assert(b64_decode(gs).unwrap() =~= out@ + b64_decode(
                            gs.skip(i as int + 4),
                        ).unwrap());
                    }
                }
            },
            _ => {
                return None;
            },
        }
        i += 4;
    }
    let rem = n - i;
    if rem == 0 {
        proof {
            assert(gs.skip(i as int).len() == 0);
            assert(b64_decode(gs.skip(i as int)) == Some(Seq::<u8>::empty()));
            if b64_decode(gs) is Some {
                assert(b64_decode(gs).unwrap() =~= out@);
            }
        }
        Some(out)
    } else if rem == 1 {
        None
    } else if rem == 2 {
        proof {
            assert(gs.skip(i as int).len() == 2);
            assert(gs.skip(i as int)[0] == gs[i as int]);
            assert(gs.skip(i as int)[1] == gs[i as int + 1]);
        }
        let c0 = dec_byte(s[i]);
        let c1 = dec_byte(s[i + 1]);
        match (c0, c1) {
            (Some(v0), Some(v1)) => {
                if v1 % 16 == 0 {
                    out.push(v0 * 4 + v1 / 16);
                    proof {
                        if b64_decode(gs) is Some {
                            assert(b64_decode(gs).unwrap() =~= out@);
                        }
                    }
                    Some(out)
                } else {
                    None
                }
            },
            _ => None,
        }
    } else {
        proof {
            assert(gs.skip(i as int).len() == 3);
            assert(gs.skip(i as int)[0] == gs[i as int]);
            assert(gs.skip(i as int)[1] == gs[i as int + 1]);
            assert(gs.skip(i as int)[2] == gs[i as int + 2]);
        }
        let c0 = dec_byte(s[i]);
        let c1 = dec_byte(s[i + 1]);
        let c2 = dec_byte(s[i + 2]);
        match (c0, c1, c2) {
            (Some(v0), Some(v1), Some(v2)) => {
                if v2 % 4 == 0 {
                    out.push(v0 * 4 + v1 / 16);
                    out.push((v1 % 16) * 16 + v2 / 4);
                    proof {
                        if b64_decode(gs) is Some {
                            assert(b64_decode(gs).unwrap() =~= out@);
                        }
                    }
                    Some(out)
                } else {
                    None
                }
            },
            _ => None,
        }
    }
}

} // verus!
