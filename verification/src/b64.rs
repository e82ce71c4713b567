//! base64url without padding, the alphabet the token wire format uses.
//!
//! Both directions are written here and verified against each other: the
//! decoder is proved to invert the encoder on every byte sequence.
use vstd::prelude::*;

verus! {

/// The base64url alphabet byte for a 6-bit value:
/// 'A'..'Z', 'a'..'z', '0'..'9', '-', '_'.
pub open spec fn b64_byte(v: int) -> u8
    recommends
        0 <= v < 64,
{
    if v < 26 {
        (65 + v) as u8
    } else if v < 52 {
        (71 + v) as u8
    } else if v < 62 {
        (v - 4) as u8
    } else if v == 62 {
        45u8
    } else {
        95u8
    }
}

/// The 6-bit value of a base64url alphabet byte; 64 marks a byte outside
/// the alphabet.
pub open spec fn b64_value(b: u8) -> u8 {
    if 65 <= b <= 90 {
        (b - 65) as u8
    } else if 97 <= b <= 122 {
        (b - 71) as u8
    } else if 48 <= b <= 57 {
        (b + 4) as u8
    } else if b == 45 {
        62u8
    } else if b == 95 {
        63u8
    } else {
        64u8
    }
}

/// Whether a byte belongs to the base64url alphabet.
pub open spec fn is_b64_byte(b: u8) -> bool {
    b64_value(b) != 64
}

/// First output byte of a decoded group.
pub open spec fn dec0(a: u8, b: u8) -> u8 {
    (b64_value(a) << 2) | (b64_value(b) >> 4)
}

/// Second output byte of a decoded group.
pub open spec fn dec1(b: u8, c: u8) -> u8 {
    ((b64_value(b) & 15) << 4) | (b64_value(c) >> 2)
}

/// Third output byte of a decoded group.
pub open spec fn dec2(c: u8, d: u8) -> u8 {
    ((b64_value(c) & 3) << 6) | b64_value(d)
}

/// base64url encoding without padding: 3 input bytes become 4 alphabet
/// bytes; a tail of 1 or 2 bytes becomes 2 or 3.
pub open spec fn b64_encode_spec(s: Seq<u8>) -> Seq<u8>
    decreases s.len(),
{
    if s.len() == 0 {
        Seq::empty()
    } else if s.len() == 1 {
        seq![
            b64_byte((s[0] >> 2) as int),
            b64_byte(((s[0] & 3) << 4) as int),
        ]
    } else if s.len() == 2 {
        seq![
            b64_byte((s[0] >> 2) as int),
            b64_byte((((s[0] & 3) << 4) | (s[1] >> 4)) as int),
            b64_byte(((s[1] & 15) << 2) as int),
        ]
    } else {
        seq![
            b64_byte((s[0] >> 2) as int),
            b64_byte((((s[0] & 3) << 4) | (s[1] >> 4)) as int),
            b64_byte((((s[1] & 15) << 2) | (s[2] >> 6)) as int),
            b64_byte((s[2] & 63) as int),
        ] + b64_encode_spec(s.skip(3))
    }
}

/// base64url decoding: groups of 4 alphabet bytes become 3 output bytes; a
/// tail of 2 or 3 alphabet bytes becomes 1 or 2; a tail of 1 byte, or any
/// byte outside the alphabet, rejects the input.
pub open spec fn b64_decode_spec(s: Seq<u8>) -> Option<Seq<u8>>
    decreases s.len(),
{
    if s.len() == 0 {
        Some(Seq::empty())
    } else if s.len() == 1 {
        None
    } else if s.len() == 2 {
        if is_b64_byte(s[0]) && is_b64_byte(s[1]) {
            Some(seq![dec0(s[0], s[1])])
        } else {
            None
        }
    } else if s.len() == 3 {
        if is_b64_byte(s[0]) && is_b64_byte(s[1]) && is_b64_byte(s[2]) {
            Some(seq![dec0(s[0], s[1]), dec1(s[1], s[2])])
        } else {
            None
        }
    } else {
        if is_b64_byte(s[0]) && is_b64_byte(s[1]) && is_b64_byte(s[2]) && is_b64_byte(s[3]) {
            match b64_decode_spec(s.skip(4)) {
                Some(rest) => Some(seq![dec0(s[0], s[1]), dec1(s[1], s[2]), dec2(s[2], s[3])] + rest),
                None => None,
            }
        } else {
            None
        }
    }
}

/// An alphabet byte round-trips through its 6-bit value, and is never the
/// dot that separates token parts.
pub proof fn lemma_b64_byte_value(v: int)
    requires
        0 <= v < 64,
    ensures
        is_b64_byte(b64_byte(v)),
        b64_value(b64_byte(v)) == v,
        b64_byte(v) != 46,
{
}

/// Decoding inverts encoding on every byte sequence.
pub proof fn lemma_b64_round_trip(s: Seq<u8>)
    ensures
        b64_decode_spec(b64_encode_spec(s)) == Some(s),
    decreases s.len(),
{
    let e = b64_encode_spec(s);
    if s.len() == 0 {
        assert(s =~= Seq::<u8>::empty());
    } else if s.len() == 1 {
        let v0 = (s[0] >> 2) as int;
        let v1 = ((s[0] & 3) << 4) as int;
        let x = s[0];
        assert(0 <= (x >> 2) < 64 && 0 <= ((x & 3) << 4) < 64) by (bit_vector);
        lemma_b64_byte_value(v0);
        lemma_b64_byte_value(v1);
        assert((((x >> 2) << 2) | (((x & 3) << 4) >> 4)) == x) by (bit_vector);
        assert(dec0(e[0], e[1]) == s[0]);
        assert(Some(seq![s[0]]) =~= Some(s));
    } else if s.len() == 2 {
        let v0 = (s[0] >> 2) as int;
        let v1 = (((s[0] & 3) << 4) | (s[1] >> 4)) as int;
        let v2 = ((s[1] & 15) << 2) as int;
        let x = s[0];
        let y = s[1];
        assert(0 <= (x >> 2) < 64 && 0 <= (((x & 3) << 4) | (y >> 4)) < 64
            && 0 <= ((y & 15) << 2) < 64) by (bit_vector);
        lemma_b64_byte_value(v0);
        lemma_b64_byte_value(v1);
        lemma_b64_byte_value(v2);
        assert((((x >> 2) << 2) | ((((x & 3) << 4) | (y >> 4)) >> 4)) == x
            && (((((((x & 3) << 4) | (y >> 4))) & 15) << 4) | (((y & 15) << 2) >> 2)) == y)
            by (bit_vector);
        assert(dec0(e[0], e[1]) == s[0]);
        assert(dec1(e[1], e[2]) == s[1]);
        assert(Some(seq![s[0], s[1]]) =~= Some(s));
    } else {
        let v0 = (s[0] >> 2) as int;
        let v1 = (((s[0] & 3) << 4) | (s[1] >> 4)) as int;
        let v2 = (((s[1] & 15) << 2) | (s[2] >> 6)) as int;
        let v3 = (s[2] & 63) as int;
        let x = s[0];
        let y = s[1];
        let z = s[2];
        assert(0 <= (x >> 2) < 64 && 0 <= (((x & 3) << 4) | (y >> 4)) < 64
            && 0 <= (((y & 15) << 2) | (z >> 6)) < 64 && 0 <= (z & 63) < 64) by (bit_vector);
        lemma_b64_byte_value(v0);
        lemma_b64_byte_value(v1);
        lemma_b64_byte_value(v2);
        lemma_b64_byte_value(v3);
        assert((((x >> 2) << 2) | ((((x & 3) << 4) | (y >> 4)) >> 4)) == x
            && ((((((x & 3) << 4) | (y >> 4)) & 15) << 4) | (((((y & 15) << 2) | (z >> 6)) >> 2))) == y
            && ((((((y & 15) << 2) | (z >> 6)) & 3) << 6) | (z & 63)) == z)
            by (bit_vector);
        let rest = b64_encode_spec(s.skip(3));
        lemma_b64_round_trip(s.skip(3));
        assert(e.len() >= 4);
        assert(e.skip(4) =~= rest);
        assert(dec0(e[0], e[1]) == s[0]);
        assert(dec1(e[1], e[2]) == s[1]);
        assert(dec2(e[2], e[3]) == s[2]);
        assert(Some(seq![s[0], s[1], s[2]] + s.skip(3)) =~= Some(s));
    }
}

/// Every byte an encoding produces lies in the alphabet; in particular no
/// encoding holds a dot.
pub proof fn lemma_b64_encode_alphabet(s: Seq<u8>)
    ensures
        forall|i: int|
            0 <= i < b64_encode_spec(s).len() ==> #[trigger] is_b64_byte(b64_encode_spec(s)[i])
                && b64_encode_spec(s)[i] != 46,
    decreases s.len(),
{
    let e = b64_encode_spec(s);
    if s.len() == 0 {
    } else if s.len() == 1 {
        let v0 = (s[0] >> 2) as int;
        let v1 = ((s[0] & 3) << 4) as int;
        let x = s[0];
        assert((x >> 2) < 64 && ((x & 3) << 4) < 64) by (bit_vector);
        lemma_b64_byte_value(v0);
        lemma_b64_byte_value(v1);
    } else if s.len() == 2 {
        let v0 = (s[0] >> 2) as int;
        let v1 = (((s[0] & 3) << 4) | (s[1] >> 4)) as int;
        let v2 = ((s[1] & 15) << 2) as int;
        let x = s[0];
        let y = s[1];
        assert((x >> 2) < 64 && (((x & 3) << 4) | (y >> 4)) < 64 && ((y & 15) << 2) < 64)
            by (bit_vector);
        lemma_b64_byte_value(v0);
        lemma_b64_byte_value(v1);
        lemma_b64_byte_value(v2);
    } else {
        let v0 = (s[0] >> 2) as int;
        let v1 = (((s[0] & 3) << 4) | (s[1] >> 4)) as int;
        let v2 = (((s[1] & 15) << 2) | (s[2] >> 6)) as int;
        let v3 = (s[2] & 63) as int;
        let x = s[0];
        let y = s[1];
        let z = s[2];
        assert((x >> 2) < 64 && (((x & 3) << 4) | (y >> 4)) < 64
            && (((y & 15) << 2) | (z >> 6)) < 64 && (z & 63) < 64) by (bit_vector);
        lemma_b64_byte_value(v0);
        lemma_b64_byte_value(v1);
        lemma_b64_byte_value(v2);
        lemma_b64_byte_value(v3);
        lemma_b64_encode_alphabet(s.skip(3));
        assert forall|i: int| 0 <= i < e.len() implies #[trigger] is_b64_byte(e[i]) && e[i] != 46 by {
            if i >= 4 {
                assert(e[i] == b64_encode_spec(s.skip(3))[i - 4]);
            }
        }
    }
}

/// The alphabet byte for a 6-bit value.
fn b64_byte_exec(v: u8) -> (r: u8)
    requires
        v < 64,
    ensures
        r == b64_byte(v as int),
{
    if v < 26 {
        65 + v
    } else if v < 52 {
        71 + v
    } else if v < 62 {
        v - 4
    } else if v == 62 {
        45
    } else {
        95
    }
}

/// The 6-bit value of an alphabet byte, 64 for a byte outside the alphabet.
fn b64_value_exec(b: u8) -> (r: u8)
    ensures
        r == b64_value(b),
{
    if 65 <= b && b <= 90 {
        b - 65
    } else if 97 <= b && b <= 122 {
        b - 71
    } else if 48 <= b && b <= 57 {
        b + 4
    } else if b == 45 {
        62
    } else if b == 95 {
        63
    } else {
        64
    }
}

/// base64url-encode a byte sequence, without padding.
pub fn b64_encode(input: &Vec<u8>) -> (r: Vec<u8>)
    ensures
        r@ == b64_encode_spec(input@),
{
    let n = input.len();
    let mut out: Vec<u8> = Vec::new();
    let mut i: usize = 0;
    assert(input@.skip(0) =~= input@);
    while n - i >= 3
        invariant
            i <= n,
            n == input@.len(),
            b64_encode_spec(input@) == out@ + b64_encode_spec(input@.skip(i as int)),
        decreases n - i,
    {
        let b0 = input[i];
        let b1 = input[i + 1];
        let b2 = input[i + 2];
        proof {
            let rem = input@.skip(i as int);
            assert(rem.len() >= 3);
            assert(rem[0] == b0 && rem[1] == b1 && rem[2] == b2);
            assert(rem.skip(3) =~= input@.skip(i + 3));
            assert((b0 >> 2) < 64 && (((b0 & 3) << 4) | (b1 >> 4)) < 64
                && ((((b1 & 15) << 2)) | (b2 >> 6)) < 64 && (b2 & 63) < 64) by (bit_vector);
        }
        out.push(b64_byte_exec(b0 >> 2));
        out.push(b64_byte_exec(((b0 & 3) << 4) | (b1 >> 4)));
        out.push(b64_byte_exec(((b1 & 15) << 2) | (b2 >> 6)));
        out.push(b64_byte_exec(b2 & 63));
        i = i + 3;
        proof {
            assert(b64_encode_spec(input@) == out@ + b64_encode_spec(input@.skip(i as int)));
        }
    }
    if n - i == 1 {
        let b0 = input[i];
        proof {
            let rem = input@.skip(i as int);
            assert(rem.len() == 1 && rem[0] == b0);
            assert((b0 >> 2) < 64 && ((b0 & 3) << 4) < 64) by (bit_vector);
        }
        out.push(b64_byte_exec(b0 >> 2));
        out.push(b64_byte_exec((b0 & 3) << 4));
    } else if n - i == 2 {
        let b0 = input[i];
        let b1 = input[i + 1];
        proof {
            let rem = input@.skip(i as int);
            assert(rem.len() == 2 && rem[0] == b0 && rem[1] == b1);
            assert((b0 >> 2) < 64 && (((b0 & 3) << 4) | (b1 >> 4)) < 64
                && ((b1 & 15) << 2) < 64) by (bit_vector);
        }
        out.push(b64_byte_exec(b0 >> 2));
        out.push(b64_byte_exec(((b0 & 3) << 4) | (b1 >> 4)));
        out.push(b64_byte_exec((b1 & 15) << 2));
    } else {
        proof {
            assert(input@.skip(i as int).len() == 0);
        }
    }
    proof {
        assert(out@ =~= b64_encode_spec(input@));
    }
    out
}

/// base64url-decode a byte sequence; rejects bytes outside the alphabet and
/// lengths that no encoding produces.
pub fn b64_decode(input: &Vec<u8>) -> (r: Option<Vec<u8>>)
    ensures
        match r {
            Some(v) => b64_decode_spec(input@) == Some(v@),
            None => b64_decode_spec(input@) is None,
        },
{
    let n = input.len();
    let mut out: Vec<u8> = Vec::new();
    let mut i: usize = 0;
    assert(input@.skip(0) =~= input@);
    while n - i >= 4
        invariant
            i <= n,
            n == input@.len(),
            forall|rest: Seq<u8>|
                b64_decode_spec(input@.skip(i as int)) == Some(rest) ==> b64_decode_spec(input@)
                    == Some(out@ + rest),
            b64_decode_spec(input@.skip(i as int)) is None ==> b64_decode_spec(input@) is None,
        decreases n - i,
    {
        let c0 = b64_value_exec(input[i]);
        let c1 = b64_value_exec(input[i + 1]);
        let c2 = b64_value_exec(input[i + 2]);
        let c3 = b64_value_exec(input[i + 3]);
        let ghost rem = input@.skip(i as int);
        proof {
            assert(rem.len() >= 4);
            assert(rem[0] == input@[i as int] && rem[1] == input@[i + 1] && rem[2] == input@[i + 2]
                && rem[3] == input@[i + 3]);
            assert(rem.skip(4) =~= input@.skip(i + 4));
        }
        if c0 == 64 || c1 == 64 || c2 == 64 || c3 == 64 {
            proof {
                assert(b64_decode_spec(rem) is None);
            }
            return None;
        }
        let ghost prev_out = out@;
        out.push((c0 << 2) | (c1 >> 4));
        out.push(((c1 & 15) << 4) | (c2 >> 2));
        out.push(((c2 & 3) << 6) | c3);
        i = i + 4;
        proof {
            let chunk = seq![dec0(rem[0], rem[1]), dec1(rem[1], rem[2]), dec2(rem[2], rem[3])];
            assert(out@ =~= prev_out + chunk);
            assert forall|rest: Seq<u8>|
                b64_decode_spec(input@.skip(i as int)) == Some(rest) implies b64_decode_spec(input@)
                == Some(out@ + rest) by {
                assert(b64_decode_spec(rem) == Some(chunk + rest));
                assert(b64_decode_spec(input@) == Some(prev_out + (chunk + rest)));
                assert(prev_out + (chunk + rest) =~= out@ + rest);
            }
            assert(b64_decode_spec(input@.skip(i as int)) is None ==> b64_decode_spec(rem) is None);
        }
    }
    let rem_len = n - i;
    let ghost rem = input@.skip(i as int);
    if rem_len == 0 {
        proof {
            assert(b64_decode_spec(rem) == Some(Seq::<u8>::empty()));
            assert(out@ + Seq::<u8>::empty() =~= out@);
        }
        Some(out)
    } else if rem_len == 2 {
        let c0 = b64_value_exec(input[i]);
        let c1 = b64_value_exec(input[i + 1]);
        proof {
            assert(rem.len() == 2 && rem[0] == input@[i as int] && rem[1] == input@[i + 1]);
        }
        if c0 == 64 || c1 == 64 {
            return None;
        }
        let ghost prev_out = out@;
        out.push((c0 << 2) | (c1 >> 4));
        proof {
            assert(b64_decode_spec(rem) == Some(seq![dec0(rem[0], rem[1])]));
            assert(b64_decode_spec(input@) == Some(prev_out + seq![dec0(rem[0], rem[1])]));
            assert(prev_out + seq![dec0(rem[0], rem[1])] =~= out@);
        }
        Some(out)
    } else if rem_len == 3 {
        let c0 = b64_value_exec(input[i]);
        let c1 = b64_value_exec(input[i + 1]);
        let c2 = b64_value_exec(input[i + 2]);
        proof {
            assert(rem.len() == 3 && rem[0] == input@[i as int] && rem[1] == input@[i + 1]
                && rem[2] == input@[i + 2]);
        }
        if c0 == 64 || c1 == 64 || c2 == 64 {
            return None;
        }
        let ghost prev_out = out@;
        out.push((c0 << 2) | (c1 >> 4));
        out.push(((c1 & 15) << 4) | (c2 >> 2));
        proof {
            let chunk = seq![dec0(rem[0], rem[1]), dec1(rem[1], rem[2])];
            assert(b64_decode_spec(rem) == Some(chunk));
            assert(b64_decode_spec(input@) == Some(prev_out + chunk));
            assert(prev_out + chunk =~= out@);
        }
        Some(out)
    } else {
        proof {
            assert(rem.len() == 1);
        }
        None
    }
}

} // verus!
