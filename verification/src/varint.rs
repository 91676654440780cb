use vstd::prelude::*;

verus! {

/// Error from decoding a variable-width integer at the front of a frame payload.
#[derive(Clone, Copy, Debug, PartialEq, Eq, Structural)]
pub enum DecodeError {
    /// The buffer ended before the whole header was present.
    Short,
}

/// Error from encoding: the value does not fit in the 62 bits the wire allows.
#[derive(Clone, Copy, Debug, PartialEq, Eq, Structural)]
pub enum EncodeError {
    BoundsExceeded,
}

/// 256 to the power `n`.
pub open spec fn pow256(n: nat) -> nat
    decreases n,
{
    if n == 0 {
        1
    } else {
        256 * pow256((n - 1) as nat)
    }
}

/// The big-endian value of a byte string.
pub open spec fn be_val(s: Seq<u8>) -> nat
    decreases s.len(),
{
    if s.len() == 0 {
        0
    } else {
        (be_val(s.drop_last()) * 256 + s.last()) as nat
    }
}

/// How many bytes a variable-width integer occupies, read off the 2-bit tag
/// in the top of its first byte: tags 0 to 3 give 1, 2, 4 and 8 bytes.
pub open spec fn vint_len(b0: u8) -> nat {
    if b0 / 64 == 0 {
        1nat
    } else if b0 / 64 == 1 {
        2nat
    } else if b0 / 64 == 2 {
        4nat
    } else {
        8nat
    }
}

/// The value of a whole encoding: the first byte with its tag masked off,
/// then the remaining bytes, big-endian.
pub open spec fn vint_value(s: Seq<u8>) -> nat
    recommends
        s.len() > 0,
{
    be_val(s.update(0, (s[0] % 64) as u8))
}

/// Decoding the variable-width integer at the front of `s`: its value and how
/// many bytes it took, or `None` when `s` is too short to hold the whole encoding.
pub open spec fn vint_decode(s: Seq<u8>) -> Option<(nat, nat)> {
    if s.len() == 0 {
        None
    } else if s.len() < vint_len(s[0]) {
        None
    } else {
        Some((vint_value(s.subrange(0, vint_len(s[0]) as int)), vint_len(s[0])))
    }
}

/// Appending a byte multiplies the big-endian value by 256 and adds the byte.
pub proof fn lemma_be_val_push(s: Seq<u8>, x: u8)
    ensures
        be_val(s.push(x)) == be_val(s) * 256 + x,
{
    assert(s.push(x).drop_last() =~= s);
}

/// `pow256` is monotone.
pub proof fn lemma_pow256_mono(a: nat, b: nat)
    requires
        a <= b,
    ensures
        pow256(a) <= pow256(b),
    decreases b,
{
    if a < b {
        lemma_pow256_mono(a, (b - 1) as nat);
        assert(pow256(b) == 256 * pow256((b - 1) as nat));
    }
}

/// The value of `pow256` at 7, the largest exponent a decoder meets.
pub proof fn lemma_pow256_7()
    ensures
        pow256(7) == 72057594037927936,
{
    reveal_with_fuel(pow256, 9);
}

/// `pow256` is positive.
pub proof fn lemma_pow256_positive(n: nat)
    ensures
        pow256(n) >= 1,
    decreases n,
{
    if n > 0 {
        lemma_pow256_positive((n - 1) as nat);
    }
}

/// Decode a variable-width unsigned integer from the front of `payload`.
///
/// On success the result carries the decoded value and how many bytes the
/// encoding occupied; the remaining bytes of `payload` are untouched.
/// Fails exactly when `payload` is too short to hold the whole encoding.
pub fn decode_u64(payload: &Vec<u8>) -> (r: Result<(u64, usize), DecodeError>)
    ensures
        match r {
            Ok((v, n)) => {
                &&& vint_decode(payload@) == Some((v as nat, n as nat))
                &&& 1 <= n <= payload@.len()
                &&& n as nat == vint_len(payload@[0])
                &&& v < 0x4000000000000000
            },
            Err(e) => {
                &&& vint_decode(payload@) is None
                &&& e == DecodeError::Short
            },
        },
{
    if payload.len() == 0 {
        return Err(DecodeError::Short);
    }
    let b0 = payload[0];
    let tag = b0 / 64;
    let n: usize = if tag == 0 {
        1
    } else if tag == 1 {
        2
    } else if tag == 2 {
        4
    } else {
        8
    };
    if payload.len() < n {
        return Err(DecodeError::Short);
    }
    let ghost masked: Seq<u8> = payload@.subrange(0, n as int).update(0, (payload@[0] % 64) as u8);
    let mut v: u64 = (b0 % 64) as u64;
    let mut i: usize = 1;
    proof {
        assert(masked.subrange(0, 1).drop_last() =~= Seq::<u8>::empty());
        assert(be_val(Seq::<u8>::empty()) == 0);
        assert(masked.subrange(0, 1).last() == masked[0]);
        assert(be_val(masked.subrange(0, 1)) == v);
        lemma_pow256_positive(0);
    }
    while i < n
        invariant
            1 <= i <= n,
            n <= 8,
            n <= payload@.len(),
            n as nat == vint_len(payload@[0]),
            masked == payload@.subrange(0, n as int).update(0, (payload@[0] % 64) as u8),
            v == be_val(masked.subrange(0, i as int)),
            v < 64 * pow256((i - 1) as nat),
        decreases n - i,
    {
        let b = payload[i];
        proof {
            let pre = masked.subrange(0, i as int);
            assert(masked.subrange(0, i + 1) =~= pre.push(masked[i as int]));
            assert(masked[i as int] == payload@[i as int]);
            lemma_be_val_push(pre, b);
            let p = pow256((i - 1) as nat);
            lemma_pow256_positive((i - 1) as nat);
            assert(v * 256 + b < 64 * (256 * p)) by (nonlinear_arith)
                requires
                    v < 64 * p,
                    b < 256,
                    p >= 1,
            ;
            assert(pow256(i as nat) == 256 * p);
            lemma_pow256_mono(i as nat, 7);
            lemma_pow256_7();
            assert(64 * pow256(i as nat) <= 64 * 72057594037927936) by (nonlinear_arith)
                requires
                    pow256(i as nat) <= 72057594037927936,
            ;
        }
        v = v * 256 + (b as u64);
        i = i + 1;
    }
    proof {
        assert(masked.subrange(0, n as int) =~= masked);
        lemma_pow256_mono((n - 1) as nat, 7);
        lemma_pow256_7();
        assert(64 * pow256((n - 1) as nat) <= 64 * 72057594037927936) by (nonlinear_arith)
            requires
                pow256((n - 1) as nat) <= 72057594037927936,
        ;
    }
    Ok((v, n))
}

/// A one-byte string's big-endian value is that byte.
proof fn lemma_be_val_single(x: u8)
    ensures
        be_val(seq![x]) == x,
{
    assert(seq![x].drop_last() =~= Seq::<u8>::empty());
    assert(be_val(Seq::<u8>::empty()) == 0);
}

/// The decoder reads only the encoding's own bytes: the payload that follows
/// a frame's header changes neither the value nor the width decoded.
pub proof fn lemma_vint_decode_prefix(s: Seq<u8>, t: Seq<u8>)
    requires
        vint_decode(s) is Some,
        s.is_prefix_of(t),
    ensures
        vint_decode(t) == vint_decode(s),
{
    let n = vint_len(s[0]);
    assert(t[0] == s[0]);
    assert(t.subrange(0, n as int) =~= s.subrange(0, n as int));
}

/// How many bytes the minimal encoding of `v` occupies.
pub open spec fn vint_encoded_len(v: u64) -> nat {
    if v < 64 {
        1nat
    } else if v < 16384 {
        2nat
    } else if v < 1073741824 {
        4nat
    } else {
        8nat
    }
}

/// Encode `v` as a variable-width unsigned integer, in the minimal width.
///
/// Decoding the result gives `v` back, consuming exactly the whole encoding:
/// what a publisher writes at the front of a frame is exactly the timestamp a
/// consumer reads. Values of 2^62 and above do not fit and are rejected.
pub fn encode_u64(v: u64) -> (r: Result<Vec<u8>, EncodeError>)
    ensures
        match r {
            Ok(b) => {
                &&& v < 0x4000000000000000
                &&& b@.len() == vint_encoded_len(v)
                &&& vint_decode(b@) == Some((v as nat, b@.len() as nat))
            },
            Err(e) => {
                &&& v >= 0x4000000000000000
                &&& e == EncodeError::BoundsExceeded
            },
        },
{
    let mut b: Vec<u8> = Vec::new();
    if v < 64 {
        b.push(v as u8);
        proof {
            let s = b@;
            assert(s =~= seq![v as u8]);
            lemma_be_val_single(v as u8);
            assert(s.update(0, (s[0] % 64) as u8) =~= s);
            assert(s.subrange(0, 1) =~= s);
        }
        Ok(b)
    } else if v < 16384 {
        b.push(64 + (v / 256) as u8);
        b.push((v % 256) as u8);
        proof {
            let s = b@;
            let m = s.update(0, (s[0] % 64) as u8);
            assert(s[0] == 64 + (v / 256) as u8);
            assert(s[0] % 64 == v / 256);
            assert(m =~= seq![(v / 256) as u8].push((v % 256) as u8));
            lemma_be_val_single((v / 256) as u8);
            lemma_be_val_push(seq![(v / 256) as u8], (v % 256) as u8);
            assert(be_val(m) == (v / 256) * 256 + v % 256);
            assert(s.subrange(0, 2) =~= s);
        }
        Ok(b)
    } else if v < 1073741824 {
        b.push(128 + (v / 16777216) as u8);
        b.push(((v / 65536) % 256) as u8);
        b.push(((v / 256) % 256) as u8);
        b.push((v % 256) as u8);
        proof {
            let s = b@;
            let m = s.update(0, (s[0] % 64) as u8);
            assert(s[0] / 64 == 2);
            assert(s[0] % 64 == v / 16777216);
            let m1 = seq![(v / 16777216) as u8];
            let m2 = m1.push(((v / 65536) % 256) as u8);
            let m3 = m2.push(((v / 256) % 256) as u8);
            assert(m =~= m3.push((v % 256) as u8));
            lemma_be_val_single((v / 16777216) as u8);
            lemma_be_val_push(m1, ((v / 65536) % 256) as u8);
            lemma_be_val_push(m2, ((v / 256) % 256) as u8);
            lemma_be_val_push(m3, (v % 256) as u8);
            vstd::arithmetic::div_mod::lemma_div_denominator(v as int, 65536, 256);
            assert(be_val(m2) == (v / 65536) as int);
            vstd::arithmetic::div_mod::lemma_div_denominator(v as int, 256, 256);
            assert(be_val(m3) == (v / 256) as int);
            assert(be_val(m) == v);
            assert(s.subrange(0, 4) =~= s);
        }
        Ok(b)
    } else if v < 0x4000000000000000 {
        b.push(192 + (v / 72057594037927936) as u8);
        b.push(((v / 281474976710656) % 256) as u8);
        b.push(((v / 1099511627776) % 256) as u8);
        b.push(((v / 4294967296) % 256) as u8);
        b.push(((v / 16777216) % 256) as u8);
        b.push(((v / 65536) % 256) as u8);
        b.push(((v / 256) % 256) as u8);
        b.push((v % 256) as u8);
        proof {
            let s = b@;
            let m = s.update(0, (s[0] % 64) as u8);
            assert(s[0] / 64 == 3);
            assert(s[0] % 64 == v / 72057594037927936);
            let m1 = seq![(v / 72057594037927936) as u8];
            let m2 = m1.push(((v / 281474976710656) % 256) as u8);
            let m3 = m2.push(((v / 1099511627776) % 256) as u8);
            let m4 = m3.push(((v / 4294967296) % 256) as u8);
            let m5 = m4.push(((v / 16777216) % 256) as u8);
            let m6 = m5.push(((v / 65536) % 256) as u8);
            let m7 = m6.push(((v / 256) % 256) as u8);
            assert(m =~= m7.push((v % 256) as u8));
            lemma_be_val_single((v / 72057594037927936) as u8);
            lemma_be_val_push(m1, ((v / 281474976710656) % 256) as u8);
            lemma_be_val_push(m2, ((v / 1099511627776) % 256) as u8);
            lemma_be_val_push(m3, ((v / 4294967296) % 256) as u8);
            lemma_be_val_push(m4, ((v / 16777216) % 256) as u8);
            lemma_be_val_push(m5, ((v / 65536) % 256) as u8);
            lemma_be_val_push(m6, ((v / 256) % 256) as u8);
            lemma_be_val_push(m7, (v % 256) as u8);
            vstd::arithmetic::div_mod::lemma_div_denominator(v as int, 281474976710656, 256);
            assert(be_val(m2) == (v / 281474976710656) as int);
            vstd::arithmetic::div_mod::lemma_div_denominator(v as int, 1099511627776, 256);
            assert(be_val(m3) == (v / 1099511627776) as int);
            vstd::arithmetic::div_mod::lemma_div_denominator(v as int, 4294967296, 256);
            assert(be_val(m4) == (v / 4294967296) as int);
            vstd::arithmetic::div_mod::lemma_div_denominator(v as int, 16777216, 256);
            assert(be_val(m5) == (v / 16777216) as int);
            vstd::arithmetic::div_mod::lemma_div_denominator(v as int, 65536, 256);
            assert(be_val(m6) == (v / 65536) as int);
            vstd::arithmetic::div_mod::lemma_div_denominator(v as int, 256, 256);
            assert(be_val(m7) == (v / 256) as int);
            assert(be_val(m) == v);
            assert(s.subrange(0, 8) =~= s);
        }
        Ok(b)
    } else {
        Err(EncodeError::BoundsExceeded)
    }
}

} // verus!
