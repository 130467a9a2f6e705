//! Variable-length integer groups, length-prefixed text and fixed-width
//! values: the byte-level codec the wire protocol is built from.
//!
//! Integers travel as little-endian base-128 groups of their two's-complement
//! bit pattern: each byte carries seven value bits, and its high bit says
//! whether another group follows.

use vstd::prelude::*;

use crate::errors::PacketError;

use vstd::utf8::decode_utf8;
use vstd::utf8::encode_utf8;
use vstd::utf8::valid_utf8;

verus! {

/// 128 raised to `e`: the weight of the `e`-th seven-bit group.
pub open spec fn pow128(e: nat) -> nat
    decreases e,
{
    if e == 0 {
        1
    } else {
        128 * pow128((e - 1) as nat)
    }
}

/// Canonical group encoding of a non-negative value: seven bits per byte,
/// high bit set on every byte but the last.
pub open spec fn vbytes(n: nat) -> Seq<u8>
    decreases n,
{
    if n < 128 {
        seq![n as u8]
    } else {
        seq![(128 + (n % 128)) as u8] + vbytes(n / 128)
    }
}

/// The value carried by a sequence of groups, each contributing its low
/// seven bits, least significant group first.
pub open spec fn vval(s: Seq<u8>) -> nat
    decreases s.len(),
{
    if s.len() == 0 {
        0
    } else {
        ((s[0] % 128) + 128 * vval(s.drop_first())) as nat
    }
}

/// Index of the first group without the continuation bit among the first
/// `max` bytes, if any.
pub open spec fn term_index(s: Seq<u8>, max: int) -> Option<int>
    decreases max,
{
    if max <= 0 || s.len() == 0 {
        None
    } else if s[0] < 128 {
        Some(0)
    } else {
        match term_index(s.drop_first(), max - 1) {
            None => None,
            Some(i) => Some(1 + i),
        }
    }
}

/// The two's-complement bit pattern of a 32-bit value, as a natural number.
pub open spec fn u32_bits_of_i32(v: i32) -> nat {
    if v >= 0 {
        v as nat
    } else {
        (v + 0x1_0000_0000) as nat
    }
}

/// The 32-bit value whose two's-complement bit pattern is `n`.
pub open spec fn i32_of_u32_bits(n: nat) -> i32
    recommends
        n < 0x1_0000_0000,
{
    if n < 0x8000_0000 {
        n as i32
    } else {
        (n - 0x1_0000_0000) as i32
    }
}

/// Write a 32-bit integer
#[verifier::loop_isolation(false)]
pub fn write_varint(value: i32, packet: &mut Vec<u8>)
    ensures
        final(packet)@ == old(packet)@ + vbytes(u32_bits_of_i32(value)),
{
    let mut n: u32 = if value >= 0 {
        value as u32
    } else {
        ((value as i64) + 0x1_0000_0000) as u32
    };
    assert(n == u32_bits_of_i32(value));
    let ghost n0: nat = n as nat;
    let ghost orig: Seq<u8> = packet@;
    let ghost mut prefix: Seq<u8> = Seq::empty();
    loop
        invariant
            packet@ == orig + prefix,
            vbytes(n0) == prefix + vbytes(n as nat),
        decreases n,
    {
        if n < 128 {
            packet.push(n as u8);
            proof {
                assert(vbytes(n0) =~= prefix.push(n as u8));
                assert(packet@ =~= orig + vbytes(n0));
            }
            return ;
        }
        let b: u8 = (n % 128) as u8 + 128;
        packet.push(b);
        proof {
            assert(vbytes(n as nat) == seq![b] + vbytes((n as nat) / 128));
            assert((n as nat) / 128 == (n / 128) as nat);
            assert(vbytes(n0) =~= prefix.push(b) + vbytes((n / 128) as nat));
            prefix = prefix.push(b);
        }
        n = n / 128;
    }
}

/// What reading a 32-bit variable-length integer from the front of `s`
/// yields: the value and the count of bytes consumed, or the exact error.
/// At most five groups may carry a 32-bit value; a sixth continuation group
/// is `Overlong`, and a buffer that ends while every byte so far asks for
/// more is `Truncated`.
pub open spec fn spec_read_varint(s: Seq<u8>) -> Result<(i32, int), PacketError> {
    match term_index(s, 5) {
        Some(i) => Ok((i32_of_u32_bits(vval(s.take(i + 1)) % 0x1_0000_0000), i + 1)),
        None => if s.len() >= 5 {
            Err(PacketError::Overlong)
        } else {
            Err(PacketError::Truncated)
        },
    }
}

/// The two's-complement bit pattern of a 64-bit value, as a natural number.
pub open spec fn u64_bits_of_i64(v: i64) -> nat {
    if v >= 0 {
        v as nat
    } else {
        (v + 0x1_0000_0000_0000_0000) as nat
    }
}

/// The 64-bit value whose two's-complement bit pattern is `n`.
pub open spec fn i64_of_u64_bits(n: nat) -> i64
    recommends
        n < 0x1_0000_0000_0000_0000,
{
    if n < 0x8000_0000_0000_0000 {
        n as i64
    } else {
        (n - 0x1_0000_0000_0000_0000) as i64
    }
}

/// What reading a 64-bit variable-length integer from the front of `s`
/// yields; as [`spec_read_varint`], with a ten-group bound.
pub open spec fn spec_read_varlong(s: Seq<u8>) -> Result<(i64, int), PacketError> {
    match term_index(s, 10) {
        Some(i) => Ok((i64_of_u64_bits(vval(s.take(i + 1)) % 0x1_0000_0000_0000_0000), i + 1)),
        None => if s.len() >= 10 {
            Err(PacketError::Overlong)
        } else {
            Err(PacketError::Truncated)
        },
    }
}

/// Group weights are at least one.
proof fn lemma_pow128_pos(e: nat)
    ensures
        pow128(e) >= 1,
    decreases e,
{
    if e > 0 {
        lemma_pow128_pos((e - 1) as nat);
    }
}

/// Group weights grow with the group index.
proof fn lemma_pow128_mono(a: nat, b: nat)
    requires
        a <= b,
    ensures
        pow128(a) <= pow128(b),
    decreases b,
{
    if a < b {
        lemma_pow128_mono(a, (b - 1) as nat);
        lemma_pow128_pos((b - 1) as nat);
    }
}

/// Appending one group raises the carried value by its seven bits at the
/// next group weight.
proof fn lemma_vval_push(s: Seq<u8>, b: u8)
    ensures
        vval(s.push(b)) == vval(s) + (b % 128) * pow128(s.len()),
    decreases s.len(),
{
    if s.len() == 0 {
        assert(s.push(b) =~= seq![b]);
        assert(seq![b].drop_first() =~= Seq::<u8>::empty());
        assert(s.push(b)[0] == b);
        assert(vval(s.push(b)) == (b % 128) + 128 * vval(seq![b].drop_first()));
        assert(pow128(0) == 1);
        assert(vval(s.push(b)) == vval(s) + (b % 128) * pow128(s.len()));
    } else {
        assert(s.push(b).drop_first() =~= s.drop_first().push(b));
        lemma_vval_push(s.drop_first(), b);
        assert(s.drop_first().len() == (s.len() - 1) as nat);
        assert(128 * ((b % 128) * pow128((s.len() - 1) as nat)) == (b % 128) * pow128(s.len()))
            by (nonlinear_arith)
            requires
                s.len() >= 1,
                pow128(s.len()) == 128 * pow128((s.len() - 1) as nat),
        ;
        assert(s.push(b)[0] == s[0]);
        assert(vval(s.push(b)) == (s[0] % 128) + 128 * vval(s.drop_first().push(b)));
        assert(vval(s) == (s[0] % 128) + 128 * vval(s.drop_first()));
        assert(128 * (vval(s.drop_first()) + (b % 128) * pow128((s.len() - 1) as nat)) == 128
            * vval(s.drop_first()) + 128 * ((b % 128) * pow128((s.len() - 1) as nat)));
        assert(vval(s.push(b)) == vval(s) + (b % 128) * pow128(s.len()));
    }
}

/// Where the terminating group sits, and what the bytes before it look like.
pub(crate) proof fn lemma_term_index(s: Seq<u8>, max: int)
    ensures
        match term_index(s, max) {
            Some(i) => 0 <= i < s.len() && i < max && s[i] < 128 && (forall|j: int|
                0 <= j < i ==> s[j] >= 128),
            None => forall|j: int| 0 <= j < s.len() && j < max ==> s[j] >= 128,
        },
    decreases max,
{
    if max <= 0 || s.len() == 0 {
    } else if s[0] < 128 {
    } else {
        lemma_term_index(s.drop_first(), max - 1);
        assert(forall|j: int| 1 <= j < s.len() ==> s[j] == s.drop_first()[j - 1]);
    }
}

/// A byte without the continuation bit, preceded only by bytes with it,
/// is the terminating group.
proof fn lemma_term_index_at(s: Seq<u8>, max: int, i: int)
    requires
        0 <= i < s.len(),
        i < max,
        s[i] < 128,
        forall|j: int| 0 <= j < i ==> s[j] >= 128,
    ensures
        term_index(s, max) == Some(i),
{
    lemma_term_index(s, max);
    match term_index(s, max) {
        Some(t) => {
            if t < i {
                assert(s[t] >= 128);
            } else if t > i {
                assert(s[i] >= 128);
            }
        },
        None => {
            assert(s[i] >= 128);
        },
    }
}

/// Removes the first `k` bytes of `data`, keeping the rest in order.
pub(crate) fn drain_front(data: &mut Vec<u8>, k: usize)
    requires
        k <= old(data)@.len(),
    ensures
        final(data)@ == old(data)@.skip(k as int),
{
    let tail = data.split_off(k);
    *data = tail;
    assert(data@ =~= old(data)@.skip(k as int));
}

/// Decodes a 32-bit variable-length integer from `data[start..end]` without
/// consuming anything, returning the value and the count of bytes it took.
#[verifier::loop_isolation(false)]
pub(crate) fn peek_varint(data: &Vec<u8>, start: usize, end: usize) -> (r: Result<
    (i32, usize),
    PacketError,
>)
    requires
        start <= end <= data@.len(),
    ensures
        match spec_read_varint(data@.subrange(start as int, end as int)) {
            Ok((v, k)) => r matches Ok(p) && p.0 == v && p.1 == k && k <= end - start,
            Err(e) => r matches Err(e2) && e2 == e,
        },
{
    let ghost s = data@.subrange(start as int, end as int);
    let mut i: usize = 0;
    let mut acc: u64 = 0;
    let mut pw: u64 = 1;
    while i < 5
        invariant
            i <= 5,
            pw == pow128(i as nat),
            pw <= 0x8_0000_0000,
            i <= end - start,
            acc == vval(s.take(i as int)),
            acc < pw,
            forall|j: int| 0 <= j < i ==> s[j] >= 128,
        decreases 5 - i,
    {
        if i >= end - start {
            proof {
                lemma_term_index(s, 5);
                if term_index(s, 5) is Some {
                    let t = term_index(s, 5)->Some_0;
                    assert(s[t] >= 128);
                }
            }
            return Err(PacketError::Truncated);
        }
        let b = data[start + i];
        assert(b == s[i as int]);
        let group: u64 = (b % 128) as u64;
        proof {
            assert(group * pw < 128 * pw) by (nonlinear_arith)
                requires
                    group < 128,
                    pw >= 1,
            ;
            assert(s.take(i + 1) =~= s.take(i as int).push(s[i as int]));
            lemma_vval_push(s.take(i as int), s[i as int]);
        }
        acc = acc + group * pw;
        if b < 128 {
            proof {
                lemma_term_index_at(s, 5, i as int);
            }
            let w: u32 = (acc % 0x1_0000_0000) as u32;
            let v: i32 = if w < 0x8000_0000 {
                w as i32
            } else {
                ((w as i64) - 0x1_0000_0000) as i32
            };
            assert(v == i32_of_u32_bits(vval(s.take(i + 1)) % 0x1_0000_0000));
            return Ok((v, i + 1));
        }
        proof {
            assert(acc < 128 * pw) by (nonlinear_arith)
                requires
                    acc - group * pw < pw,
                    group < 128,
                    pw >= 1,
                    group * pw < 128 * pw,
            ;
        }
        proof {
            lemma_pow128_mono(i as nat + 1, 5);
            assert(pow128(5) == 0x8_0000_0000) by {
                reveal_with_fuel(pow128, 6);
            }
        }
        pw = pw * 128;
        i = i + 1;
    }
    proof {
        lemma_term_index(s, 5);
        if term_index(s, 5) is Some {
            let t = term_index(s, 5)->Some_0;
            assert(s[t] >= 128);
        }
        assert(s.len() >= 5);
    }
    Err(PacketError::Overlong)
}

/// Read a 32-bit integer, consuming its bytes from the front of `data` only
/// on success.
pub fn read_varint(data: &mut Vec<u8>) -> (r: Result<i32, PacketError>)
    ensures
        match spec_read_varint(old(data)@) {
            Ok((v, k)) => r matches Ok(v2) && v2 == v && final(data)@ == old(data)@.skip(k),
            Err(e) => r matches Err(e2) && e2 == e && final(data)@ == old(data)@,
        },
{
    assert(data@.subrange(0, data@.len() as int) =~= data@);
    proof {
        lemma_term_index(data@, 5);
    }
    let len = data.len();
    match peek_varint(data, 0, len) {
        Ok((v, k)) => {
            drain_front(data, k);
            Ok(v)
        },
        Err(e) => Err(e),
    }
}

/// Write a 64-bit integer
#[verifier::loop_isolation(false)]
pub fn write_varlong(value: i64, packet: &mut Vec<u8>)
    ensures
        final(packet)@ == old(packet)@ + vbytes(u64_bits_of_i64(value)),
{
    let mut n: u64 = if value >= 0 {
        value as u64
    } else {
        ((value as i128) + 0x1_0000_0000_0000_0000) as u64
    };
    assert(n == u64_bits_of_i64(value));
    let ghost n0: nat = n as nat;
    let ghost orig: Seq<u8> = packet@;
    let ghost mut prefix: Seq<u8> = Seq::empty();
    loop
        invariant
            packet@ == orig + prefix,
            vbytes(n0) == prefix + vbytes(n as nat),
        decreases n,
    {
        if n < 128 {
            packet.push(n as u8);
            proof {
                assert(vbytes(n0) =~= prefix.push(n as u8));
                assert(packet@ =~= orig + vbytes(n0));
            }
            return ;
        }
        let b: u8 = (n % 128) as u8 + 128;
        packet.push(b);
        proof {
            assert(vbytes(n as nat) == seq![b] + vbytes((n as nat) / 128));
            assert((n as nat) / 128 == (n / 128) as nat);
            assert(vbytes(n0) =~= prefix.push(b) + vbytes((n / 128) as nat));
            prefix = prefix.push(b);
        }
        n = n / 128;
    }
}

/// Decodes a 64-bit variable-length integer from `data[start..end]` without
/// consuming anything, returning the value and the count of bytes it took.
#[verifier::loop_isolation(false)]
fn peek_varlong(data: &Vec<u8>, start: usize, end: usize) -> (r: Result<(i64, usize), PacketError>)
    requires
        start <= end <= data@.len(),
    ensures
        match spec_read_varlong(data@.subrange(start as int, end as int)) {
            Ok((v, k)) => r matches Ok(p) && p.0 == v && p.1 == k,
            Err(e) => r matches Err(e2) && e2 == e,
        },
{
    let ghost s = data@.subrange(start as int, end as int);
    let mut i: usize = 0;
    let mut acc: u128 = 0;
    let mut pw: u128 = 1;
    while i < 10
        invariant
            i <= 10,
            pw == pow128(i as nat),
            pw <= 0x40_0000_0000_0000_0000,
            i <= end - start,
            acc == vval(s.take(i as int)),
            acc < pw,
            forall|j: int| 0 <= j < i ==> s[j] >= 128,
        decreases 10 - i,
    {
        if i >= end - start {
            proof {
                lemma_term_index(s, 10);
                if term_index(s, 10) is Some {
                    let t = term_index(s, 10)->Some_0;
                    assert(s[t] >= 128);
                }
            }
            return Err(PacketError::Truncated);
        }
        let b = data[start + i];
        assert(b == s[i as int]);
        let group: u128 = (b % 128) as u128;
        proof {
            assert(group * pw < 128 * pw) by (nonlinear_arith)
                requires
                    group < 128,
                    pw >= 1,
            ;
            assert(s.take(i + 1) =~= s.take(i as int).push(s[i as int]));
            lemma_vval_push(s.take(i as int), s[i as int]);
        }
        acc = acc + group * pw;
        if b < 128 {
            proof {
                lemma_term_index_at(s, 10, i as int);
            }
            let w: u64 = (acc % 0x1_0000_0000_0000_0000) as u64;
            let v: i64 = if w < 0x8000_0000_0000_0000 {
                w as i64
            } else {
                ((w as i128) - 0x1_0000_0000_0000_0000) as i64
            };
            assert(v == i64_of_u64_bits(vval(s.take(i + 1)) % 0x1_0000_0000_0000_0000));
            return Ok((v, i + 1));
        }
        proof {
            assert(acc < 128 * pw) by (nonlinear_arith)
                requires
                    acc - group * pw < pw,
                    group < 128,
                    pw >= 1,
                    group * pw < 128 * pw,
            ;
            lemma_pow128_mono(i as nat + 1, 10);
            assert(pow128(10) == 0x40_0000_0000_0000_0000) by {
                reveal_with_fuel(pow128, 11);
            }
        }
        pw = pw * 128;
        i = i + 1;
    }
    proof {
        lemma_term_index(s, 10);
        if term_index(s, 10) is Some {
            let t = term_index(s, 10)->Some_0;
            assert(s[t] >= 128);
        }
        assert(s.len() >= 10);
    }
    Err(PacketError::Overlong)
}

/// Read a 64-bit integer, consuming its bytes from the front of `data` only
/// on success.
pub fn read_varlong(data: &mut Vec<u8>) -> (r: Result<i64, PacketError>)
    ensures
        match spec_read_varlong(old(data)@) {
            Ok((v, k)) => r matches Ok(v2) && v2 == v && final(data)@ == old(data)@.skip(k),
            Err(e) => r matches Err(e2) && e2 == e && final(data)@ == old(data)@,
        },
{
    assert(data@.subrange(0, data@.len() as int) =~= data@);
    proof {
        lemma_term_index(data@, 10);
    }
    let len = data.len();
    match peek_varlong(data, 0, len) {
        Ok((v, k)) => {
            drain_front(data, k);
            Ok(v)
        },
        Err(e) => Err(e),
    }
}

/// A proper prefix of an encoded 32-bit value never reads as a whole one:
/// every byte it has still asks for another group.
pub(crate) proof fn lemma_varint_incomplete(s: Seq<u8>, n: nat)
    requires
        n < 0x1_0000_0000,
        s.len() < vbytes(n).len(),
        forall|j: int| 0 <= j < s.len() ==> s[j] == vbytes(n)[j],
    ensures
        spec_read_varint(s) == Err::<(i32, int), PacketError>(PacketError::Truncated),
{
    lemma_vbytes_shape(n);
    assert(pow128(5) == 0x8_0000_0000) by {
        reveal_with_fuel(pow128, 6);
    }
    lemma_vbytes_len(n, 5);
    lemma_term_index(s, 5);
    if term_index(s, 5) is Some {
        let t = term_index(s, 5)->Some_0;
        assert(s[t] >= 128);
    }
}

/// The encoding always ends with its only terminating group.
proof fn lemma_vbytes_shape(n: nat)
    ensures
        vbytes(n).len() >= 1,
        vbytes(n).last() < 128,
        forall|j: int| 0 <= j < vbytes(n).len() - 1 ==> vbytes(n)[j] >= 128,
    decreases n,
{
    if n < 128 {
    } else {
        lemma_vbytes_shape(n / 128);
        assert(forall|j: int|
            1 <= j < vbytes(n).len() ==> vbytes(n)[j] == vbytes(n / 128)[j - 1]);
        assert(vbytes(n).last() == vbytes(n / 128).last());
    }
}

/// A value below the `k`-th group weight encodes into at most `k` groups.
proof fn lemma_vbytes_len(n: nat, k: nat)
    requires
        n < pow128(k),
        k >= 1,
    ensures
        vbytes(n).len() <= k,
    decreases n,
{
    if n < 128 {
    } else {
        if k == 1 {
            assert(pow128(1) == 128) by {
                reveal_with_fuel(pow128, 2);
            }
        }
        assert(n / 128 < pow128((k - 1) as nat)) by (nonlinear_arith)
            requires
                n < 128 * pow128((k - 1) as nat),
        ;
        lemma_vbytes_len(n / 128, (k - 1) as nat);
    }
}

/// Decoding the groups of an encoded value gives the value back.
proof fn lemma_vval_vbytes(n: nat)
    ensures
        vval(vbytes(n)) == n,
    decreases n,
{
    if n < 128 {
        assert(seq![n as u8].drop_first() =~= Seq::<u8>::empty());
        assert(seq![n as u8][0] == n as u8);
        assert(vval(seq![n as u8]) == ((n as u8) % 128) + 128 * vval(
            seq![n as u8].drop_first(),
        ));
    } else {
        lemma_vval_vbytes(n / 128);
        assert(vbytes(n).drop_first() =~= vbytes(n / 128));
        assert(vbytes(n)[0] == (128 + (n % 128)) as u8);
        assert((128 + (n % 128)) as u8 % 128 == n % 128);
        assert(vval(vbytes(n)) == (n % 128) + 128 * vval(vbytes(n / 128)));
        vstd::arithmetic::div_mod::lemma_fundamental_div_mod(n as int, 128);
    }
}

/// Round trip for the 32-bit codec: reading an encoded value back from the
/// front of any buffer yields the value itself, consuming exactly its groups.
pub proof fn lemma_varint_round_trip(v: i32, rest: Seq<u8>)
    ensures
        ({
            let enc = vbytes(u32_bits_of_i32(v));
            &&& 1 <= enc.len() <= 5
            &&& spec_read_varint(enc + rest) == Ok::<(i32, int), PacketError>((
                v,
                enc.len() as int,
            ))
        }),
{
    let n = u32_bits_of_i32(v);
    let enc = vbytes(n);
    lemma_vbytes_shape(n);
    assert(pow128(5) == 0x8_0000_0000) by {
        reveal_with_fuel(pow128, 6);
    }
    lemma_vbytes_len(n, 5);
    let s = enc + rest;
    lemma_term_index_at(s, 5, enc.len() - 1);
    assert(s.take(enc.len() as int) =~= enc);
    lemma_vval_vbytes(n);
}

/// Round trip for the 64-bit codec.
pub proof fn lemma_varlong_round_trip(v: i64, rest: Seq<u8>)
    ensures
        ({
            let enc = vbytes(u64_bits_of_i64(v));
            &&& 1 <= enc.len() <= 10
            &&& spec_read_varlong(enc + rest) == Ok::<(i64, int), PacketError>((
                v,
                enc.len() as int,
            ))
        }),
{
    let n = u64_bits_of_i64(v);
    let enc = vbytes(n);
    lemma_vbytes_shape(n);
    assert(pow128(10) == 0x40_0000_0000_0000_0000) by {
        reveal_with_fuel(pow128, 11);
    }
    lemma_vbytes_len(n, 10);
    let s = enc + rest;
    lemma_term_index_at(s, 10, enc.len() - 1);
    assert(s.take(enc.len() as int) =~= enc);
    lemma_vval_vbytes(n);
}

/// What reading a length-prefixed UTF-8 text field from the front of `s`
/// yields: the decoded characters and the count of bytes consumed. A negative
/// declared length can never become readable and is `Malformed`; too few
/// remaining bytes are `Truncated`; bytes that are not UTF-8 are
/// `InvalidText`.
pub open spec fn spec_read_string(s: Seq<u8>) -> Result<(Seq<char>, int), PacketError> {
    match spec_read_varint(s) {
        Ok((l, k)) => if l < 0 {
            Err(PacketError::Malformed)
        } else if s.len() - k < l {
            Err(PacketError::Truncated)
        } else if valid_utf8(s.subrange(k, k + l)) {
            Ok((decode_utf8(s.subrange(k, k + l)), k + l))
        } else {
            Err(PacketError::InvalidText)
        },
        Err(e) => Err(e),
    }
}

/// The wire form of a text field: the UTF-8 byte length as a variable-length
/// integer, then the UTF-8 bytes themselves.
pub open spec fn spec_encode_string(t: Seq<char>) -> Seq<u8> {
    vbytes(encode_utf8(t).len()) + encode_utf8(t)
}

/// Relies on `String::from_utf8`: it succeeds exactly on input that is valid
/// UTF-8 and returns the string those bytes encode.
#[verifier::external_body]
fn from_utf8_vec(bytes: Vec<u8>) -> (r: Option<String>)
    ensures
        match r {
            Some(s) => valid_utf8(bytes@) && s@ == decode_utf8(bytes@),
            None => !valid_utf8(bytes@),
        },
{
    String::from_utf8(bytes).ok()
}

/// Read a UTF-8 string, consuming its bytes from the front of `data` only
/// on success.
#[verifier::loop_isolation(false)]
pub fn read_string(data: &mut Vec<u8>) -> (r: Result<String, PacketError>)
    ensures
        match spec_read_string(old(data)@) {
            Ok((t, k)) => r matches Ok(s2) && s2@ == t && final(data)@ == old(data)@.skip(k),
            Err(e) => r matches Err(e2) && e2 == e && final(data)@ == old(data)@,
        },
{
    let ghost s0 = data@;
    assert(data@.subrange(0, data@.len() as int) =~= data@);
    proof {
        lemma_term_index(data@, 5);
    }
    let len_total = data.len();
    let (l, k) = match peek_varint(data, 0, len_total) {
        Ok(p) => p,
        Err(e) => {
            return Err(e);
        },
    };
    if l < 0 {
        return Err(PacketError::Malformed);
    }
    let l_us = l as usize;
    if data.len() - k < l_us {
        return Err(PacketError::Truncated);
    }
    let mut bytes: Vec<u8> = Vec::new();
    let mut j: usize = 0;
    while j < l_us
        invariant
            j <= l_us,
            bytes@ == s0.subrange(k as int, k + j),
        decreases l_us - j,
    {
        bytes.push(data[k + j]);
        proof {
            assert(bytes@ =~= s0.subrange(k as int, k + j + 1));
        }
        j = j + 1;
    }
    assert(bytes@ == s0.subrange(k as int, k + l));
    match from_utf8_vec(bytes) {
        Some(st) => {
            drain_front(data, k + l_us);
            Ok(st)
        },
        None => Err(PacketError::InvalidText),
    }
}

/// Write a UTF-8 string, prefixed with its length
pub fn write_string(value: &str, packet: &mut Vec<u8>)
    requires
        encode_utf8(value@).len() < 0x8000_0000,
    ensures
        final(packet)@ == old(packet)@ + spec_encode_string(value@),
{
    let bytes = value.as_bytes();
    let blen = bytes.len();
    write_varint(blen as i32, packet);
    packet.extend_from_slice(bytes);
    assert(packet@ =~= old(packet)@ + spec_encode_string(value@));
}

/// Round trip for text fields: reading an encoded string back from the front
/// of any buffer yields the same characters, consuming exactly its bytes.
/// (Strings whose UTF-8 form reaches two gibibytes cannot be framed at all:
/// their length does not fit the 32-bit prefix.)
pub proof fn lemma_string_round_trip(t: Seq<char>, rest: Seq<u8>)
    ensures
        encode_utf8(t).len() < 0x8000_0000 ==> spec_read_string(spec_encode_string(t) + rest)
            == Ok::<(Seq<char>, int), PacketError>((t, spec_encode_string(t).len() as int)),
{
    if encode_utf8(t).len() < 0x8000_0000 {
        let enc = encode_utf8(t);
        let bl = enc.len();
        let l_i32 = bl as i32;
        assert(u32_bits_of_i32(l_i32) == bl);
        lemma_varint_round_trip(l_i32, enc + rest);
        let lenb = vbytes(bl);
        assert(spec_encode_string(t) + rest =~= lenb + (enc + rest));
        let s = spec_encode_string(t) + rest;
        let k = lenb.len() as int;
        assert(s.subrange(k, k + bl) =~= enc);
        vstd::utf8::encode_utf8_valid_utf8(t);
        vstd::utf8::encode_utf8_decode_utf8(t);
    }
}

/// What reading a fixed-width 16-bit value (low byte first) from the front
/// of `s` yields.
pub open spec fn spec_read_u16(s: Seq<u8>) -> Result<(u16, int), PacketError> {
    if s.len() < 2 {
        Err(PacketError::Truncated)
    } else {
        Ok(((s[0] + 256 * s[1]) as u16, 2))
    }
}

/// Read a 16-bit unsigned short
pub fn read_u16(data: &mut Vec<u8>) -> (r: Result<u16, PacketError>)
    ensures
        match spec_read_u16(old(data)@) {
            Ok((v, k)) => r matches Ok(v2) && v2 == v && final(data)@ == old(data)@.skip(k),
            Err(e) => r matches Err(e2) && e2 == e && final(data)@ == old(data)@,
        },
{
    if data.len() < 2 {
        return Err(PacketError::Truncated);
    }
    let v: u16 = data[0] as u16 + 256 * (data[1] as u16);
    drain_front(data, 2);
    Ok(v)
}

} // verus!
