//! 128-bit player identities, derived either from fresh randomness or
//! deterministically from a name, and printed in the canonical
//! `xxxxxxxx-xxxx-xxxx-xxxx-xxxxxxxxxxxx` hexadecimal form.

use vstd::prelude::*;

use vstd::string::StringExecFns;

verus! {

/// The digest that `md5::compute` assigns to the UTF-8 bytes of a name.
/// It depends on the name's characters alone.
pub uninterp spec fn md5_digest_of(name: Seq<char>) -> Seq<u8>;

/// Relies on `md5::compute`: a sixteen-byte digest fully determined by the
/// input bytes, and hence by the name's characters.
#[verifier::external_body]
fn md5_name_digest(name: &str) -> (r: [u8; 16])
    ensures
        r@ == md5_digest_of(name@),
{
    md5::compute(name.as_bytes()).0
}

/// Relies on `rand::thread_rng` and `rand::Rng::fill`: sixteen bytes of
/// randomness, of which nothing is promised.
#[verifier::external_body]
fn random_bytes_16() -> (r: [u8; 16]) {
    let mut bytes = [0u8; 16];
    rand::Rng::fill(&mut rand::thread_rng(), &mut bytes[..]);
    bytes
}

/// 256 raised to `e`: the weight of the `e`-th byte from the low end.
pub open spec fn pow256(e: nat) -> nat
    decreases e,
{
    if e == 0 {
        1
    } else {
        256 * pow256((e - 1) as nat)
    }
}

/// Byte weights are at least one.
proof fn lemma_pow256_pos(e: nat)
    ensures
        pow256(e) >= 1,
    decreases e,
{
    if e > 0 {
        lemma_pow256_pos((e - 1) as nat);
    }
}

/// Byte weights grow with the index.
proof fn lemma_pow256_mono(a: nat, b: nat)
    requires
        a <= b,
    ensures
        pow256(a) <= pow256(b),
    decreases b,
{
    if a < b {
        lemma_pow256_mono(a, (b - 1) as nat);
        lemma_pow256_pos((b - 1) as nat);
    }
}

/// The value of a byte string read most-significant byte first.
pub open spec fn be_val(s: Seq<u8>) -> nat
    decreases s.len(),
{
    if s.len() == 0 {
        0
    } else {
        (256 * be_val(s.drop_last()) + s.last()) as nat
    }
}

/// Big-endian values fit below the weight of the byte just past the end.
proof fn lemma_be_val_bound(s: Seq<u8>)
    ensures
        be_val(s) < pow256(s.len()),
    decreases s.len(),
{
    if s.len() > 0 {
        lemma_be_val_bound(s.drop_last());
    }
}

/// The hexadecimal digit for a value below sixteen.
pub open spec fn hex_digit(n: int) -> char {
    seq!['0', '1', '2', '3', '4', '5', '6', '7', '8', '9', 'a', 'b', 'c', 'd', 'e', 'f'][n]
}

/// The two hexadecimal digits of one byte, high nibble first.
pub open spec fn hex_pair(b: u8) -> Seq<char> {
    seq![hex_digit(b as int / 16), hex_digit(b as int % 16)]
}

/// The hexadecimal digits of a byte string, in order.
pub open spec fn hex_str(s: Seq<u8>) -> Seq<char>
    decreases s.len(),
{
    if s.len() == 0 {
        Seq::empty()
    } else {
        hex_str(s.drop_last()) + hex_pair(s.last())
    }
}

/// The canonical textual form of an identity: the sixteen bytes in hex,
/// in five dash-separated groups of 4, 2, 2, 2 and 6 bytes.
pub open spec fn uuid_chars(bs: Seq<u8>) -> Seq<char> {
    hex_str(bs.subrange(0, 4)) + seq!['-'] + hex_str(bs.subrange(4, 6)) + seq!['-'] + hex_str(
        bs.subrange(6, 8),
    ) + seq!['-'] + hex_str(bs.subrange(8, 10)) + seq!['-'] + hex_str(bs.subrange(10, 16))
}

/// Universally Unique Identifier struct
/// Stores the most and least significant bits
pub struct UUID {
    msb: u64,
    lsb: u64,
    bytes: [u8; 16],
}

impl View for UUID {
    type V = Seq<u8>;

    closed spec fn view(&self) -> Seq<u8> {
        self.bytes@
    }
}

impl UUID {
    /// The two halves carry the big-endian value of their eight bytes.
    pub closed spec fn wf(self) -> bool {
        &&& self.msb == be_val(self.bytes@.take(8))
        &&& self.lsb == be_val(self.bytes@.skip(8))
    }

    /// Generates random bytes to then be used to construct a new UUID
    pub fn new_rand() -> (r: Self)
        ensures
            r.wf(),
            r@.len() == 16,
    {
        let bytes = random_bytes_16();
        Self::from_bytes(&bytes)
    }

    /// Constructs a new UUID from the MD5 hash of `name`
    pub fn from_name(name: &str) -> (r: Self)
        ensures
            r.wf(),
            r@.len() == 16,
            r@ == md5_digest_of(name@),
    {
        let bytes = md5_name_digest(name);
        Self::from_bytes(&bytes)
    }

    /// Constructs a new UUID from a byte array
    #[verifier::loop_isolation(false)]
    pub fn from_bytes(data: &[u8; 16]) -> (r: Self)
        ensures
            r@ == data@,
            r.wf(),
    {
        let mut msb: u64 = 0;
        let mut lsb: u64 = 0;
        let mut i: usize = 0;
        while i < 8
            invariant
                i <= 8,
                msb == be_val(data@.take(i as int)),
            decreases 8 - i,
        {
            proof {
                lemma_be_val_bound(data@.take(i as int));
                lemma_pow256_mono(i as nat, 7);
                assert(pow256(7) == 0x100_0000_0000_0000) by {
                    reveal_with_fuel(pow256, 8);
                }
                assert(data@.take(i + 1).drop_last() =~= data@.take(i as int));
            }
            msb = msb * 256 + (data[i] as u64);
            i = i + 1;
        }
        let mut j: usize = 8;
        while j < 16
            invariant
                8 <= j <= 16,
                lsb == be_val(data@.subrange(8, j as int)),
            decreases 16 - j,
        {
            proof {
                lemma_be_val_bound(data@.subrange(8, j as int));
                lemma_pow256_mono((j - 8) as nat, 7);
                assert(pow256(7) == 0x100_0000_0000_0000) by {
                    reveal_with_fuel(pow256, 8);
                }
                assert(data@.subrange(8, j + 1).drop_last() =~= data@.subrange(8, j as int));
            }
            lsb = lsb * 256 + (data[j] as u64);
            j = j + 1;
        }
        proof {
            assert(data@.take(8) =~= data@.subrange(0, 8));
            assert(data@.skip(8) =~= data@.subrange(8, 16));
        }
        UUID { msb, lsb, bytes: *data }
    }

    /// A borrowed view of the sixteen identity bytes.
    pub fn as_bytes(&self) -> (r: &[u8; 16])
        ensures
            r@ == self@,
    {
        &self.bytes
    }

    /// Converts the UUID bytes to a UUID string
    /// with a format of:
    /// xxxxxxxx-xxxx-xxxx-xxxx-xxxxxxxxxxxx
    pub fn to_string(&self) -> (r: String)
        ensures
            r@ == uuid_chars(self@),
    {
        let mut out = String::new();
        push_hex(&mut out, &self.bytes, 0, 4);
        push_dash(&mut out);
        push_hex(&mut out, &self.bytes, 4, 6);
        push_dash(&mut out);
        push_hex(&mut out, &self.bytes, 6, 8);
        push_dash(&mut out);
        push_hex(&mut out, &self.bytes, 8, 10);
        push_dash(&mut out);
        push_hex(&mut out, &self.bytes, 10, 16);
        proof {
            assert(out@ =~= uuid_chars(self@));
        }
        out
    }
}

/// In name-derived offline mode the identity is a function of the username:
/// any two identities derived from equal usernames carry equal bytes.
pub proof fn lemma_name_identity_deterministic(a: UUID, b: UUID, name: Seq<char>)
    requires
        a@ == md5_digest_of(name),
        b@ == md5_digest_of(name),
    ensures
        a@ == b@,
{
}

/// One hexadecimal digit as a string slice.
fn hex_char_str(n: u8) -> (r: &'static str)
    requires
        n < 16,
    ensures
        r@ == seq![hex_digit(n as int)],
{
    let r: &'static str = match n {
        0 => "0",
        1 => "1",
        2 => "2",
        3 => "3",
        4 => "4",
        5 => "5",
        6 => "6",
        7 => "7",
        8 => "8",
        9 => "9",
        10 => "a",
        11 => "b",
        12 => "c",
        13 => "d",
        14 => "e",
        _ => "f",
    };
    proof {
        reveal_strlit("0");
        reveal_strlit("1");
        reveal_strlit("2");
        reveal_strlit("3");
        reveal_strlit("4");
        reveal_strlit("5");
        reveal_strlit("6");
        reveal_strlit("7");
        reveal_strlit("8");
        reveal_strlit("9");
        reveal_strlit("a");
        reveal_strlit("b");
        reveal_strlit("c");
        reveal_strlit("d");
        reveal_strlit("e");
        reveal_strlit("f");
        assert(r@ =~= seq![hex_digit(n as int)]);
    }
    r
}

/// Appends a dash.
fn push_dash(out: &mut String)
    ensures
        final(out)@ == old(out)@ + seq!['-'],
{
    out.append("-");
    proof {
        reveal_strlit("-");
        assert(out@ =~= old(out)@ + seq!['-']);
    }
}

/// Appends the hexadecimal digits of `bytes[from..to]`.
#[verifier::loop_isolation(false)]
fn push_hex(out: &mut String, bytes: &[u8; 16], from: usize, to: usize)
    requires
        from <= to <= 16,
    ensures
        final(out)@ == old(out)@ + hex_str(bytes@.subrange(from as int, to as int)),
{
    let mut i: usize = from;
    proof {
        assert(bytes@.subrange(from as int, from as int) =~= Seq::<u8>::empty());
    }
    while i < to
        invariant
            from <= i <= to,
            out@ == old(out)@ + hex_str(bytes@.subrange(from as int, i as int)),
        decreases to - i,
    {
        let b = bytes[i];
        out.append(hex_char_str(b / 16));
        out.append(hex_char_str(b % 16));
        proof {
            assert(bytes@.subrange(from as int, i + 1).drop_last() =~= bytes@.subrange(
                from as int,
                i as int,
            ));
            assert(bytes@.subrange(from as int, i + 1).last() == b);
            assert(out@ =~= old(out)@ + hex_str(bytes@.subrange(from as int, i + 1)));
        }
        i = i + 1;
    }
}

} // verus!
