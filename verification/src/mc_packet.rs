//! The wire frame: a declared length, a packet id, and a payload that a
//! handler reads field by field through a forward-only cursor.

use vstd::prelude::*;

use crate::errors::PacketError;
use crate::util::drain_front;
use crate::util::peek_varint;
use crate::util::spec_encode_string;
use crate::util::spec_read_string;
use crate::util::spec_read_u16;
use crate::util::spec_read_varint;
use crate::util::spec_read_varlong;
use crate::util::u32_bits_of_i32;
use crate::util::u64_bits_of_i64;
use crate::util::vbytes;
use crate::util::lemma_varint_incomplete;
use crate::util::lemma_varint_round_trip;
use crate::uuid::UUID;
use vstd::utf8::encode_utf8;

verus! {

/// The id of a packet on the wire: its group encoding of the 32-bit value.
pub open spec fn spec_id_bytes(id: i32) -> Seq<u8> {
    vbytes(u32_bits_of_i32(id))
}

/// The full wire form of a frame: the byte count of id plus payload as a
/// variable-length integer, then the id, then the payload. The declared
/// length is always recomputed from the parts, never taken from a caller.
pub open spec fn spec_frame(id: i32, payload: Seq<u8>) -> Seq<u8> {
    vbytes((spec_id_bytes(id).len() + payload.len()) as nat) + spec_id_bytes(id) + payload
}

/// What decoding one frame from the front of `s` yields: the declared
/// length, the id, the payload and the count of bytes consumed. A buffer
/// that merely ends too early is `NeedMoreData` and must be retried with
/// more input; a frame whose declared region cannot hold its id, or whose
/// declared length can never be satisfied, is `Malformed`.
pub open spec fn spec_parse(s: Seq<u8>) -> Result<(i32, i32, Seq<u8>, int), PacketError> {
    match spec_read_varint(s) {
        Ok((len, k)) => if len < 0 {
            Err(PacketError::Malformed)
        } else if s.len() - k < len {
            Err(PacketError::NeedMoreData)
        } else {
            let region = s.subrange(k, k + len);
            match spec_read_varint(region) {
                Ok((id, k2)) => Ok((len, id, region.skip(k2), k + len)),
                Err(_) => Err(PacketError::Malformed),
            }
        },
        Err(PacketError::Truncated) => Err(PacketError::NeedMoreData),
        Err(_) => Err(PacketError::Malformed),
    }
}

/// Uncompressed Minecraft packet consisting of:
/// - Packet length
/// - Packet id
/// - Packet data
#[derive(Debug)]
pub struct MCPacket {
    pub length: i32,
    pub id: i32,
    pub data: Vec<u8>,
}

impl MCPacket {
    /// Create a new packet for writing
    pub fn new(id: i32) -> (r: Self)
        ensures
            r.length == 0,
            r.id == id,
            r.data@ == Seq::<u8>::empty(),
    {
        MCPacket { length: 0, id, data: Vec::new() }
    }

    /// Build uncompressed packet
    pub fn finalize(&mut self) -> (r: Vec<u8>)
        requires
            old(self).data@.len() <= 0x7FFF_FF00,
        ensures
            *final(self) == *old(self),
            r@ == spec_frame(old(self).id, old(self).data@),
    {
        proof {
            lemma_varint_round_trip(old(self).id, Seq::<u8>::empty());
        }
        let mut id_bytes: Vec<u8> = Vec::new();
        crate::util::write_varint(self.id, &mut id_bytes);
        let total = self.data.len() + id_bytes.len();
        let mut out: Vec<u8> = Vec::new();
        crate::util::write_varint(total as i32, &mut out);
        out.extend_from_slice(id_bytes.as_slice());
        out.extend_from_slice(self.data.as_slice());
        proof {
            assert(out@ =~= spec_frame(old(self).id, old(self).data@));
        }
        out
    }

    /// Parse packet from bytes, consuming exactly one whole frame from the
    /// front of `data` on success and leaving `data` untouched otherwise.
    #[verifier::loop_isolation(false)]
    pub fn parse(data: &mut Vec<u8>) -> (r: Result<Self, PacketError>)
        ensures
            match spec_parse(old(data)@) {
                Ok((len, id, payload, consumed)) => r matches Ok(p) && p.length == len && p.id
                    == id && p.data@ == payload && final(data)@ == old(data)@.skip(consumed),
                Err(e) => r matches Err(e2) && e2 == e && final(data)@ == old(data)@,
            },
    {
        let ghost s0 = data@;
        assert(data@.subrange(0, data@.len() as int) =~= data@);
        let dlen = data.len();
        let (len, k) = match peek_varint(data, 0, dlen) {
            Ok(p) => p,
            Err(PacketError::Truncated) => {
                return Err(PacketError::NeedMoreData);
            },
            Err(_) => {
                return Err(PacketError::Malformed);
            },
        };
        if len < 0 {
            return Err(PacketError::Malformed);
        }
        let len_us = len as usize;
        if data.len() - k < len_us {
            return Err(PacketError::NeedMoreData);
        }
        let ghost region = s0.subrange(k as int, k + len);
        assert(region =~= data@.subrange(k as int, (k + len_us) as int));
        let (id, k2) = match peek_varint(data, k, k + len_us) {
            Ok(p) => p,
            Err(_) => {
                return Err(PacketError::Malformed);
            },
        };
        let mut payload: Vec<u8> = Vec::new();
        let mut j: usize = k + k2;
        proof {
            assert(payload@ =~= s0.subrange((k + k2) as int, (k + k2) as int));
        }
        while j < k + len_us
            invariant
                k + k2 <= j <= k + len_us,
                payload@ == s0.subrange((k + k2) as int, j as int),
            decreases k + len_us - j,
        {
            payload.push(data[j]);
            proof {
                assert(payload@ =~= s0.subrange((k + k2) as int, j + 1));
            }
            j = j + 1;
        }
        proof {
            assert(payload@ =~= region.skip(k2 as int));
        }
        drain_front(data, k + len_us);
        Ok(MCPacket { length: len, id, data: payload })
    }

    /// Read a 32-bit integer
    pub fn read_varint(&mut self) -> (r: Result<i32, PacketError>)
        ensures
            final(self).id == old(self).id,
            final(self).length == old(self).length,
            match spec_read_varint(old(self).data@) {
                Ok((v, k)) => r matches Ok(v2) && v2 == v && final(self).data@ == old(
                    self,
                ).data@.skip(k),
                Err(e) => r matches Err(e2) && e2 == e && final(self).data@ == old(self).data@,
            },
    {
        crate::util::read_varint(&mut self.data)
    }

    /// Write a 32-bit integer
    pub fn write_varint(&mut self, value: i32)
        ensures
            final(self).id == old(self).id,
            final(self).length == old(self).length,
            final(self).data@ == old(self).data@ + vbytes(u32_bits_of_i32(value)),
    {
        crate::util::write_varint(value, &mut self.data)
    }

    /// Read a 64-bit integer
    pub fn read_varlong(&mut self) -> (r: Result<i64, PacketError>)
        ensures
            final(self).id == old(self).id,
            final(self).length == old(self).length,
            match spec_read_varlong(old(self).data@) {
                Ok((v, k)) => r matches Ok(v2) && v2 == v && final(self).data@ == old(
                    self,
                ).data@.skip(k),
                Err(e) => r matches Err(e2) && e2 == e && final(self).data@ == old(self).data@,
            },
    {
        crate::util::read_varlong(&mut self.data)
    }

    /// Write a 64-bit integer
    pub fn write_varlong(&mut self, value: i64)
        ensures
            final(self).id == old(self).id,
            final(self).length == old(self).length,
            final(self).data@ == old(self).data@ + vbytes(u64_bits_of_i64(value)),
    {
        crate::util::write_varlong(value, &mut self.data)
    }

    /// Read a UTF-8 string
    pub fn read_string(&mut self) -> (r: Result<String, PacketError>)
        ensures
            final(self).id == old(self).id,
            final(self).length == old(self).length,
            match spec_read_string(old(self).data@) {
                Ok((t, k)) => r matches Ok(s2) && s2@ == t && final(self).data@ == old(
                    self,
                ).data@.skip(k),
                Err(e) => r matches Err(e2) && e2 == e && final(self).data@ == old(self).data@,
            },
    {
        crate::util::read_string(&mut self.data)
    }

    /// Write a UTF-8 string, prefixed with its length
    pub fn write_string(&mut self, value: &str)
        requires
            encode_utf8(value@).len() < 0x8000_0000,
        ensures
            final(self).id == old(self).id,
            final(self).length == old(self).length,
            final(self).data@ == old(self).data@ + spec_encode_string(value@),
    {
        crate::util::write_string(value, &mut self.data)
    }

    /// Read an 16-bit unsigned short
    pub fn read_unsigned_short(&mut self) -> (r: Result<u16, PacketError>)
        ensures
            final(self).id == old(self).id,
            final(self).length == old(self).length,
            match spec_read_u16(old(self).data@) {
                Ok((v, k)) => r matches Ok(v2) && v2 == v && final(self).data@ == old(
                    self,
                ).data@.skip(k),
                Err(e) => r matches Err(e2) && e2 == e && final(self).data@ == old(self).data@,
            },
    {
        crate::util::read_u16(&mut self.data)
    }

    /// Write UUID bytes
    pub fn write_uuid(&mut self, uuid: &UUID)
        ensures
            final(self).id == old(self).id,
            final(self).length == old(self).length,
            final(self).data@ == old(self).data@ + uuid@,
    {
        self.data.extend_from_slice(uuid.as_bytes().as_slice());
    }
}

/// Decoding a complete encoded frame from the front of any buffer yields the
/// id and payload it was built from, consumes exactly the frame's bytes, and
/// reports the declared length as the byte count of id plus payload.
pub proof fn lemma_frame_round_trip(id: i32, payload: Seq<u8>, rest: Seq<u8>)
    requires
        payload.len() <= 0x7FFF_FF00,
    ensures
        ({
            let w = spec_frame(id, payload);
            spec_parse(w + rest) == Ok::<(i32, i32, Seq<u8>, int), PacketError>((
                (spec_id_bytes(id).len() + payload.len()) as i32,
                id,
                payload,
                w.len() as int,
            ))
        }),
{
    let idb = spec_id_bytes(id);
    lemma_varint_round_trip(id, payload);
    let total = (idb.len() + payload.len()) as int;
    lemma_varint_round_trip(total as i32, idb + payload + rest);
    assert(u32_bits_of_i32(total as i32) == total as nat);
    let w = spec_frame(id, payload);
    let s = w + rest;
    let lenb = vbytes(total as nat);
    assert(s =~= lenb + (idb + payload + rest));
    let k = lenb.len() as int;
    assert(s.subrange(k, k + total) =~= idb + payload);
    lemma_varint_round_trip(id, payload);
    assert((idb + payload).skip(idb.len() as int) =~= payload);
    assert(w.len() == k + total);
}

/// Any proper prefix of an encoded frame asks for more data: the missing
/// bytes make it incomplete, never malformed.
pub proof fn lemma_frame_needs_more(id: i32, payload: Seq<u8>, k: int)
    requires
        payload.len() <= 0x7FFF_FF00,
        0 <= k < spec_frame(id, payload).len(),
    ensures
        spec_parse(spec_frame(id, payload).take(k)) == Err::<(i32, i32, Seq<u8>, int), PacketError>(
            PacketError::NeedMoreData,
        ),
{
    let idb = spec_id_bytes(id);
    lemma_varint_round_trip(id, payload);
    let total = (idb.len() + payload.len()) as int;
    let lenb = vbytes(total as nat);
    let w = spec_frame(id, payload);
    let s = w.take(k);
    if k < lenb.len() {
        assert(forall|j: int| 0 <= j < k ==> s[j] == lenb[j]);
        lemma_varint_incomplete(s, total as nat);
    } else {
        lemma_varint_round_trip(total as i32, (idb + payload).take(k - lenb.len()));
        assert(u32_bits_of_i32(total as i32) == total as nat);
        assert(s =~= lenb + (idb + payload).take(k - lenb.len()));
        assert(s.len() - lenb.len() < total);
    }
}

} // verus!
