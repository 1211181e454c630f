use vstd::prelude::*;

use super::SbasMessage;
use crate::{Error, Result};

verus! {

/// The eight-bit SBAS preamble 01010011 (0x53).
pub open spec fn sbas_preamble() -> Seq<u8> {
    seq![0, 1, 0, 1, 0, 0, 1, 1]
}

/// `bits` holds the SBAS preamble, bit for bit, starting at `off`.
pub open spec fn sbas_preamble_at(bits: Seq<u8>, off: int) -> bool {
    &&& 0 <= off
    &&& off + 8 <= bits.len()
    &&& forall|i: int| 0 <= i < 8 ==> bits[off + i] == sbas_preamble()[i]
}

/// The least offset in `lo..hi` at which an SBAS preamble starts, or `hi`.
pub open spec fn first_sbas_preamble(bits: Seq<u8>, lo: int, hi: int) -> int
    decreases hi - lo,
{
    if lo >= hi {
        hi
    } else if sbas_preamble_at(bits, lo) {
        lo
    } else {
        first_sbas_preamble(bits, lo + 1, hi)
    }
}

/// Offsets `0..sbas_search_limit(n)` are searched in a buffer of `n` bits:
/// every offset at which a whole 250-bit message fits.
pub open spec fn sbas_search_limit(n: int) -> int {
    if n >= 250 {
        n - 249
    } else {
        0
    }
}

/// The byte obtained by shifting the `n` received values starting at
/// `start` into an 8-bit register, most significant first
/// (`r = (r << 1) | value` for each value).
pub open spec fn shift_in_u8(bits: Seq<u8>, start: int, n: nat) -> u8
    decreases n,
{
    if n == 0 {
        0
    } else {
        (shift_in_u8(bits, start, (n - 1) as nat) << 1u8) | bits[start + n - 1]
    }
}

/// The 212 data bits (bits 14 to 225) of the message that starts at `off`,
/// packed most significant first into 27 bytes: 26 whole bytes, then the
/// last 4 bits in the high half of the 27th byte, whose low half is zero.
pub open spec fn sbas_data(bits: Seq<u8>, off: int) -> Seq<u8> {
    Seq::new(
        27,
        |i: int|
            if i < 26 {
                shift_in_u8(bits, off + 14 + 8 * i, 8)
            } else {
                shift_in_u8(bits, off + 222, 4) << 4u8
            },
    )
}

/// The message type and data that the decoder reads out of `bits`: those of
/// the message at the first preamble among the searched offsets.
pub open spec fn decode_sbas(bits: Seq<u8>) -> Option<(u8, Seq<u8>)> {
    let p = first_sbas_preamble(bits, 0, sbas_search_limit(bits.len() as int));
    if p < sbas_search_limit(bits.len() as int) {
        Some((shift_in_u8(bits, p + 8, 6), sbas_data(bits, p)))
    } else {
        None
    }
}

/// The bit window after `bit` arrives: appended, and once the window passes
/// 500 bits its oldest 250 bits are dropped.
pub open spec fn sbas_next_bits(bits: Seq<u8>, bit: u8) -> Seq<u8> {
    let b = bits.push(bit);
    if b.len() > 500 {
        b.skip(250)
    } else {
        b
    }
}

/// The low `n` bits of `v`, most significant first, as 0/1 values.
pub open spec fn low_bits(v: u8, n: nat) -> Seq<u8> {
    Seq::new(n, |i: int| (v >> ((n - 1 - i) as u8)) & 1u8)
}

/// The 212 data bits carried by 27 data bytes, most significant bit of each
/// byte first (of the last byte, only its high 4 bits).
pub open spec fn data_bits(data: Seq<u8>) -> Seq<u8> {
    Seq::new(212, |i: int| low_bits(data[i / 8], 8)[i % 8])
}

/// The 250 transmitted bits of a message: preamble, 6-bit type, 212 data
/// bits and the 24-bit CRC trailer, which the decoder does not read.
pub open spec fn sbas_message_bits(message_type: u8, data: Seq<u8>, trailer: Seq<u8>) -> Seq<u8> {
    sbas_preamble() + low_bits(message_type, 6) + data_bits(data) + trailer
}

proof fn lemma_shift_step(v: u8, s: u8)
    requires
        s < 8,
    ensures
        ((v >> ((s + 1) as u8)) << 1u8) | ((v >> s) & 1u8) == v >> s,
{
    assert(s < 8 ==> ((v >> ((s + 1) as u8)) << 1u8) | ((v >> s) & 1u8) == v >> s) by (bit_vector);
}

proof fn lemma_shift_in_prefix(bits: Seq<u8>, start: int, v: u8, n: nat, k: nat)
    requires
        k <= n <= 8,
        0 <= start,
        start + n <= bits.len(),
        bits.subrange(start, start + n) == low_bits(v, n),
        v >> (n as u8) == 0,
    ensures
        shift_in_u8(bits, start, k) == v >> ((n - k) as u8),
    decreases k,
{
    if k == 0 {
    } else {
        lemma_shift_in_prefix(bits, start, v, n, (k - 1) as nat);
        assert(bits[start + k - 1] == bits.subrange(start, start + n)[k - 1]);
        lemma_shift_step(v, (n - k) as u8);
    }
}

proof fn lemma_shift_in_value(bits: Seq<u8>, start: int, v: u8, n: nat)
    requires
        1 <= n <= 8,
        0 <= start,
        start + n <= bits.len(),
        bits.subrange(start, start + n) == low_bits(v, n),
        v >> (n as u8) == 0,
    ensures
        shift_in_u8(bits, start, n) == v,
{
    lemma_shift_in_prefix(bits, start, v, n, n);
    assert(v >> 0u8 == v) by (bit_vector);
}

proof fn lemma_first_sbas_preamble_at(bits: Seq<u8>, lo: int, p: int, hi: int)
    requires
        lo <= p < hi,
        sbas_preamble_at(bits, p),
        forall|o: int| lo <= o < p ==> !sbas_preamble_at(bits, o),
    ensures
        first_sbas_preamble(bits, lo, hi) == p,
    decreases p - lo,
{
    if lo < p {
        lemma_first_sbas_preamble_at(bits, lo + 1, p, hi);
    }
}

/// A transmitted message is read back: when a message of type `t` (six
/// bits) with 212 data bits (27 bytes, the low half of the last one zero)
/// arrives after `prefix`, possibly followed by more bits, and no preamble
/// starts earlier, the decoder reads type `t` and those data bytes.
pub proof fn law_message_roundtrip(
    prefix: Seq<u8>,
    message_type: u8,
    data: Seq<u8>,
    trailer: Seq<u8>,
    suffix: Seq<u8>,
)
    requires
        message_type < 64,
        data.len() == 27,
        data[26] & 0x0Fu8 == 0,
        trailer.len() == 24,
        forall|o: int|
            0 <= o < prefix.len() ==> !sbas_preamble_at(
                prefix + sbas_message_bits(message_type, data, trailer) + suffix,
                o,
            ),
    ensures
        decode_sbas(prefix + sbas_message_bits(message_type, data, trailer) + suffix) == Some(
            (message_type, data),
        ),
{
    let mb = sbas_message_bits(message_type, data, trailer);
    let buf = prefix + mb + suffix;
    let p = prefix.len() as int;
    assert(mb.len() == 250);
    let limit = sbas_search_limit(buf.len() as int);
    assert(limit == p + suffix.len() + 1);
    assert forall|i: int| 0 <= i < 250 implies buf[p + i] == mb[i] by {}
    assert(sbas_preamble_at(buf, p)) by {
        assert forall|i: int| 0 <= i < 8 implies buf[p + i] == sbas_preamble()[i] by {
            assert(mb[i] == sbas_preamble()[i]);
        }
    }
    lemma_first_sbas_preamble_at(buf, 0, p, limit);
    // message type
    assert(buf.subrange(p + 8, p + 14) =~= low_bits(message_type, 6)) by {
        assert forall|i: int| 0 <= i < 6 implies buf.subrange(p + 8, p + 14)[i] == low_bits(
            message_type,
            6,
        )[i] by {
            assert(buf[p + (8 + i)] == mb[8 + i]);
        }
    }
    assert(message_type >> 6u8 == 0) by (bit_vector)
        requires
            message_type < 64,
    ;
    lemma_shift_in_value(buf, p + 8, message_type, 6);
    // data bytes
    assert forall|k: int| 0 <= k < 26 implies sbas_data(buf, p)[k] == data[k] by {
        assert(buf.subrange(p + 14 + 8 * k, p + 14 + 8 * k + 8) =~= low_bits(data[k], 8)) by {
            assert forall|i: int| 0 <= i < 8 implies buf.subrange(
                p + 14 + 8 * k,
                p + 14 + 8 * k + 8,
            )[i] == low_bits(data[k], 8)[i] by {
                assert(buf[p + (14 + (8 * k + i))] == mb[14 + (8 * k + i)]);
                assert(mb[14 + (8 * k + i)] == data_bits(data)[8 * k + i]);
                assert((8 * k + i) / 8 == k) by (nonlinear_arith)
                    requires
                        0 <= i < 8,
                ;
                assert((8 * k + i) % 8 == i) by (nonlinear_arith)
                    requires
                        0 <= i < 8,
                ;
            }
        }
        let d = data[k];
        assert(d >> 8u8 == 0) by (bit_vector);
        lemma_shift_in_value(buf, p + 14 + 8 * k, d, 8);
    }
    // the last four data bits
    let last = data[26];
    let high = last >> 4u8;
    assert(buf.subrange(p + 222, p + 226) =~= low_bits(high, 4)) by {
        assert forall|i: int| 0 <= i < 4 implies buf.subrange(p + 222, p + 226)[i] == low_bits(
            high,
            4,
        )[i] by {
            assert(buf[p + (14 + (208 + i))] == mb[14 + (208 + i)]);
            assert(mb[14 + (208 + i)] == data_bits(data)[208 + i]);
            assert((208 + i) / 8 == 26);
            assert((208 + i) % 8 == i);
            let s = i as u8;
            assert(s < 4 ==> (last >> ((8 - 1 - s) as u8)) & 1u8 == ((last >> 4u8) >> ((4 - 1
                - s) as u8)) & 1u8) by (bit_vector);
            assert(low_bits(last, 8)[i] == (last >> ((8 - 1 - s) as u8)) & 1u8);
            assert(low_bits(high, 4)[i] == (high >> ((4 - 1 - s) as u8)) & 1u8);
        }
    }
    assert(high >> 4u8 == 0) by (bit_vector)
        requires
            high == last >> 4u8,
    ;
    lemma_shift_in_value(buf, p + 222, high, 4);
    assert(last & 0x0Fu8 == 0 ==> (last >> 4u8) << 4u8 == last) by (bit_vector);
    assert(sbas_data(buf, p) =~= data);
}

/// The bit window after the bits `s` arrive, one by one, at a window `bits`.
pub open spec fn sbas_bits_after(bits: Seq<u8>, s: Seq<u8>) -> Seq<u8>
    decreases s.len(),
{
    if s.len() == 0 {
        bits
    } else {
        sbas_next_bits(sbas_bits_after(bits, s.drop_last()), s.last())
    }
}

/// How many of `n` bits, fed to a new decoder, the window holds.
pub open spec fn sbas_window_len(n: nat) -> nat {
    if n <= 500 {
        n
    } else {
        (251 + (n - 501) % 250) as nat
    }
}

/// A new decoder fed `n` bits holds the last `sbas_window_len(n)` of them,
/// in order: all of them up to 500, then between 251 and 500 of them.
pub proof fn law_sbas_window_after(s: Seq<u8>)
    ensures
        sbas_bits_after(Seq::empty(), s) == s.subrange(
            s.len() - sbas_window_len(s.len()),
            s.len() as int,
        ),
        sbas_window_len(s.len()) <= 500,
        s.len() > 500 ==> sbas_window_len(s.len()) > 250,
    decreases s.len(),
{
    let n = s.len();
    if n > 0 {
        let p = s.drop_last();
        law_sbas_window_after(p);
        let l = sbas_window_len((n - 1) as nat);
        let grown = p.subrange(p.len() - l, p.len() as int).push(s.last());
        assert(grown =~= s.subrange(n - 1 - l, n as int));
        if grown.len() > 500 {
            assert(grown.skip(250) =~= s.subrange(n - sbas_window_len(n), n as int));
        } else {
            assert(sbas_window_len(n) == l + 1);
        }
    } else {
        assert(s.subrange(0, 0) =~= Seq::<u8>::empty());
    }
}

/// SBAS Message Decoder
pub struct SbasDecoder {
    prn: u8,
    bit_buffer: Vec<u8>,
}

impl SbasDecoder {
    /// The SBAS PRN whose messages this decoder reads.
    pub closed spec fn spec_prn(&self) -> u8 {
        self.prn
    }

    /// The received bits that the decoder still holds, oldest first.
    pub closed spec fn bits(&self) -> Seq<u8> {
        self.bit_buffer@
    }

    /// The window holds at most 500 bits.
    #[verifier::type_invariant]
    spec fn inv(&self) -> bool {
        self.bit_buffer@.len() <= 500
    }

    pub fn new(prn: u8) -> (r: Self)
        ensures
            r.spec_prn() == prn,
            r.bits() == Seq::<u8>::empty(),
    {
        Self { prn, bit_buffer: Vec::new() }
    }

    /// The SBAS PRN whose messages this decoder reads.
    pub fn prn(&self) -> (r: u8)
        ensures
            r == self.spec_prn(),
    {
        self.prn
    }

    /// Add a bit to the decoder
    pub fn add_bit(&mut self, bit: u8)
        ensures
            final(self).bits() == sbas_next_bits(old(self).bits(), bit),
            final(self).bits().len() <= 500,
            final(self).bits().last() == bit,
            final(self).spec_prn() == old(self).spec_prn(),
    {
        proof {
            use_type_invariant(&*self);
        }
        let mut buf: Vec<u8> = Vec::new();
        std::mem::swap(&mut buf, &mut self.bit_buffer);
        buf.push(bit);

        // SBAS messages are 250 bits long
        if buf.len() >= 250 {
            // A decoded message is only reported, not kept.
            let _message = Self::decode_first_message(self.prn, &buf);

            // Remove processed bits
            if buf.len() > 500 {
                let rest = buf.split_off(250);
                buf = rest;
            }
        }
        assert(buf@ =~= sbas_next_bits(old(self).bits(), bit));
        self.bit_buffer = buf;
    }

    /// Decodes the message at the first preamble in the buffer.
    pub fn try_decode_message(&self) -> (r: Result<SbasMessage>)
        ensures
            match r {
                Ok(m) => {
                    &&& decode_sbas(self.bits()) == Some((m.message_type, m.data@))
                    &&& m.prn == self.spec_prn()
                },
                Err(e) => {
                    &&& decode_sbas(self.bits()) is None
                    &&& e matches Error::SbasDecode(s) && s@ == "No preamble found"@
                },
            },
    {
        proof {
            use_type_invariant(self);
        }
        Self::decode_first_message(self.prn, &self.bit_buffer)
    }

    /// Decodes the message at the first preamble in `bits`.
    fn decode_first_message(prn: u8, bits: &Vec<u8>) -> (r: Result<SbasMessage>)
        requires
            bits@.len() <= 501,
        ensures
            match r {
                Ok(m) => {
                    &&& decode_sbas(bits@) == Some((m.message_type, m.data@))
                    &&& m.prn == prn
                },
                Err(e) => {
                    &&& decode_sbas(bits@) is None
                    &&& e matches Error::SbasDecode(s) && s@ == "No preamble found"@
                },
            },
    {
        // SBAS message structure:
        // - 8 bits preamble (0x53)
        // - 6 bits message type
        // - 212 bits data
        // - 24 bits CRC
        let limit = if bits.len() >= 250 {
            bits.len() - 249
        } else {
            0
        };
        let mut offset: usize = 0;
        while offset < limit
            invariant
                0 <= offset <= limit,
                limit == sbas_search_limit(bits@.len() as int),
                bits@.len() <= 501,
                first_sbas_preamble(bits@, 0, limit as int) == first_sbas_preamble(
                    bits@,
                    offset as int,
                    limit as int,
                ),
            decreases limit - offset,
        {
            if Self::preamble_at(bits, offset) {
                return Self::decode_message_at_offset(prn, bits, offset);
            }
            offset = offset + 1;
        }

        Err(Error::SbasDecode(String::from_str("No preamble found")))
    }

    /// Whether the SBAS preamble starts at bit `offset` of the buffer.
    pub fn is_preamble_at_offset(&self, offset: usize) -> (r: bool)
        requires
            offset + 8 <= usize::MAX,
        ensures
            r == sbas_preamble_at(self.bits(), offset as int),
    {
        Self::preamble_at(&self.bit_buffer, offset)
    }

    /// Whether the SBAS preamble starts at bit `offset` of `bits`.
    fn preamble_at(bits: &Vec<u8>, offset: usize) -> (r: bool)
        requires
            offset + 8 <= usize::MAX,
        ensures
            r == sbas_preamble_at(bits@, offset as int),
    {
        if offset + 8 > bits.len() {
            return false;
        }
        // SBAS preamble: 01010011 (0x53)
        let preamble: [u8; 8] = [0, 1, 0, 1, 0, 0, 1, 1];
        assert(preamble@ == sbas_preamble());
        let mut i: usize = 0;
        while i < 8
            invariant
                0 <= i <= 8,
                offset + 8 <= usize::MAX,
                offset + 8 <= bits@.len(),
                preamble@ == sbas_preamble(),
                forall|j: int| 0 <= j < i ==> bits@[offset + j] == sbas_preamble()[j],
            decreases 8 - i,
        {
            if bits[offset + i] != preamble[i] {
                return false;
            }
            i = i + 1;
        }
        true
    }

    fn decode_message_at_offset(prn: u8, bits: &Vec<u8>, offset: usize) -> (r: Result<SbasMessage>)
        requires
            bits@.len() <= 501,
        ensures
            match r {
                Ok(m) => {
                    &&& offset + 250 <= bits@.len()
                    &&& m.message_type == shift_in_u8(bits@, offset + 8, 6)
                    &&& m.data@ == sbas_data(bits@, offset as int)
                    &&& m.prn == prn
                },
                Err(e) => {
                    &&& offset + 250 > bits@.len()
                    &&& e matches Error::SbasDecode(s) && s@ == "Not enough bits"@
                },
            },
    {
        if offset > bits.len() || bits.len() - offset < 250 {
            return Err(Error::SbasDecode(String::from_str("Not enough bits")));
        }
        // Extract message type (6 bits after preamble)

        let mut message_type: u8 = 0;
        let mut i: usize = 0;
        while i < 6
            invariant
                0 <= i <= 6,
                offset + 250 <= bits@.len(),
                bits@.len() <= 501,
                message_type == shift_in_u8(bits@, offset + 8, i as nat),
            decreases 6 - i,
        {
            message_type = (message_type << 1) | bits[offset + 8 + i];
            i = i + 1;
        }

        // Extract data (212 bits): 26 whole bytes, then the last 4 bits
        let mut data: Vec<u8> = Vec::new();
        let mut i: usize = 0;
        while i < 212 / 8
            invariant
                0 <= i <= 26,
                offset + 250 <= bits@.len(),
                bits@.len() <= 501,
                data@.len() == i,
                forall|k: int| 0 <= k < i ==> data@[k] == sbas_data(bits@, offset as int)[k],
            decreases 26 - i,
        {
            let mut byte: u8 = 0;
            let mut j: usize = 0;
            while j < 8
                invariant
                    0 <= j <= 8,
                    i < 26,
                    offset + 250 <= bits@.len(),
                    bits@.len() <= 501,
                    byte == shift_in_u8(bits@, offset + 14 + 8 * i, j as nat),
                decreases 8 - j,
            {
                let bit_idx = offset + 14 + i * 8 + j;
                if bit_idx < bits.len() {
                    byte = (byte << 1) | bits[bit_idx];
                }
                j = j + 1;
            }
            data.push(byte);
            i = i + 1;
        }
        let mut last: u8 = 0;
        let mut j: usize = 0;
        while j < 4
            invariant
                0 <= j <= 4,
                offset + 250 <= bits@.len(),
                bits@.len() <= 501,
                last == shift_in_u8(bits@, offset + 222, j as nat),
            decreases 4 - j,
        {
            last = (last << 1) | bits[offset + 222 + j];
            j = j + 1;
        }
        data.push(last << 4);
        assert(data@ =~= sbas_data(bits@, offset as int));

        // The CRC-24 parity is not checked.
        Ok(SbasMessage { prn, message_type, data })
    }
}

/// Decode SBAS message type 1 (PRN masks); the mask is not extracted, so
/// the list is always empty.
pub fn decode_type1(message: &SbasMessage) -> (r: Vec<u8>)
    ensures
        r@ == Seq::<u8>::empty(),
{
    Vec::new()
}

} // verus!
