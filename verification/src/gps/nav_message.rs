use vstd::prelude::*;

use crate::{Error, Result};

verus! {

/// The eight-bit TLM preamble 10001011 (0x8B) that opens every subframe.
pub open spec fn nav_preamble() -> Seq<i8> {
    seq![1, 0, 0, 0, 1, 0, 1, 1]
}

/// `bits` holds the preamble, bit for bit, starting at `off`.
pub open spec fn nav_preamble_at(bits: Seq<i8>, off: int) -> bool {
    &&& 0 <= off
    &&& off + 8 <= bits.len()
    &&& forall|i: int| 0 <= i < 8 ==> bits[off + i] == nav_preamble()[i]
}

/// The least offset in `lo..hi` at which a preamble starts, or `hi` when
/// there is none.
pub open spec fn first_preamble(bits: Seq<i8>, lo: int, hi: int) -> int
    decreases hi - lo,
{
    if lo >= hi {
        hi
    } else if nav_preamble_at(bits, lo) {
        lo
    } else {
        first_preamble(bits, lo + 1, hi)
    }
}

/// Offsets `0..search_limit(n)` are searched for a preamble in a buffer of
/// `n` bits: every offset at which a whole 300-bit subframe fits.
pub open spec fn search_limit(n: int) -> int {
    if n >= 300 {
        n - 299
    } else {
        0
    }
}

/// A received bit counts as 1 when positive and as 0 otherwise.
pub open spec fn bit_value(b: i8) -> nat {
    if b > 0 {
        1
    } else {
        0
    }
}

/// 2 to the power `n`.
pub open spec fn two_pow(n: nat) -> nat
    decreases n,
{
    if n == 0 {
        1
    } else {
        2 * two_pow((n - 1) as nat)
    }
}

/// The number whose binary digits, most significant first, are the `n` bits
/// starting at `start`.
pub open spec fn pack_bits(bits: Seq<i8>, start: int, n: nat) -> nat
    decreases n,
{
    if n == 0 {
        0
    } else {
        2 * pack_bits(bits, start, (n - 1) as nat) + bit_value(bits[start + n - 1])
    }
}

/// The ten 30-bit words of the subframe that starts at `off`.
pub open spec fn subframe_words(bits: Seq<i8>, off: int) -> Seq<u32> {
    Seq::new(10, |k: int| pack_bits(bits, off + 30 * k, 30) as u32)
}

/// The subframe that the receiver reads out of `bits`: the one that starts
/// at the first preamble among the searched offsets, if there is one.
pub open spec fn decode_subframe(bits: Seq<i8>) -> Option<Seq<u32>> {
    let p = first_preamble(bits, 0, search_limit(bits.len() as int));
    if p < search_limit(bits.len() as int) {
        Some(subframe_words(bits, p))
    } else {
        None
    }
}

/// The subframe ID: bits 20-22 of the hand-over word (the second word).
pub open spec fn subframe_id(words: Seq<u32>) -> int {
    (words[1] as int / 256) % 8
}

/// The TOW count: the 17 most significant bits of the hand-over word.
pub open spec fn tow_count(words: Seq<u32>) -> int {
    (words[1] as int / 8192) % 131072
}

/// The bit window after `bit` arrives: the bit is appended and, once the
/// window passes 600 bits, its oldest 300 bits are dropped.
pub open spec fn next_bits(bits: Seq<i8>, bit: i8) -> Seq<i8> {
    let b = bits.push(bit);
    if b.len() > 600 {
        b.skip(300)
    } else {
        b
    }
}

/// The subframe slots after `bit` arrives: a subframe decoded from the grown
/// window is stored in the slot of its ID when that ID is 1 to 5.
pub open spec fn next_slots(
    bits: Seq<i8>,
    slots: Seq<Option<Seq<u32>>>,
    bit: i8,
) -> Seq<Option<Seq<u32>>> {
    match decode_subframe(bits.push(bit)) {
        Some(w) => if 1 <= subframe_id(w) <= 5 {
            slots.update(subframe_id(w) - 1, Some(w))
        } else {
            slots
        },
        None => slots,
    }
}

/// Every filled slot `i` holds ten 30-bit words with subframe ID `i + 1`.
pub open spec fn slots_consistent(slots: Seq<Option<Seq<u32>>>) -> bool {
    &&& slots.len() == 5
    &&& forall|i: int|
        0 <= i < 5 && (#[trigger] slots[i]) is Some ==> {
            let w = slots[i]->0;
            &&& w.len() == 10
            &&& subframe_id(w) == i + 1
            &&& forall|k: int| 0 <= k < 10 ==> w[k] < two_pow(30)
        }
}

/// Subframes 1-3 are all present.
pub open spec fn complete(slots: Seq<Option<Seq<u32>>>) -> bool {
    slots[0] is Some && slots[1] is Some && slots[2] is Some
}

/// Subframes 1, 2 and 3 joined, when all three are present.
pub open spec fn ephemeris_words(slots: Seq<Option<Seq<u32>>>) -> Option<Seq<u32>> {
    if complete(slots) {
        Some(slots[0]->0 + slots[1]->0 + slots[2]->0)
    } else {
        None
    }
}

/// Subframe 4 when present, else subframe 5 (or nothing).
pub open spec fn almanac_words(slots: Seq<Option<Seq<u32>>>) -> Option<Seq<u32>> {
    if slots[3] is Some {
        slots[3]
    } else {
        slots[4]
    }
}

/// The 30 bits of a word, most significant first, as 0/1 values.
pub open spec fn word_bits(w: u32) -> Seq<i8> {
    Seq::new(
        30,
        |i: int|
            if (w as int / two_pow((29 - i) as nat) as int) % 2 == 1 {
                1i8
            } else {
                0i8
            },
    )
}

/// The 300 transmitted bits of a ten-word subframe.
pub open spec fn subframe_bits(words: Seq<u32>) -> Seq<i8> {
    Seq::new(300, |i: int| word_bits(words[i / 30])[i % 30])
}

proof fn lemma_two_pow_pos(n: nat)
    ensures
        two_pow(n) > 0,
    decreases n,
{
    if n > 0 {
        lemma_two_pow_pos((n - 1) as nat);
    }
}

proof fn lemma_pack_word_prefix(w: u32, k: nat)
    requires
        k <= 30,
        w < two_pow(30),
    ensures
        pack_bits(word_bits(w), 0, k) == w as int / two_pow((30 - k) as nat) as int,
    decreases k,
{
    lemma_two_pow_pos((30 - k) as nat);
    if k == 0 {
        lemma_two_pow_values();
        assert(w as int / 0x4000_0000int == 0) by (nonlinear_arith)
            requires
                0 <= w < 0x4000_0000,
        ;
    } else {
        lemma_pack_word_prefix(w, (k - 1) as nat);
        let a = two_pow((30 - k) as nat) as int;
        assert(two_pow((31 - k) as nat) == 2 * a);
        vstd::arithmetic::div_mod::lemma_div_denominator(w as int, a, 2);
        let q = w as int / a;
        assert(q >= 0) by (nonlinear_arith)
            requires
                w >= 0,
                a > 0,
                q == w as int / a,
        ;
        assert(word_bits(w)[k - 1] == if q % 2 == 1 {
            1i8
        } else {
            0i8
        });
        assert(2 * (q / 2) + q % 2 == q);
    }
}

/// Decoding the bits of a word gives the word back.
pub proof fn law_word_roundtrip(w: u32)
    requires
        w < two_pow(30),
    ensures
        pack_bits(word_bits(w), 0, 30) == w,
{
    lemma_pack_word_prefix(w, 30);
    assert(two_pow(0) == 1);
    assert(w as int / 1int == w);
}

proof fn lemma_pack_window(b1: Seq<i8>, s1: int, b2: Seq<i8>, s2: int, n: nat)
    requires
        0 <= s1,
        s1 + n <= b1.len(),
        0 <= s2,
        s2 + n <= b2.len(),
        b1.subrange(s1, s1 + n) == b2.subrange(s2, s2 + n),
    ensures
        pack_bits(b1, s1, n) == pack_bits(b2, s2, n),
    decreases n,
{
    if n > 0 {
        assert(b1.subrange(s1, s1 + n - 1) =~= b1.subrange(s1, s1 + n).take(n - 1));
        assert(b2.subrange(s2, s2 + n - 1) =~= b2.subrange(s2, s2 + n).take(n - 1));
        lemma_pack_window(b1, s1, b2, s2, (n - 1) as nat);
        assert(b1[s1 + n - 1] == b1.subrange(s1, s1 + n)[n - 1]);
        assert(b2[s2 + n - 1] == b2.subrange(s2, s2 + n)[n - 1]);
    }
}

proof fn lemma_first_preamble_at(bits: Seq<i8>, lo: int, p: int, hi: int)
    requires
        lo <= p < hi,
        nav_preamble_at(bits, p),
        forall|o: int| lo <= o < p ==> !nav_preamble_at(bits, o),
    ensures
        first_preamble(bits, lo, hi) == p,
    decreases p - lo,
{
    if lo < p {
        lemma_first_preamble_at(bits, lo + 1, p, hi);
    }
}

/// A transmitted subframe is read back unchanged: when the ten words (each
/// of 30 bits, the first opening with the preamble) arrive after `prefix`,
/// possibly followed by more bits, and no preamble starts earlier, the
/// decoder reads exactly those words.
pub proof fn law_subframe_roundtrip(prefix: Seq<i8>, words: Seq<u32>, suffix: Seq<i8>)
    requires
        words.len() == 10,
        forall|k: int| 0 <= k < 10 ==> words[k] < two_pow(30),
        subframe_bits(words).take(8) == nav_preamble(),
        forall|o: int|
            0 <= o < prefix.len() ==> !nav_preamble_at(prefix + subframe_bits(words) + suffix, o),
    ensures
        decode_subframe(prefix + subframe_bits(words) + suffix) == Some(words),
{
    let sb = subframe_bits(words);
    let buf = prefix + sb + suffix;
    let p = prefix.len() as int;
    let limit = search_limit(buf.len() as int);
    assert(limit == p + suffix.len() + 1);
    assert forall|i: int| 0 <= i < 300 implies buf[p + i] == sb[i] by {}
    assert(nav_preamble_at(buf, p)) by {
        assert forall|i: int| 0 <= i < 8 implies buf[p + i] == nav_preamble()[i] by {
            assert(sb.take(8)[i] == sb[i]);
        }
    }
    lemma_first_preamble_at(buf, 0, p, limit);
    assert forall|k: int| 0 <= k < 10 implies subframe_words(buf, p)[k] == words[k] by {
        assert forall|i: int| 0 <= i < 30 implies buf.subrange(p + 30 * k, p + 30 * k + 30)[i]
            == word_bits(words[k]).subrange(0, 30)[i] by {
            assert(buf[p + (30 * k + i)] == sb[30 * k + i]);
            assert((30 * k + i) / 30 == k) by (nonlinear_arith)
                requires
                    0 <= i < 30,
            ;
            assert((30 * k + i) % 30 == i) by (nonlinear_arith)
                requires
                    0 <= i < 30,
            ;
        }
        assert(buf.subrange(p + 30 * k, p + 30 * k + 30) =~= word_bits(words[k]).subrange(0, 30));
        lemma_pack_window(buf, p + 30 * k, word_bits(words[k]), 0, 30);
        law_word_roundtrip(words[k]);
    }
    assert(subframe_words(buf, p) =~= words);
}

/// A complete message has its ephemeris, and the ephemeris of consistent
/// slots is the thirty words of subframes 1-3.
pub proof fn law_ephemeris_available(slots: Seq<Option<Seq<u32>>>)
    requires
        slots_consistent(slots),
    ensures
        complete(slots) <==> ephemeris_words(slots) is Some,
        complete(slots) ==> ephemeris_words(slots)->0.len() == 30,
{
    if complete(slots) {
        assert(slots[0] is Some);
        assert(slots[1] is Some);
        assert(slots[2] is Some);
    }
}

/// A new bit never removes a decoded subframe: each filled slot stays
/// filled, slots other than the one of a newly decoded subframe keep their
/// words, and a complete message stays complete.
pub proof fn law_slots_persist(bits: Seq<i8>, slots: Seq<Option<Seq<u32>>>, bit: i8)
    requires
        slots.len() == 5,
    ensures
        next_slots(bits, slots, bit).len() == 5,
        forall|i: int| 0 <= i < 5 && slots[i] is Some ==> (#[trigger] next_slots(bits, slots, bit)[i]) is Some,
        forall|i: int|
            0 <= i < 5 && !(decode_subframe(bits.push(bit)) matches Some(w) && subframe_id(w) == i + 1)
                ==> #[trigger] next_slots(bits, slots, bit)[i] == slots[i],
        complete(slots) ==> complete(next_slots(bits, slots, bit)),
{
}

/// The newest decoded subframe is always stored: when the grown window
/// yields a subframe with ID 1 to 5, its slot holds exactly that subframe's
/// words afterwards, whatever the slot held before (an older subframe of the
/// same ID is replaced), and the other slots are untouched.
pub proof fn law_newest_subframe_stored(bits: Seq<i8>, slots: Seq<Option<Seq<u32>>>, bit: i8)
    requires
        slots.len() == 5,
    ensures
        decode_subframe(bits.push(bit)) matches Some(w) ==> (1 <= subframe_id(w) <= 5 ==> {
            &&& next_slots(bits, slots, bit)[subframe_id(w) - 1] == Some(w)
            &&& forall|i: int|
                0 <= i < 5 && i != subframe_id(w) - 1 ==> #[trigger] next_slots(bits, slots, bit)[i]
                    == slots[i]
        }),
{
}

/// The bit window after the bits `s` arrive, one by one, at a window `bits`.
pub open spec fn bits_after(bits: Seq<i8>, s: Seq<i8>) -> Seq<i8>
    decreases s.len(),
{
    if s.len() == 0 {
        bits
    } else {
        next_bits(bits_after(bits, s.drop_last()), s.last())
    }
}

/// The subframe slots after the bits `s` arrive, one by one, at a decoder
/// holding `bits` and `slots`.
pub open spec fn slots_after(
    bits: Seq<i8>,
    slots: Seq<Option<Seq<u32>>>,
    s: Seq<i8>,
) -> Seq<Option<Seq<u32>>>
    decreases s.len(),
{
    if s.len() == 0 {
        slots
    } else {
        next_slots(bits_after(bits, s.drop_last()), slots_after(bits, slots, s.drop_last()), s.last())
    }
}

/// How many of `n` bits, fed to a new decoder, the window holds.
pub open spec fn window_len(n: nat) -> nat {
    if n <= 600 {
        n
    } else {
        (301 + (n - 601) % 300) as nat
    }
}

/// A new decoder fed `n` bits holds the last `window_len(n)` of them, in
/// order: all of them up to 600, then between 301 and 600 of them.
pub proof fn law_window_after(s: Seq<i8>)
    ensures
        bits_after(Seq::empty(), s) == s.subrange(s.len() - window_len(s.len()), s.len() as int),
        window_len(s.len()) <= 600,
        s.len() > 600 ==> window_len(s.len()) > 300,
    decreases s.len(),
{
    let n = s.len();
    if n > 0 {
        let p = s.drop_last();
        law_window_after(p);
        let l = window_len((n - 1) as nat);
        let grown = p.subrange(p.len() - l, p.len() as int).push(s.last());
        assert(grown =~= s.subrange(n - 1 - l, n as int));
        if grown.len() > 600 {
            assert(grown.skip(300) =~= s.subrange(n - window_len(n), n as int));
        } else {
            assert(window_len(n) == l + 1);
        }
    } else {
        assert(s.subrange(0, 0) =~= Seq::<i8>::empty());
    }
}

/// Decoded subframes are never removed over any run of bits: each filled
/// slot stays filled, and a complete message stays complete.
pub proof fn law_completeness_kept(bits: Seq<i8>, slots: Seq<Option<Seq<u32>>>, s: Seq<i8>)
    requires
        slots.len() == 5,
    ensures
        slots_after(bits, slots, s).len() == 5,
        forall|i: int|
            0 <= i < 5 && slots[i] is Some ==> (#[trigger] slots_after(bits, slots, s)[i]) is Some,
        complete(slots) ==> complete(slots_after(bits, slots, s)),
    decreases s.len(),
{
    if s.len() > 0 {
        let p = s.drop_last();
        law_completeness_kept(bits, slots, p);
        law_slots_persist(bits_after(bits, p), slots_after(bits, slots, p), s.last());
    }
}

pub open spec fn view_slot(o: Option<Vec<u32>>) -> Option<Seq<u32>> {
    match o {
        Some(v) => Some(v@),
        None => None,
    }
}

proof fn lemma_two_pow_mono(a: nat, b: nat)
    requires
        a <= b,
    ensures
        two_pow(a) <= two_pow(b),
    decreases b - a,
{
    if a < b {
        lemma_two_pow_mono(a, (b - 1) as nat);
    }
}

proof fn lemma_two_pow_values()
    ensures
        two_pow(29) == 0x2000_0000,
        two_pow(30) == 0x4000_0000,
{
    reveal_with_fuel(two_pow, 31);
}

proof fn lemma_pack_bound(bits: Seq<i8>, start: int, n: nat)
    ensures
        pack_bits(bits, start, n) < two_pow(n),
    decreases n,
{
    if n > 0 {
        lemma_pack_bound(bits, start, (n - 1) as nat);
    }
}

proof fn lemma_shift_in_bit(w: u32, b: u32)
    requires
        w < 0x2000_0000,
        b <= 1,
    ensures
        (w << 1) | b == 2 * w + b,
{
    assert(w < 0x2000_0000 && b <= 1 ==> (w << 1) | b == 2 * w + b) by (bit_vector);
}

proof fn lemma_hand_over_fields(w: u32)
    ensures
        (w >> 8) & 7 == (w as int / 256) % 8,
        (w >> 13) & 0x1FFFF == (w as int / 8192) % 131072,
        (w >> 13) & 0x1FFFF < 131072,
{
    assert((w >> 8) & 7 == (w / 256) % 8) by (bit_vector);
    assert((w >> 13) & 0x1FFFF == (w / 8192) % 131072) by (bit_vector);
    assert((w >> 13) & 0x1FFFF < 131072) by (bit_vector);
}

/// Copies a word vector.
fn copy_words(src: &Vec<u32>) -> (dst: Vec<u32>)
    ensures
        dst@ == src@,
{
    let mut dst: Vec<u32> = Vec::new();
    append_words(&mut dst, src);
    assert(dst@ =~= src@);
    dst
}

/// Appends the words of `src` to `dst`.
fn append_words(dst: &mut Vec<u32>, src: &Vec<u32>)
    ensures
        final(dst)@ == old(dst)@ + src@,
{
    let mut i: usize = 0;
    while i < src.len()
        invariant
            0 <= i <= src@.len(),
            dst@ == old(dst)@ + src@.take(i as int),
        decreases src@.len() - i,
    {
        dst.push(src[i]);
        assert(src@.take(i + 1) =~= src@.take(i as int).push(src@[i as int]));
        i = i + 1;
    }
    assert(src@.take(src@.len() as int) =~= src@);
}

/// Five empty subframe slots.
fn empty_slots() -> (r: Vec<Option<Vec<u32>>>)
    ensures
        r@ == seq![None::<Vec<u32>>, None, None, None, None],
{
    let mut slots: Vec<Option<Vec<u32>>> = Vec::new();
    slots.push(None);
    slots.push(None);
    slots.push(None);
    slots.push(None);
    slots.push(None);
    assert(slots@ =~= seq![None::<Vec<u32>>, None, None, None, None]);
    slots
}

/// GPS Navigation Message Decoder
pub struct NavMessage {
    prn: u8,
    bit_buffer: Vec<i8>,
    subframes: Vec<Option<Vec<u32>>>,
    /// Time of Week (seconds)
    tow: Option<u32>,
    /// GPS week number
    week_number: Option<u16>,
}

impl NavMessage {
    /// The PRN whose message this decoder reads.
    pub closed spec fn spec_prn(&self) -> u8 {
        self.prn
    }

    /// The time of week, in seconds, once known.
    pub closed spec fn spec_tow(&self) -> Option<u32> {
        self.tow
    }

    /// The GPS week number, once known.
    pub closed spec fn spec_week_number(&self) -> Option<u16> {
        self.week_number
    }

    /// The received bits that the decoder still holds, oldest first.
    pub closed spec fn bits(&self) -> Seq<i8> {
        self.bit_buffer@
    }

    /// The five subframe slots (subframe `i + 1` in slot `i`).
    pub closed spec fn slots(&self) -> Seq<Option<Seq<u32>>> {
        Seq::new(5, |i: int| view_slot(self.subframes@[i]))
    }

    /// Five slots, consistent with their IDs, and a window of at most 600
    /// bits.
    #[verifier::type_invariant]
    spec fn inv(&self) -> bool {
        &&& self.subframes@.len() == 5
        &&& self.bit_buffer@.len() <= 600
        &&& slots_consistent(self.slots())
    }

    pub fn new(prn: u8) -> (r: Self)
        ensures
            r.spec_prn() == prn,
            r.bits() == Seq::<i8>::empty(),
            r.slots() == seq![None::<Seq<u32>>, None, None, None, None],
            r.spec_tow() is None,
            r.spec_week_number() is None,
    {
        let subframes = empty_slots();
        let r = Self { prn, bit_buffer: Vec::new(), subframes, tow: None, week_number: None };
        assert(r.slots() =~= seq![None::<Seq<u32>>, None, None, None, None]);
        r
    }

    /// Add a navigation bit to the decoder
    pub fn add_bit(&mut self, bit: i8)
        ensures
            final(self).bits() == next_bits(old(self).bits(), bit),
            final(self).slots() == next_slots(old(self).bits(), old(self).slots(), bit),
            final(self).bits().len() <= 600,
            final(self).bits().last() == bit,
            slots_consistent(final(self).slots()),
            complete(old(self).slots()) ==> complete(final(self).slots()),
            decode_subframe(old(self).bits().push(bit)) matches Some(w) ==> (1 <= subframe_id(w)
                <= 5 ==> final(self).slots()[subframe_id(w) - 1] == Some(w)),
            final(self).spec_prn() == old(self).spec_prn(),
            final(self).spec_tow() == old(self).spec_tow(),
            final(self).spec_week_number() == old(self).spec_week_number(),
    {
        proof {
            use_type_invariant(&*self);
        }
        let mut buf: Vec<i8> = Vec::new();
        std::mem::swap(&mut buf, &mut self.bit_buffer);
        buf.push(bit);
        let ghost grown = buf@;
        assert(grown == old(self).bits().push(bit));

        // Try to decode when we have enough bits for a subframe (300 bits)
        if buf.len() >= 300 {
            let decoded = Self::try_decode_subframe(&buf);
            if let Ok(subframe) = decoded {
                proof {
                    lemma_hand_over_fields(subframe@[1]);
                }
                let subframe_id = ((subframe[1] >> 8) & 0x7) as usize;
                if subframe_id >= 1 && subframe_id <= 5 {
                    let ghost old_slots = self.slots();
                    let mut slots = empty_slots();
                    std::mem::swap(&mut slots, &mut self.subframes);
                    slots.set(subframe_id - 1, Some(subframe));
                    proof {
                        let new_slots = Seq::new(5, |i: int| view_slot(slots@[i]));
                        assert(new_slots =~= old_slots.update(subframe_id - 1, Some(subframe@)));
                    }
                    self.subframes = slots;
                    proof {
                        assert(self.slots() =~= old_slots.update(
                            subframe_id - 1,
                            Some(subframe@),
                        ));
                    }
                }
            }
            // Keep a rolling window of bits

            if buf.len() > 600 {
                let rest = buf.split_off(300);
                buf = rest;
            }
        }
        proof {
            if grown.len() < 300 {
                assert(search_limit(grown.len() as int) == 0);
            }
            assert(buf@ =~= next_bits(old(self).bits(), bit));
            assert(self.slots() =~= next_slots(old(self).bits(), old(self).slots(), bit));
        }
        self.bit_buffer = buf;
    }

    /// Try to decode a subframe from the bit buffer
    fn try_decode_subframe(bits: &Vec<i8>) -> (r: Result<Vec<u32>>)
        requires
            bits@.len() <= 601,
        ensures
            match r {
                Ok(w) => {
                    &&& decode_subframe(bits@) == Some(w@)
                    &&& w@.len() == 10
                    &&& forall|k: int| 0 <= k < 10 ==> w@[k] < two_pow(30)
                },
                Err(e) => {
                    &&& decode_subframe(bits@) is None
                    &&& e matches Error::NavMessageDecode(s) && s@ == "No preamble found"@
                },
            },
    {
        // Find preamble (10001011 = 0x8B)
        let limit = if bits.len() >= 300 {
            bits.len() - 299
        } else {
            0
        };
        let mut offset: usize = 0;
        while offset < limit
            invariant
                0 <= offset <= limit,
                limit == search_limit(bits@.len() as int),
                bits@.len() <= 601,
                first_preamble(bits@, 0, limit as int) == first_preamble(
                    bits@,
                    offset as int,
                    limit as int,
                ),
            decreases limit - offset,
        {
            if Self::preamble_at(bits, offset) {
                return Self::decode_subframe_at_offset(bits, offset);
            }
            offset = offset + 1;
        }

        Err(Error::NavMessageDecode(String::from_str("No preamble found")))
    }

    /// Whether the preamble starts at bit `offset` of the buffer.
    pub fn is_preamble_at_offset(&self, offset: usize) -> (r: bool)
        requires
            offset + 8 <= usize::MAX,
        ensures
            r == nav_preamble_at(self.bits(), offset as int),
    {
        Self::preamble_at(&self.bit_buffer, offset)
    }

    /// Whether the preamble starts at bit `offset` of `bits`.
    fn preamble_at(bits: &Vec<i8>, offset: usize) -> (r: bool)
        requires
            offset + 8 <= usize::MAX,
        ensures
            r == nav_preamble_at(bits@, offset as int),
    {
        if offset + 8 > bits.len() {
            return false;
        }
        let preamble: [i8; 8] = [1, 0, 0, 0, 1, 0, 1, 1];
        assert(preamble@ == nav_preamble());
        let mut i: usize = 0;
        while i < 8
            invariant
                0 <= i <= 8,
                offset + 8 <= usize::MAX,
                offset + 8 <= bits@.len(),
                preamble@ == nav_preamble(),
                forall|j: int| 0 <= j < i ==> bits@[offset + j] == nav_preamble()[j],
            decreases 8 - i,
        {
            if bits[offset + i] != preamble[i] {
                return false;
            }
            i = i + 1;
        }
        true
    }

    fn decode_subframe_at_offset(bits: &Vec<i8>, offset: usize) -> (r: Result<Vec<u32>>)
        requires
            bits@.len() <= 601,
        ensures
            match r {
                Ok(w) => {
                    &&& offset + 300 <= bits@.len()
                    &&& w@ == subframe_words(bits@, offset as int)
                    &&& forall|k: int| 0 <= k < 10 ==> w@[k] < two_pow(30)
                },
                Err(e) => {
                    &&& offset + 300 > bits@.len()
                    &&& e matches Error::NavMessageDecode(s) && s@ == "Not enough bits"@
                },
            },
    {
        if offset > bits.len() || bits.len() - offset < 300 {
            return Err(Error::NavMessageDecode(String::from_str("Not enough bits")));
        }
        // Extract 300 bits and convert to 10 words of 30 bits each

        let mut words: Vec<u32> = Vec::new();
        let mut word_idx: usize = 0;
        while word_idx < 10
            invariant
                0 <= word_idx <= 10,
                offset + 300 <= bits@.len(),
                bits@.len() <= 601,
                words@.len() == word_idx,
                forall|k: int|
                    0 <= k < word_idx ==> words@[k] == pack_bits(
                        bits@,
                        offset + 30 * k,
                        30,
                    ) as u32,
                forall|k: int| 0 <= k < word_idx ==> words@[k] < two_pow(30),
            decreases 10 - word_idx,
        {
            let start = offset + word_idx * 30;
            let mut word: u32 = 0;
            let mut bit_idx: usize = 0;
            while bit_idx < 30
                invariant
                    0 <= bit_idx <= 30,
                    start == offset + word_idx * 30,
                    word_idx < 10,
                    offset + 300 <= bits@.len(),
                    bits@.len() <= 601,
                    word == pack_bits(bits@, start as int, bit_idx as nat),
                decreases 30 - bit_idx,
            {
                let bit: u32 = if bits[start + bit_idx] > 0 {
                    1
                } else {
                    0
                };
                proof {
                    lemma_pack_bound(bits@, start as int, bit_idx as nat);
                    lemma_two_pow_mono(bit_idx as nat, 29);
                    lemma_two_pow_values();
                    lemma_shift_in_bit(word, bit);
                }
                word = (word << 1) | bit;
                bit_idx = bit_idx + 1;
            }
            proof {
                lemma_pack_bound(bits@, start as int, 30);
            }
            words.push(word);
            word_idx = word_idx + 1;
        }

        // Verify parity (simplified - in production, do full parity check)
        if !Self::verify_parity(words.as_slice()) {
            return Err(Error::NavMessageDecode(String::from_str("Parity check failed")));
        }

        // Extract TOW from HOW (second word)
        proof {
            lemma_hand_over_fields(words@[1]);
        }
        let tow_count = (words[1] >> 13) & 0x1FFFF;
        let _tow_seconds = Self::extract_tow(tow_count);

        assert(words@ =~= subframe_words(bits@, offset as int));
        Ok(words)
    }

    /// The parity check accepts any ten-word subframe.
    fn verify_parity(words: &[u32]) -> (r: bool)
        ensures
            r == (words@.len() == 10),
    {
        words.len() == 10
    }

    /// The TOW in seconds for a TOW count in 6-second units.
    fn extract_tow(tow_count: u32) -> (r: u32)
        requires
            tow_count < 131072,
        ensures
            r == tow_count * 6,
    {
        tow_count * 6
    }

    /// Get decoded ephemeris if subframes 1-3 are available
    pub fn get_ephemeris(&self) -> (r: Option<Vec<u32>>)
        ensures
            match r {
                Some(v) => ephemeris_words(self.slots()) == Some(v@),
                None => ephemeris_words(self.slots()) is None,
            },
            r is Some <==> complete(self.slots()),
            r matches Some(v) ==> v@.len() == 30,
    {
        proof {
            use_type_invariant(self);
            law_ephemeris_available(self.slots());
        }
        match (&self.subframes[0], &self.subframes[1], &self.subframes[2]) {
            (Some(sf1), Some(sf2), Some(sf3)) => {
                // Combine subframes 1-3 into ephemeris data
                let mut ephemeris: Vec<u32> = Vec::new();
                append_words(&mut ephemeris, sf1);
                append_words(&mut ephemeris, sf2);
                append_words(&mut ephemeris, sf3);
                assert(ephemeris@ =~= self.slots()[0]->0 + self.slots()[1]->0
                    + self.slots()[2]->0);
                Some(ephemeris)
            },
            _ => None,
        }
    }

    /// Get almanac data if subframe 4 or 5 is available
    pub fn get_almanac(&self) -> (r: Option<Vec<u32>>)
        ensures
            match r {
                Some(v) => almanac_words(self.slots()) == Some(v@),
                None => almanac_words(self.slots()) is None,
            },
    {
        proof {
            use_type_invariant(self);
        }
        if let Some(sf4) = &self.subframes[3] {
            Some(copy_words(sf4))
        } else {
            match &self.subframes[4] {
                Some(sf5) => Some(copy_words(sf5)),
                None => None,
            }
        }
    }

    /// The PRN whose message this decoder reads.
    pub fn prn(&self) -> (r: u8)
        ensures
            r == self.spec_prn(),
    {
        self.prn
    }

    /// The time of week, in seconds, once known.
    pub fn tow(&self) -> (r: Option<u32>)
        ensures
            r == self.spec_tow(),
    {
        self.tow
    }

    /// The GPS week number, once known.
    pub fn week_number(&self) -> (r: Option<u16>)
        ensures
            r == self.spec_week_number(),
    {
        self.week_number
    }

    /// Sets the time of week (seconds).
    pub fn set_tow(&mut self, tow: Option<u32>)
        ensures
            final(self).spec_tow() == tow,
            final(self).spec_week_number() == old(self).spec_week_number(),
            final(self).spec_prn() == old(self).spec_prn(),
            final(self).bits() == old(self).bits(),
            final(self).slots() == old(self).slots(),
    {
        proof {
            use_type_invariant(&*self);
        }
        self.tow = tow;
    }

    /// Sets the GPS week number.
    pub fn set_week_number(&mut self, week_number: Option<u16>)
        ensures
            final(self).spec_week_number() == week_number,
            final(self).spec_tow() == old(self).spec_tow(),
            final(self).spec_prn() == old(self).spec_prn(),
            final(self).bits() == old(self).bits(),
            final(self).slots() == old(self).slots(),
    {
        proof {
            use_type_invariant(&*self);
        }
        self.week_number = week_number;
    }

    /// Check if we have a complete navigation message
    pub fn is_complete(&self) -> (r: bool)
        ensures
            r == complete(self.slots()),
    {
        proof {
            use_type_invariant(self);
        }
        self.subframes[0].is_some() && self.subframes[1].is_some() && self.subframes[2].is_some()
    }
}

} // verus!
