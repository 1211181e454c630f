use vstd::prelude::*;

use crate::constants::GPS_CA_CODE_LENGTH;

verus! {

/// Exclusive or of two register bits (each 0 or 1).
pub open spec fn xor_bit(a: i8, b: i8) -> i8 {
    if a == b {
        0
    } else {
        1
    }
}

/// The bit sequence that enters the G1 register (polynomial x^10 + x^3 + 1,
/// all-ones seed), indexed so that `g1_seq(0..10)` is the seed and the
/// register cell `j` at step `i` holds `g1_seq(i + 9 - j)`.
pub open spec fn g1_seq(n: nat) -> i8
    decreases n,
{
    if n < 10 {
        1
    } else {
        xor_bit(g1_seq((n - 3) as nat), g1_seq((n - 10) as nat))
    }
}

/// The bit sequence that enters the G2 register
/// (polynomial x^10 + x^9 + x^8 + x^6 + x^3 + x^2 + 1, all-ones seed),
/// indexed as `g1_seq`.
pub open spec fn g2_seq(n: nat) -> i8
    decreases n,
{
    if n < 10 {
        1
    } else {
        xor_bit(
            g2_seq((n - 2) as nat),
            xor_bit(
                g2_seq((n - 3) as nat),
                xor_bit(
                    g2_seq((n - 6) as nat),
                    xor_bit(
                        g2_seq((n - 8) as nat),
                        xor_bit(g2_seq((n - 9) as nat), g2_seq((n - 10) as nat)),
                    ),
                ),
            ),
        )
    }
}

/// PRNs for which a C/A code is defined: GPS 1-32 and SBAS 120-158.
pub open spec fn valid_prn(prn: u8) -> bool {
    (1 <= prn <= 32) || (120 <= prn <= 158)
}

/// The two G2 register cells whose sum forms the delayed G2 output of a PRN.
pub open spec fn g2_taps(prn: u8) -> (int, int) {
    if prn == 1 { (1, 5) }
    else if prn == 2 { (2, 6) }
    else if prn == 3 { (3, 7) }
    else if prn == 4 { (4, 8) }
    else if prn == 5 { (0, 8) }
    else if prn == 6 { (1, 9) }
    else if prn == 7 { (0, 7) }
    else if prn == 8 { (1, 8) }
    else if prn == 9 { (2, 9) }
    else if prn == 10 { (1, 2) }
    else if prn == 11 { (2, 3) }
    else if prn == 12 { (4, 5) }
    else if prn == 13 { (5, 6) }
    else if prn == 14 { (6, 7) }
    else if prn == 15 { (7, 8) }
    else if prn == 16 { (8, 9) }
    else if prn == 17 { (0, 3) }
    else if prn == 18 { (1, 4) }
    else if prn == 19 { (2, 5) }
    else if prn == 20 { (3, 6) }
    else if prn == 21 { (4, 7) }
    else if prn == 22 { (5, 8) }
    else if prn == 23 { (0, 2) }
    else if prn == 24 { (3, 5) }
    else if prn == 25 { (4, 6) }
    else if prn == 26 { (5, 7) }
    else if prn == 27 { (6, 8) }
    else if prn == 28 { (7, 9) }
    else if prn == 29 { (0, 5) }
    else if prn == 30 { (1, 6) }
    else if prn == 31 { (2, 7) }
    else if prn == 32 { (3, 8) }
    else {
        // SBAS PRNs 120-158
        let offset = prn - 120;
        (offset % 9, (offset + 3) % 9 + 1)
    }
}

/// Chip `i` of the C/A code of `prn`: +1 where the G1 output and the two
/// selected G2 cells sum (mod 2) to 1, -1 elsewhere.
pub open spec fn ca_chip(prn: u8, i: nat) -> i8 {
    let (d1, d2) = g2_taps(prn);
    let g2_out = xor_bit(g2_seq((i + 9 - d1) as nat), g2_seq((i + 9 - d2) as nat));
    if xor_bit(g1_seq(i), g2_out) == 1 {
        1i8
    } else {
        -1i8
    }
}

/// The whole C/A code of `prn`.
pub open spec fn ca_code(prn: u8) -> Seq<i8> {
    Seq::new(GPS_CA_CODE_LENGTH as nat, |i: int| ca_chip(prn, i as nat))
}

proof fn lemma_g1_is_bit(n: nat)
    ensures
        g1_seq(n) == 0 || g1_seq(n) == 1,
    decreases n,
{
}

proof fn lemma_g2_is_bit(n: nat)
    ensures
        g2_seq(n) == 0 || g2_seq(n) == 1,
    decreases n,
{
}

proof fn lemma_xor_exec(a: i8, b: i8)
    requires
        0 <= a <= 1,
        0 <= b <= 1,
    ensures
        a ^ b == xor_bit(a, b),
{
    assert(0 <= a <= 1 && 0 <= b <= 1 ==> (a ^ b == if a == b { 0i8 } else { 1i8 })) by (bit_vector);
}

/// The taps of two PRNs select the same pair of G2 cells, in either order.
pub open spec fn same_taps(p: u8, q: u8) -> bool {
    let (a1, a2) = g2_taps(p);
    let (b1, b2) = g2_taps(q);
    (a1 == b1 && a2 == b2) || (a1 == b2 && a2 == b1)
}

/// G2 sequence values 0 to 18 (zero at 10, 11, 13, 16 and 18).
spec fn g2_head(n: int) -> i8 {
    if n == 10 || n == 11 || n == 13 || n == 16 || n == 18 {
        0
    } else {
        1
    }
}

proof fn lemma_g2_head()
    ensures
        forall|n: nat| n <= 18 ==> g2_seq(n) == g2_head(n as int),
{
    assert(g2_seq(0) == 1 && g2_seq(1) == 1 && g2_seq(2) == 1 && g2_seq(3) == 1 && g2_seq(4) == 1);
    assert(g2_seq(5) == 1 && g2_seq(6) == 1 && g2_seq(7) == 1 && g2_seq(8) == 1 && g2_seq(9) == 1);
    assert(g2_seq(10) == 0);
    assert(g2_seq(11) == 0);
    assert(g2_seq(12) == 1);
    assert(g2_seq(13) == 0);
    assert(g2_seq(14) == 1);
    assert(g2_seq(15) == 1);
    assert(g2_seq(16) == 0);
    assert(g2_seq(17) == 1);
    assert(g2_seq(18) == 0);
}

/// Bit `k` of the word holding G2 sequence values 0 to 18.
spec fn head_bit(k: int) -> bool {
    (0x2D3FFu32 >> (k as u32)) & 1u32 == 1u32
}

proof fn lemma_head_bit(k: int)
    requires
        0 <= k <= 18,
    ensures
        head_bit(k) == (g2_seq(k as nat) == 1),
{
    lemma_g2_head();
    let n = k as u32;
    assert(n <= 18 ==> ((0x2D3FFu32 >> n) & 1u32 == 1u32) == !(n == 10 || n == 11 || n == 13 || n
        == 16 || n == 18)) by (bit_vector);
}

/// Whether the two G2 cells of a tap pair hold equal values at chip `i`.
spec fn cells_agree(t: (int, int), i: int) -> bool {
    g2_seq((i + 9 - t.0) as nat) == g2_seq((i + 9 - t.1) as nat)
}

/// `cells_agree` for the first ten chips, read from the word of head bits.
spec fn head_agree(d1: u32, d2: u32, i: int) -> bool {
    head_bit(i + 9 - d1) == head_bit(i + 9 - d2)
}

/// The first ten chips tell apart every two different pairs of G2 cells.
proof fn lemma_head_distinguishes_taps(d1: u32, d2: u32, e1: u32, e2: u32)
    by (bit_vector)
    requires
        d1 < 10,
        d2 < 10,
        e1 < 10,
        e2 < 10,
        d1 != d2,
        e1 != e2,
        head_agree(d1, d2, 0) == head_agree(e1, e2, 0),
        head_agree(d1, d2, 1) == head_agree(e1, e2, 1),
        head_agree(d1, d2, 2) == head_agree(e1, e2, 2),
        head_agree(d1, d2, 3) == head_agree(e1, e2, 3),
        head_agree(d1, d2, 4) == head_agree(e1, e2, 4),
        head_agree(d1, d2, 5) == head_agree(e1, e2, 5),
        head_agree(d1, d2, 6) == head_agree(e1, e2, 6),
        head_agree(d1, d2, 7) == head_agree(e1, e2, 7),
        head_agree(d1, d2, 8) == head_agree(e1, e2, 8),
        head_agree(d1, d2, 9) == head_agree(e1, e2, 9),
    ensures
        (d1 == e1 && d2 == e2) || (d1 == e2 && d2 == e1),
{
}

proof fn lemma_taps_range(p: u8)
    requires
        valid_prn(p),
    ensures
        0 <= g2_taps(p).0 < 10,
        0 <= g2_taps(p).1 < 10,
        g2_taps(p).0 != g2_taps(p).1,
{
}

/// Equal codes agree, chip by chip, on whether their two G2 cells agree.
proof fn lemma_chip_agree(p: u8, q: u8, i: int)
    requires
        valid_prn(p),
        valid_prn(q),
        ca_code(p) == ca_code(q),
        0 <= i < 10,
    ensures
        head_agree(g2_taps(p).0 as u32, g2_taps(p).1 as u32, i) == head_agree(
            g2_taps(q).0 as u32,
            g2_taps(q).1 as u32,
            i,
        ),
{
    lemma_taps_range(p);
    lemma_taps_range(q);
    let (a1, a2) = g2_taps(p);
    let (b1, b2) = g2_taps(q);
    assert(ca_code(p)[i] == ca_code(q)[i]);
    assert(ca_code(p)[i] == ca_chip(p, i as nat));
    assert(ca_code(q)[i] == ca_chip(q, i as nat));
    assert(g1_seq(i as nat) == 1);
    lemma_g2_is_bit((i + 9 - a1) as nat);
    lemma_g2_is_bit((i + 9 - a2) as nat);
    lemma_g2_is_bit((i + 9 - b1) as nat);
    lemma_g2_is_bit((i + 9 - b2) as nat);
    let gp = xor_bit(g2_seq((i + 9 - a1) as nat), g2_seq((i + 9 - a2) as nat));
    let gq = xor_bit(g2_seq((i + 9 - b1) as nat), g2_seq((i + 9 - b2) as nat));
    assert(ca_chip(p, i as nat) == if xor_bit(1, gp) == 1 { 1i8 } else { -1i8 });
    assert(ca_chip(q, i as nat) == if xor_bit(1, gq) == 1 { 1i8 } else { -1i8 });
    assert(gp == gq);
    assert(cells_agree(g2_taps(p), i) == cells_agree(g2_taps(q), i));
    lemma_head_bit(i + 9 - a1);
    lemma_head_bit(i + 9 - a2);
    lemma_head_bit(i + 9 - b1);
    lemma_head_bit(i + 9 - b2);
}

/// Two PRNs have the same C/A code exactly when their taps select the same
/// pair of G2 cells; in particular PRNs with different tap pairs get
/// different codes.
pub proof fn law_codes_distinct(p: u8, q: u8)
    requires
        valid_prn(p),
        valid_prn(q),
    ensures
        ca_code(p) == ca_code(q) <==> same_taps(p, q),
{
    lemma_taps_range(p);
    lemma_taps_range(q);
    if same_taps(p, q) {
        assert(ca_code(p) =~= ca_code(q));
    }
    if ca_code(p) == ca_code(q) {
        lemma_chip_agree(p, q, 0);
        lemma_chip_agree(p, q, 1);
        lemma_chip_agree(p, q, 2);
        lemma_chip_agree(p, q, 3);
        lemma_chip_agree(p, q, 4);
        lemma_chip_agree(p, q, 5);
        lemma_chip_agree(p, q, 6);
        lemma_chip_agree(p, q, 7);
        lemma_chip_agree(p, q, 8);
        lemma_chip_agree(p, q, 9);
        lemma_head_distinguishes_taps(
            g2_taps(p).0 as u32,
            g2_taps(p).1 as u32,
            g2_taps(q).0 as u32,
            g2_taps(q).1 as u32,
        );
    }
}

/// IS-GPS-200 Table 3-Ia: the first ten chips of the C/A code of each GPS
/// PRN, in octal, the first chip most significant (a 1 is a +1 chip).
pub open spec fn published_first_chips(prn: u8) -> u32 {
    if prn == 1 {
        0o1440u32
    } else if prn == 2 {
        0o1620u32
    } else if prn == 3 {
        0o1710u32
    } else if prn == 4 {
        0o1744u32
    } else if prn == 5 {
        0o1133u32
    } else if prn == 6 {
        0o1455u32
    } else if prn == 7 {
        0o1131u32
    } else if prn == 8 {
        0o1454u32
    } else if prn == 9 {
        0o1626u32
    } else if prn == 10 {
        0o1504u32
    } else if prn == 11 {
        0o1642u32
    } else if prn == 12 {
        0o1750u32
    } else if prn == 13 {
        0o1764u32
    } else if prn == 14 {
        0o1772u32
    } else if prn == 15 {
        0o1775u32
    } else if prn == 16 {
        0o1776u32
    } else if prn == 17 {
        0o1156u32
    } else if prn == 18 {
        0o1467u32
    } else if prn == 19 {
        0o1633u32
    } else if prn == 20 {
        0o1715u32
    } else if prn == 21 {
        0o1746u32
    } else if prn == 22 {
        0o1763u32
    } else if prn == 23 {
        0o1063u32
    } else if prn == 24 {
        0o1706u32
    } else if prn == 25 {
        0o1743u32
    } else if prn == 26 {
        0o1761u32
    } else if prn == 27 {
        0o1770u32
    } else if prn == 28 {
        0o1774u32
    } else if prn == 29 {
        0o1127u32
    } else if prn == 30 {
        0o1453u32
    } else if prn == 31 {
        0o1625u32
    } else if prn == 32 {
        0o1712u32
    } else {
        0u32
    }
}

/// Chip `i` (0 to 9) of PRN `prn` as the published table gives it.
pub open spec fn published_chip(prn: u8, i: int) -> i8 {
    if (published_first_chips(prn) >> ((9 - i) as u32)) & 1u32 == 1u32 {
        1i8
    } else {
        -1i8
    }
}

/// The first ten chips, most significant first, of the code whose G2 taps
/// are cells `d1` and `d2`, read off the G2 sequence values 0 to 18 (held
/// here in reverse order, value `k` at bit `18 - k`).
spec fn first_word(d1: u32, d2: u32) -> u32 {
    !((0x7FE5Au32 >> d1) ^ (0x7FE5Au32 >> d2)) & 0x3FFu32
}

proof fn lemma_first_word_bit(d1: u32, d2: u32, i: u32)
    by (bit_vector)
    requires
        d1 < 10,
        d2 < 10,
        i < 10,
    ensures
        ((first_word(d1, d2) >> ((9 - i) as u32)) & 1u32 == 1u32) == (head_bit(i + 9 - d1)
            == head_bit(i + 9 - d2)),
{
}

proof fn lemma_first_words()
    by (bit_vector)
    ensures
        first_word(1u32, 5u32) == 0o1440u32,
        first_word(2u32, 6u32) == 0o1620u32,
        first_word(3u32, 7u32) == 0o1710u32,
        first_word(4u32, 8u32) == 0o1744u32,
        first_word(0u32, 8u32) == 0o1133u32,
        first_word(1u32, 9u32) == 0o1455u32,
        first_word(0u32, 7u32) == 0o1131u32,
        first_word(1u32, 8u32) == 0o1454u32,
        first_word(2u32, 9u32) == 0o1626u32,
        first_word(1u32, 2u32) == 0o1504u32,
        first_word(2u32, 3u32) == 0o1642u32,
        first_word(4u32, 5u32) == 0o1750u32,
        first_word(5u32, 6u32) == 0o1764u32,
        first_word(6u32, 7u32) == 0o1772u32,
        first_word(7u32, 8u32) == 0o1775u32,
        first_word(8u32, 9u32) == 0o1776u32,
        first_word(0u32, 3u32) == 0o1156u32,
        first_word(1u32, 4u32) == 0o1467u32,
        first_word(2u32, 5u32) == 0o1633u32,
        first_word(3u32, 6u32) == 0o1715u32,
        first_word(4u32, 7u32) == 0o1746u32,
        first_word(5u32, 8u32) == 0o1763u32,
        first_word(0u32, 2u32) == 0o1063u32,
        first_word(3u32, 5u32) == 0o1706u32,
        first_word(4u32, 6u32) == 0o1743u32,
        first_word(5u32, 7u32) == 0o1761u32,
        first_word(6u32, 8u32) == 0o1770u32,
        first_word(7u32, 9u32) == 0o1774u32,
        first_word(0u32, 5u32) == 0o1127u32,
        first_word(1u32, 6u32) == 0o1453u32,
        first_word(2u32, 7u32) == 0o1625u32,
        first_word(3u32, 8u32) == 0o1712u32,
{
}

/// Each GPS PRN gets the code that IS-GPS-200 publishes for it: its first
/// ten chips are those of the published table.
pub proof fn law_published_first_chips(prn: u8)
    requires
        1 <= prn <= 32,
    ensures
        forall|i: int| 0 <= i < 10 ==> #[trigger] ca_code(prn)[i] == published_chip(prn, i),
{
    lemma_taps_range(prn);
    let (a1, a2) = g2_taps(prn);
    let d1 = a1 as u32;
    let d2 = a2 as u32;
    lemma_first_words();
    assert(first_word(d1, d2) == published_first_chips(prn));
    assert forall|i: int| 0 <= i < 10 implies #[trigger] ca_code(prn)[i] == published_chip(prn, i) by {
        lemma_first_word_bit(d1, d2, i as u32);
        assert(ca_code(prn)[i] == ca_chip(prn, i as nat));
        assert(g1_seq(i as nat) == 1);
        lemma_g2_is_bit((i + 9 - a1) as nat);
        lemma_g2_is_bit((i + 9 - a2) as nat);
        lemma_head_bit(i + 9 - a1);
        lemma_head_bit(i + 9 - a2);
    }
}

/// The 32 GPS PRNs have pairwise different C/A codes.
pub proof fn law_gps_codes_distinct(p: u8, q: u8)
    requires
        1 <= p <= 32,
        1 <= q <= 32,
        p != q,
    ensures
        ca_code(p) != ca_code(q),
{
    law_codes_distinct(p, q);
}

/// GPS C/A code generator using Gold codes
pub struct CaCodeGenerator;

/// Shifts `b` into cell 0 of a ten-cell register; the last cell falls out.
fn shift_in(reg: &mut Vec<i8>, b: i8)
    requires
        old(reg)@.len() == 10,
    ensures
        final(reg)@ == seq![b] + old(reg)@.take(9),
{
    let mut j: usize = 9;
    while j > 0
        invariant
            0 <= j <= 9,
            reg@.len() == 10,
            forall|k: int| 0 <= k <= j ==> reg@[k] == old(reg)@[k],
            forall|k: int| j < k < 10 ==> reg@[k] == old(reg)@[k - 1],
        decreases j,
    {
        let v = reg[j - 1];
        reg.set(j, v);
        j = j - 1;
    }
    reg.set(0, b);
    assert(reg@ =~= seq![b] + old(reg)@.take(9));
}

impl CaCodeGenerator {
    /// Generate C/A code for a given PRN (1-32 for GPS, 120-158 for SBAS)
    pub fn generate(prn: u8) -> (code: Vec<i8>)
        requires
            valid_prn(prn),
        ensures
            code@ == ca_code(prn),
            code@.len() == GPS_CA_CODE_LENGTH,
            forall|i: int| 0 <= i < code@.len() ==> code@[i] == 1 || code@[i] == -1,
    {
        let (g2_delay1, g2_delay2) = Self::get_g2_delays(prn);
        let mut code: Vec<i8> = Vec::new();

        // G1 LFSR: x^10 + x^3 + 1
        let mut g1: Vec<i8> = vec![1i8; 10];
        // G2 LFSR: x^10 + x^9 + x^8 + x^6 + x^3 + x^2 + 1
        let mut g2: Vec<i8> = vec![1i8; 10];

        let mut i: usize = 0;
        while i < GPS_CA_CODE_LENGTH
            invariant
                0 <= i <= GPS_CA_CODE_LENGTH,
                g2_taps(prn) == (g2_delay1 as int, g2_delay2 as int),
                g2_delay1 < 10,
                g2_delay2 < 10,
                g1@.len() == 10,
                g2@.len() == 10,
                forall|j: int| 0 <= j < 10 ==> g1@[j] == g1_seq((i + 9 - j) as nat),
                forall|j: int| 0 <= j < 10 ==> g2@[j] == g2_seq((i + 9 - j) as nat),
                code@ == ca_code(prn).take(i as int),
            decreases GPS_CA_CODE_LENGTH - i,
        {
            proof {
                assert forall|j: int| 0 <= j < 10 implies (g1@[j] == 0 || g1@[j] == 1) && (g2@[j]
                    == 0 || g2@[j] == 1) by {
                    lemma_g1_is_bit((i + 9 - j) as nat);
                    lemma_g2_is_bit((i + 9 - j) as nat);
                }
            }
            // Output is XOR of G1 and selected G2 taps
            let g1_out = g1[9];
            proof {
                lemma_xor_exec(g2@[g2_delay1 as int], g2@[g2_delay2 as int]);
            }
            let g2_out = g2[g2_delay1] ^ g2[g2_delay2];
            proof {
                lemma_xor_exec(g1_out, g2_out);
            }
            let chip: i8 = if (g1_out ^ g2_out) == 1 {
                1
            } else {
                -1
            };
            code.push(chip);

            // Shift G1
            proof {
                lemma_xor_exec(g1@[2], g1@[9]);
            }
            let g1_feedback = g1[2] ^ g1[9];
            shift_in(&mut g1, g1_feedback);

            // Shift G2
            proof {
                lemma_xor_exec(g2@[8], g2@[9]);
                lemma_xor_exec(g2@[7], xor_bit(g2@[8], g2@[9]));
                lemma_xor_exec(g2@[5], xor_bit(g2@[7], xor_bit(g2@[8], g2@[9])));
                lemma_xor_exec(g2@[2], xor_bit(g2@[5], xor_bit(g2@[7], xor_bit(g2@[8], g2@[9]))));
                lemma_xor_exec(
                    g2@[1],
                    xor_bit(g2@[2], xor_bit(g2@[5], xor_bit(g2@[7], xor_bit(g2@[8], g2@[9])))),
                );
            }
            let g2_feedback = g2[1] ^ (g2[2] ^ (g2[5] ^ (g2[7] ^ (g2[8] ^ g2[9]))));
            shift_in(&mut g2, g2_feedback);

            proof {
                assert(g1_seq((i + 10) as nat) == xor_bit(
                    g1_seq((i + 7) as nat),
                    g1_seq(i as nat),
                ));
                assert(g2_seq((i + 10) as nat) == xor_bit(
                    g2_seq((i + 8) as nat),
                    xor_bit(
                        g2_seq((i + 7) as nat),
                        xor_bit(
                            g2_seq((i + 4) as nat),
                            xor_bit(
                                g2_seq((i + 2) as nat),
                                xor_bit(g2_seq((i + 1) as nat), g2_seq(i as nat)),
                            ),
                        ),
                    ),
                ));
                assert(ca_code(prn).take(i + 1) =~= ca_code(prn).take(i as int).push(chip));
            }
            i = i + 1;
        }
        proof {
            assert(ca_code(prn).take(GPS_CA_CODE_LENGTH as int) =~= ca_code(prn));
            assert forall|k: int| 0 <= k < code@.len() implies code@[k] == 1 || code@[k] == -1 by {
                assert(code@[k] == ca_chip(prn, k as nat));
            }
        }
        code
    }

    /// Get G2 register tap delays for each PRN
    /// Returns (delay1, delay2) as indices into the G2 shift register
    fn get_g2_delays(prn: u8) -> (r: (usize, usize))
        requires
            valid_prn(prn),
        ensures
            (r.0 as int, r.1 as int) == g2_taps(prn),
            r.0 < 10,
            r.1 < 10,
    {
        match prn {
            1 => (1, 5),
            2 => (2, 6),
            3 => (3, 7),
            4 => (4, 8),
            5 => (0, 8),
            6 => (1, 9),
            7 => (0, 7),
            8 => (1, 8),
            9 => (2, 9),
            10 => (1, 2),
            11 => (2, 3),
            12 => (4, 5),
            13 => (5, 6),
            14 => (6, 7),
            15 => (7, 8),
            16 => (8, 9),
            17 => (0, 3),
            18 => (1, 4),
            19 => (2, 5),
            20 => (3, 6),
            21 => (4, 7),
            22 => (5, 8),
            23 => (0, 2),
            24 => (3, 5),
            25 => (4, 6),
            26 => (5, 7),
            27 => (6, 8),
            28 => (7, 9),
            29 => (0, 5),
            30 => (1, 6),
            31 => (2, 7),
            32 => (3, 8),
            _ => {
                // SBAS satellites (PRN 120-158): simplified tap selection,
                // same register structure.
                let offset = (prn - 120) as usize;
                ((offset % 9), ((offset + 3) % 9 + 1))
            },
        }
    }
}

} // verus!
