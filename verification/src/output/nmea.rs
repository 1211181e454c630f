use vstd::prelude::*;
use vstd::string::StringSliceAdditionalSpecFns;

use vstd::utf8::encode_utf8;

use crate::text::{dec_digit, decimal, push_char, push_decimal};

verus! {

/// The exclusive or of all bytes.
pub open spec fn xor_all(bytes: Seq<u8>) -> u8
    decreases bytes.len(),
{
    if bytes.len() == 0 {
        0
    } else {
        xor_all(bytes.drop_last()) ^ bytes.last()
    }
}

/// The upper-case hexadecimal digit for `n` in `0..16`.
pub open spec fn hex_digit(n: int) -> char {
    seq!['0', '1', '2', '3', '4', '5', '6', '7', '8', '9', 'A', 'B', 'C', 'D', 'E', 'F'][n]
}

/// The NMEA checksum of a sentence body: the exclusive or of its bytes as
/// two upper-case hexadecimal digits.
pub open spec fn checksum_chars(bytes: Seq<u8>) -> Seq<char> {
    let x = xor_all(bytes);
    seq![hex_digit(x as int / 16), hex_digit(x as int % 16)]
}

/// `n` in decimal, padded with a leading zero to at least two digits.
pub open spec fn two_digit_decimal(n: u8) -> Seq<char> {
    if n < 100 {
        seq![dec_digit(n as int / 10), dec_digit(n as int % 10)]
    } else {
        seq![dec_digit(n as int / 100), dec_digit((n as int / 10) % 10), dec_digit(n as int % 10)]
    }
}

/// The twelve satellite fields of a GSA sentence for the first `k` slots:
/// each used slot holds the PRN in two-digit decimal, each slot ends with a
/// comma.
pub open spec fn gsa_fields_upto(prns: Seq<u8>, k: nat) -> Seq<char>
    decreases k,
{
    if k == 0 {
        Seq::empty()
    } else {
        let i = k - 1;
        gsa_fields_upto(prns, i as nat) + if i < prns.len() {
            two_digit_decimal(prns[i]) + seq![',']
        } else {
            seq![',']
        }
    }
}

/// The GSV sentences needed for `n` satellites, four per sentence.
pub open spec fn gsv_message_count(n: nat) -> nat {
    (n + 3) / 4
}

/// The satellite fields `lo..hi` joined.
pub open spec fn joined(fields: Seq<Seq<char>>, lo: int, hi: int) -> Seq<char>
    decreases hi - lo,
{
    if lo >= hi {
        Seq::empty()
    } else {
        joined(fields, lo, hi - 1) + fields[hi - 1]
    }
}

/// The body of GSV sentence `m` (from 0) for the given satellite fields:
/// `GPGSV,<count>,<m + 1>,<satellites>` followed by the fields of
/// satellites `4m` to `4m + 3`.
pub open spec fn gsv_body(fields: Seq<Seq<char>>, m: nat) -> Seq<char> {
    let n = fields.len();
    let start = 4 * m;
    let end = if start + 4 < n {
        start + 4
    } else {
        n
    };
    "GPGSV,"@ + decimal(gsv_message_count(n)) + seq![','] + decimal(m + 1) + seq![','] + decimal(n)
        + joined(fields, start as int, end as int)
}

/// A sentence body framed as `$<body>*<checksum>`.
pub open spec fn framed(body: Seq<char>) -> Seq<char> {
    seq!['$'] + body + seq!['*'] + checksum_chars(encode_utf8(body))
}

proof fn lemma_encode_concat(a: Seq<char>, b: Seq<char>)
    ensures
        encode_utf8(a + b) == encode_utf8(a) + encode_utf8(b),
    decreases a.len(),
{
    if a.len() == 0 {
        assert(a + b =~= b);
        assert(encode_utf8(a) + encode_utf8(b) =~= encode_utf8(b));
    } else {
        assert((a + b).drop_first() =~= a.drop_first() + b);
        lemma_encode_concat(a.drop_first(), b);
        assert(encode_utf8(a + b) =~= encode_utf8(a) + encode_utf8(b));
    }
}

/// The exclusive or of a concatenation is the exclusive or of the parts.
pub proof fn law_xor_concat(x: Seq<u8>, y: Seq<u8>)
    ensures
        xor_all(x + y) == xor_all(x) ^ xor_all(y),
    decreases y.len(),
{
    let xx = xor_all(x);
    if y.len() == 0 {
        assert(x + y =~= x);
        assert(xx ^ 0u8 == xx) by (bit_vector);
    } else {
        assert((x + y).drop_last() =~= x + y.drop_last());
        law_xor_concat(x, y.drop_last());
        let p = xor_all(y.drop_last());
        let l = y.last();
        assert((xx ^ p) ^ l == xx ^ (p ^ l)) by (bit_vector);
    }
}

/// The checksum of a concatenation of two texts is the exclusive or of
/// their checksums, and the checksum of the empty text is "00".
pub proof fn law_checksum_concat(a: Seq<char>, b: Seq<char>)
    ensures
        xor_all(encode_utf8(a + b)) == xor_all(encode_utf8(a)) ^ xor_all(encode_utf8(b)),
        checksum_chars(encode_utf8(Seq::empty())) == seq!['0', '0'],
{
    lemma_encode_concat(a, b);
    law_xor_concat(encode_utf8(a), encode_utf8(b));
    assert(encode_utf8(Seq::<char>::empty()) =~= Seq::<u8>::empty());
}

pub struct NmeaGenerator;

impl NmeaGenerator {
    /// Generate NMEA checksum
    pub fn checksum(sentence: &str) -> (r: String)
        ensures
            r@ == checksum_chars(sentence.spec_bytes()),
    {
        let bytes = sentence.as_bytes();
        let mut checksum: u8 = 0;
        let mut i: usize = 0;
        while i < bytes.len()
            invariant
                0 <= i <= bytes@.len(),
                bytes@ == sentence.spec_bytes(),
                checksum == xor_all(bytes@.take(i as int)),
            decreases bytes@.len() - i,
        {
            assert(bytes@.take(i + 1).drop_last() =~= bytes@.take(i as int));
            checksum = checksum ^ bytes[i];
            i = i + 1;
        }
        assert(bytes@.take(bytes@.len() as int) =~= bytes@);
        let digits: [char; 16] = [
            '0',
            '1',
            '2',
            '3',
            '4',
            '5',
            '6',
            '7',
            '8',
            '9',
            'A',
            'B',
            'C',
            'D',
            'E',
            'F',
        ];
        assert(checksum >> 4u8 == checksum / 16 && checksum & 15u8 == checksum % 16) by (bit_vector);
        let hi = (checksum >> 4) as usize;
        let lo = (checksum & 15) as usize;
        let mut r = String::new();
        push_char(&mut r, digits[hi]);
        push_char(&mut r, digits[lo]);
        assert(r@ =~= checksum_chars(sentence.spec_bytes()));
        r
    }

    /// Frames a sentence body as `$<body>*<checksum>`.
    pub fn frame_sentence(body: &str) -> (r: String)
        ensures
            r@ == framed(body@),
    {
        let mut r = String::new();
        push_char(&mut r, '$');
        r.append(body);
        push_char(&mut r, '*');
        let cs = Self::checksum(body);
        r.append(cs.as_str());
        assert(r@ =~= seq!['$'] + body@ + seq!['*'] + checksum_chars(body.spec_bytes()));
        r
    }

    /// The GSV sentences for satellites whose fields (each `,PRN,elev,azim,snr`)
    /// are given: four satellites per sentence, each sentence numbered and
    /// framed.
    pub fn gsv_from_fields(satellite_fields: &[String]) -> (r: Vec<String>)
        requires
            satellite_fields@.len() + 3 <= usize::MAX,
        ensures
            r@.len() == gsv_message_count(satellite_fields@.len()),
            forall|m: int|
                0 <= m < r@.len() ==> #[trigger] r@[m]@ == framed(
                    gsv_body(satellite_fields@.map_values(|f: String| f@), m as nat),
                ),
    {
        let ghost fields = satellite_fields@.map_values(|f: String| f@);
        let n = satellite_fields.len();
        let num_messages = (n + 3) / 4;
        let mut sentences: Vec<String> = Vec::new();
        let mut msg_num: usize = 0;
        while msg_num < num_messages
            invariant
                0 <= msg_num <= num_messages,
                n == satellite_fields@.len(),
                num_messages == gsv_message_count(n as nat),
                n + 3 <= usize::MAX,
                fields == satellite_fields@.map_values(|f: String| f@),
                sentences@.len() == msg_num,
                forall|m: int|
                    0 <= m < msg_num ==> #[trigger] sentences@[m]@ == framed(
                        gsv_body(fields, m as nat),
                    ),
            decreases num_messages - msg_num,
        {
            let start = msg_num * 4;
            let end = if start + 4 < n {
                start + 4
            } else {
                n
            };
            let mut body = String::from_str("GPGSV,");
            push_decimal(&mut body, num_messages);
            push_char(&mut body, ',');
            push_decimal(&mut body, msg_num + 1);
            push_char(&mut body, ',');
            push_decimal(&mut body, n);
            let ghost head = body@;
            let mut k: usize = start;
            while k < end
                invariant
                    start <= k <= end,
                    end <= n,
                    n == satellite_fields@.len(),
                    fields == satellite_fields@.map_values(|f: String| f@),
                    body@ == head + joined(fields, start as int, k as int),
                decreases end - k,
            {
                body.append(satellite_fields[k].as_str());
                k = k + 1;
            }
            let sentence = Self::frame_sentence(body.as_str());
            assert(body@ =~= gsv_body(fields, msg_num as nat));
            sentences.push(sentence);
            msg_num = msg_num + 1;
        }
        sentences
    }

    /// The twelve satellite-ID fields of a GSA sentence, each followed by a
    /// comma: the first twelve PRNs in two-digit decimal, empty fields after.
    pub fn gsa_prn_fields(satellite_prns: &[u8]) -> (r: String)
        ensures
            r@ == gsa_fields_upto(satellite_prns@, 12),
    {
        let mut prn_fields = String::new();
        let mut i: usize = 0;
        while i < 12
            invariant
                0 <= i <= 12,
                prn_fields@ == gsa_fields_upto(satellite_prns@, i as nat),
            decreases 12 - i,
        {
            let ghost before = prn_fields@;
            if i < satellite_prns.len() {
                push_two_digit_decimal(&mut prn_fields, satellite_prns[i]);
                push_char(&mut prn_fields, ',');
                assert(prn_fields@ =~= before + two_digit_decimal(satellite_prns@[i as int])
                    + seq![',']);
            } else {
                push_char(&mut prn_fields, ',');
            }
            i = i + 1;
        }
        prn_fields
    }
}

/// Appends `n` in decimal, padded to at least two digits.
fn push_two_digit_decimal(s: &mut String, n: u8)
    ensures
        final(s)@ == old(s)@ + two_digit_decimal(n),
{
    let digits: [char; 10] = ['0', '1', '2', '3', '4', '5', '6', '7', '8', '9'];
    if n >= 100 {
        push_char(s, digits[(n / 100) as usize]);
    }
    push_char(s, digits[((n / 10) % 10) as usize]);
    push_char(s, digits[(n % 10) as usize]);
    assert(final(s)@ =~= old(s)@ + two_digit_decimal(n));
}

} // verus!
