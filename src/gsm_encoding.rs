//! The GSM 03.38 7-bit alphabet: character mapping, septet packing, and the
//! message data carried in SMS user data.
use vstd::prelude::*;
use encoding::Encoding;

pub mod tables;
pub mod udh;

verus! {

use crate::text::push_char;
use crate::text::chars_of;
use self::tables::{base_char, base_code, ext_char, ext_code};
use self::tables::{spec_base_char, spec_base_code, spec_ext_char, spec_ext_code};
use self::udh::{UdhComponent, UserDataHeader, spec_parse_components};
use crate::pdu::MessageEncoding;
use crate::errors::{HuaweiError, HuaweiResult};
use vstd::slice::{slice_subrange, slice_to_vec};

/// An ASCII letter or digit, whose GSM code is its ASCII code.
pub open spec fn is_alnum_byte(b: u8) -> bool {
    (0x41 <= b <= 0x5A) || (0x61 <= b <= 0x7A) || (0x30 <= b <= 0x39)
}

pub open spec fn is_alnum_char(c: char) -> bool {
    (0x41 <= c as u32 <= 0x5A) || (0x61 <= c as u32 <= 0x7A) || (0x30 <= c as u32 <= 0x39)
}

/// The septets that stand for one character, if it has any.
pub open spec fn spec_char_septets(c: char) -> Option<Seq<u8>> {
    if is_alnum_char(c) {
        Some(seq![c as u8])
    } else if spec_base_code(c) is Some {
        Some(seq![spec_base_code(c)->0])
    } else if spec_ext_code(c) is Some {
        Some(seq![0x1Bu8, spec_ext_code(c)->0])
    } else {
        None
    }
}

/// The unpacked septets of a text, if every character has a GSM code.
pub open spec fn spec_gsm_encode(s: Seq<char>) -> Option<Seq<u8>>
    decreases s.len(),
{
    if s.len() == 0 {
        Some(Seq::empty())
    } else {
        match (spec_gsm_encode(s.drop_last()), spec_char_septets(s.last())) {
            (Some(a), Some(b)) => Some(a + b),
            _ => None,
        }
    }
}

/// The text of unpacked septets. Codes without a character are skipped; an
/// escape code takes the next code from the extension table, and both are
/// skipped if it has no character there.
pub open spec fn spec_gsm_decode(s: Seq<u8>) -> Seq<char>
    decreases s.len(),
{
    if s.len() == 0 {
        Seq::empty()
    } else if is_alnum_byte(s[0]) {
        seq![s[0] as char] + spec_gsm_decode(s.drop_first())
    } else if s[0] == 0x1B {
        if s.len() < 2 {
            Seq::empty()
        } else if spec_ext_char(s[1]) is Some {
            seq![spec_ext_char(s[1])->0] + spec_gsm_decode(s.subrange(2, s.len() as int))
        } else {
            spec_gsm_decode(s.subrange(2, s.len() as int))
        }
    } else if spec_base_char(s[0]) is Some {
        seq![spec_base_char(s[0])->0] + spec_gsm_decode(s.drop_first())
    } else {
        spec_gsm_decode(s.drop_first())
    }
}

/// Decodes unpacked septets into text; codes without a character are skipped.
pub fn gsm_decode_string(input: &[u8]) -> (r: String)
    ensures
        r@ == spec_gsm_decode(input@),
{
    let mut ret = String::new();
    let mut i: usize = 0;
    assert(input@.subrange(0, input@.len() as int) == input@);
    assert(ret@ + spec_gsm_decode(input@) =~= spec_gsm_decode(input@));
    while i < input.len()
        invariant
            i <= input@.len(),
            ret@ + spec_gsm_decode(input@.subrange(i as int, input@.len() as int)) == spec_gsm_decode(input@),
        decreases input@.len() - i,
    {
        let ghost rest = input@.subrange(i as int, input@.len() as int);
        let b = input[i];
        if (0x41 <= b && b <= 0x5A) || (0x61 <= b && b <= 0x7A) || (0x30 <= b && b <= 0x39) {
            push_char(&mut ret, b as char);
            i += 1;
            assert(rest.drop_first() == input@.subrange(i as int, input@.len() as int));
        } else if b == 0x1B {
            if i + 1 < input.len() {
                if let Some(c) = ext_char(input[i + 1]) {
                    push_char(&mut ret, c);
                }
                i += 2;
                assert(rest.subrange(2, rest.len() as int) == input@.subrange(i as int, input@.len() as int));
            } else {
                i += 1;
                assert(input@.subrange(i as int, input@.len() as int) =~= Seq::<u8>::empty());
            }
        } else {
            if let Some(c) = base_char(b) {
                push_char(&mut ret, c);
            }
            i += 1;
            assert(rest.drop_first() == input@.subrange(i as int, input@.len() as int));
        }
    }
    ret
}

/// Appends the septets of `b` to `dest` if it has any; tells whether it had.
pub fn try_gsm_encode_char(b: char, dest: &mut Vec<u8>) -> (r: bool)
    ensures
        r == spec_char_septets(b) is Some,
        r ==> final(dest)@ == old(dest)@ + spec_char_septets(b)->0,
        !r ==> final(dest)@ == old(dest)@,
{
    let v = b as u32;
    if (0x41 <= v && v <= 0x5A) || (0x61 <= v && v <= 0x7A) || (0x30 <= v && v <= 0x39) {
        dest.push(b as u8);
        return true;
    }
    if let Some(code) = base_code(b) {
        dest.push(code);
        return true;
    }
    if let Some(code) = ext_code(b) {
        dest.push(0x1B);
        dest.push(code);
        return true;
    }
    false
}

proof fn lemma_encode_prefix_fails(s: Seq<char>, i: int)
    requires
        0 <= i <= s.len(),
        spec_gsm_encode(s.subrange(0, i)) is None,
    ensures
        spec_gsm_encode(s) is None,
    decreases s.len() - i,
{
    if i < s.len() {
        assert(s.subrange(0, i + 1).drop_last() == s.subrange(0, i));
        lemma_encode_prefix_fails(s, i + 1);
    } else {
        assert(s.subrange(0, i) == s);
    }
}

/// The unpacked septets of `input`, if every character has a GSM code.
pub fn try_gsm_encode_string(input: &str) -> (r: Option<Vec<u8>>)
    ensures
        r is Some <==> spec_gsm_encode(input@) is Some,
        r matches Some(v) ==> v@ == spec_gsm_encode(input@)->0,
{
    let cs = chars_of(input);
    let mut ret: Vec<u8> = Vec::new();
    let mut i: usize = 0;
    while i < cs.len()
        invariant
            cs@ == input@,
            i <= cs@.len(),
            spec_gsm_encode(cs@.subrange(0, i as int)) == Some(ret@),
        decreases cs@.len() - i,
    {
        assert(cs@.subrange(0, i + 1).drop_last() == cs@.subrange(0, i as int));
        assert(cs@.subrange(0, i + 1).last() == cs@[i as int]);
        if !try_gsm_encode_char(cs[i], &mut ret) {
            proof {
                lemma_encode_prefix_fails(cs@, i + 1);
            }
            return None;
        }
        i += 1;
    }
    assert(cs@.subrange(0, cs@.len() as int) == cs@);
    Some(ret)
}

/// Bit `t` (0 = least significant) of the octet `x`.
pub open spec fn bit_of(x: u8, t: int) -> bool {
    0 <= t < 8 && (x >> (t as u8)) & 1 == 1
}

/// Bit `q` of the stream that packs the septets `s` LSB first after `p` fill bits.
pub open spec fn packed_bit(s: Seq<u8>, p: int, q: int) -> bool {
    p <= q < p + 7 * s.len() && bit_of(s[(q - p) / 7], (q - p) % 7)
}

/// Bit `q` of the octets `o`, LSB first; bits past the end are clear.
pub open spec fn octet_bit(o: Seq<u8>, q: int) -> bool {
    0 <= q < 8 * o.len() && bit_of(o[q / 8], q % 8)
}

/// `r` is the packing of the septets `s` after `p` fill bits: every bit of `r`
/// is the bit at the same place of the packed stream (this fixes `r`).
pub open spec fn is_packing(r: Seq<u8>, s: Seq<u8>, p: int) -> bool {
    &&& r.len() == (p + 7 * s.len() + 7) / 8
    &&& forall|q: int| 0 <= q < 8 * r.len() ==> (#[trigger] octet_bit(r, q) <==> packed_bit(s, p, q))
}

/// `d` holds the `len` septets read from the octets `o` after `p` fill bits
/// (this fixes `d`).
pub open spec fn is_unpacking(d: Seq<u8>, o: Seq<u8>, p: int, len: int) -> bool {
    &&& d.len() == len
    &&& forall|i: int| 0 <= i < len ==> #[trigger] d[i] < 128
    &&& forall|i: int, k: int| 0 <= i < len && 0 <= k < 7 ==> (#[trigger] bit_of(d[i], k) <==> octet_bit(
        o,
        p + 7 * i + k,
    ))
}

/// The septet whose bits are bits `q` to `q + 6` of the octets `o`.
pub open spec fn septet_at(o: Seq<u8>, q: int) -> u8 {
    ((if octet_bit(o, q) { 1int } else { 0int }) + (if octet_bit(o, q + 1) { 2int } else { 0int }) + (if octet_bit(
        o,
        q + 2,
    ) {
        4int
    } else {
        0int
    }) + (if octet_bit(o, q + 3) { 8int } else { 0int }) + (if octet_bit(o, q + 4) { 16int } else { 0int }) + (
    if octet_bit(o, q + 5) {
        32int
    } else {
        0int
    }) + (if octet_bit(o, q + 6) { 64int } else { 0int })) as u8
}

/// The `len` septets read from the octets `o` after `p` fill bits.
pub open spec fn spec_unpack(o: Seq<u8>, p: int, len: nat) -> Seq<u8> {
    Seq::new(len, |i: int| septet_at(o, p + 7 * i))
}

proof fn lemma_septet_from_bits(x: u8)
    requires
        x < 128,
    ensures
        x as int == (if bit_of(x, 0) { 1int } else { 0int }) + (if bit_of(x, 1) { 2int } else { 0int }) + (if bit_of(x, 2) {
            4int
        } else {
            0int
        }) + (if bit_of(x, 3) { 8int } else { 0int }) + (if bit_of(x, 4) { 16int } else { 0int }) + (if bit_of(x, 5) {
            32int
        } else {
            0int
        }) + (if bit_of(x, 6) { 64int } else { 0int }),
{
    let b0: u8 = (x >> 0u8) & 1;
    let b1: u8 = (x >> 1u8) & 1;
    let b2: u8 = (x >> 2u8) & 1;
    let b3: u8 = (x >> 3u8) & 1;
    let b4: u8 = (x >> 4u8) & 1;
    let b5: u8 = (x >> 5u8) & 1;
    let b6: u8 = (x >> 6u8) & 1;
    assert(x < 128 ==> x == b0 + 2 * b1 + 4 * b2 + 8 * b3 + 16 * b4 + 32 * b5 + 64 * b6 && b0 <= 1 && b1 <= 1 && b2
        <= 1 && b3 <= 1 && b4 <= 1 && b5 <= 1 && b6 <= 1) by (bit_vector)
        requires
            b0 == (x >> 0u8) & 1,
            b1 == (x >> 1u8) & 1,
            b2 == (x >> 2u8) & 1,
            b3 == (x >> 3u8) & 1,
            b4 == (x >> 4u8) & 1,
            b5 == (x >> 5u8) & 1,
            b6 == (x >> 6u8) & 1,
    ;
}

/// A sequence of septets read from some octets is the one `spec_unpack` gives.
pub proof fn lemma_unpacking_unique(d: Seq<u8>, o: Seq<u8>, p: int, len: nat)
    requires
        is_unpacking(d, o, p, len as int),
    ensures
        d == spec_unpack(o, p, len),
{
    assert forall|i: int| 0 <= i < len implies d[i] == #[trigger] spec_unpack(o, p, len)[i] by {
        lemma_septet_from_bits(d[i]);
        assert(bit_of(d[i], 0) <==> octet_bit(o, p + 7 * i + 0));
        assert(bit_of(d[i], 1) <==> octet_bit(o, p + 7 * i + 1));
        assert(bit_of(d[i], 2) <==> octet_bit(o, p + 7 * i + 2));
        assert(bit_of(d[i], 3) <==> octet_bit(o, p + 7 * i + 3));
        assert(bit_of(d[i], 4) <==> octet_bit(o, p + 7 * i + 4));
        assert(bit_of(d[i], 5) <==> octet_bit(o, p + 7 * i + 5));
        assert(bit_of(d[i], 6) <==> octet_bit(o, p + 7 * i + 6));
    }
    assert(d =~= spec_unpack(o, p, len));
}

proof fn lemma_set_bit(x: u8, t: u8, u: u8)
    requires
        t < 8,
        u < 8,
    ensures
        ((x | (1u8 << t)) >> u) & 1 == (if u == t { 1u8 } else { (x >> u) & 1 }),
{
    assert(t < 8 && u < 8 ==> ((x | (1u8 << t)) >> u) & 1 == (if u == t { 1u8 } else { (x >> u) & 1 })) by (bit_vector);
}

proof fn lemma_zero_bits(u: u8)
    requires
        u < 8,
    ensures
        (0u8 >> u) & 1 == 0,
{
    assert((0u8 >> u) & 1 == 0) by (bit_vector);
}

/// Packs septets into octets, LSB first, after `padding` fill bits. The result
/// has `ceil((padding + 7 * n) / 8)` octets; bit 7 of each septet is ignored.
pub fn encode_sms_7bit(orig: &[u8], padding: usize) -> (r: Vec<u8>)
    requires
        padding + 7 * orig@.len() + 8 <= usize::MAX,
    ensures
        is_packing(r@, orig@, padding as int),
{
    let n_bits = padding + 7 * orig.len();
    let len = (n_bits + 7) / 8;
    let mut out: Vec<u8> = Vec::new();
    let mut j: usize = 0;
    while j < len
        invariant
            n_bits == padding + 7 * orig@.len(),
            len == (n_bits + 7) / 8,
            j <= len,
            out@.len() == j,
            forall|q: int| 0 <= q < 8 * j ==> (#[trigger] octet_bit(out@, q) <==> packed_bit(orig@, padding as int, q)),
        decreases len - j,
    {
        let mut byte: u8 = 0;
        let mut t: usize = 0;
        proof {
            assert forall|u: int| 0 <= u < 8 implies !bit_of(0u8, u) by {
                lemma_zero_bits(u as u8);
            }
        }
        while t < 8
            invariant
                n_bits == padding + 7 * orig@.len(),
                len == (n_bits + 7) / 8,
                j < len,
                t <= 8,
                forall|u: int| 0 <= u < t ==> (bit_of(byte, u) <==> packed_bit(orig@, padding as int, 8 * j + u)),
                forall|u: int| t <= u < 8 ==> !bit_of(byte, u),
            decreases 8 - t,
        {
            let q = 8 * j + t;
            let old_byte = byte;
            if q >= padding && q < n_bits {
                let i = (q - padding) / 7;
                let k = (q - padding) % 7;
                if (orig[i] >> (k as u8)) & 1 == 1 {
                    byte = byte | (1u8 << (t as u8));
                }
            }
            proof {
                assert forall|u: int| 0 <= u < 8 implies (bit_of(byte, u) <==> (if u == t {
                    packed_bit(orig@, padding as int, 8 * j + u)
                } else {
                    bit_of(old_byte, u)
                })) by {
                    lemma_set_bit(old_byte, t as u8, u as u8);
                }
            }
            t += 1;
        }
        let ghost old_out = out@;
        out.push(byte);
        proof {
            assert forall|q: int| 0 <= q < 8 * (j + 1) implies (#[trigger] octet_bit(out@, q) <==> packed_bit(
                orig@,
                padding as int,
                q,
            )) by {
                if q >= 8 * j {
                    assert(q / 8 == j);
                    assert(q % 8 == q - 8 * j);
                    assert(out@[j as int] == byte);
                } else {
                    assert(0 <= q / 8 < j);
                    assert(out@[q / 8] == old_out[q / 8]);
                    assert(octet_bit(old_out, q) <==> packed_bit(orig@, padding as int, q));
                }
            }
        }
        j += 1;
    }
    out
}

/// Unpacks exactly `len` septets from octets, LSB first, after `padding` fill
/// bits; bits past the end of the octets count as clear.
pub fn decode_sms_7bit(orig: &[u8], padding: usize, len: usize) -> (r: Vec<u8>)
    requires
        padding + 7 * len + 8 <= usize::MAX,
    ensures
        is_unpacking(r@, orig@, padding as int, len as int),
        r@ == spec_unpack(orig@, padding as int, len as nat),
{
    let mut out: Vec<u8> = Vec::new();
    let mut i: usize = 0;
    while i < len
        invariant
            padding + 7 * len + 8 <= usize::MAX,
            i <= len,
            out@.len() == i,
            forall|x: int| 0 <= x < i ==> #[trigger] out@[x] < 128,
            forall|x: int, k: int| 0 <= x < i && 0 <= k < 7 ==> (#[trigger] bit_of(out@[x], k) <==> octet_bit(
                orig@,
                padding + 7 * x + k,
            )),
        decreases len - i,
    {
        let mut septet: u8 = 0;
        let mut k: usize = 0;
        proof {
            assert forall|u: int| 0 <= u < 8 implies !bit_of(0u8, u) by {
                lemma_zero_bits(u as u8);
            }
        }
        while k < 7
            invariant
                padding + 7 * len + 8 <= usize::MAX,
                i < len,
                k <= 7,
                forall|u: int| 0 <= u < k ==> (bit_of(septet, u) <==> octet_bit(orig@, padding + 7 * i + u)),
                forall|u: int| k <= u < 8 ==> !bit_of(septet, u),
            decreases 7 - k,
        {
            let q = padding + 7 * i + k;
            let old_septet = septet;
            if q / 8 < orig.len() {
                if (orig[q / 8] >> ((q % 8) as u8)) & 1 == 1 {
                    septet = septet | (1u8 << (k as u8));
                }
            }
            proof {
                assert forall|u: int| 0 <= u < 8 implies (bit_of(septet, u) <==> (if u == k {
                    octet_bit(orig@, padding + 7 * i + u)
                } else {
                    bit_of(old_septet, u)
                })) by {
                    lemma_set_bit(old_septet, k as u8, u as u8);
                }
            }
            k += 1;
        }
        proof {
            assert(!bit_of(septet, 7));
            assert(septet < 128) by {
                assert((septet >> 7u8) & 1 != 1 ==> septet < 128) by (bit_vector);
            }
        }
        out.push(septet);
        i += 1;
    }
    proof {
        lemma_unpacking_unique(out@, orig@, padding as int, len as nat);
    }
    out
}

/// What the UTF-16BE decoder of the `encoding` crate makes of some octets,
/// with malformed sequences replaced.
pub uninterp spec fn utf16be_text(b: Seq<u8>) -> Seq<char>;

/// What the UTF-16BE encoder of the `encoding` crate makes of a text.
pub uninterp spec fn utf16be_octets(s: Seq<char>) -> Seq<u8>;

/// Relies on `encoding::all::UTF_16BE.decode` with `DecoderTrap::Replace`,
/// which replaces malformed input and so never fails.
#[verifier::external_body]
fn utf16be_decode(b: &[u8]) -> (r: String)
    ensures
        r@ == utf16be_text(b@),
{
    encoding::all::UTF_16BE.decode(b, encoding::DecoderTrap::Replace).unwrap_or_default()
}

/// Relies on `encoding::all::UTF_16BE.encode` with `EncoderTrap::Replace`;
/// every character has a UTF-16 form of two octets, or four above U+FFFF,
/// so it never fails.
#[verifier::external_body]
fn utf16be_encode(s: &str) -> (r: Vec<u8>)
    ensures
        r@ == utf16be_octets(s@),
        r@.len() == utf16_len(s@),
{
    encoding::all::UTF_16BE.encode(s, encoding::EncoderTrap::Replace).unwrap_or_default()
}

/// Relies on `rand::random::<u8>`: any octet.
#[verifier::external_body]
fn random_u8() -> (r: u8) {
    rand::random::<u8>()
}

/// The user data of an SMS: its octets, whether they start with a header,
/// and the user data length (septets for 7-bit data, octets otherwise).
#[derive(Debug, Clone, PartialEq, Eq)]
pub struct GsmMessageData {
    pub encoding: MessageEncoding,
    pub udh: bool,
    pub bytes: Vec<u8>,
    pub user_data_len: u8,
}

/// A decoded message: its text, and its user data header if it had one.
#[derive(Debug, Clone, PartialEq, Eq)]
pub struct DecodedMessage {
    pub text: String,
    pub udh: Option<UserDataHeader>,
}

/// `s` cut into pieces of `size`, the last one holding what is left (one
/// piece, maybe empty, when `s` is no longer than `size`).
pub open spec fn spec_chunks(s: Seq<u8>, size: nat) -> Seq<Seq<u8>>
    decreases s.len(),
{
    if s.len() <= size || size == 0 {
        seq![s]
    } else {
        seq![s.subrange(0, size as int)] + spec_chunks(s.subrange(size as int, s.len() as int), size)
    }
}

/// The concatenation of the pieces `c`.
pub open spec fn spec_flatten(c: Seq<Seq<u8>>) -> Seq<u8>
    decreases c.len(),
{
    if c.len() == 0 {
        Seq::empty()
    } else {
        c[0] + spec_flatten(c.drop_first())
    }
}

/// Cutting a stream into pieces and putting them back together gives it back.
pub proof fn lemma_chunks_flatten(s: Seq<u8>, size: nat)
    ensures
        spec_flatten(spec_chunks(s, size)) == s,
        spec_chunks(s, size).len() >= 1,
    decreases s.len(),
{
    if s.len() <= size || size == 0 {
        let c = spec_chunks(s, size);
        assert(c.drop_first() =~= Seq::<Seq<u8>>::empty());
        assert(spec_flatten(c.drop_first()) == Seq::<u8>::empty());
        assert(c[0] == s);
        assert(s + Seq::<u8>::empty() =~= s);
    } else {
        let rest = s.subrange(size as int, s.len() as int);
        lemma_chunks_flatten(rest, size);
        assert(spec_chunks(s, size).drop_first() =~= spec_chunks(rest, size));
        assert(s.subrange(0, size as int) + rest =~= s);
    }
}

fn split_buffers(buf: &Vec<u8>, max_len: usize) -> (r: Vec<Vec<u8>>)
    requires
        max_len > 0,
    ensures
        r@.len() == spec_chunks(buf@, max_len as nat).len(),
        forall|i: int| 0 <= i < r@.len() ==> #[trigger] r@[i]@ == spec_chunks(buf@, max_len as nat)[i],
{
    let mut ret: Vec<Vec<u8>> = Vec::new();
    let mut start: usize = 0;
    assert(buf@.subrange(0, buf@.len() as int) == buf@);
    while buf.len() - start > max_len
        invariant
            max_len > 0,
            start <= buf@.len(),
            spec_chunks(buf@, max_len as nat) == Seq::new(ret@.len(), |i: int| ret@[i]@) + spec_chunks(
                buf@.subrange(start as int, buf@.len() as int),
                max_len as nat,
            ),
        decreases buf@.len() - start,
    {
        let ghost rest = buf@.subrange(start as int, buf@.len() as int);
        let piece = slice_to_vec(slice_subrange(buf.as_slice(), start, start + max_len));
        let ghost before = ret@;
        ret.push(piece);
        assert(rest.subrange(0, max_len as int) == piece@);
        assert(rest.subrange(max_len as int, rest.len() as int) == buf@.subrange(start + max_len, buf@.len() as int));
        assert(Seq::new(ret@.len(), |i: int| ret@[i]@) =~= Seq::new(before.len(), |i: int| before[i]@) + seq![piece@]);
        start = start + max_len;
    }
    let last = slice_to_vec(slice_subrange(buf.as_slice(), start, buf.len()));
    let ghost before = ret@;
    ret.push(last);
    assert(Seq::new(ret@.len(), |i: int| ret@[i]@) =~= Seq::new(before.len(), |i: int| before[i]@) + seq![last@]);
    proof {
        assert(Seq::new(ret@.len(), |i: int| ret@[i]@) =~= spec_chunks(buf@, max_len as nat));
        assert forall|i: int| 0 <= i < ret@.len() implies #[trigger] ret@[i]@ == spec_chunks(buf@, max_len as nat)[i] by {
            assert(Seq::new(ret@.len(), |i: int| ret@[i]@)[i] == ret@[i]@);
        }
    }
    ret
}

proof fn lemma_chunks_bounds(s: Seq<u8>, size: nat, k: nat)
    requires
        size > 0,
        k >= 1,
        s.len() <= k * size,
    ensures
        spec_chunks(s, size).len() <= k,
        forall|i: int| 0 <= i < spec_chunks(s, size).len() ==> #[trigger] spec_chunks(s, size)[i].len() <= size,
    decreases s.len(),
{
    if s.len() > size {
        let rest = s.subrange(size as int, s.len() as int);
        assert(k >= 2) by (nonlinear_arith)
            requires
                s.len() <= k * size,
                s.len() > size,
                k >= 1,
        ;
        assert(rest.len() <= (k - 1) as nat * size) by (nonlinear_arith)
            requires
                rest.len() == s.len() - size,
                s.len() <= k * size,
                k >= 2,
        ;
        lemma_chunks_bounds(rest, size, (k - 1) as nat);
        let c = spec_chunks(s, size);
        assert forall|i: int| 0 <= i < c.len() implies #[trigger] c[i].len() <= size by {
            if i > 0 {
                assert(c[i] == spec_chunks(rest, size)[i - 1]);
            }
        }
    }
}

/// The header octets of part `seq` of `parts`, with reference `r`.
pub open spec fn concat_udh_bytes(r: u8, parts: u8, seq: u8) -> Seq<u8> {
    seq![5u8, 0u8, 3u8, r, parts, seq]
}

fn concat_udh(r: u8, parts: u8, seq: u8) -> (h: UserDataHeader)
    ensures
        h.spec_bytes() == concat_udh_bytes(r, parts, seq),
        h.components@.len() == 1,
        h.components@[0].id == 0,
        h.components@[0].data@ == seq![r, parts, seq],
{
    let h = UserDataHeader { components: vec![UdhComponent { id: 0, data: vec![r, parts, seq] }] };
    proof {
        let cs = h.components@;
        assert(cs.drop_last() =~= Seq::<UdhComponent>::empty());
        assert(udh::spec_components_bytes(cs.drop_last()) == Seq::<u8>::empty());
        assert(cs.last().data@ =~= seq![r, parts, seq]);
        assert(udh::spec_components_bytes(cs) =~= seq![0u8, 3u8, r, parts, seq]);
        assert(h.spec_bytes() =~= concat_udh_bytes(r, parts, seq));
    }
    h
}

/// The longest text, in septets, that fits one message.
pub const MAX_SEPTETS: usize = 160;

/// Septets in each part of a concatenated message.
pub const PART_SEPTETS: usize = 153;

/// The longest text, in octets, that fits one UCS-2 message.
pub const MAX_OCTETS: usize = 140;

/// Octets in each part of a concatenated UCS-2 message.
pub const PART_OCTETS: usize = 134;

/// `r` are the parts that carry the unpacked septets `s`: one part without a
/// header when they fit, else parts of up to 153 septets, each behind a
/// concatenation header with reference `csms_ref`, the count of parts, and its
/// number from 1. The user data length of a part with a header counts the
/// septets of the header and its fill bits too.
pub open spec fn septet_parts(r: Seq<GsmMessageData>, s: Seq<u8>, csms_ref: u8) -> bool {
    &&& s.len() <= MAX_SEPTETS ==> {
        &&& r.len() == 1
        &&& r[0].encoding == MessageEncoding::Gsm7Bit
        &&& !r[0].udh
        &&& is_packing(r[0].bytes@, s, 0)
        &&& r[0].user_data_len == s.len()
    }
    &&& s.len() > MAX_SEPTETS ==> {
        let c = spec_chunks(s, PART_SEPTETS as nat);
        &&& r.len() == c.len()
        &&& forall|i: int| 0 <= i < c.len() ==> {
            let p = #[trigger] r[i];
            &&& p.encoding == MessageEncoding::Gsm7Bit
            &&& p.udh
            &&& p.bytes@.len() >= 6
            &&& p.bytes@.subrange(0, 6) == concat_udh_bytes(csms_ref, c.len() as u8, (i + 1) as u8)
            &&& is_packing(p.bytes@.subrange(6, p.bytes@.len() as int), c[i], 1)
            &&& p.user_data_len == 7 + c[i].len()
        }
    }
}

/// `r` are the parts that carry the UCS-2 octets `o`: one part without a
/// header when they fit, else parts of up to 134 octets, each behind a
/// concatenation header with reference `csms_ref`, the count of parts, and its
/// number from 1.
pub open spec fn octet_parts(r: Seq<GsmMessageData>, o: Seq<u8>, csms_ref: u8) -> bool {
    &&& o.len() <= MAX_OCTETS ==> {
        &&& r.len() == 1
        &&& r[0].encoding == MessageEncoding::Ucs2
        &&& !r[0].udh
        &&& r[0].bytes@ == o
        &&& r[0].user_data_len == o.len()
    }
    &&& o.len() > MAX_OCTETS ==> {
        let c = spec_chunks(o, PART_OCTETS as nat);
        &&& r.len() == c.len()
        &&& forall|i: int| 0 <= i < c.len() ==> {
            let p = #[trigger] r[i];
            &&& p.encoding == MessageEncoding::Ucs2
            &&& p.udh
            &&& p.bytes@ == concat_udh_bytes(csms_ref, c.len() as u8, (i + 1) as u8) + c[i]
            &&& p.user_data_len == 6 + c[i].len()
        }
    }
}

/// The parts that carry unpacked septets: one part without a header when
/// they fit, else parts of up to 153 septets, each behind a concatenation
/// header with reference `csms_ref`, the count of parts, and its number.
pub fn encode_septets(septets: &Vec<u8>, csms_ref: u8) -> (r: Vec<GsmMessageData>)
    requires
        septets@.len() <= 255 * PART_SEPTETS,
    ensures
        septet_parts(r@, septets@, csms_ref),
{
    if septets.len() <= MAX_SEPTETS {
        let bytes = encode_sms_7bit(septets.as_slice(), 0);
        return vec![GsmMessageData {
            encoding: MessageEncoding::Gsm7Bit,
            bytes,
            udh: false,
            user_data_len: septets.len() as u8,
        }];
    }
    let bufs = split_buffers(septets, PART_SEPTETS);
    proof {
        lemma_chunks_bounds(septets@, PART_SEPTETS as nat, 255);
    }
    let ghost c = spec_chunks(septets@, PART_SEPTETS as nat);
    let num_parts = bufs.len() as u8;
    let mut ret: Vec<GsmMessageData> = Vec::new();
    let mut i: usize = 0;
    while i < bufs.len()
        invariant
            c == spec_chunks(septets@, PART_SEPTETS as nat),
            bufs@.len() == c.len(),
            c.len() <= 255,
            num_parts == c.len() as u8,
            forall|j: int| 0 <= j < bufs@.len() ==> #[trigger] bufs@[j]@ == c[j],
            forall|j: int| 0 <= j < c.len() ==> #[trigger] c[j].len() <= PART_SEPTETS,
            i <= bufs@.len(),
            ret@.len() == i,
            forall|j: int| 0 <= j < i ==> {
                let p = #[trigger] ret@[j];
                &&& p.encoding == MessageEncoding::Gsm7Bit
                &&& p.udh
                &&& p.bytes@.len() >= 6
                &&& p.bytes@.subrange(0, 6) == concat_udh_bytes(csms_ref, c.len() as u8, (j + 1) as u8)
                &&& is_packing(p.bytes@.subrange(6, p.bytes@.len() as int), c[j], 1)
                &&& p.user_data_len == 7 + c[j].len()
            },
        decreases bufs@.len() - i,
    {
        let buf = &bufs[i];
        assert(buf@ == c[i as int]);
        let udh = concat_udh(csms_ref, num_parts, (i + 1) as u8);
        let mut bytes = udh.as_bytes();
        let mut enc = encode_sms_7bit(buf.as_slice(), 1);
        let ghost packed = enc@;
        bytes.append(&mut enc);
        assert(bytes@.subrange(0, 6) == concat_udh_bytes(csms_ref, num_parts, (i + 1) as u8));
        assert(bytes@.subrange(6, bytes@.len() as int) == packed);
        ret.push(GsmMessageData {
            encoding: MessageEncoding::Gsm7Bit,
            bytes,
            udh: true,
            user_data_len: (7 + buf.len()) as u8,
        });
        i += 1;
    }
    ret
}

/// The parts that carry UCS-2 octets: one part without a header when they
/// fit, else parts of up to 134 octets, each behind a concatenation header
/// with reference `csms_ref`, the count of parts, and its number.
pub fn encode_octets(octets: &Vec<u8>, csms_ref: u8) -> (r: Vec<GsmMessageData>)
    requires
        octets@.len() <= 255 * PART_OCTETS,
    ensures
        octet_parts(r@, octets@, csms_ref),
{
    if octets.len() <= MAX_OCTETS {
        return vec![GsmMessageData {
            encoding: MessageEncoding::Ucs2,
            bytes: slice_to_vec(octets.as_slice()),
            udh: false,
            user_data_len: octets.len() as u8,
        }];
    }
    let bufs = split_buffers(octets, PART_OCTETS);
    proof {
        lemma_chunks_bounds(octets@, PART_OCTETS as nat, 255);
    }
    let ghost c = spec_chunks(octets@, PART_OCTETS as nat);
    let num_parts = bufs.len() as u8;
    let mut ret: Vec<GsmMessageData> = Vec::new();
    let mut i: usize = 0;
    while i < bufs.len()
        invariant
            c == spec_chunks(octets@, PART_OCTETS as nat),
            bufs@.len() == c.len(),
            c.len() <= 255,
            num_parts == c.len() as u8,
            forall|j: int| 0 <= j < bufs@.len() ==> #[trigger] bufs@[j]@ == c[j],
            forall|j: int| 0 <= j < c.len() ==> #[trigger] c[j].len() <= PART_OCTETS,
            i <= bufs@.len(),
            ret@.len() == i,
            forall|j: int| 0 <= j < i ==> {
                let p = #[trigger] ret@[j];
                &&& p.encoding == MessageEncoding::Ucs2
                &&& p.udh
                &&& p.bytes@ == concat_udh_bytes(csms_ref, c.len() as u8, (j + 1) as u8) + c[j]
                &&& p.user_data_len == 6 + c[j].len()
            },
        decreases bufs@.len() - i,
    {
        let buf = &bufs[i];
        assert(buf@ == c[i as int]);
        let udh = concat_udh(csms_ref, num_parts, (i + 1) as u8);
        let mut bytes = udh.as_bytes();
        let mut data = slice_to_vec(buf.as_slice());
        bytes.append(&mut data);
        ret.push(GsmMessageData {
            encoding: MessageEncoding::Ucs2,
            bytes,
            udh: true,
            user_data_len: (6 + buf.len()) as u8,
        });
        i += 1;
    }
    ret
}

/// The number of UTF-16 octets of a text: two for a character below
/// U+10000, four (a surrogate pair) for the others.
pub open spec fn utf16_len(s: Seq<char>) -> nat
    decreases s.len(),
{
    if s.len() == 0 {
        0
    } else {
        utf16_len(s.drop_last()) + if (s.last() as u32) < 0x10000 { 2nat } else { 4nat }
    }
}

/// The text fits in at most 255 parts (the part count is one octet).
pub open spec fn message_fits(msg: Seq<char>) -> bool {
    match spec_gsm_encode(msg) {
        Some(v) => v.len() <= 255 * PART_SEPTETS,
        None => utf16_len(msg) <= 255 * PART_OCTETS,
    }
}

/// Fill bits after a user data header of `udhl` octets (plus its length
/// octet), so that the text starts on a septet boundary.
pub open spec fn spec_padding(udhl: int) -> int {
    7 - ((udhl + 1) * 8) % 7
}

/// Where the text starts in user data `b`, and its fill bits.
pub open spec fn spec_text_start(b: Seq<u8>, udh: bool) -> int {
    if udh { b[0] + 1 } else { 0 }
}

pub open spec fn spec_text_padding(b: Seq<u8>, udh: bool) -> int {
    if udh { spec_padding(b[0] as int) } else { 0 }
}

/// The septets of text in 7-bit user data: the user data length less the
/// septets taken by the header and its fill bits, and no more than the
/// octets left can hold.
pub open spec fn spec_text_septets(b: Seq<u8>, udh: bool, user_data_len: u8) -> int {
    let start = spec_text_start(b, udh);
    let p = spec_text_padding(b, udh);
    let claimed = if udh {
        if user_data_len >= (start * 8 + p) / 7 { user_data_len - (start * 8 + p) / 7 } else { 0 }
    } else {
        user_data_len as int
    };
    let room = (8 * (b.len() - start) - p) / 7;
    if claimed <= room { claimed } else { room }
}

/// The user data `b` starts with a header that can be read.
pub open spec fn spec_udh_ok(b: Seq<u8>) -> bool {
    &&& b.len() >= 1
    &&& b.len() >= b[0] + 1
    &&& spec_parse_components(b.subrange(1, b[0] + 1)) is Some
}

impl GsmMessageData {
    /// The alphabet of the user data.
    pub fn encoding(&self) -> (r: &MessageEncoding)
        ensures
            *r == self.encoding,
    {
        &self.encoding
    }

    /// The octets of the user data.
    pub fn as_bytes(&self) -> (r: &[u8])
        ensures
            r@ == self.bytes@,
    {
        self.bytes.as_slice()
    }

    /// The user data length.
    pub fn user_data_len(&self) -> (r: u8)
        ensures
            r == self.user_data_len,
    {
        self.user_data_len
    }

    /// Decodes the text, and the header if the data has one.
    pub fn decode_message(&self) -> (r: HuaweiResult<DecodedMessage>)
        ensures
            self.udh && !spec_udh_ok(self.bytes@) ==> r matches Err(HuaweiError::InvalidPdu(_)),
            (!self.udh || spec_udh_ok(self.bytes@)) ==> {
                let b = self.bytes@;
                let start = spec_text_start(b, self.udh);
                let text = b.subrange(start, b.len() as int);
                &&& (start == b.len() || self.encoding == MessageEncoding::Gsm7Bit || self.encoding
                    == MessageEncoding::Ucs2) <==> r is Ok
                &&& r matches Err(HuaweiError::UnsupportedEncoding(enc, raw)) ==> enc == self.encoding && raw@ == b
                &&& r is Err ==> (r matches Err(HuaweiError::UnsupportedEncoding(_, _)))
                &&& r matches Ok(m) ==> {
                    &&& m.udh is Some == self.udh
                    &&& m.udh matches Some(h) ==> {
                        let p = spec_parse_components(b.subrange(1, start))->0;
                        &&& h.components@.len() == p.len()
                        &&& forall|i: int| 0 <= i < p.len() ==> (#[trigger] h.components@[i]).id == p[i].0
                            && h.components@[i].data@ == p[i].1
                    }
                    &&& start == b.len() ==> m.text@.len() == 0
                    &&& start < b.len() && self.encoding == MessageEncoding::Gsm7Bit ==> m.text@ == spec_gsm_decode(
                        spec_unpack(
                            text,
                            spec_text_padding(b, self.udh),
                            spec_text_septets(b, self.udh, self.user_data_len) as nat,
                        ),
                    )
                    &&& start < b.len() && self.encoding == MessageEncoding::Ucs2 ==> m.text@ == utf16be_text(text)
                }
            },
    {
        let mut padding: usize = 0;
        let mut start: usize = 0;
        let mut udh: Option<UserDataHeader> = None;
        if self.udh {
            if self.bytes.len() < 1 {
                return Err(HuaweiError::InvalidPdu("UDHI specified, but no data"));
            }
            let udhl = self.bytes[0] as usize;
            padding = 7 - (((udhl + 1) * 8) % 7);
            start = udhl + 1;
            if self.bytes.len() < start {
                return Err(HuaweiError::InvalidPdu("UDHL goes past end of data"));
            }
            match UserDataHeader::try_from(slice_subrange(self.bytes.as_slice(), 1, start)) {
                Ok(h) => { udh = Some(h); },
                Err(e) => { return Err(e); },
            }
        }
        if start >= self.bytes.len() {
            return Ok(DecodedMessage { text: String::new(), udh });
        }
        let data = slice_subrange(self.bytes.as_slice(), start, self.bytes.len());
        assert(start == spec_text_start(self.bytes@, self.udh));
        assert(padding == spec_text_padding(self.bytes@, self.udh));
        match self.encoding {
            MessageEncoding::Gsm7Bit => {
                let claimed: usize = if self.udh {
                    let header_septets = (start * 8 + padding) / 7;
                    if self.user_data_len as usize >= header_septets {
                        self.user_data_len as usize - header_septets
                    } else {
                        0
                    }
                } else {
                    self.user_data_len as usize
                };
                let count = if data.len() >= 256 {
                    claimed
                } else {
                    let room = (8 * data.len() - padding) / 7;
                    if claimed <= room { claimed } else { room }
                };
                assert(count == spec_text_septets(self.bytes@, self.udh, self.user_data_len));
                let septets = decode_sms_7bit(data, padding, count);
                let text = gsm_decode_string(septets.as_slice());
                Ok(DecodedMessage { text, udh })
            },
            MessageEncoding::Ucs2 => {
                Ok(DecodedMessage { text: utf16be_decode(data), udh })
            },
            _ => Err(HuaweiError::UnsupportedEncoding(self.encoding, slice_to_vec(self.bytes.as_slice()))),
        }
    }

    /// Encodes a text as one or more parts: in the GSM 7-bit alphabet when
    /// every character has a code there, else in UCS-2. A text that does not
    /// fit one message is cut into concatenated parts with a random reference.
    pub fn encode_message(msg: &str) -> (r: Vec<GsmMessageData>)
        requires
            message_fits(msg@),
        ensures
            spec_gsm_encode(msg@) matches Some(s) ==> exists|x: u8| septet_parts(r@, s, x),
            spec_gsm_encode(msg@) is None ==> exists|x: u8| octet_parts(r@, utf16be_octets(msg@), x),
    {
        let csms_ref = random_u8();
        match try_gsm_encode_string(msg) {
            Some(buf) => encode_septets(&buf, csms_ref),
            None => {
                let buf = utf16be_encode(msg);
                encode_octets(&buf, csms_ref)
            },
        }
    }
}

proof fn lemma_chunks_septets(s: Seq<u8>, size: nat)
    requires
        size > 0,
        forall|i: int| 0 <= i < s.len() ==> #[trigger] s[i] < 128,
    ensures
        forall|i: int, j: int| 0 <= i < spec_chunks(s, size).len() && 0 <= j < spec_chunks(s, size)[i].len()
            ==> #[trigger] spec_chunks(s, size)[i][j] < 128,
    decreases s.len(),
{
    let c = spec_chunks(s, size);
    if s.len() > size {
        let rest = s.subrange(size as int, s.len() as int);
        lemma_chunks_septets(rest, size);
        assert forall|i: int, j: int| 0 <= i < c.len() && 0 <= j < c[i].len() implies #[trigger] c[i][j] < 128 by {
            if i > 0 {
                assert(c[i] == spec_chunks(rest, size)[i - 1]);
            } else {
                assert(c[0][j] == s[j]);
            }
        }
    }
}

/// Packing septets after any number of fill bits, then unpacking as many
/// after as many fill bits, gives the septets back.
pub proof fn lemma_packing_unpacks(s: Seq<u8>, p: int, r: Seq<u8>)
    requires
        0 <= p,
        forall|i: int| 0 <= i < s.len() ==> #[trigger] s[i] < 128,
        is_packing(r, s, p),
    ensures
        spec_unpack(r, p, s.len()) == s,
{
    assert forall|i: int, k: int| 0 <= i < s.len() && 0 <= k < 7 implies (#[trigger] bit_of(s[i], k) <==> octet_bit(
        r,
        p + 7 * i + k,
    )) by {
        let q = p + 7 * i + k;
        assert(q < 8 * r.len());
        assert((q - p) / 7 == i);
        assert((q - p) % 7 == k);
    }
    lemma_unpacking_unique(s, r, p, s.len());
}

/// The text of part `i` of a long 7-bit message: the septets after its
/// header and fill bit, as many as its user data length says.
pub open spec fn part_septets(part: GsmMessageData) -> Seq<u8> {
    spec_unpack(part.bytes@.subrange(6, part.bytes@.len() as int), 1, (part.user_data_len - 7) as nat)
}

/// The parts of a long 7-bit message, their text read back in order, give
/// the message's septets again; each part carries the same reference, the
/// number of parts, and its own number from 1.
pub proof fn lemma_concatenation(r: Seq<GsmMessageData>, s: Seq<u8>, x: u8)
    requires
        s.len() > MAX_SEPTETS,
        forall|i: int| 0 <= i < s.len() ==> #[trigger] s[i] < 128,
        septet_parts(r, s, x),
    ensures
        spec_flatten(Seq::new(r.len(), |i: int| part_septets(r[i]))) == s,
        forall|i: int| 0 <= i < r.len() ==> (#[trigger] r[i]).udh && r[i].bytes@.subrange(0, 6) == concat_udh_bytes(
            x,
            r.len() as u8,
            (i + 1) as u8,
        ),
{
    let c = spec_chunks(s, PART_SEPTETS as nat);
    let d = Seq::new(r.len(), |i: int| part_septets(r[i]));
    lemma_chunks_septets(s, PART_SEPTETS as nat);
    assert forall|i: int| 0 <= i < r.len() implies d[i] == c[i] by {
        let p = r[i];
        assert(forall|j: int| 0 <= j < c[i].len() ==> c[i][j] < 128);
        lemma_packing_unpacks(c[i], 1, p.bytes@.subrange(6, p.bytes@.len() as int));
    }
    assert(d =~= c);
    lemma_chunks_flatten(s, PART_SEPTETS as nat);
}

/// The parts of a long UCS-2 message, their payloads put back together in
/// order, give the message's octets again.
pub proof fn lemma_concatenation_ucs2(r: Seq<GsmMessageData>, o: Seq<u8>, x: u8)
    requires
        o.len() > MAX_OCTETS,
        octet_parts(r, o, x),
    ensures
        spec_flatten(Seq::new(r.len(), |i: int| r[i].bytes@.subrange(6, r[i].bytes@.len() as int))) == o,
{
    let c = spec_chunks(o, PART_OCTETS as nat);
    let d = Seq::new(r.len(), |i: int| r[i].bytes@.subrange(6, r[i].bytes@.len() as int));
    assert forall|i: int| 0 <= i < r.len() implies d[i] == c[i] by {
        assert(r[i].bytes@ == concat_udh_bytes(x, c.len() as u8, (i + 1) as u8) + c[i]);
        assert(r[i].bytes@.subrange(6, r[i].bytes@.len() as int) =~= c[i]);
    }
    assert(d =~= c);
    lemma_chunks_flatten(o, PART_OCTETS as nat);
}

} // verus!
