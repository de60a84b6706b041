//! Records of flags, encoded as bit strings of a fixed length.

use crate::bitstring::{bit_at, bit_weight, octet_bit, spec_bit_weight, BitStringRef};
use crate::encode::EncodeValue;
use crate::error::{Error, ErrorKind};
use crate::header::Header;
use crate::length::Length;
use crate::reader::{Cursor, Reader, Step};
use crate::tag::Tag;
use crate::writer::{Sink, Writer, Written};
use vstd::prelude::*;

verus! {

/// A record of which every field is a flag, encoded as a `BIT STRING`: the
/// first field is bit 0, and so on.
///
/// Flags at the end of the record may be optional: a bit string may break
/// off before them, and they are then `false`.
pub trait FixedLenBitString {
    /// Number of flags that are not optional.
    spec fn spec_min_bit_len() -> u16;

    /// Number of flags in all.
    spec fn spec_max_bit_len() -> u16;

    /// Number of flags that are not optional.
    fn min_bit_len() -> (bits: u16)
        ensures
            bits == Self::spec_min_bit_len(),
    ;

    /// Number of flags in all.
    fn max_bit_len() -> (bits: u16)
        ensures
            bits == Self::spec_max_bit_len(),
    ;

    /// Check that a bit string of `bit_len` bits is not longer than the
    /// record has flags.
    ///
    /// Fails with `Length` where it is, and marks the decoder as failed.
    fn check_bit_len<'a, R: Reader<'a>>(decoder: &mut R, bit_len: usize) -> (res: Result<
        (),
        Error,
    >)
        requires
            old(decoder).inv(),
        ensures
            final(decoder).inv(),
            res == spec_check_bit_len(old(decoder)@, bit_len as nat, Self::spec_max_bit_len()).result,
            final(decoder)@ == spec_check_bit_len(
                old(decoder)@,
                bit_len as nat,
                Self::spec_max_bit_len(),
            ).cursor,
    {
        proof {
            decoder.lemma_inv();
        }
        if bit_len > Self::max_bit_len() as usize {
            Err(decoder.error(ErrorKind::Length { tag: Tag::BitString }))
        } else {
            Ok(())
        }
    }
}

/// Checking the length of a bit string against the number of flags of a
/// record: more than `max_bit_len` bits fail with `Length`.
pub open spec fn spec_check_bit_len(c: Cursor, bit_len: nat, max_bit_len: u16) -> Step<()> {
    if bit_len > max_bit_len {
        Step { result: Err(c.error(ErrorKind::Length { tag: Tag::BitString })), cursor: c.fail() }
    } else {
        Step { result: Ok(()), cursor: c }
    }
}

/// The flags that a bit string of `bit_len` bits in `octets` stands for, in
/// a record of `total` flags: flag `i` is bit `i`, and `false` where the
/// bit string has no such bit.
pub open spec fn spec_flags(octets: Seq<u8>, bit_len: nat, total: nat) -> Seq<bool> {
    Seq::new(total, |i: int| i < bit_len && bit_at(octets, i as nat))
}

/// Number of octets that `bits` bits take.
pub open spec fn spec_octets_for(bits: nat) -> nat {
    (bits + 7) / 8
}

/// Are `octets` the given flags, packed? Flag `i` is bit `i`, and the bits
/// that are left in the last octet are not set.
pub open spec fn is_packed(octets: Seq<u8>, flags: Seq<bool>) -> bool {
    &&& octets.len() == spec_octets_for(flags.len())
    &&& forall|i: nat|
        i < 8 * octets.len() ==> #[trigger] bit_at(octets, i) == (i < flags.len() && flags[i as int])
}

/// Number of bits that are unused in the last octet of a bit string of
/// `bits` bits.
pub open spec fn spec_unused_bits_for(bits: u16) -> u8 {
    if bits % 8 != 0 {
        (8 - bits % 8) as u8
    } else {
        0
    }
}

/// Number of bits that are unused in the last octet of a bit string of
/// `bits` bits: eight less the bits that the last octet holds, and none
/// where the bits fill their octets.
pub fn unused_bits_for(bits: u16) -> (unused_bits: u8)
    ensures
        unused_bits == spec_unused_bits_for(bits),
        unused_bits <= BitStringRef::MAX_UNUSED_BITS,
{
    let last_octet_bits = (bits % 8) as u8;
    if last_octet_bits != 0 {
        8 - last_octet_bits
    } else {
        0
    }
}

/// The flags that `bits` stands for, in a record of `total` flags.
pub fn unpack_flags(bits: &BitStringRef<'_>, total: u16) -> (flags: Vec<bool>)
    requires
        bits.inv(),
    ensures
        flags@ == spec_flags(bits.spec_bytes(), bits.spec_bit_len(), total as nat),
{
    let mut flags: Vec<bool> = Vec::new();
    let mut i: usize = 0;
    while i < total as usize
        invariant
            bits.inv(),
            i <= total,
            flags@.len() == i,
            forall|j: int|
                0 <= j < i ==> flags@[j] == (j < bits.spec_bit_len() && bit_at(
                    bits.spec_bytes(),
                    j as nat,
                )),
        decreases total - i,
    {
        let flag = match bits.get(i) {
            Some(flag) => flag,
            None => false,
        };
        flags.push(flag);
        i += 1;
    }
    assert(flags@ =~= spec_flags(bits.spec_bytes(), bits.spec_bit_len(), total as nat));
    flags
}

/// Setting a bit that is not set, in an octet in which no bit behind it is
/// set either, adds what the bit is worth and leaves the other bits as they
/// are. `w` is what the bit is worth, and `v` what another bit is.
proof fn lemma_add_weight(octet: u16, w: u16, v: u16)
    by (bit_vector)
    requires
        octet < 256,
        w == 1 || w == 2 || w == 4 || w == 8 || w == 16 || w == 32 || w == 64 || w == 128,
        v == 1 || v == 2 || v == 4 || v == 8 || v == 16 || v == 32 || v == 64 || v == 128,
        octet % ((2 * w) as u16) == 0,
    ensures
        octet + w <= 255,
        (((octet + w) as u16) / v) % 2 == 1 <==> (v == w || (octet / v) % 2 == 1),
        ((octet + w) as u16) % w == 0,
{
}

/// Bit `j` of an octet after bit `k` was set.
proof fn lemma_set_bit(octet: u8, k: nat, j: nat)
    requires
        k < 8,
        j < 8,
        octet as nat % (2 * spec_bit_weight(k)) == 0,
    ensures
        octet + spec_bit_weight(k) <= u8::MAX,
        (octet + spec_bit_weight(k)) % (spec_bit_weight(k) as int) == 0,
        octet_bit((octet + spec_bit_weight(k)) as u8, j) == (j == k || octet_bit(octet, j)),
{
    let w = spec_bit_weight(k) as u16;
    let v = spec_bit_weight(j) as u16;
    lemma_add_weight(octet as u16, w, v);
    assert(w == v <==> j == k);
}

/// In an octet in which neither a bit nor any bit behind it is set, the bit
/// is not set. `w` is what the bit is worth.
proof fn lemma_clear_weight(octet: u16, w: u16)
    by (bit_vector)
    requires
        octet < 256,
        w == 1 || w == 2 || w == 4 || w == 8 || w == 16 || w == 32 || w == 64 || w == 128,
        octet % ((2 * w) as u16) == 0,
    ensures
        (octet / w) % 2 == 0,
        octet % w == 0,
{
}

/// Bit `k` of an octet in which neither it nor any bit behind it is set.
proof fn lemma_clear_bit(octet: u8, k: nat)
    requires
        k < 8,
        octet as nat % (2 * spec_bit_weight(k)) == 0,
    ensures
        !octet_bit(octet, k),
        octet as nat % spec_bit_weight(k) == 0,
{
    lemma_clear_weight(octet as u16, spec_bit_weight(k) as u16);
}

/// Pack flags into octets, eight to the octet: flag `i` becomes bit `i`,
/// the first flag the most significant bit of the first octet.
pub fn pack_flags(flags: &[bool]) -> (octets: Vec<u8>)
    ensures
        is_packed(octets@, flags@),
{
    let n = flags.len();
    let count = if n % 8 != 0 {
        n / 8 + 1
    } else {
        n / 8
    };
    let mut octets: Vec<u8> = Vec::new();
    let mut o: usize = 0;
    while o < count
        invariant
            o <= count,
            count == spec_octets_for(n as nat),
            n == flags@.len(),
            octets@.len() == o,
            forall|i: nat|
                i < 8 * o ==> #[trigger] bit_at(octets@, i) == (i < n && flags@[i as int]),
        decreases count - o,
    {
        let base = o * 8;
        let mut bits: u8 = 0;
        let mut k: usize = 0;
        while k < 8
            invariant
                k <= 8,
                base == o * 8,
                base < n,
                n == flags@.len(),
                k < 8 ==> bits as nat % (2 * spec_bit_weight(k as nat)) == 0,
                forall|j: nat|
                    j < 8 ==> #[trigger] octet_bit(bits, j) == (j < k && base + j < n && flags@[base
                        + j]),
            decreases 8 - k,
        {
            let ghost before = bits;
            if k < n - base && flags[base + k] {
                proof {
                    assert forall|j: nat| j < 8 implies #[trigger] octet_bit(
                        (before + spec_bit_weight(k as nat)) as u8,
                        j,
                    ) == (j == k || octet_bit(before, j)) by {
                        lemma_set_bit(before, k as nat, j);
                    }
                    lemma_set_bit(before, k as nat, 0);
                }
                bits = bits + bit_weight(k);
            } else {
                proof {
                    lemma_clear_bit(before, k as nat);
                }
            }
            k += 1;
        }
        let ghost earlier = octets@;
        octets.push(bits);
        proof {
            assert forall|i: nat| i < 8 * (o + 1) implies #[trigger] bit_at(octets@, i) == (i < n
                && flags@[i as int]) by {
                if i < 8 * o {
                    assert(bit_at(earlier, i) == (i < n && flags@[i as int]));
                    assert(octets@[(i / 8) as int] == earlier[(i / 8) as int]);
                } else {
                    let j = (i - base) as nat;
                    assert(i / 8 == o && i % 8 == j);
                    assert(octet_bit(bits, j) == (j < 8 && base + j < n && flags@[base + j]));
                }
            }
        }
        o += 1;
    }
    octets
}

/// Two octets with the same bits are the same octet. The bits are given by
/// what they are worth: `x / w % 2` is the bit worth `w`.
proof fn lemma_octet_by_bits(x: u8, y: u8)
    by (bit_vector)
    requires
        (x / 128) % 2 == (y / 128) % 2,
        (x / 64) % 2 == (y / 64) % 2,
        (x / 32) % 2 == (y / 32) % 2,
        (x / 16) % 2 == (y / 16) % 2,
        (x / 8) % 2 == (y / 8) % 2,
        (x / 4) % 2 == (y / 4) % 2,
        (x / 2) % 2 == (y / 2) % 2,
        (x / 1) % 2 == (y / 1) % 2,
    ensures
        x == y,
{
}

/// Flags are packed in one way only: two sequences of octets that both are
/// the given flags, packed, are the same.
pub proof fn lemma_packed_unique(first: Seq<u8>, second: Seq<u8>, flags: Seq<bool>)
    requires
        is_packed(first, flags),
        is_packed(second, flags),
    ensures
        first == second,
{
    assert forall|o: int| 0 <= o < first.len() implies first[o] == second[o] by {
        let x = first[o];
        let y = second[o];
        assert forall|k: nat| k < 8 implies octet_bit(x, k) == octet_bit(y, k) by {
            let i = (8 * o + k) as nat;
            assert(i / 8 == o && i % 8 == k);
            assert(bit_at(first, i) == bit_at(second, i));
        }
        assert(octet_bit(x, 0) == octet_bit(y, 0));
        assert(octet_bit(x, 1) == octet_bit(y, 1));
        assert(octet_bit(x, 2) == octet_bit(y, 2));
        assert(octet_bit(x, 3) == octet_bit(y, 3));
        assert(octet_bit(x, 4) == octet_bit(y, 4));
        assert(octet_bit(x, 5) == octet_bit(y, 5));
        assert(octet_bit(x, 6) == octet_bit(y, 6));
        assert(octet_bit(x, 7) == octet_bit(y, 7));
        lemma_octet_by_bits(x, y);
    }
    assert(first =~= second);
}

/// The flags that were packed are had back by unpacking: the bits of the
/// octets, up to the number of the flags, are the flags.
pub proof fn lemma_pack_round_trip(octets: Seq<u8>, flags: Seq<bool>)
    requires
        is_packed(octets, flags),
    ensures
        spec_flags(octets, flags.len(), flags.len()) == flags,
{
    assert forall|i: int| 0 <= i < flags.len() implies spec_flags(
        octets,
        flags.len(),
        flags.len(),
    )[i] == flags[i] by {
        assert(bit_at(octets, i as nat) == (i < flags.len() && flags[i]));
    }
    assert(spec_flags(octets, flags.len(), flags.len()) =~= flags);
}

/// Number of the fields, among the first `n` of a record, that are not
/// optional; `optional` says of each field whether it is.
pub open spec fn spec_required(optional: Seq<bool>, n: nat) -> nat
    decreases n,
{
    if n == 0 {
        0
    } else {
        spec_required(optional, (n - 1) as nat) + if optional[n - 1] {
            0nat
        } else {
            1nat
        }
    }
}

/// The length in bits of the bit string of a record, at least and at most:
/// the number of its fields that are not optional, and the number of its
/// fields; `optional` says of each field whether it is optional.
///
/// Fails with `Overflow` for more fields than a bit string of a fixed
/// length has bits.
pub fn bit_len_range(optional: &[bool]) -> (res: Result<(u16, u16), Error>)
    ensures
        match res {
            Ok((min, max)) => {
                &&& max == optional@.len()
                &&& min == spec_required(optional@, optional@.len())
            },
            Err(err) => optional@.len() > u16::MAX && err == Length::overflow(),
        },
{
    if optional.len() > u16::MAX as usize {
        return Err(ErrorKind::Overflow.to_error());
    }
    let mut min_expected_fields: u16 = 0;
    let mut max_expected_fields: u16 = 0;
    let mut i: usize = 0;
    while i < optional.len()
        invariant
            i <= optional@.len() <= u16::MAX,
            max_expected_fields == i,
            min_expected_fields == spec_required(optional@, i as nat),
            min_expected_fields <= i,
        decreases optional@.len() - i,
    {
        max_expected_fields += 1;
        if !optional[i] {
            min_expected_fields += 1;
        }
        i += 1;
    }
    Ok((min_expected_fields, max_expected_fields))
}

/// What decoding the flags of a record of `total` flags returns, from the
/// content of a `BIT STRING` that `header` announces: the bit string is
/// decoded, it must not be longer than `total` bits, and its bits are the
/// flags.
pub open spec fn spec_decode_flags(c: Cursor, header: Header, total: u16) -> Step<Seq<bool>> {
    let bits = BitStringRef::spec_decode_value(c, header);
    match bits.result {
        Err(err) => Step { result: Err(err), cursor: bits.cursor },
        Ok((unused_bits, octets)) => {
            let bit_len = (8 * octets.len() - unused_bits) as nat;
            let check = spec_check_bit_len(bits.cursor, bit_len, total);
            match check.result {
                Err(err) => Step { result: Err(err), cursor: check.cursor },
                Ok(_) => Step {
                    result: Ok(spec_flags(octets, bit_len, total as nat)),
                    cursor: check.cursor,
                },
            }
        },
    }
}

/// Decode the flags of a record from the content of a `BIT STRING`; the
/// decoder stands behind `header`.
///
/// A bit string of fewer bits than the record has flags is accepted, and
/// the flags that it does not hold are `false`. One of more bits fails with
/// `Length`.
pub fn decode_flags<'a, F: FixedLenBitString, R: Reader<'a>>(
    decoder: &mut R,
    header: Header,
) -> (res: Result<Vec<bool>, Error>)
    requires
        old(decoder).inv(),
    ensures
        final(decoder).inv(),
        old(decoder)@.leads_to(final(decoder)@),
        final(decoder)@ == spec_decode_flags(old(decoder)@, header, F::spec_max_bit_len()).cursor,
        match res {
            Ok(flags) => spec_decode_flags(old(decoder)@, header, F::spec_max_bit_len()).result
                == Ok::<Seq<bool>, Error>(flags@),
            Err(err) => spec_decode_flags(old(decoder)@, header, F::spec_max_bit_len()).result
                == Err::<Seq<bool>, Error>(err),
        },
{
    let bits = BitStringRef::decode_value(decoder, header)?;
    F::check_bit_len(decoder, bits.bit_len())?;
    Ok(unpack_flags(&bits, F::max_bit_len()))
}

/// Number of octets in the content of the `BIT STRING` that holds the given
/// flags: one for the number of unused bits, and those that the flags are
/// packed into.
pub fn flags_value_len(flags: &[bool]) -> (res: Result<Length, Error>)
    ensures
        match res {
            Ok(len) => len@ == 1 + spec_octets_for(flags@.len()),
            Err(err) => 1 + spec_octets_for(flags@.len()) > Length::spec_max() && err
                == Length::overflow(),
        },
{
    let n = flags.len();
    let count = if n % 8 != 0 {
        n / 8 + 1
    } else {
        n / 8
    };
    Length::try_from_usize(count)?.checked_add(Length::one())
}

/// What encoding the flags of a record returns, of which `min_bit_len` are
/// not optional: the octets that the flags are packed into make a bit
/// string, with the unused bits that `min_bit_len` bits leave; its content
/// is encoded.
pub open spec fn spec_encode_flags(octets: Seq<u8>, min_bit_len: u16, sink: Sink) -> Written {
    let unused_bits = spec_unused_bits_for(min_bit_len);
    match BitStringRef::spec_new_error(unused_bits, octets.len()) {
        Some(kind) => Written { result: Err(Error { kind, position: None }), sink },
        None => {
            let first = sink.write(seq![unused_bits]);
            match first.result {
                Err(_) => first,
                Ok(_) => first.sink.write(octets),
            }
        },
    }
}

/// Encode the flags of a record as the content of a `BIT STRING`.
///
/// The flags are packed into octets, the first flag the most significant
/// bit of the first octet. The number of unused bits is that which the
/// flags that are not optional leave in their last octet.
pub fn encode_flags<F: FixedLenBitString, W: Writer>(flags: &[bool], writer: &mut W) -> (res:
    Result<(), Error>)
    requires
        old(writer).inv(),
    ensures
        final(writer).inv(),
        exists|octets: Seq<u8>|
            {
                &&& #[trigger] is_packed(octets, flags@)
                &&& res == spec_encode_flags(octets, F::spec_min_bit_len(), old(writer)@).result
                &&& final(writer)@ == spec_encode_flags(
                    octets,
                    F::spec_min_bit_len(),
                    old(writer)@,
                ).sink
            },
{
    let octets = pack_flags(flags);
    let unused_bits = unused_bits_for(F::min_bit_len());
    let bits = BitStringRef::new(unused_bits, octets.as_slice())?;
    bits.encode_value(writer)
}

} // verus!
