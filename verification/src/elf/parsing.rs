//! The decoding capabilities that depend on what the start of a file says:
//! its byte order, its address width, and the file header itself.

use crate::elf::ArchitectureWidth;
use crate::errors::Failure;
use crate::errors::ParseError;
use crate::parsing::coded_field;
use crate::parsing::decodes;
use crate::parsing::digit;
use crate::parsing::encoding_of;
use crate::parsing::lemma_pow256_positive;
use crate::parsing::place_of;
use crate::parsing::pow256;
use crate::parsing::read_bytes;
use crate::parsing::ByteReader;
use crate::parsing::Decoded;
use crate::parsing::Parse;
use crate::shared::Endianess;
use crate::shared::NativeInteger;
use vstd::prelude::*;

verus! {

/// The unsigned integer that `bytes` hold in the byte order `endianess`:
/// little has the least significant byte first, big the most significant.
pub open spec fn value_of(bytes: Seq<u8>, endianess: Endianess) -> nat
    decreases bytes.len(),
{
    if bytes.len() == 0 {
        0
    } else {
        match endianess {
            Endianess::Little => bytes[0] as nat + 256 * value_of(bytes.skip(1), endianess),
            Endianess::Big => bytes.last() as nat + 256 * value_of(bytes.drop_last(), endianess),
        }
    }
}

/// The integer that some bytes hold fits in as many bytes, and each of the
/// bytes is the digit of the integer at its place.
pub proof fn lemma_digits_of_value(bytes: Seq<u8>, endianess: Endianess)
    ensures
        value_of(bytes, endianess) < pow256(bytes.len()),
        forall|i: int|
            0 <= i < bytes.len() ==> digit(
                value_of(bytes, endianess),
                #[trigger] place_of(i, bytes.len(), endianess),
            ) == bytes[i],
    decreases bytes.len(),
{
    let n = bytes.len();
    if n > 0 {
        let shorter = match endianess {
            Endianess::Little => bytes.skip(1),
            Endianess::Big => bytes.drop_last(),
        };
        let low = match endianess {
            Endianess::Little => bytes[0],
            Endianess::Big => bytes.last(),
        };
        let high = value_of(shorter, endianess);
        let x = value_of(bytes, endianess);
        lemma_digits_of_value(shorter, endianess);
        assert(x == low + 256 * high);
        assert(pow256(n) == 256 * pow256((n - 1) as nat));
        assert(x / 256 == high);
        assert forall|i: int| 0 <= i < n implies digit(x, #[trigger] place_of(i, n, endianess))
            == bytes[i] by {
            let place = place_of(i, n, endianess);
            if place == 0 {
                assert(pow256(0) == 1);
                assert(bytes[i] == low);
                assert(x / 1 == x);
                assert(x % 256 == low);
                assert(digit(x, 0) == low);
            } else {
                let below = (place - 1) as nat;
                let j = match endianess {
                    Endianess::Little => i - 1,
                    Endianess::Big => i,
                };
                assert(place_of(j, shorter.len(), endianess) == below);
                assert(shorter[j] == bytes[i]);
                assert(pow256(place) == 256 * pow256(below));
                lemma_pow256_positive(below);
                vstd::arithmetic::div_mod::lemma_div_denominator(
                    x as int,
                    256,
                    pow256(below) as int,
                );
                assert(digit(high, below) == shorter[j]);
                assert(x / pow256(place) == high / pow256(below));
                assert(digit(x, place) == digit(high, below));
            }
        }
    }
}

/// An integer written out again in the byte order in which it was read gives
/// the bytes that were read.
pub proof fn lemma_encoding_of_value(bytes: Seq<u8>, endianess: Endianess)
    ensures
        encoding_of(value_of(bytes, endianess), bytes.len(), endianess) == bytes,
{
    lemma_digits_of_value(bytes, endianess);
    let x = value_of(bytes, endianess);
    let n = bytes.len();
    assert forall|i: int| 0 <= i < n implies encoding_of(x, n, endianess)[i] == bytes[i] by {
        assert(digit(x, place_of(i, n, endianess)) == bytes[i]);
    }
    assert(encoding_of(x, n, endianess) =~= bytes);
}

/// An integer that fits in `size` bytes, written out in a byte order and read
/// again in the same, is the integer that was written.
pub proof fn lemma_value_of_encoding(x: nat, size: nat, endianess: Endianess)
    requires
        x < pow256(size),
    ensures
        value_of(encoding_of(x, size, endianess), endianess) == x,
    decreases size,
{
    let bytes = encoding_of(x, size, endianess);
    if size > 0 {
        let fewer = (size - 1) as nat;
        let shorter = match endianess {
            Endianess::Little => bytes.skip(1),
            Endianess::Big => bytes.drop_last(),
        };
        assert(pow256(size) == 256 * pow256(fewer));
        assert forall|i: int| 0 <= i < fewer implies shorter[i] == encoding_of(
            x / 256,
            fewer,
            endianess,
        )[i] by {
            let place = place_of(i, fewer, endianess);
            lemma_pow256_positive(place);
            assert(pow256(place + 1) == 256 * pow256(place));
            vstd::arithmetic::div_mod::lemma_div_denominator(x as int, 256, pow256(place) as int);
            assert(digit(x, place + 1) == digit(x / 256, place));
        }
        assert(shorter =~= encoding_of(x / 256, fewer, endianess));
        lemma_value_of_encoding(x / 256, fewer, endianess);
        assert(pow256(0) == 1);
        assert(x / 1 == x);
        assert(digit(x, 0) == x % 256);
    }
}

/// Decoding that needs the byte order.
pub trait ParseFromEndianess: Sized + View {
    /// The outcome of decoding a value from the front of `input`.
    spec fn parsed_from_endianess(input: Seq<u8>, endianess: Endianess) -> Decoded<Self::V>;

    fn parse_from_endianess(reader: &mut ByteReader, endianess: Endianess) -> (r: Result<
        Self,
        ParseError,
    >)
        ensures
            decodes(r, final(reader)@, Self::parsed_from_endianess(old(reader)@, endianess)),
    ;
}

impl ParseFromEndianess for u16 {
    open spec fn parsed_from_endianess(input: Seq<u8>, endianess: Endianess) -> Decoded<u16> {
        coded_field(input, 2, |raw: Seq<u8>| Some(value_of(raw, endianess) as u16))
    }

    fn parse_from_endianess(reader: &mut ByteReader, endianess: Endianess) -> (r: Result<
        Self,
        ParseError,
    >) {
        let buffer = read_bytes::<2>(reader)?;
        let b0 = buffer[0] as u16;
        let b1 = buffer[1] as u16;
        proof {
            reveal_with_fuel(value_of, 3);
        }
        Ok(
            match endianess {
                Endianess::Little => b0 + b1 * 0x100,
                Endianess::Big => b1 + b0 * 0x100,
            },
        )
    }
}

impl ParseFromEndianess for u32 {
    open spec fn parsed_from_endianess(input: Seq<u8>, endianess: Endianess) -> Decoded<u32> {
        coded_field(input, 4, |raw: Seq<u8>| Some(value_of(raw, endianess) as u32))
    }

    fn parse_from_endianess(reader: &mut ByteReader, endianess: Endianess) -> (r: Result<
        Self,
        ParseError,
    >) {
        let buffer = read_bytes::<4>(reader)?;
        let b0 = buffer[0] as u32;
        let b1 = buffer[1] as u32;
        let b2 = buffer[2] as u32;
        let b3 = buffer[3] as u32;
        proof {
            reveal_with_fuel(value_of, 5);
        }
        Ok(
            match endianess {
                Endianess::Little => b0 + b1 * 0x100 + b2 * 0x1_0000 + b3 * 0x100_0000,
                Endianess::Big => b3 + b2 * 0x100 + b1 * 0x1_0000 + b0 * 0x100_0000,
            },
        )
    }
}

impl ParseFromEndianess for u64 {
    open spec fn parsed_from_endianess(input: Seq<u8>, endianess: Endianess) -> Decoded<u64> {
        coded_field(input, 8, |raw: Seq<u8>| Some(value_of(raw, endianess) as u64))
    }

    fn parse_from_endianess(reader: &mut ByteReader, endianess: Endianess) -> (r: Result<
        u64,
        ParseError,
    >) {
        let buffer = read_bytes::<8>(reader)?;
        let b0 = buffer[0] as u64;
        let b1 = buffer[1] as u64;
        let b2 = buffer[2] as u64;
        let b3 = buffer[3] as u64;
        let b4 = buffer[4] as u64;
        let b5 = buffer[5] as u64;
        let b6 = buffer[6] as u64;
        let b7 = buffer[7] as u64;
        proof {
            reveal_with_fuel(value_of, 9);
        }
        Ok(
            match endianess {
                Endianess::Little => b0 + b1 * 0x100 + b2 * 0x1_0000 + b3 * 0x100_0000 + b4
                    * 0x1_0000_0000 + b5 * 0x100_0000_0000 + b6 * 0x1_0000_0000_0000 + b7
                    * 0x100_0000_0000_0000,
                Endianess::Big => b7 + b6 * 0x100 + b5 * 0x1_0000 + b4 * 0x100_0000 + b3
                    * 0x1_0000_0000 + b2 * 0x100_0000_0000 + b1 * 0x1_0000_0000_0000 + b0
                    * 0x100_0000_0000_0000,
            },
        )
    }
}

/// Any decoder that needs nothing but the bytes also serves where the byte
/// order is known: it ignores the byte order.
impl<T: Parse> ParseFromEndianess for T {
    open spec fn parsed_from_endianess(input: Seq<u8>, endianess: Endianess) -> Decoded<T::V> {
        T::parsed(input)
    }

    fn parse_from_endianess(reader: &mut ByteReader, endianess: Endianess) -> (r: Result<
        Self,
        ParseError,
    >) {
        T::parse(reader)
    }
}

/// A decoder that needs nothing but the bytes gives the same outcome in
/// either byte order.
pub proof fn lemma_byte_order_is_ignored<T: Parse>(input: Seq<u8>, endianess: Endianess)
    ensures
        <T as ParseFromEndianess>::parsed_from_endianess(input, endianess) == T::parsed(input),
{
}

/// Decoding that needs the byte order and the address width.
pub trait ParseFromContext: Sized + View {
    /// The outcome of decoding a value from the front of `input`.
    spec fn parsed_from_context(
        input: Seq<u8>,
        endianess: Endianess,
        arch_width: ArchitectureWidth,
    ) -> Decoded<Self::V>;

    fn parse_from_context(
        reader: &mut ByteReader,
        endianess: Endianess,
        arch_width: ArchitectureWidth,
    ) -> (r: Result<Self, ParseError>)
        ensures
            decodes(
                r,
                final(reader)@,
                Self::parsed_from_context(old(reader)@, endianess, arch_width),
            ),
    ;
}

impl NativeInteger {
    /// The native integer of the given width that `raw` holds.
    pub open spec fn from_raw(
        raw: Seq<u8>,
        endianess: Endianess,
        arch_width: ArchitectureWidth,
    ) -> NativeInteger {
        match arch_width {
            ArchitectureWidth::ThirtyTwo => NativeInteger::ThirtyTwo(
                value_of(raw, endianess) as u32,
            ),
            ArchitectureWidth::SixtyFour => NativeInteger::SixtyFour(
                value_of(raw, endianess) as u64,
            ),
        }
    }
}

/// The integer in the `size` bytes of `input` at `offset`.
pub open spec fn integer_at(input: Seq<u8>, offset: int, size: int, endianess: Endianess) -> nat {
    value_of(input.subrange(offset, offset + size), endianess)
}

/// The native integer of `input` at `offset`.
pub open spec fn native_at(
    input: Seq<u8>,
    offset: int,
    endianess: Endianess,
    width: ArchitectureWidth,
) -> NativeInteger {
    NativeInteger::from_raw(
        input.subrange(offset, offset + width.native_size()),
        endianess,
        width,
    )
}

impl ParseFromContext for NativeInteger {
    open spec fn parsed_from_context(
        input: Seq<u8>,
        endianess: Endianess,
        arch_width: ArchitectureWidth,
    ) -> Decoded<NativeInteger> {
        coded_field(
            input,
            arch_width.native_size(),
            |raw: Seq<u8>| Some(NativeInteger::from_raw(raw, endianess, arch_width)),
        )
    }

    fn parse_from_context(
        reader: &mut ByteReader,
        endianess: Endianess,
        arch_width: ArchitectureWidth,
    ) -> (r: Result<Self, ParseError>) {
        match arch_width {
            ArchitectureWidth::ThirtyTwo => {
                let value = u32::parse_from_endianess(reader, endianess)?;
                Ok(NativeInteger::from(value))
            },
            ArchitectureWidth::SixtyFour => {
                let value = u64::parse_from_endianess(reader, endianess)?;
                Ok(NativeInteger::from(value))
            },
        }
    }
}

/// Any decoder that needs only the byte order also serves where the address
/// width is known: it ignores the width.
impl<T: ParseFromEndianess> ParseFromContext for T {
    open spec fn parsed_from_context(
        input: Seq<u8>,
        endianess: Endianess,
        arch_width: ArchitectureWidth,
    ) -> Decoded<T::V> {
        T::parsed_from_endianess(input, endianess)
    }

    fn parse_from_context(
        reader: &mut ByteReader,
        endianess: Endianess,
        arch_width: ArchitectureWidth,
    ) -> (r: Result<Self, ParseError>) {
        T::parse_from_endianess(reader, endianess)
    }
}

/// A decoder that needs only the byte order gives the same outcome at either
/// address width.
pub proof fn lemma_address_width_is_ignored<T: ParseFromEndianess>(
    input: Seq<u8>,
    endianess: Endianess,
    arch_width: ArchitectureWidth,
)
    ensures
        <T as ParseFromContext>::parsed_from_context(input, endianess, arch_width)
            == T::parsed_from_endianess(input, endianess),
{
}

/// Decoding that needs, besides the byte order and the address width, a value
/// that was decoded before.
pub trait ParseFromWorkingContext<T>: Sized + View {
    /// The outcome of decoding a value from the front of `input`.
    spec fn parsed_from_working_context(
        input: Seq<u8>,
        endianess: Endianess,
        arch_width: ArchitectureWidth,
        working_context: T,
    ) -> Decoded<Self::V>;

    fn parse_from_working_context(
        reader: &mut ByteReader,
        endianess: Endianess,
        arch_width: ArchitectureWidth,
        working_context: &T,
    ) -> (r: Result<Self, ParseError>)
        ensures
            decodes(
                r,
                final(reader)@,
                Self::parsed_from_working_context(
                    old(reader)@,
                    endianess,
                    arch_width,
                    *working_context,
                ),
            ),
    ;
}

/// Any decoder that needs only the byte order and the address width also
/// serves where an earlier value is at hand: it ignores that value.
impl<T, U: ParseFromContext> ParseFromWorkingContext<T> for U {
    open spec fn parsed_from_working_context(
        input: Seq<u8>,
        endianess: Endianess,
        arch_width: ArchitectureWidth,
        working_context: T,
    ) -> Decoded<U::V> {
        U::parsed_from_context(input, endianess, arch_width)
    }

    fn parse_from_working_context(
        reader: &mut ByteReader,
        endianess: Endianess,
        arch_width: ArchitectureWidth,
        working_context: &T,
    ) -> (r: Result<Self, ParseError>) {
        U::parse_from_context(reader, endianess, arch_width)
    }
}

/// A decoder that needs only the byte order and the address width gives the
/// same outcome whatever was decoded before.
pub proof fn lemma_working_context_is_ignored<T, U: ParseFromContext>(
    input: Seq<u8>,
    endianess: Endianess,
    arch_width: ArchitectureWidth,
    working_context: T,
)
    ensures
        <U as ParseFromWorkingContext<T>>::parsed_from_working_context(
            input,
            endianess,
            arch_width,
            working_context,
        ) == U::parsed_from_context(input, endianess, arch_width),
{
}

/// The outcome of decoding `count` values one after the other, each as
/// `one` decodes it from what the one before has left: all of them in their
/// order, or the failure of the first that fails, with nothing of those
/// before it.
pub open spec fn parsed_sequence<V>(
    one: spec_fn(Seq<u8>) -> Decoded<V>,
    input: Seq<u8>,
    count: nat,
) -> Decoded<Seq<V>>
    decreases count,
{
    if count == 0 {
        Decoded { result: Ok(Seq::empty()), rest: input }
    } else {
        let before = parsed_sequence(one, input, (count - 1) as nat);
        match before.result {
            Err(failure) => Decoded { result: Err(failure), rest: before.rest },
            Ok(values) => {
                let next = one(before.rest);
                match next.result {
                    Err(failure) => Decoded { result: Err(failure), rest: next.rest },
                    Ok(value) => Decoded { result: Ok(values.push(value)), rest: next.rest },
                }
            },
        }
    }
}

/// Once one value of a sequence has failed, asking for more values changes
/// nothing.
pub proof fn lemma_sequence_failure_stays<V>(
    one: spec_fn(Seq<u8>) -> Decoded<V>,
    input: Seq<u8>,
    failed: nat,
    count: nat,
)
    requires
        failed <= count,
        parsed_sequence(one, input, failed).result is Err,
    ensures
        parsed_sequence(one, input, count) == parsed_sequence(one, input, failed),
    decreases count,
{
    if failed < count {
        lemma_sequence_failure_stays(one, input, failed, (count - 1) as nat);
    }
}

/// A sequence that decodes has as many values as were asked for.
pub proof fn lemma_sequence_length<V>(
    one: spec_fn(Seq<u8>) -> Decoded<V>,
    input: Seq<u8>,
    count: nat,
)
    ensures
        parsed_sequence(one, input, count).result matches Ok(values) ==> values.len() == count,
    decreases count,
{
    if count > 0 {
        lemma_sequence_length(one, input, (count - 1) as nat);
    }
}

/// A sequence fails only in a way in which one of its values can fail.
pub proof fn lemma_sequence_failures<V>(
    one: spec_fn(Seq<u8>) -> Decoded<V>,
    input: Seq<u8>,
    count: nat,
    possible: spec_fn(Failure) -> bool,
)
    requires
        forall|bytes: Seq<u8>| (#[trigger] one(bytes)).result matches Err(failure) ==> possible(
            failure,
        ),
    ensures
        parsed_sequence(one, input, count).result matches Err(failure) ==> possible(failure),
    decreases count,
{
    if count > 0 {
        lemma_sequence_failures(one, input, (count - 1) as nat, possible);
    }
}

/// Where every value that decodes takes `size` bytes, a sequence of `count`
/// values that decodes takes `count * size` bytes, and its value at index `i`
/// is the one that decodes from the input behind the first `i * size` bytes.
pub proof fn lemma_sequence_of_fixed_size<V>(
    one: spec_fn(Seq<u8>) -> Decoded<V>,
    input: Seq<u8>,
    count: nat,
    size: nat,
)
    requires
        forall|bytes: Seq<u8>|
            (#[trigger] one(bytes)).result is Ok ==> size <= bytes.len() && one(bytes).rest
                == bytes.skip(size as int),
    ensures
        parsed_sequence(one, input, count).result matches Ok(values) ==> {
            &&& values.len() == count
            &&& count * size <= input.len()
            &&& parsed_sequence(one, input, count).rest == input.skip((count * size) as int)
            &&& forall|i: int|
                0 <= i < count ==> one(input.skip(i * size)).result == Ok::<V, Failure>(
                    #[trigger] values[i],
                )
        },
    decreases count,
{
    if count == 0 {
        assert(input.skip(0) =~= input);
    } else {
        let fewer = (count - 1) as nat;
        lemma_sequence_of_fixed_size(one, input, fewer, size);
        let before = parsed_sequence(one, input, fewer);
        let whole = parsed_sequence(one, input, count);
        if whole.result is Ok {
            let values = whole.result->Ok_0;
            let earlier = before.result->Ok_0;
            let behind = (fewer * size) as int;
            let next = one(before.rest);
            assert(fewer * size + size == count * size) by (nonlinear_arith)
                requires
                    fewer + 1 == count,
            ;
            assert(before.rest == input.skip(behind));
            assert(behind <= input.len());
            assert(next.result is Ok);
            assert(size <= before.rest.len());
            assert(behind + size == count * size);
            assert(count * size <= input.len());
            assert(values == earlier.push(next.result->Ok_0));
            assert(whole.rest == next.rest);
            assert(input.skip(behind).skip(size as int) =~= input.skip(behind + size));
            assert forall|i: int| 0 <= i < count implies one(input.skip(i * size)).result == Ok::<
                V,
                Failure,
            >(#[trigger] values[i]) by {
                if i < fewer {
                    assert(values[i] == earlier[i]);
                } else {
                    assert(i * size == behind) by (nonlinear_arith)
                        requires
                            i == fewer,
                            behind == fewer * size,
                    ;
                }
            }
        }
    }
}

} // verus!
