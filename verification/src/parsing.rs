//! Byte sources and the context-free decoding capability.

use crate::errors::Failure;
use crate::errors::ParseError;
use crate::shared::Endianess;
use vstd::prelude::*;

verus! {

/// A forward-only source of bytes over a buffer. Its view is the sequence of
/// bytes that have not been read yet.
pub struct ByteReader<'a> {
    data: &'a [u8],
}

impl<'a> View for ByteReader<'a> {
    type V = Seq<u8>;

    closed spec fn view(&self) -> Seq<u8> {
        self.data@
    }
}

impl<'a> ByteReader<'a> {
    /// A source that has all of `data` still to give.
    pub fn new(data: &'a [u8]) -> (reader: Self)
        ensures
            reader@ == data@,
    {
        ByteReader { data }
    }

    /// The number of bytes not read yet.
    pub fn remaining(&self) -> (count: usize)
        ensures
            count == self@.len(),
    {
        self.data.len()
    }
}

/// What decoding gives on a stream: the value or the failure, and the bytes
/// that are left unread after it.
pub struct Decoded<T> {
    pub result: Result<T, Failure>,
    pub rest: Seq<u8>,
}

/// The outcome of a read that found fewer bytes than it needs: it fails, and
/// what there was is consumed.
pub open spec fn cut_short<T>() -> Decoded<T> {
    Decoded { result: Err(Failure::MissingData), rest: Seq::empty() }
}

/// The outcome of reading a code that is not accepted in the bytes of
/// `input` from `start` up to `end`: it fails with those bytes, and the
/// source stands behind them.
pub open spec fn rejected<T>(input: Seq<u8>, start: int, end: int) -> Decoded<T> {
    Decoded {
        result: Err(Failure::InvalidValue { value: input.subrange(start, end) }),
        rest: input.skip(end),
    }
}

/// Where `input` has `size` bytes at `offset`, a read of `size` bytes from
/// what stands behind `offset` gives those bytes and leaves what stands
/// behind them.
pub proof fn lemma_window(input: Seq<u8>, offset: int, size: int)
    requires
        0 <= offset,
        0 <= size,
    ensures
        offset + size <= input.len() ==> {
            &&& input.skip(offset).len() == input.len() - offset
            &&& input.skip(offset).take(size) == input.subrange(offset, offset + size)
            &&& input.skip(offset).skip(size) == input.skip(offset + size)
        },
{
}

/// The outcome of reading a field of `size` bytes that needs no decoding.
pub open spec fn raw_field(input: Seq<u8>, size: nat) -> Decoded<Seq<u8>> {
    if input.len() < size {
        cut_short()
    } else {
        Decoded { result: Ok(input.take(size as int)), rest: input.skip(size as int) }
    }
}

/// The outcome of reading a field of `size` bytes that holds a code: the
/// value that `decode` gives for those bytes, or the failure that carries them
/// where it gives none. A field that is cut short consumes what is left.
pub open spec fn coded_field<T>(
    input: Seq<u8>,
    size: nat,
    decode: spec_fn(Seq<u8>) -> Option<T>,
) -> Decoded<T> {
    if input.len() < size {
        cut_short()
    } else {
        let raw = input.take(size as int);
        Decoded {
            result: match decode(raw) {
                Some(value) => Ok(value),
                None => Err(Failure::InvalidValue { value: raw }),
            },
            rest: input.skip(size as int),
        }
    }
}

/// Whether what a decoder returned, and what it left in the source, is the
/// outcome that the model gives.
pub open spec fn decodes<T: View>(
    r: Result<T, ParseError>,
    rest: Seq<u8>,
    expected: Decoded<T::V>,
) -> bool {
    &&& rest == expected.rest
    &&& match r {
        Ok(value) => expected.result == Ok::<T::V, Failure>(value@),
        Err(error) => expected.result == Err::<T::V, Failure>(error@),
    }
}

/// Takes the next `SIZE` bytes. Where fewer are left, they are all consumed
/// and the read fails.
pub fn read_bytes<const SIZE: usize>(reader: &mut ByteReader) -> (r: Result<
    [u8; SIZE],
    ParseError,
>)
    ensures
        decodes(r, final(reader)@, raw_field(old(reader)@, SIZE as nat)),
{
    let available = reader.data.len();
    if available < SIZE {
        let (_, tail) = reader.data.split_at(available);
        reader.data = tail;
        assert(reader@ =~= Seq::<u8>::empty());
        return Err(ParseError::MissingData);
    }
    let (head, tail) = reader.data.split_at(SIZE);
    reader.data = tail;
    let mut buffer = [0u8; SIZE];
    let mut i: usize = 0;
    while i < SIZE
        invariant
            i <= SIZE,
            head@.len() == SIZE,
            forall|j: int| 0 <= j < i ==> buffer@[j] == head@[j],
        decreases SIZE - i,
    {
        buffer[i] = head[i];
        i += 1;
    }
    assert(buffer@ =~= head@);
    Ok(buffer)
}

/// Decoding that needs nothing but the bytes.
pub trait Parse: Sized + View {
    /// The outcome of decoding a value from the front of `input`.
    spec fn parsed(input: Seq<u8>) -> Decoded<Self::V>;

    /// Build the type from a readable sequence of bytes.
    fn parse(reader: &mut ByteReader) -> (r: Result<Self, ParseError>)
        ensures
            decodes(r, final(reader)@, Self::parsed(old(reader)@)),
    ;
}

impl Parse for u8 {
    open spec fn parsed(input: Seq<u8>) -> Decoded<u8> {
        coded_field(input, 1, |raw: Seq<u8>| Some(raw[0]))
    }

    fn parse(reader: &mut ByteReader) -> (r: Result<Self, ParseError>) {
        let byte = read_bytes::<1>(reader)?;
        Ok(byte[0])
    }
}

/// Values that one byte holds.
pub trait ToByte {
    /// The one byte that holds the value.
    spec fn encoding(&self) -> Seq<u8>;

    fn to_bytes(&self) -> (bytes: [u8; 1])
        ensures
            bytes@ == self.encoding(),
    ;
}

impl ToByte for u8 {
    open spec fn encoding(&self) -> Seq<u8> {
        seq![*self]
    }

    fn to_bytes(&self) -> (bytes: [u8; 1]) {
        let bytes = [*self];
        assert(bytes@ =~= seq![*self]);
        bytes
    }
}

/// The base-256 digit of `x` at place `place`, the least significant being
/// place 0.
pub open spec fn digit(x: nat, place: nat) -> u8 {
    ((x / pow256(place)) % 256) as u8
}

/// 256 to the power `place`.
pub open spec fn pow256(place: nat) -> nat
    decreases place,
{
    if place == 0 {
        1
    } else {
        256 * pow256((place - 1) as nat)
    }
}

/// The place of the byte at index `i` among `size` bytes: how many bytes of
/// less significance there are. Little puts the least significant byte
/// first, big the most significant.
pub open spec fn place_of(i: int, size: nat, endianess: Endianess) -> nat {
    match endianess {
        Endianess::Little => i as nat,
        Endianess::Big => (size - 1 - i) as nat,
    }
}

/// The `size` bytes that hold `x` in the byte order `endianess`.
pub open spec fn encoding_of(x: nat, size: nat, endianess: Endianess) -> Seq<u8> {
    Seq::new(size, |i: int| digit(x, place_of(i, size, endianess)))
}

/// No power of 256 is zero.
pub proof fn lemma_pow256_positive(place: nat)
    ensures
        pow256(place) > 0,
    decreases place,
{
    if place > 0 {
        lemma_pow256_positive((place - 1) as nat);
    }
}

/// The first powers of 256 written out.
pub proof fn lemma_pow256()
    ensures
        pow256(0) == 1,
        pow256(1) == 0x100,
        pow256(2) == 0x1_0000,
        pow256(3) == 0x100_0000,
        pow256(4) == 0x1_0000_0000,
        pow256(5) == 0x100_0000_0000,
        pow256(6) == 0x1_0000_0000_0000,
        pow256(7) == 0x100_0000_0000_0000,
        pow256(8) == 0x1_0000_0000_0000_0000,
{
    reveal_with_fuel(pow256, 10);
}

/// Values that two bytes hold.
pub trait To2Bytes {
    /// The two bytes that hold the value in the given byte order.
    spec fn encoding(&self, endianess: Endianess) -> Seq<u8>;

    fn to_bytes(&self, endianess: Endianess) -> (bytes: [u8; 2])
        ensures
            bytes@ == self.encoding(endianess),
    ;
}

impl To2Bytes for u16 {
    open spec fn encoding(&self, endianess: Endianess) -> Seq<u8> {
        encoding_of(*self as nat, 2, endianess)
    }

    fn to_bytes(&self, endianess: Endianess) -> (bytes: [u8; 2]) {
        let x = *self;
        let b0 = (x % 0x100) as u8;
        let b1 = (x / 0x100) as u8;
        let bytes = match endianess {
            Endianess::Little => [b0, b1],
            Endianess::Big => [b1, b0],
        };
        proof {
            lemma_pow256();
            assert(b0 == digit(x as nat, 0));
            assert(b1 == digit(x as nat, 1));
            assert(bytes@ =~= self.encoding(endianess));
        }
        bytes
    }
}

/// Values that four bytes hold.
pub trait To4Bytes {
    /// The four bytes that hold the value in the given byte order.
    spec fn encoding(&self, endianess: Endianess) -> Seq<u8>;

    fn to_bytes(&self, endianess: Endianess) -> (bytes: [u8; 4])
        ensures
            bytes@ == self.encoding(endianess),
    ;
}

impl To4Bytes for u32 {
    open spec fn encoding(&self, endianess: Endianess) -> Seq<u8> {
        encoding_of(*self as nat, 4, endianess)
    }

    fn to_bytes(&self, endianess: Endianess) -> (bytes: [u8; 4]) {
        let x = *self;
        let b0 = (x % 0x100) as u8;
        let b1 = (x / 0x100 % 0x100) as u8;
        let b2 = (x / 0x1_0000 % 0x100) as u8;
        let b3 = (x / 0x100_0000) as u8;
        let bytes = match endianess {
            Endianess::Little => [b0, b1, b2, b3],
            Endianess::Big => [b3, b2, b1, b0],
        };
        proof {
            lemma_pow256();
            assert(b0 == digit(x as nat, 0));
            assert(b1 == digit(x as nat, 1));
            assert(b2 == digit(x as nat, 2));
            assert(b3 == digit(x as nat, 3));
            assert(bytes@ =~= self.encoding(endianess));
        }
        bytes
    }
}

/// Values that eight bytes hold.
pub trait To8Bytes {
    /// The eight bytes that hold the value in the given byte order.
    spec fn encoding(&self, endianess: Endianess) -> Seq<u8>;

    fn to_bytes(&self, endianess: Endianess) -> (bytes: [u8; 8])
        ensures
            bytes@ == self.encoding(endianess),
    ;
}

impl To8Bytes for u64 {
    open spec fn encoding(&self, endianess: Endianess) -> Seq<u8> {
        encoding_of(*self as nat, 8, endianess)
    }

    fn to_bytes(&self, endianess: Endianess) -> (bytes: [u8; 8]) {
        let x = *self;
        let b0 = (x % 0x100) as u8;
        let b1 = (x / 0x100 % 0x100) as u8;
        let b2 = (x / 0x1_0000 % 0x100) as u8;
        let b3 = (x / 0x100_0000 % 0x100) as u8;
        let b4 = (x / 0x1_0000_0000 % 0x100) as u8;
        let b5 = (x / 0x100_0000_0000 % 0x100) as u8;
        let b6 = (x / 0x1_0000_0000_0000 % 0x100) as u8;
        let b7 = (x / 0x100_0000_0000_0000) as u8;
        let bytes = match endianess {
            Endianess::Little => [b0, b1, b2, b3, b4, b5, b6, b7],
            Endianess::Big => [b7, b6, b5, b4, b3, b2, b1, b0],
        };
        proof {
            lemma_pow256();
            assert(b0 == digit(x as nat, 0));
            assert(b1 == digit(x as nat, 1));
            assert(b2 == digit(x as nat, 2));
            assert(b3 == digit(x as nat, 3));
            assert(b4 == digit(x as nat, 4));
            assert(b5 == digit(x as nat, 5));
            assert(b6 == digit(x as nat, 6));
            assert(b7 == digit(x as nat, 7));
            assert(bytes@ =~= self.encoding(endianess));
        }
        bytes
    }
}

} // verus!
