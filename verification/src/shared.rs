//! Parameters that every later field of a file depends on.

use crate::elf::ArchitectureWidth;
use crate::errors::ParseError;
use crate::parsing::coded_field;
use crate::parsing::ByteReader;
use crate::parsing::Decoded;
use crate::parsing::Parse;
use vstd::prelude::*;
use vstd::std_specs::convert::FromSpecImpl;

verus! {

/// An address, offset or size, as wide as the file's address width.
#[derive(Clone, Copy, Debug, PartialEq, Eq, Structural)]
pub enum NativeInteger {
    ThirtyTwo(u32),
    SixtyFour(u64),
}

impl NativeInteger {
    /// The address width that the integer has.
    pub open spec fn width(self) -> ArchitectureWidth {
        match self {
            NativeInteger::ThirtyTwo(_) => ArchitectureWidth::ThirtyTwo,
            NativeInteger::SixtyFour(_) => ArchitectureWidth::SixtyFour,
        }
    }
}

impl View for NativeInteger {
    type V = NativeInteger;

    open spec fn view(&self) -> NativeInteger {
        *self
    }
}

impl From<u32> for NativeInteger {
    fn from(src: u32) -> (native: Self) {
        NativeInteger::ThirtyTwo(src)
    }
}

impl FromSpecImpl<u32> for NativeInteger {
    open spec fn obeys_from_spec() -> bool {
        true
    }

    open spec fn from_spec(src: u32) -> Self {
        NativeInteger::ThirtyTwo(src)
    }
}

impl From<u64> for NativeInteger {
    fn from(src: u64) -> (native: Self) {
        NativeInteger::SixtyFour(src)
    }
}

impl FromSpecImpl<u64> for NativeInteger {
    open spec fn obeys_from_spec() -> bool {
        true
    }

    open spec fn from_spec(src: u64) -> Self {
        NativeInteger::SixtyFour(src)
    }
}

/// Order of the bytes within a multi-byte integer.
#[derive(Clone, Copy, Debug, PartialEq, Eq, Structural)]
pub enum Endianess {
    Little,
    Big,
}

impl View for Endianess {
    type V = Endianess;

    open spec fn view(&self) -> Endianess {
        *self
    }
}

impl Endianess {
    /// The byte order that a byte-order code stands for, if any.
    pub open spec fn from_code(code: u8) -> Option<Endianess> {
        match code {
            1 => Some(Endianess::Little),
            2 => Some(Endianess::Big),
            _ => None,
        }
    }
}

impl Parse for Endianess {
    open spec fn parsed(input: Seq<u8>) -> Decoded<Endianess> {
        coded_field(input, 1, |raw: Seq<u8>| Endianess::from_code(raw[0]))
    }

    fn parse(reader: &mut ByteReader) -> (r: Result<Self, ParseError>) {
        let ghost input = reader@;
        let value = u8::parse(reader)?;
        Ok(
            match value {
                1 => Self::Little,
                2 => Self::Big,
                other => {
                    let raw: [u8; 1] = [other];
                    assert(raw@ =~= input.take(1));
                    return Err(ParseError::InvalidValue { value: Box::new(raw) });
                },
            },
        )
    }
}

} // verus!
