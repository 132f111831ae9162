//! Types for representing an ELF object file.

pub mod file_header;
pub mod parsing;
pub mod program_header;
pub mod section_header;

pub use self::file_header::FileHeader;
use self::parsing::ParseFromWorkingContext;
use self::program_header::Entry;
pub use self::program_header::ProgramHeader;
pub use self::section_header::SectionHeader;
use self::section_header::SectionHeaderEntry;
use crate::errors::Failure;
use crate::errors::ParseError;
use crate::parsing::coded_field;
use crate::parsing::ByteReader;
use crate::parsing::Decoded;
use crate::parsing::Parse;
use crate::parsing::ToByte;
use crate::shared::Endianess;
use vstd::prelude::*;

verus! {

/// What an ELF file says of itself: its header and its two tables.
#[derive(Debug)]
pub struct ElfDescriptor {
    pub file_header: FileHeader,
    pub program_header: ProgramHeader,
    pub section_header: SectionHeader,
}

/// A descriptor as contracts speak of it, each table as the sequence of its
/// entries.
pub struct ElfDescriptorView {
    pub file_header: FileHeader,
    pub program_header: Seq<Entry>,
    pub section_header: Seq<SectionHeaderEntry>,
}

impl View for ElfDescriptor {
    type V = ElfDescriptorView;

    open spec fn view(&self) -> ElfDescriptorView {
        ElfDescriptorView {
            file_header: self.file_header,
            program_header: self.program_header@,
            section_header: self.section_header@,
        }
    }
}

impl ElfDescriptor {
    /// The outcome of decoding a descriptor from the front of `input`: the
    /// file header, then the program header table behind it, then the
    /// section header table behind that, both tables in the byte order and
    /// address width that the file header names and with the counts that it
    /// gives. The first part that fails decides the failure.
    pub open spec fn decoded(input: Seq<u8>) -> Decoded<ElfDescriptorView> {
        let header = FileHeader::decoded(input);
        match header.result {
            Err(failure) => Decoded { result: Err(failure), rest: header.rest },
            Ok(file_header) => {
                let segments = ProgramHeader::decoded(
                    header.rest,
                    file_header.endianess,
                    file_header.width,
                    file_header,
                );
                match segments.result {
                    Err(failure) => Decoded { result: Err(failure), rest: segments.rest },
                    Ok(program_header) => {
                        let sections = SectionHeader::decoded(
                            segments.rest,
                            file_header.endianess,
                            file_header.width,
                            file_header,
                        );
                        match sections.result {
                            Err(failure) => Decoded {
                                result: Err(failure),
                                rest: sections.rest,
                            },
                            Ok(section_header) => Decoded {
                                result: Ok(
                                    ElfDescriptorView {
                                        file_header,
                                        program_header,
                                        section_header,
                                    },
                                ),
                                rest: sections.rest,
                            },
                        }
                    },
                }
            },
        }
    }
}

/// A file that is shorter than the magic number, or that does not start
/// with it, has no descriptor: decoding fails with missing data, and no more
/// than the first four bytes are consumed.
pub proof fn lemma_magic_number_is_required(input: Seq<u8>)
    requires
        input.len() < 4 || input.subrange(0, 4) != self::file_header::magic_number(),
    ensures
        ElfDescriptor::decoded(input).result == Err::<ElfDescriptorView, Failure>(
            Failure::MissingData,
        ),
        ElfDescriptor::decoded(input).rest == input.skip(
            if input.len() < 4 {
                input.len() as int
            } else {
                4
            },
        ),
{
    self::file_header::lemma_magic_number_is_required(input);
}

/// Where a header of a little-endian file with addresses of 64 bits decodes
/// and counts no entries of either table, the header takes exactly 64 bytes,
/// and the descriptor holds that header and two empty tables and takes no
/// byte more.
pub proof fn lemma_header_without_entries(input: Seq<u8>)
    requires
        FileHeader::decoded(input).result matches Ok(header) && {
            &&& header.width == ArchitectureWidth::SixtyFour
            &&& header.endianess == Endianess::Little
            &&& header.program_header_entry_count == 0
            &&& header.section_header_entry_count == 0
        },
    ensures
        input.len() >= 64,
        FileHeader::decoded(input).rest == input.skip(64),
        ElfDescriptor::decoded(input) == (Decoded {
            result: Ok::<ElfDescriptorView, Failure>(
                ElfDescriptorView {
                    file_header: FileHeader::decoded(input).result->Ok_0,
                    program_header: Seq::empty(),
                    section_header: Seq::empty(),
                },
            ),
            rest: input.skip(64),
        }),
{
    let header = FileHeader::decoded(input).result->Ok_0;
    let rest = input.skip(64);
    self::file_header::lemma_header_consumes_its_size(input);
    self::program_header::lemma_no_entries_take_no_bytes(
        rest,
        header.endianess,
        header.width,
        header,
    );
    self::section_header::lemma_no_entries_take_no_bytes(
        rest,
        header.endianess,
        header.width,
        header,
    );
}

/// A descriptor that decodes is of one piece: each table has as many entries
/// as its file header counts, every address, offset and size in it is as wide
/// as the address width that the file header names, and it takes the bytes of
/// the header and of that many entries, no more. And a descriptor never fails
/// on the reading itself.
pub proof fn lemma_descriptor_is_of_one_piece(input: Seq<u8>)
    ensures
        ElfDescriptor::decoded(input).result matches Ok(descriptor) ==> {
            let header = descriptor.file_header;
            let taken = FileHeader::size(header.width) + header.program_header_entry_count
                * Entry::size(header.width) + header.section_header_entry_count
                * SectionHeaderEntry::size(header.width);
            &&& FileHeader::decoded(input).result == Ok::<FileHeader, Failure>(header)
            &&& header.natives_have_its_width()
            &&& descriptor.program_header.len() == header.program_header_entry_count
            &&& descriptor.section_header.len() == header.section_header_entry_count
            &&& forall|i: int|
                0 <= i < descriptor.program_header.len() ==> (
                #[trigger] descriptor.program_header[i]).natives_have_width(header.width)
            &&& forall|i: int|
                0 <= i < descriptor.section_header.len() ==> (
                #[trigger] descriptor.section_header[i]).natives_have_width(header.width)
            &&& taken <= input.len()
            &&& ElfDescriptor::decoded(input).rest == input.skip(taken)
        },
        ElfDescriptor::decoded(input).result matches Err(failure) ==> failure.is_of_the_bytes(),
{
    self::file_header::lemma_header_is_of_one_width(input);
    if FileHeader::decoded(input).result is Ok {
        let header = FileHeader::decoded(input).result->Ok_0;
        self::file_header::lemma_header_consumes_its_size(input);
        let behind_header = FileHeader::decoded(input).rest;
        self::program_header::lemma_table_is_as_counted(
            behind_header,
            header.endianess,
            header.width,
            header,
        );
        let segments = ProgramHeader::decoded(
            behind_header,
            header.endianess,
            header.width,
            header,
        );
        if segments.result is Ok {
            self::section_header::lemma_table_is_as_counted(
                segments.rest,
                header.endianess,
                header.width,
                header,
            );
            let sections = SectionHeader::decoded(
                segments.rest,
                header.endianess,
                header.width,
                header,
            );
            if sections.result is Ok {
                let a = FileHeader::size(header.width) as int;
                let b = (header.program_header_entry_count * Entry::size(header.width)) as int;
                let c = (header.section_header_entry_count * SectionHeaderEntry::size(
                    header.width,
                )) as int;
                assert(input.skip(a).skip(b) =~= input.skip(a + b));
                assert(input.skip(a + b).skip(c) =~= input.skip(a + b + c));
            }
        }
    }
}

impl Parse for ElfDescriptor {
    open spec fn parsed(input: Seq<u8>) -> Decoded<ElfDescriptorView> {
        ElfDescriptor::decoded(input)
    }

    fn parse(reader: &mut ByteReader) -> (r: Result<Self, ParseError>) {
        let file_header = FileHeader::parse(reader)?;
        let program_header = ProgramHeader::parse_from_working_context(
            reader,
            file_header.endianess,
            file_header.width,
            &file_header,
        )?;
        let section_header = SectionHeader::parse_from_working_context(
            reader,
            file_header.endianess,
            file_header.width,
            &file_header,
        )?;

        Ok(Self { file_header, program_header, section_header })
    }
}

/// Width of the addresses, offsets and sizes of a file.
#[derive(Clone, Copy, Debug, PartialEq, Eq, Structural)]
pub enum ArchitectureWidth {
    ThirtyTwo,
    SixtyFour,
}

impl View for ArchitectureWidth {
    type V = ArchitectureWidth;

    open spec fn view(&self) -> ArchitectureWidth {
        *self
    }
}

impl ArchitectureWidth {
    /// The width that an address-width code stands for, if any.
    pub open spec fn from_code(code: u8) -> Option<ArchitectureWidth> {
        match code {
            1 => Some(ArchitectureWidth::ThirtyTwo),
            2 => Some(ArchitectureWidth::SixtyFour),
            _ => None,
        }
    }

    /// The number of bytes that a native integer takes.
    pub open spec fn native_size(self) -> nat {
        match self {
            ArchitectureWidth::ThirtyTwo => 4,
            ArchitectureWidth::SixtyFour => 8,
        }
    }
}

impl Parse for ArchitectureWidth {
    open spec fn parsed(input: Seq<u8>) -> Decoded<ArchitectureWidth> {
        coded_field(input, 1, |raw: Seq<u8>| ArchitectureWidth::from_code(raw[0]))
    }

    fn parse(reader: &mut ByteReader) -> (r: Result<Self, ParseError>) {
        let ghost input = reader@;
        let value = u8::parse(reader)?;
        Ok(
            match value {
                1 => ArchitectureWidth::ThirtyTwo,
                2 => ArchitectureWidth::SixtyFour,
                other => {
                    let raw = other.to_bytes();
                    assert(raw@ =~= input.take(1));
                    return Err(ParseError::InvalidValue { value: Box::new(raw) });
                },
            },
        )
    }
}

} // verus!
