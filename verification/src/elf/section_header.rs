//! The section header table: one entry for each section.

use crate::elf::file_header::FileHeader;
use crate::elf::parsing::integer_at;
use crate::elf::parsing::lemma_digits_of_value;
use crate::elf::parsing::lemma_encoding_of_value;
use crate::elf::parsing::lemma_sequence_failure_stays;
use crate::elf::parsing::lemma_sequence_failures;
use crate::elf::parsing::lemma_sequence_of_fixed_size;
use crate::elf::parsing::native_at;
use crate::elf::parsing::parsed_sequence;
use crate::elf::parsing::value_of;
use crate::elf::parsing::ParseFromContext;
use crate::elf::parsing::ParseFromEndianess;
use crate::elf::parsing::ParseFromWorkingContext;
use crate::elf::ArchitectureWidth;
use crate::errors::Failure;
use crate::errors::ParseError;
use crate::parsing::coded_field;
use crate::parsing::cut_short;
use crate::parsing::lemma_pow256;
use crate::parsing::lemma_window;
use crate::parsing::rejected;
use crate::parsing::ByteReader;
use crate::parsing::Decoded;
use crate::parsing::To4Bytes;
use crate::shared::Endianess;
use crate::shared::NativeInteger;
use vstd::prelude::*;

verus! {

/// The sections of a file, in the order in which the file lists them.
#[derive(Debug)]
pub struct SectionHeader {
    entries: Vec<SectionHeaderEntry>,
}

impl View for SectionHeader {
    type V = Seq<SectionHeaderEntry>;

    closed spec fn view(&self) -> Seq<SectionHeaderEntry> {
        self.entries@
    }
}

impl SectionHeader {
    /// The outcome of decoding a table from the front of `input`: as many
    /// entries as the file header counts, one after the other.
    pub open spec fn decoded(
        input: Seq<u8>,
        endianess: Endianess,
        arch_width: ArchitectureWidth,
        file_header: FileHeader,
    ) -> Decoded<Seq<SectionHeaderEntry>> {
        parsed_sequence(
            SectionHeaderEntry::decoder(endianess, arch_width),
            input,
            file_header.section_header_entry_count as nat,
        )
    }

    /// Decodes as many entries as the file header counts. The first entry
    /// that fails ends the decoding, and nothing is kept of those before it.
    pub fn parse_entries(
        reader: &mut ByteReader,
        endianess: Endianess,
        arch_width: ArchitectureWidth,
        working_context: &FileHeader,
    ) -> (r: Result<Vec<SectionHeaderEntry>, ParseError>)
        ensures
            final(reader)@ == SectionHeader::decoded(
                old(reader)@,
                endianess,
                arch_width,
                *working_context,
            ).rest,
            match r {
                Ok(entries) => SectionHeader::decoded(
                    old(reader)@,
                    endianess,
                    arch_width,
                    *working_context,
                ).result == Ok::<Seq<SectionHeaderEntry>, Failure>(entries@),
                Err(error) => SectionHeader::decoded(
                    old(reader)@,
                    endianess,
                    arch_width,
                    *working_context,
                ).result == Err::<Seq<SectionHeaderEntry>, Failure>(error@),
            },
    {
        let ghost input = reader@;
        let ghost one = SectionHeaderEntry::decoder(endianess, arch_width);
        let count = working_context.section_header_entry_count;
        let mut entries: Vec<SectionHeaderEntry> = Vec::new();
        let mut done: u16 = 0;
        while done < count
            invariant
                done <= count,
                count == working_context.section_header_entry_count,
                input == old(reader)@,
                one == SectionHeaderEntry::decoder(endianess, arch_width),
                parsed_sequence(one, input, done as nat) == (Decoded {
                    result: Ok(entries@),
                    rest: reader@,
                }),
            decreases count - done,
        {
            let ghost before = reader@;
            match SectionHeaderEntry::parse_from_context(reader, endianess, arch_width) {
                Ok(entry) => entries.push(entry),
                Err(error) => {
                    proof {
                        assert(one(before).result is Err);
                        assert(parsed_sequence(one, input, (done + 1) as nat) == (Decoded {
                            result: Err::<Seq<SectionHeaderEntry>, Failure>(error@),
                            rest: reader@,
                        }));
                        lemma_sequence_failure_stays(
                            one,
                            input,
                            (done + 1) as nat,
                            count as nat,
                        );
                    }
                    return Err(error);
                },
            }
            done += 1;
        }
        Ok(entries)
    }

    /// The entries, in their order.
    pub fn entries(&self) -> (entries: &[SectionHeaderEntry])
        ensures
            entries@ == self@,
    {
        self.entries.as_slice()
    }
}

/// Where the file header counts no section header entries, the table is
/// empty and no byte is consumed, whatever the bytes are.
pub proof fn lemma_no_entries_take_no_bytes(
    input: Seq<u8>,
    endianess: Endianess,
    arch_width: ArchitectureWidth,
    file_header: FileHeader,
)
    requires
        file_header.section_header_entry_count == 0,
    ensures
        SectionHeader::decoded(input, endianess, arch_width, file_header) == (Decoded {
            result: Ok::<Seq<SectionHeaderEntry>, Failure>(Seq::empty()),
            rest: input,
        }),
{
}

/// A table that decodes has as many entries as the file header counts, takes
/// as many bytes as that many entries take, and holds at index `i` the entry
/// that stands behind `i` entries in the input, its native fields as wide as
/// the address width. And a table never fails on the reading itself.
pub proof fn lemma_table_is_as_counted(
    input: Seq<u8>,
    endianess: Endianess,
    arch_width: ArchitectureWidth,
    file_header: FileHeader,
)
    ensures
        SectionHeader::decoded(input, endianess, arch_width, file_header).result matches Ok(
            entries,
        ) ==> {
            let count = file_header.section_header_entry_count as nat;
            let size = SectionHeaderEntry::size(arch_width);
            &&& entries.len() == count
            &&& count * size <= input.len()
            &&& SectionHeader::decoded(input, endianess, arch_width, file_header).rest
                == input.skip((count * size) as int)
            &&& forall|i: int|
                0 <= i < count ==> (#[trigger] entries[i]) == SectionHeaderEntry::fields_of(
                    input.skip(i * size),
                    endianess,
                    arch_width,
                ) && entries[i].natives_have_width(arch_width)
        },
        SectionHeader::decoded(input, endianess, arch_width, file_header).result matches Err(
            failure,
        ) ==> failure.is_of_the_bytes(),
{
    let one = SectionHeaderEntry::decoder(endianess, arch_width);
    let count = file_header.section_header_entry_count as nat;
    let size = SectionHeaderEntry::size(arch_width);
    lemma_sequence_of_fixed_size(one, input, count, size);
    lemma_sequence_failures(one, input, count, |failure: Failure| failure.is_of_the_bytes());
}

impl ParseFromWorkingContext<FileHeader> for SectionHeader {
    open spec fn parsed_from_working_context(
        input: Seq<u8>,
        endianess: Endianess,
        arch_width: ArchitectureWidth,
        working_context: FileHeader,
    ) -> Decoded<Seq<SectionHeaderEntry>> {
        SectionHeader::decoded(input, endianess, arch_width, working_context)
    }

    fn parse_from_working_context(
        reader: &mut ByteReader,
        endianess: Endianess,
        arch_width: ArchitectureWidth,
        working_context: &FileHeader,
    ) -> (r: Result<Self, ParseError>) {
        match Self::parse_entries(reader, endianess, arch_width, working_context) {
            Ok(entries) => Ok(Self { entries }),
            Err(error) => Err(error),
        }
    }
}

/// One section.
#[derive(Clone, Copy, Debug, PartialEq, Eq, Structural)]
pub struct SectionHeaderEntry {
    pub name_offset: u32,
    pub entry_type: EntryType,
    pub flags: Flags,
    pub addr: NativeInteger,
    pub offset: NativeInteger,
    pub size: NativeInteger,
    pub associated_section: u32,
    pub section_info: u32,
    pub alignment: NativeInteger,
    pub entry_size: NativeInteger,
}

impl View for SectionHeaderEntry {
    type V = SectionHeaderEntry;

    open spec fn view(&self) -> SectionHeaderEntry {
        *self
    }
}

impl SectionHeaderEntry {
    /// The number of bytes that an entry takes: 40 with addresses of 32
    /// bits, 64 with addresses of 64 bits.
    pub open spec fn size(width: ArchitectureWidth) -> nat {
        16 + 6 * width.native_size()
    }

    /// Whether the flags and the native fields are as wide as `width`.
    pub open spec fn natives_have_width(self, width: ArchitectureWidth) -> bool {
        &&& self.flags.0.width() == width
        &&& self.addr.width() == width
        &&& self.offset.width() == width
        &&& self.size.width() == width
        &&& self.alignment.width() == width
        &&& self.entry_size.width() == width
    }

    /// Decoding of one entry with the given byte order and address width.
    pub open spec fn decoder(endianess: Endianess, width: ArchitectureWidth) -> spec_fn(
        Seq<u8>,
    ) -> Decoded<SectionHeaderEntry> {
        |input: Seq<u8>| SectionHeaderEntry::decoded(input, endianess, width)
    }

    /// The section type code of `input`.
    pub open spec fn entry_type_code(input: Seq<u8>, endianess: Endianess) -> u32 {
        integer_at(input, 4, 4, endianess) as u32
    }

    /// The entry that `input` holds, each field read at its offset. It is
    /// meant for an `input` that is long enough and holds an accepted code.
    pub open spec fn fields_of(
        input: Seq<u8>,
        endianess: Endianess,
        width: ArchitectureWidth,
    ) -> SectionHeaderEntry {
        let n = width.native_size() as int;
        SectionHeaderEntry {
            name_offset: integer_at(input, 0, 4, endianess) as u32,
            entry_type: EntryType::from_code(Self::entry_type_code(input, endianess)).unwrap(),
            flags: Flags(native_at(input, 8, endianess, width)),
            addr: native_at(input, 8 + n, endianess, width),
            offset: native_at(input, 8 + 2 * n, endianess, width),
            size: native_at(input, 8 + 3 * n, endianess, width),
            associated_section: integer_at(input, 8 + 4 * n, 4, endianess) as u32,
            section_info: integer_at(input, 12 + 4 * n, 4, endianess) as u32,
            alignment: native_at(input, 16 + 4 * n, endianess, width),
            entry_size: native_at(input, 16 + 5 * n, endianess, width),
        }
    }

    /// The outcome of decoding an entry from the front of `input`. The
    /// fields are read in the order of their offsets. The section type is
    /// the one field that can hold a code that is not accepted.
    pub open spec fn decoded(
        input: Seq<u8>,
        endianess: Endianess,
        arch_width: ArchitectureWidth,
    ) -> Decoded<SectionHeaderEntry> {
        if input.len() < 8 {
            cut_short()
        } else if EntryType::from_code(SectionHeaderEntry::entry_type_code(input, endianess))
            is None {
            rejected(input, 4, 8)
        } else if input.len() < SectionHeaderEntry::size(arch_width) {
            cut_short()
        } else {
            Decoded {
                result: Ok(SectionHeaderEntry::fields_of(input, endianess, arch_width)),
                rest: input.skip(SectionHeaderEntry::size(arch_width) as int),
            }
        }
    }
}

impl ParseFromContext for SectionHeaderEntry {
    open spec fn parsed_from_context(
        input: Seq<u8>,
        endianess: Endianess,
        arch_width: ArchitectureWidth,
    ) -> Decoded<SectionHeaderEntry> {
        SectionHeaderEntry::decoded(input, endianess, arch_width)
    }

    fn parse_from_context(
        reader: &mut ByteReader,
        endianess: Endianess,
        arch_width: ArchitectureWidth,
    ) -> (r: Result<Self, ParseError>) {
        let ghost input = reader@;
        let ghost n = arch_width.native_size() as int;
        let name_offset = u32::parse_from_context(reader, endianess, arch_width);
        proof {
            assert(input.skip(0) =~= input);
            lemma_window(input, 0, 4);
        }
        let name_offset = name_offset?;
        let entry_type = EntryType::parse_from_context(reader, endianess, arch_width);
        proof {
            lemma_window(input, 4, 4);
        }
        let entry_type = entry_type?;
        let flags = Flags::parse_from_context(reader, endianess, arch_width);
        proof {
            lemma_window(input, 8, n);
        }
        let flags = flags?;
        let addr = NativeInteger::parse_from_context(reader, endianess, arch_width);
        proof {
            lemma_window(input, 8 + n, n);
        }
        let addr = addr?;
        let offset = NativeInteger::parse_from_context(reader, endianess, arch_width);
        proof {
            lemma_window(input, 8 + 2 * n, n);
        }
        let offset = offset?;
        let size = NativeInteger::parse_from_context(reader, endianess, arch_width);
        proof {
            lemma_window(input, 8 + 3 * n, n);
        }
        let size = size?;
        let associated_section = u32::parse_from_context(reader, endianess, arch_width);
        proof {
            lemma_window(input, 8 + 4 * n, 4);
        }
        let associated_section = associated_section?;
        let section_info = u32::parse_from_context(reader, endianess, arch_width);
        proof {
            lemma_window(input, 12 + 4 * n, 4);
        }
        let section_info = section_info?;
        let alignment = NativeInteger::parse_from_context(reader, endianess, arch_width);
        proof {
            lemma_window(input, 16 + 4 * n, n);
        }
        let alignment = alignment?;
        let entry_size = NativeInteger::parse_from_context(reader, endianess, arch_width);
        proof {
            lemma_window(input, 16 + 5 * n, n);
        }
        let entry_size = entry_size?;

        Ok(
            Self {
                name_offset,
                entry_type,
                flags,
                addr,
                offset,
                size,
                associated_section,
                section_info,
                alignment,
                entry_size,
            },
        )
    }
}

/// What a section holds.
#[derive(Clone, Copy, Debug, PartialEq, Eq, Structural)]
pub enum EntryType {
    Null,
    ProgramData,
    SymbolTable,
    StringTable,
    RelocationEntriesWithAddens,
    SymbolHashTable,
    DynamicLinkingInformation,
    Notes,
    ProgramSpaceNoData,
    RelocationEntriesNoAddens,
    Reserved,
    DynamicLinkerSymbolTable,
    ArrayOfConstructors,
    ArrayOfDestructors,
    ArrayOfPreConstructors,
    SectionGroup,
    ExtendedSectionIndices,
    NumberOfDefinedTypes,
    StartOsSpecific,
}

impl View for EntryType {
    type V = EntryType;

    open spec fn view(&self) -> EntryType {
        *self
    }
}

impl EntryType {
    /// The section type that a code stands for, if any.
    pub open spec fn from_code(code: u32) -> Option<EntryType> {
        match code {
            0x00000000 => Some(EntryType::Null),
            0x00000001 => Some(EntryType::ProgramData),
            0x00000002 => Some(EntryType::SymbolTable),
            0x00000003 => Some(EntryType::StringTable),
            0x00000004 => Some(EntryType::RelocationEntriesWithAddens),
            0x00000005 => Some(EntryType::SymbolHashTable),
            0x00000006 => Some(EntryType::DynamicLinkingInformation),
            0x00000007 => Some(EntryType::Notes),
            0x00000008 => Some(EntryType::ProgramSpaceNoData),
            0x00000009 => Some(EntryType::RelocationEntriesNoAddens),
            0x0000000A => Some(EntryType::Reserved),
            0x0000000B => Some(EntryType::DynamicLinkerSymbolTable),
            0x0000000E => Some(EntryType::ArrayOfConstructors),
            0x0000000F => Some(EntryType::ArrayOfDestructors),
            0x00000010 => Some(EntryType::ArrayOfPreConstructors),
            0x00000011 => Some(EntryType::SectionGroup),
            0x00000012 => Some(EntryType::ExtendedSectionIndices),
            0x00000013 => Some(EntryType::NumberOfDefinedTypes),
            0x60000000 => Some(EntryType::StartOsSpecific),
            _ => None,
        }
    }
}

impl ParseFromEndianess for EntryType {
    open spec fn parsed_from_endianess(input: Seq<u8>, endianess: Endianess) -> Decoded<
        EntryType,
    > {
        coded_field(
            input,
            4,
            |raw: Seq<u8>| EntryType::from_code(value_of(raw, endianess) as u32),
        )
    }

    fn parse_from_endianess(reader: &mut ByteReader, endianess: Endianess) -> (r: Result<
        Self,
        ParseError,
    >) {
        let ghost input = reader@;
        let val = u32::parse_from_endianess(reader, endianess)?;
        Ok(
            match val {
                0x00000000 => EntryType::Null,
                0x00000001 => EntryType::ProgramData,
                0x00000002 => EntryType::SymbolTable,
                0x00000003 => EntryType::StringTable,
                0x00000004 => EntryType::RelocationEntriesWithAddens,
                0x00000005 => EntryType::SymbolHashTable,
                0x00000006 => EntryType::DynamicLinkingInformation,
                0x00000007 => EntryType::Notes,
                0x00000008 => EntryType::ProgramSpaceNoData,
                0x00000009 => EntryType::RelocationEntriesNoAddens,
                0x0000000A => EntryType::Reserved,
                0x0000000B => EntryType::DynamicLinkerSymbolTable,
                0x0000000E => EntryType::ArrayOfConstructors,
                0x0000000F => EntryType::ArrayOfDestructors,
                0x00000010 => EntryType::ArrayOfPreConstructors,
                0x00000011 => EntryType::SectionGroup,
                0x00000012 => EntryType::ExtendedSectionIndices,
                0x00000013 => EntryType::NumberOfDefinedTypes,
                0x60000000 => EntryType::StartOsSpecific,
                other => {
                    let raw = other.to_bytes(endianess);
                    proof {
                        lemma_pow256();
                        lemma_digits_of_value(input.take(4), endianess);
                        lemma_encoding_of_value(input.take(4), endianess);
                    }
                    return Err(ParseError::InvalidValue { value: Box::new(raw) });
                },
            },
        )
    }
}

/// The flags of a section, as wide as the file's addresses.
#[derive(Clone, Copy, Debug, PartialEq, Eq, Structural)]
pub struct Flags(pub NativeInteger);

impl View for Flags {
    type V = Flags;

    open spec fn view(&self) -> Flags {
        *self
    }
}

impl ParseFromContext for Flags {
    open spec fn parsed_from_context(
        input: Seq<u8>,
        endianess: Endianess,
        arch_width: ArchitectureWidth,
    ) -> Decoded<Flags> {
        coded_field(
            input,
            arch_width.native_size(),
            |raw: Seq<u8>| Some(Flags(NativeInteger::from_raw(raw, endianess, arch_width))),
        )
    }

    fn parse_from_context(
        reader: &mut ByteReader,
        endianess: Endianess,
        arch_width: ArchitectureWidth,
    ) -> (r: Result<Self, ParseError>) {
        let val = NativeInteger::parse_from_context(reader, endianess, arch_width)?;
        Ok(Self(val))
    }
}

} // verus!
