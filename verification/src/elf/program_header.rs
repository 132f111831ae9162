//! The program header table: one entry for each segment.

use crate::elf::file_header::FileHeader;
use crate::elf::parsing::integer_at;
use crate::elf::parsing::lemma_digits_of_value;
use crate::elf::parsing::lemma_encoding_of_value;
use crate::elf::parsing::lemma_sequence_failure_stays;
use crate::elf::parsing::lemma_sequence_failures;
use crate::elf::parsing::lemma_sequence_of_fixed_size;
use crate::elf::parsing::native_at;
use crate::elf::parsing::parsed_sequence;
use crate::elf::parsing::value_of;
use crate::elf::parsing::ParseFromContext;
use crate::elf::parsing::ParseFromEndianess;
use crate::elf::parsing::ParseFromWorkingContext;
use crate::elf::ArchitectureWidth;
use crate::errors::Failure;
use crate::errors::ParseError;
use crate::parsing::coded_field;
use crate::parsing::cut_short;
use crate::parsing::lemma_pow256;
use crate::parsing::lemma_window;
use crate::parsing::rejected;
use crate::parsing::ByteReader;
use crate::parsing::Decoded;
use crate::parsing::To4Bytes;
use crate::shared::Endianess;
use crate::shared::NativeInteger;
use vstd::prelude::*;

verus! {

/// The segments of a file, in the order in which the file lists them.
#[derive(Debug)]
pub struct ProgramHeader {
    entries: Vec<Entry>,
}

impl View for ProgramHeader {
    type V = Seq<Entry>;

    closed spec fn view(&self) -> Seq<Entry> {
        self.entries@
    }
}

impl ProgramHeader {
    /// Appends `entry` behind the entries that the table holds.
    pub fn add_entry(&mut self, entry: Entry)
        ensures
            final(self)@ == old(self)@.push(entry),
    {
        self.entries.push(entry)
    }

    /// The entries, in their order.
    pub fn entries(&self) -> (entries: &[Entry])
        ensures
            entries@ == self@,
    {
        self.entries.as_slice()
    }
}

impl ProgramHeader {
    /// The outcome of decoding a table from the front of `input`: as many
    /// entries as the file header counts, one after the other.
    pub open spec fn decoded(
        input: Seq<u8>,
        endianess: Endianess,
        arch_width: ArchitectureWidth,
        file_header: FileHeader,
    ) -> Decoded<Seq<Entry>> {
        parsed_sequence(
            Entry::decoder(endianess, arch_width),
            input,
            file_header.program_header_entry_count as nat,
        )
    }
}

/// Where the file header counts no program header entries, the table is
/// empty and no byte is consumed, whatever the bytes are.
pub proof fn lemma_no_entries_take_no_bytes(
    input: Seq<u8>,
    endianess: Endianess,
    arch_width: ArchitectureWidth,
    file_header: FileHeader,
)
    requires
        file_header.program_header_entry_count == 0,
    ensures
        ProgramHeader::decoded(input, endianess, arch_width, file_header) == (Decoded {
            result: Ok::<Seq<Entry>, Failure>(Seq::empty()),
            rest: input,
        }),
{
}

/// A table that decodes has as many entries as the file header counts, takes
/// as many bytes as that many entries take, and holds at index `i` the entry
/// that stands behind `i` entries in the input, its native fields as wide as
/// the address width. And a table never fails on the reading itself.
pub proof fn lemma_table_is_as_counted(
    input: Seq<u8>,
    endianess: Endianess,
    arch_width: ArchitectureWidth,
    file_header: FileHeader,
)
    ensures
        ProgramHeader::decoded(input, endianess, arch_width, file_header).result matches Ok(
            entries,
        ) ==> {
            let count = file_header.program_header_entry_count as nat;
            let size = Entry::size(arch_width);
            &&& entries.len() == count
            &&& count * size <= input.len()
            &&& ProgramHeader::decoded(input, endianess, arch_width, file_header).rest
                == input.skip((count * size) as int)
            &&& forall|i: int|
                0 <= i < count ==> (#[trigger] entries[i]) == Entry::fields_of(
                    input.skip(i * size),
                    endianess,
                    arch_width,
                ) && entries[i].natives_have_width(arch_width)
        },
        ProgramHeader::decoded(input, endianess, arch_width, file_header).result matches Err(
            failure,
        ) ==> failure.is_of_the_bytes(),
{
    let one = Entry::decoder(endianess, arch_width);
    let count = file_header.program_header_entry_count as nat;
    let size = Entry::size(arch_width);
    lemma_sequence_of_fixed_size(one, input, count, size);
    lemma_sequence_failures(one, input, count, |failure: Failure| failure.is_of_the_bytes());
}

impl ParseFromWorkingContext<FileHeader> for ProgramHeader {
    open spec fn parsed_from_working_context(
        input: Seq<u8>,
        endianess: Endianess,
        arch_width: ArchitectureWidth,
        working_context: FileHeader,
    ) -> Decoded<Seq<Entry>> {
        ProgramHeader::decoded(input, endianess, arch_width, working_context)
    }

    fn parse_from_working_context(
        reader: &mut ByteReader,
        endianess: Endianess,
        arch_width: ArchitectureWidth,
        working_context: &FileHeader,
    ) -> (r: Result<Self, ParseError>) {
        let ghost input = reader@;
        let count = working_context.program_header_entry_count;
        let mut table = ProgramHeader { entries: Vec::new() };
        let mut done: u16 = 0;
        while done < count
            invariant
                done <= count,
                count == working_context.program_header_entry_count,
                input == old(reader)@,
                parsed_sequence(Entry::decoder(endianess, arch_width), input, done as nat) == (
                Decoded { result: Ok(table@), rest: reader@ }),
            decreases count - done,
        {
            let ghost before = reader@;
            match Entry::parse_from_context(reader, endianess, arch_width) {
                Ok(entry) => table.add_entry(entry),
                Err(error) => {
                    proof {
                        let one = Entry::decoder(endianess, arch_width);
                        assert(one(before).result is Err);
                        assert(parsed_sequence(one, input, (done + 1) as nat) == (Decoded {
                            result: Err::<Seq<Entry>, Failure>(error@),
                            rest: reader@,
                        }));
                        lemma_sequence_failure_stays(
                            Entry::decoder(endianess, arch_width),
                            input,
                            (done + 1) as nat,
                            count as nat,
                        );
                    }
                    return Err(error);
                },
            }
            done += 1;
        }
        Ok(table)
    }
}

/// One segment.
#[derive(Clone, Copy, Debug, PartialEq, Eq, Structural)]
pub struct Entry {
    pub entry_type: EntryType,
    pub flags: u32,
    pub offset: NativeInteger,
    pub virtual_address: NativeInteger,
    pub physical_address: NativeInteger,
    pub segment_file_size: NativeInteger,
    pub segment_mem_size: NativeInteger,
    pub alignment: NativeInteger,
}

impl View for Entry {
    type V = Entry;

    open spec fn view(&self) -> Entry {
        *self
    }
}

impl Entry {
    /// The number of bytes that an entry takes: 32 with addresses of 32
    /// bits, 56 with addresses of 64 bits.
    pub open spec fn size(width: ArchitectureWidth) -> nat {
        8 + 6 * width.native_size()
    }

    /// Decoding of one entry with the given byte order and address width.
    pub open spec fn decoder(endianess: Endianess, width: ArchitectureWidth) -> spec_fn(
        Seq<u8>,
    ) -> Decoded<Entry> {
        |input: Seq<u8>| Entry::decoded(input, endianess, width)
    }

    /// Whether the native fields are as wide as `width`.
    pub open spec fn natives_have_width(self, width: ArchitectureWidth) -> bool {
        &&& self.offset.width() == width
        &&& self.virtual_address.width() == width
        &&& self.physical_address.width() == width
        &&& self.segment_file_size.width() == width
        &&& self.segment_mem_size.width() == width
        &&& self.alignment.width() == width
    }

    /// The segment type code of `input`.
    pub open spec fn entry_type_code(input: Seq<u8>, endianess: Endianess) -> u32 {
        integer_at(input, 0, 4, endianess) as u32
    }

    /// The entry that `input` holds, each field read at its offset. It is
    /// meant for an `input` that is long enough and holds an accepted code.
    pub open spec fn fields_of(
        input: Seq<u8>,
        endianess: Endianess,
        width: ArchitectureWidth,
    ) -> Entry {
        let n = width.native_size() as int;
        Entry {
            entry_type: EntryType::from_code(Self::entry_type_code(input, endianess)).unwrap(),
            flags: integer_at(input, 4, 4, endianess) as u32,
            offset: native_at(input, 8, endianess, width),
            virtual_address: native_at(input, 8 + n, endianess, width),
            physical_address: native_at(input, 8 + 2 * n, endianess, width),
            segment_file_size: native_at(input, 8 + 3 * n, endianess, width),
            segment_mem_size: native_at(input, 8 + 4 * n, endianess, width),
            alignment: native_at(input, 8 + 5 * n, endianess, width),
        }
    }
}

impl Entry {
    /// The outcome of decoding an entry from the front of `input`. The
    /// fields are read in the order of their offsets. The segment type is
    /// the one field that can hold a code that is not accepted.
    pub open spec fn decoded(
        input: Seq<u8>,
        endianess: Endianess,
        arch_width: ArchitectureWidth,
    ) -> Decoded<Entry> {
        if input.len() < 4 {
            cut_short()
        } else if EntryType::from_code(Entry::entry_type_code(input, endianess)) is None {
            rejected(input, 0, 4)
        } else if input.len() < Entry::size(arch_width) {
            cut_short()
        } else {
            Decoded {
                result: Ok(Entry::fields_of(input, endianess, arch_width)),
                rest: input.skip(Entry::size(arch_width) as int),
            }
        }
    }
}

impl ParseFromContext for Entry {
    open spec fn parsed_from_context(
        input: Seq<u8>,
        endianess: Endianess,
        arch_width: ArchitectureWidth,
    ) -> Decoded<Entry> {
        Entry::decoded(input, endianess, arch_width)
    }

    fn parse_from_context(
        reader: &mut ByteReader,
        endianess: Endianess,
        arch_width: ArchitectureWidth,
    ) -> (r: Result<Self, ParseError>) {
        let ghost input = reader@;
        let ghost n = arch_width.native_size() as int;
        let entry_type = EntryType::parse_from_endianess(reader, endianess);
        proof {
            assert(input.skip(0) =~= input);
            lemma_window(input, 0, 4);
        }
        let entry_type = entry_type?;
        let flags = u32::parse_from_endianess(reader, endianess);
        proof {
            lemma_window(input, 4, 4);
        }
        let flags = flags?;
        let offset = NativeInteger::parse_from_context(reader, endianess, arch_width);
        proof {
            lemma_window(input, 8, n);
        }
        let offset = offset?;
        let virtual_address = NativeInteger::parse_from_context(reader, endianess, arch_width);
        proof {
            lemma_window(input, 8 + n, n);
        }
        let virtual_address = virtual_address?;
        let physical_address = NativeInteger::parse_from_context(reader, endianess, arch_width);
        proof {
            lemma_window(input, 8 + 2 * n, n);
        }
        let physical_address = physical_address?;
        let segment_file_size = NativeInteger::parse_from_context(reader, endianess, arch_width);
        proof {
            lemma_window(input, 8 + 3 * n, n);
        }
        let segment_file_size = segment_file_size?;
        let segment_mem_size = NativeInteger::parse_from_context(reader, endianess, arch_width);
        proof {
            lemma_window(input, 8 + 4 * n, n);
        }
        let segment_mem_size = segment_mem_size?;
        let alignment = NativeInteger::parse_from_context(reader, endianess, arch_width);
        proof {
            lemma_window(input, 8 + 5 * n, n);
        }
        let alignment = alignment?;
        Ok(
            Entry {
                entry_type,
                flags,
                offset,
                virtual_address,
                physical_address,
                segment_file_size,
                segment_mem_size,
                alignment,
            },
        )
    }
}

/// What a segment is for.
#[derive(Clone, Copy, Debug, PartialEq, Eq, Structural)]
pub enum EntryType {
    Null,
    Load,
    Dynamic,
    Interpreter,
    Auxillary,
    Reserved,
    ProgramHeader,
    ThreadLocalStorage,
    Loos,
    Hios,
    Loproc,
    Hiproc,
}

impl View for EntryType {
    type V = EntryType;

    open spec fn view(&self) -> EntryType {
        *self
    }
}

impl EntryType {
    /// The segment type that a code stands for, if any.
    pub open spec fn from_code(code: u32) -> Option<EntryType> {
        match code {
            0x00000000 => Some(EntryType::Null),
            0x00000001 => Some(EntryType::Load),
            0x00000002 => Some(EntryType::Dynamic),
            0x00000003 => Some(EntryType::Interpreter),
            0x00000004 => Some(EntryType::Auxillary),
            0x00000005 => Some(EntryType::Reserved),
            0x00000006 => Some(EntryType::ProgramHeader),
            0x00000007 => Some(EntryType::ThreadLocalStorage),
            0x60000000 => Some(EntryType::Loos),
            0x6FFFFFFF => Some(EntryType::Hios),
            0x70000000 => Some(EntryType::Loproc),
            0x7FFFFFFF => Some(EntryType::Hiproc),
            _ => None,
        }
    }
}

impl ParseFromEndianess for EntryType {
    open spec fn parsed_from_endianess(input: Seq<u8>, endianess: Endianess) -> Decoded<
        EntryType,
    > {
        coded_field(
            input,
            4,
            |raw: Seq<u8>| EntryType::from_code(value_of(raw, endianess) as u32),
        )
    }

    fn parse_from_endianess(reader: &mut ByteReader, endianess: Endianess) -> (r: Result<
        Self,
        ParseError,
    >) {
        let ghost input = reader@;
        let value = u32::parse_from_endianess(reader, endianess)?;
        Ok(
            match value {
                0x00000000 => Self::Null,
                0x00000001 => Self::Load,
                0x00000002 => Self::Dynamic,
                0x00000003 => Self::Interpreter,
                0x00000004 => Self::Auxillary,
                0x00000005 => Self::Reserved,
                0x00000006 => Self::ProgramHeader,
                0x00000007 => Self::ThreadLocalStorage,
                0x60000000 => Self::Loos,
                0x6FFFFFFF => Self::Hios,
                0x70000000 => Self::Loproc,
                0x7FFFFFFF => Self::Hiproc,
                other => {
                    let raw = other.to_bytes(endianess);
                    proof {
                        lemma_pow256();
                        lemma_digits_of_value(input.take(4), endianess);
                        lemma_encoding_of_value(input.take(4), endianess);
                    }
                    return Err(ParseError::InvalidValue { value: Box::new(raw) });
                },
            },
        )
    }
}

} // verus!
