//! The file header: the identification block and the fields that size and
//! place the two tables.

use crate::elf::parsing::integer_at;
use crate::elf::parsing::lemma_digits_of_value;
use crate::elf::parsing::lemma_encoding_of_value;
use crate::elf::parsing::native_at;
use crate::elf::parsing::value_of;
use crate::elf::parsing::ParseFromContext;
use crate::elf::parsing::ParseFromEndianess;
use crate::elf::ArchitectureWidth;
use crate::errors::Failure;
use crate::errors::ParseError;
use crate::parsing::coded_field;
use crate::parsing::cut_short;
use crate::parsing::decodes;
use crate::parsing::lemma_pow256;
use crate::parsing::lemma_window;
use crate::parsing::read_bytes;
use crate::parsing::rejected;
use crate::parsing::ByteReader;
use crate::parsing::Decoded;
use crate::parsing::Parse;
use crate::parsing::To2Bytes;
use crate::parsing::ToByte;
use crate::shared::Endianess;
use crate::shared::NativeInteger;
use vstd::prelude::*;

verus! {

/// The header at the start of a file.
#[derive(Clone, Copy, Debug, PartialEq, Eq, Structural)]
pub struct FileHeader {
    pub width: ArchitectureWidth,
    pub endianess: Endianess,
    pub elf_version: ElfVersion,
    pub os_abi: OsAbi,
    pub object_file_type: ObjectFileType,
    pub instruction_set_arch: InstructionSetArch,
    pub entry_point: NativeInteger,
    pub program_header: NativeInteger,
    pub section_header: NativeInteger,
    pub flags: u32,
    pub file_header_size: u16,
    pub program_header_entry_size: u16,
    pub program_header_entry_count: u16,
    pub section_header_entry_size: u16,
    pub section_header_entry_count: u16,
    pub section_names_entry_index: u16,
}

impl View for FileHeader {
    type V = FileHeader;

    open spec fn view(&self) -> FileHeader {
        *self
    }
}

/// The four bytes that a file starts with.
pub open spec fn magic_number() -> Seq<u8> {
    seq![0x7f, 0x45, 0x4c, 0x46]
}

impl FileHeader {
    /// The number of bytes that a header takes: 52 with addresses of 32
    /// bits, 64 with addresses of 64 bits.
    pub open spec fn size(width: ArchitectureWidth) -> nat {
        40 + 3 * width.native_size()
    }

    /// Whether the entry point and the offsets of the two tables are as wide
    /// as the address width that the header names.
    pub open spec fn natives_have_its_width(self) -> bool {
        &&& self.entry_point.width() == self.width
        &&& self.program_header.width() == self.width
        &&& self.section_header.width() == self.width
    }

    /// The address width that `input` names.
    pub open spec fn width_of(input: Seq<u8>) -> ArchitectureWidth {
        ArchitectureWidth::from_code(input[4]).unwrap()
    }

    /// The byte order that `input` names.
    pub open spec fn endianess_of(input: Seq<u8>) -> Endianess {
        Endianess::from_code(input[5]).unwrap()
    }

    /// The object type code of `input`.
    pub open spec fn object_file_type_code(input: Seq<u8>) -> u16 {
        integer_at(input, 16, 2, Self::endianess_of(input)) as u16
    }

    /// The instruction set code of `input`.
    pub open spec fn instruction_set_arch_code(input: Seq<u8>) -> u16 {
        integer_at(input, 18, 2, Self::endianess_of(input)) as u16
    }

    /// The header that `input` holds, each field read at its offset. It is
    /// meant for an `input` that is long enough and holds accepted codes.
    pub open spec fn fields_of(input: Seq<u8>) -> FileHeader {
        let width = Self::width_of(input);
        let endianess = Self::endianess_of(input);
        let n = width.native_size() as int;
        FileHeader {
            width,
            endianess,
            elf_version: ElfVersion::from_code(input[6]).unwrap(),
            os_abi: OsAbi::from_code(input[7]).unwrap(),
            object_file_type: ObjectFileType::from_code(
                Self::object_file_type_code(input),
            ).unwrap(),
            instruction_set_arch: InstructionSetArch::from_code(
                Self::instruction_set_arch_code(input),
            ).unwrap(),
            entry_point: native_at(input, 24, endianess, width),
            program_header: native_at(input, 24 + n, endianess, width),
            section_header: native_at(input, 24 + 2 * n, endianess, width),
            flags: integer_at(input, 24 + 3 * n, 4, endianess) as u32,
            file_header_size: integer_at(input, 28 + 3 * n, 2, endianess) as u16,
            program_header_entry_size: integer_at(input, 30 + 3 * n, 2, endianess) as u16,
            program_header_entry_count: integer_at(input, 32 + 3 * n, 2, endianess) as u16,
            section_header_entry_size: integer_at(input, 34 + 3 * n, 2, endianess) as u16,
            section_header_entry_count: integer_at(input, 36 + 3 * n, 2, endianess) as u16,
            section_names_entry_index: integer_at(input, 38 + 3 * n, 2, endianess) as u16,
        }
    }
}

impl FileHeader {
    /// The outcome of decoding a header from the front of `input`. The
    /// fields are read in the order of their offsets, and the first one that
    /// is cut short or holds a code that is not accepted decides the
    /// failure. A file that does not start with the magic number counts as
    /// missing data.
    pub open spec fn decoded(input: Seq<u8>) -> Decoded<FileHeader> {
        if input.len() < 4 {
            cut_short()
        } else if input.subrange(0, 4) != magic_number() {
            Decoded { result: Err(Failure::MissingData), rest: input.skip(4) }
        } else if input.len() < 5 {
            cut_short()
        } else if ArchitectureWidth::from_code(input[4]) is None {
            rejected(input, 4, 5)
        } else if input.len() < 6 {
            cut_short()
        } else if Endianess::from_code(input[5]) is None {
            rejected(input, 5, 6)
        } else if input.len() < 7 {
            cut_short()
        } else if ElfVersion::from_code(input[6]) is None {
            rejected(input, 6, 7)
        } else if input.len() < 8 {
            cut_short()
        } else if OsAbi::from_code(input[7]) is None {
            rejected(input, 7, 8)
        } else if input.len() < 18 {
            cut_short()
        } else if ObjectFileType::from_code(FileHeader::object_file_type_code(input)) is None {
            rejected(input, 16, 18)
        } else if input.len() < 20 {
            cut_short()
        } else if InstructionSetArch::from_code(FileHeader::instruction_set_arch_code(input))
            is None {
            rejected(input, 18, 20)
        } else if input.len() < FileHeader::size(FileHeader::width_of(input)) {
            cut_short()
        } else {
            Decoded {
                result: Ok(FileHeader::fields_of(input)),
                rest: input.skip(FileHeader::size(FileHeader::width_of(input)) as int),
            }
        }
    }
}

/// A file that is shorter than the magic number, or that does not start
/// with it, fails with missing data, and no more than its first four bytes
/// are consumed.
pub proof fn lemma_magic_number_is_required(input: Seq<u8>)
    requires
        input.len() < 4 || input.subrange(0, 4) != magic_number(),
    ensures
        FileHeader::decoded(input).result == Err::<FileHeader, Failure>(Failure::MissingData),
        FileHeader::decoded(input).rest == input.skip(
            if input.len() < 4 {
                input.len() as int
            } else {
                4
            },
        ),
{
    assert(input.skip(input.len() as int) =~= Seq::<u8>::empty());
}

/// A header that decodes takes exactly as many bytes as its address width
/// says: 52 with addresses of 32 bits, 64 with addresses of 64 bits.
pub proof fn lemma_header_consumes_its_size(input: Seq<u8>)
    requires
        FileHeader::decoded(input).result is Ok,
    ensures
        FileHeader::decoded(input).result matches Ok(header) && {
            &&& FileHeader::size(header.width) <= input.len()
            &&& FileHeader::decoded(input).rest == input.skip(
                FileHeader::size(header.width) as int,
            )
            &&& header.width == ArchitectureWidth::ThirtyTwo ==> FileHeader::size(header.width)
                == 52
            &&& header.width == ArchitectureWidth::SixtyFour ==> FileHeader::size(header.width)
                == 64
        },
{
}

/// In a header that decodes, the entry point and the offsets of the two
/// tables are as wide as the address width that the header names. And a
/// header never fails on the reading itself.
pub proof fn lemma_header_is_of_one_width(input: Seq<u8>)
    ensures
        FileHeader::decoded(input).result matches Ok(header) ==> header.natives_have_its_width(),
        FileHeader::decoded(input).result matches Err(failure) ==> failure.is_of_the_bytes(),
{
}

/// A header of a file with addresses of 32 bits in big-endian byte order
/// takes exactly 52 bytes.
pub proof fn lemma_big_endian_32_bit_header_takes_52_bytes(input: Seq<u8>)
    requires
        FileHeader::decoded(input).result matches Ok(header) && header.width
            == ArchitectureWidth::ThirtyTwo && header.endianess == Endianess::Big,
    ensures
        input.len() >= 52,
        FileHeader::decoded(input).rest == input.skip(52),
{
    lemma_header_consumes_its_size(input);
}

impl Parse for FileHeader {
    open spec fn parsed(input: Seq<u8>) -> Decoded<FileHeader> {
        FileHeader::decoded(input)
    }

    fn parse(reader: &mut ByteReader) -> (r: Result<Self, ParseError>) {
        let ghost input = reader@;
        let magic = read_bytes::<4>(reader)?;
        proof {
            lemma_window(input, 0, 4);
            assert(input.skip(0) =~= input);
            assert((magic@ == magic_number()) <==> (magic@[0] == 0x7f && magic@[1] == 0x45
                && magic@[2] == 0x4c && magic@[3] == 0x46)) by {
                if magic@[0] == 0x7f && magic@[1] == 0x45 && magic@[2] == 0x4c && magic@[3]
                    == 0x46 {
                    assert(magic@ =~= magic_number());
                }
            }
        }
        if magic[0] != 0x7f || magic[1] != 0x45 || magic[2] != 0x4c || magic[3] != 0x46 {
            return Err(ParseError::MissingData);
        }
        let width = ArchitectureWidth::parse(reader);
        proof {
            lemma_window(input, 4, 1);
        }
        let width = width?;
        let endianess = Endianess::parse(reader);
        proof {
            lemma_window(input, 5, 1);
        }
        let endianess = endianess?;
        let elf_version = ElfVersion::parse(reader);
        proof {
            lemma_window(input, 6, 1);
        }
        let elf_version = elf_version?;
        let os_abi = OsAbi::parse(reader);
        proof {
            lemma_window(input, 7, 1);
        }
        let os_abi = os_abi?;
        let reserved = read_bytes::<8>(reader);
        proof {
            lemma_window(input, 8, 8);
        }
        reserved?;
        let object_file_type = ObjectFileType::parse_from_endianess(reader, endianess);
        proof {
            lemma_window(input, 16, 2);
        }
        let object_file_type = object_file_type?;
        let instruction_set_arch = InstructionSetArch::parse_from_endianess(reader, endianess);
        proof {
            lemma_window(input, 18, 2);
        }
        let instruction_set_arch = instruction_set_arch?;
        let version = read_bytes::<4>(reader);
        proof {
            lemma_window(input, 20, 4);
        }
        version?;
        FileHeader::parse_placement(
            reader,
            Ghost(input),
            width,
            endianess,
            elf_version,
            os_abi,
            object_file_type,
            instruction_set_arch,
        )
    }
}

impl FileHeader {
    /// Reads what follows the first 24 bytes of the header: where the entry
    /// point and the two tables are, the flags, and the sizes and counts. It
    /// joins them to the fields that were read before.
    fn parse_placement(
        reader: &mut ByteReader,
        Ghost(input): Ghost<Seq<u8>>,
        width: ArchitectureWidth,
        endianess: Endianess,
        elf_version: ElfVersion,
        os_abi: OsAbi,
        object_file_type: ObjectFileType,
        instruction_set_arch: InstructionSetArch,
    ) -> (r: Result<FileHeader, ParseError>)
        requires
            input.len() >= 24,
            old(reader)@ == input.skip(24),
            ArchitectureWidth::from_code(input[4]) == Some(width),
            Endianess::from_code(input[5]) == Some(endianess),
            ElfVersion::from_code(input[6]) == Some(elf_version),
            OsAbi::from_code(input[7]) == Some(os_abi),
            ObjectFileType::from_code(FileHeader::object_file_type_code(input)) == Some(
                object_file_type,
            ),
            InstructionSetArch::from_code(FileHeader::instruction_set_arch_code(input)) == Some(
                instruction_set_arch,
            ),
        ensures
            input.len() < FileHeader::size(width) ==> decodes(r, final(reader)@, cut_short()),
            input.len() >= FileHeader::size(width) ==> decodes(
                r,
                final(reader)@,
                (Decoded {
                    result: Ok(FileHeader::fields_of(input)),
                    rest: input.skip(FileHeader::size(width) as int),
                }),
            ),
    {
        let ghost n = width.native_size() as int;
        let entry_point = NativeInteger::parse_from_context(reader, endianess, width);
        proof {
            lemma_window(input, 24, n);
        }
        let entry_point = entry_point?;
        let program_header = NativeInteger::parse_from_context(reader, endianess, width);
        proof {
            lemma_window(input, 24 + n, n);
        }
        let program_header = program_header?;
        let section_header = NativeInteger::parse_from_context(reader, endianess, width);
        proof {
            lemma_window(input, 24 + 2 * n, n);
        }
        let section_header = section_header?;
        let flags = u32::parse_from_endianess(reader, endianess);
        proof {
            lemma_window(input, 24 + 3 * n, 4);
        }
        let flags = flags?;
        let file_header_size = u16::parse_from_endianess(reader, endianess);
        proof {
            lemma_window(input, 28 + 3 * n, 2);
        }
        let file_header_size = file_header_size?;
        let program_header_entry_size = u16::parse_from_endianess(reader, endianess);
        proof {
            lemma_window(input, 30 + 3 * n, 2);
        }
        let program_header_entry_size = program_header_entry_size?;
        let program_header_entry_count = u16::parse_from_endianess(reader, endianess);
        proof {
            lemma_window(input, 32 + 3 * n, 2);
        }
        let program_header_entry_count = program_header_entry_count?;
        let section_header_entry_size = u16::parse_from_endianess(reader, endianess);
        proof {
            lemma_window(input, 34 + 3 * n, 2);
        }
        let section_header_entry_size = section_header_entry_size?;
        let section_header_entry_count = u16::parse_from_endianess(reader, endianess);
        proof {
            lemma_window(input, 36 + 3 * n, 2);
        }
        let section_header_entry_count = section_header_entry_count?;
        let section_names_entry_index = u16::parse_from_endianess(reader, endianess);
        proof {
            lemma_window(input, 38 + 3 * n, 2);
        }
        let section_names_entry_index = section_names_entry_index?;

        Ok(
            FileHeader {
                width,
                endianess,
                elf_version,
                os_abi,
                object_file_type,
                instruction_set_arch,
                entry_point,
                program_header,
                section_header,
                flags,
                file_header_size,
                program_header_entry_count,
                program_header_entry_size,
                section_header_entry_count,
                section_header_entry_size,
                section_names_entry_index,
            },
        )
    }
}


/// Version of the format. There is one.
#[derive(Clone, Copy, Debug, PartialEq, Eq, Structural)]
pub enum ElfVersion {
    One,
}

impl View for ElfVersion {
    type V = ElfVersion;

    open spec fn view(&self) -> ElfVersion {
        *self
    }
}

impl ElfVersion {
    /// The version that a format-version code stands for, if any.
    pub open spec fn from_code(code: u8) -> Option<ElfVersion> {
        match code {
            1 => Some(ElfVersion::One),
            _ => None,
        }
    }
}

impl Parse for ElfVersion {
    open spec fn parsed(input: Seq<u8>) -> Decoded<ElfVersion> {
        coded_field(input, 1, |raw: Seq<u8>| ElfVersion::from_code(raw[0]))
    }

    fn parse(reader: &mut ByteReader) -> (r: Result<Self, ParseError>) {
        let ghost input = reader@;
        let val = u8::parse(reader)?;
        Ok(
            match val {
                1 => Self::One,
                other => {
                    let raw = other.to_bytes();
                    assert(raw@ =~= input.take(1));
                    return Err(ParseError::InvalidValue { value: Box::new(raw) });
                },
            },
        )
    }
}

/// Operating system and ABI that the file is made for.
#[derive(Clone, Copy, Debug, PartialEq, Eq, Structural)]
pub enum OsAbi {
    SystemV,
    HpUx,
    NetBsd,
    Linux,
    GnuHurd,
    Solaris,
    Aix,
    Irix,
    FreeBsd,
    Tru64,
    NovellModesto,
    OpenBsd,
    OpenVms,
    NonStopKernel,
    Aros,
    FenixOs,
    CloudAbi,
    StratusTechnologiesOpenVos,
}

impl View for OsAbi {
    type V = OsAbi;

    open spec fn view(&self) -> OsAbi {
        *self
    }
}

impl OsAbi {
    /// The OS/ABI that a code stands for, if any.
    pub open spec fn from_code(code: u8) -> Option<OsAbi> {
        match code {
            0x00 => Some(OsAbi::SystemV),
            0x01 => Some(OsAbi::HpUx),
            0x02 => Some(OsAbi::NetBsd),
            0x03 => Some(OsAbi::Linux),
            0x04 => Some(OsAbi::GnuHurd),
            0x06 => Some(OsAbi::Solaris),
            0x07 => Some(OsAbi::Aix),
            0x08 => Some(OsAbi::Irix),
            0x09 => Some(OsAbi::FreeBsd),
            0x0A => Some(OsAbi::Tru64),
            0x0B => Some(OsAbi::NovellModesto),
            0x0C => Some(OsAbi::OpenBsd),
            0x0D => Some(OsAbi::OpenVms),
            0x0E => Some(OsAbi::NonStopKernel),
            0x0F => Some(OsAbi::Aros),
            0x10 => Some(OsAbi::FenixOs),
            0x11 => Some(OsAbi::CloudAbi),
            0x12 => Some(OsAbi::StratusTechnologiesOpenVos),
            _ => None,
        }
    }
}

impl Parse for OsAbi {
    open spec fn parsed(input: Seq<u8>) -> Decoded<OsAbi> {
        coded_field(input, 1, |raw: Seq<u8>| OsAbi::from_code(raw[0]))
    }

    fn parse(reader: &mut ByteReader) -> (r: Result<Self, ParseError>) {
        let ghost input = reader@;
        let val = u8::parse(reader)?;
        Ok(
            match val {
                0x00 => Self::SystemV,
                0x01 => Self::HpUx,
                0x02 => Self::NetBsd,
                0x03 => Self::Linux,
                0x04 => Self::GnuHurd,
                0x06 => Self::Solaris,
                0x07 => Self::Aix,
                0x08 => Self::Irix,
                0x09 => Self::FreeBsd,
                0x0A => Self::Tru64,
                0x0B => Self::NovellModesto,
                0x0C => Self::OpenBsd,
                0x0D => Self::OpenVms,
                0x0E => Self::NonStopKernel,
                0x0F => Self::Aros,
                0x10 => Self::FenixOs,
                0x11 => Self::CloudAbi,
                0x12 => Self::StratusTechnologiesOpenVos,
                other => {
                    let raw: [u8; 1] = [other];
                    assert(raw@ =~= input.take(1));
                    return Err(ParseError::InvalidValue { value: Box::new(raw) });
                },
            },
        )
    }
}

/// What kind of object the file is.
#[derive(Clone, Copy, Debug, PartialEq, Eq, Structural)]
pub enum ObjectFileType {
    NoType,
    Rel,
    Exec,
    Dyn,
    Core,
    Loos,
    Hios,
    Loproc,
    Hiproc,
}

impl View for ObjectFileType {
    type V = ObjectFileType;

    open spec fn view(&self) -> ObjectFileType {
        *self
    }
}

impl ObjectFileType {
    /// The object type that a code stands for, if any.
    pub open spec fn from_code(code: u16) -> Option<ObjectFileType> {
        match code {
            0x00 => Some(ObjectFileType::NoType),
            0x01 => Some(ObjectFileType::Rel),
            0x02 => Some(ObjectFileType::Exec),
            0x03 => Some(ObjectFileType::Dyn),
            0x04 => Some(ObjectFileType::Core),
            0xfe00 => Some(ObjectFileType::Loos),
            0xfeff => Some(ObjectFileType::Hios),
            0xff00 => Some(ObjectFileType::Loproc),
            0xffff => Some(ObjectFileType::Hiproc),
            _ => None,
        }
    }
}

impl ParseFromEndianess for ObjectFileType {
    open spec fn parsed_from_endianess(input: Seq<u8>, endianess: Endianess) -> Decoded<
        ObjectFileType,
    > {
        coded_field(
            input,
            2,
            |raw: Seq<u8>| ObjectFileType::from_code(value_of(raw, endianess) as u16),
        )
    }

    fn parse_from_endianess(reader: &mut ByteReader, endianess: Endianess) -> (r: Result<
        Self,
        ParseError,
    >) {
        let ghost input = reader@;
        let val = u16::parse_from_endianess(reader, endianess)?;
        Ok(
            match val {
                0x00 => Self::NoType,
                0x01 => Self::Rel,
                0x02 => Self::Exec,
                0x03 => Self::Dyn,
                0x04 => Self::Core,
                0xfe00 => Self::Loos,
                0xfeff => Self::Hios,
                0xff00 => Self::Loproc,
                0xffff => Self::Hiproc,
                other => {
                    let raw = other.to_bytes(endianess);
                    proof {
                        lemma_pow256();
                        lemma_digits_of_value(input.take(2), endianess);
                        lemma_encoding_of_value(input.take(2), endianess);
                    }
                    return Err(ParseError::InvalidValue { value: Box::new(raw) });
                },
            },
        )
    }
}

/// The instruction set that the file's code is for.
#[derive(Clone, Copy, Debug, PartialEq, Eq, Structural)]
pub enum InstructionSetArch {
    NoSpecific,
    AttWe32100,
    Sparc,
    X86,
    Motorolla68000,
    Motorolla88000,
    IntelMcu,
    Intel80860,
    Mips,
    IbmSystem370,
    MipsRs3000LittleEndian,
    Reserved,
    HewlettPackardPaRisc,
    Intel80960,
    PowerPc,
    PowerPc64,
    S390,
    Arm,
    SuperH,
    IA64,
    Amd64,
    Tms320C6000,
    Arm64,
    RiscV,
}

impl View for InstructionSetArch {
    type V = InstructionSetArch;

    open spec fn view(&self) -> InstructionSetArch {
        *self
    }
}

impl InstructionSetArch {
    /// The instruction set that a code stands for, if any.
    pub open spec fn from_code(code: u16) -> Option<InstructionSetArch> {
        match code {
            0x00 => Some(InstructionSetArch::NoSpecific),
            0x01 => Some(InstructionSetArch::AttWe32100),
            0x02 => Some(InstructionSetArch::Sparc),
            0x03 => Some(InstructionSetArch::X86),
            0x04 => Some(InstructionSetArch::Motorolla68000),
            0x05 => Some(InstructionSetArch::Motorolla88000),
            0x06 => Some(InstructionSetArch::IntelMcu),
            0x07 => Some(InstructionSetArch::Intel80860),
            0x08 => Some(InstructionSetArch::Mips),
            0x09 => Some(InstructionSetArch::IbmSystem370),
            0x0A => Some(InstructionSetArch::MipsRs3000LittleEndian),
            0x0B | 0x0C | 0x0D => Some(InstructionSetArch::Reserved),
            0x0E => Some(InstructionSetArch::HewlettPackardPaRisc),
            0x0F => Some(InstructionSetArch::Reserved),
            0x13 => Some(InstructionSetArch::Intel80960),
            0x14 => Some(InstructionSetArch::PowerPc),
            0x15 => Some(InstructionSetArch::PowerPc64),
            0x16 => Some(InstructionSetArch::S390),
            0x28 => Some(InstructionSetArch::Arm),
            0x2A => Some(InstructionSetArch::SuperH),
            0x32 => Some(InstructionSetArch::IA64),
            0x3E => Some(InstructionSetArch::Amd64),
            0x8C => Some(InstructionSetArch::Tms320C6000),
            0xB7 => Some(InstructionSetArch::Arm64),
            0xF3 => Some(InstructionSetArch::RiscV),
            _ => None,
        }
    }
}

impl ParseFromEndianess for InstructionSetArch {
    open spec fn parsed_from_endianess(input: Seq<u8>, endianess: Endianess) -> Decoded<
        InstructionSetArch,
    > {
        coded_field(
            input,
            2,
            |raw: Seq<u8>| InstructionSetArch::from_code(value_of(raw, endianess) as u16),
        )
    }

    fn parse_from_endianess(reader: &mut ByteReader, endianess: Endianess) -> (r: Result<
        Self,
        ParseError,
    >) {
        let ghost input = reader@;
        let val = u16::parse_from_endianess(reader, endianess)?;
        Ok(
            match val {
                0x00 => Self::NoSpecific,
                0x01 => Self::AttWe32100,
                0x02 => Self::Sparc,
                0x03 => Self::X86,
                0x04 => Self::Motorolla68000,
                0x05 => Self::Motorolla88000,
                0x06 => Self::IntelMcu,
                0x07 => Self::Intel80860,
                0x08 => Self::Mips,
                0x09 => Self::IbmSystem370,
                0x0A => Self::MipsRs3000LittleEndian,
                0x0B..=0x0D => Self::Reserved,
                0x0E => Self::HewlettPackardPaRisc,
                0x0F => Self::Reserved,
                0x13 => Self::Intel80960,
                0x14 => Self::PowerPc,
                0x15 => Self::PowerPc64,
                0x16 => Self::S390,
                0x28 => Self::Arm,
                0x2A => Self::SuperH,
                0x32 => Self::IA64,
                0x3E => Self::Amd64,
                0x8C => Self::Tms320C6000,
                0xB7 => Self::Arm64,
                0xF3 => Self::RiscV,
                other => {
                    let raw = other.to_bytes(endianess);
                    proof {
                        lemma_pow256();
                        lemma_digits_of_value(input.take(2), endianess);
                        lemma_encoding_of_value(input.take(2), endianess);
                    }
                    return Err(ParseError::InvalidValue { value: Box::new(raw) });
                },
            },
        )
    }
}

} // verus!
