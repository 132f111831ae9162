use dolls::elf::file_header::ElfVersion;
use dolls::elf::file_header::InstructionSetArch;
use dolls::elf::file_header::ObjectFileType;
use dolls::elf::file_header::OsAbi;
use dolls::elf::parsing::ParseFromEndianess;
use dolls::elf::ArchitectureWidth;
use dolls::elf::ElfDescriptor;
use dolls::elf::FileHeader;
use dolls::errors::ParseError;
use dolls::parsing::ByteReader;
use dolls::parsing::Parse;
use dolls::shared::Endianess;
use dolls::shared::NativeInteger;

fn header_is_missing_data<T>(result: &Result<T, ParseError>) -> bool {
    matches!(result, Err(ParseError::MissingData))
}

fn header_rejected_bytes<T>(result: Result<T, ParseError>) -> Vec<u8> {
    match result {
        Err(ParseError::InvalidValue { value }) => value.to_vec(),
        Err(other) => panic!("expected an invalid value, got {:?}", other),
        Ok(_) => panic!("expected an invalid value, got a value"),
    }
}

/// A header of 64 bytes: 64-bit, little-endian, System V, Exec, Amd64.
fn little_endian_64_header(program_entries: u16, section_entries: u16) -> Vec<u8> {
    let mut bytes = vec![0x7F, b'E', b'L', b'F', 2, 1, 1, 0];
    bytes.extend_from_slice(&[0; 8]);
    bytes.extend_from_slice(&[0x02, 0x00]);
    bytes.extend_from_slice(&[0x3E, 0x00]);
    bytes.extend_from_slice(&[1, 0, 0, 0]);
    bytes.extend_from_slice(&0x0000000000401000u64.to_le_bytes());
    bytes.extend_from_slice(&0x0000000000000040u64.to_le_bytes());
    bytes.extend_from_slice(&0x0000000000002000u64.to_le_bytes());
    bytes.extend_from_slice(&0x00000005u32.to_le_bytes());
    bytes.extend_from_slice(&64u16.to_le_bytes());
    bytes.extend_from_slice(&56u16.to_le_bytes());
    bytes.extend_from_slice(&program_entries.to_le_bytes());
    bytes.extend_from_slice(&64u16.to_le_bytes());
    bytes.extend_from_slice(&section_entries.to_le_bytes());
    bytes.extend_from_slice(&3u16.to_le_bytes());
    bytes
}

/// A header of 52 bytes: 32-bit, big-endian, Linux, Dyn, PowerPc.
fn big_endian_32_header(program_entries: u16, section_entries: u16) -> Vec<u8> {
    let mut bytes = vec![0x7F, b'E', b'L', b'F', 1, 2, 1, 3];
    bytes.extend_from_slice(&[0xAA; 8]);
    bytes.extend_from_slice(&[0x00, 0x03]);
    bytes.extend_from_slice(&[0x00, 0x14]);
    bytes.extend_from_slice(&[0xBB; 4]);
    bytes.extend_from_slice(&0x10000074u32.to_be_bytes());
    bytes.extend_from_slice(&0x00000034u32.to_be_bytes());
    bytes.extend_from_slice(&0x00001234u32.to_be_bytes());
    bytes.extend_from_slice(&0x80000001u32.to_be_bytes());
    bytes.extend_from_slice(&52u16.to_be_bytes());
    bytes.extend_from_slice(&32u16.to_be_bytes());
    bytes.extend_from_slice(&program_entries.to_be_bytes());
    bytes.extend_from_slice(&40u16.to_be_bytes());
    bytes.extend_from_slice(&section_entries.to_be_bytes());
    bytes.extend_from_slice(&0xFFFFu16.to_be_bytes());
    bytes
}

#[test]
fn the_two_sample_headers_have_their_sizes() {
    assert_eq!(little_endian_64_header(0, 0).len(), 64);
    assert_eq!(big_endian_32_header(0, 0).len(), 52);
}

#[test]
fn input_shorter_than_the_magic_number_is_missing_data() {
    let full = little_endian_64_header(0, 0);
    for length in 0..4 {
        let mut reader = ByteReader::new(&full[..length]);
        assert!(header_is_missing_data(&FileHeader::parse(&mut reader)));
        assert_eq!(reader.remaining(), 0);
        let mut reader = ByteReader::new(&full[..length]);
        assert!(header_is_missing_data(&ElfDescriptor::parse(&mut reader)));
        assert_eq!(reader.remaining(), 0);
    }
}

#[test]
fn wrong_magic_number_is_missing_data() {
    for position in 0..4 {
        let mut bytes = little_endian_64_header(0, 0);
        bytes[position] ^= 0x01;
        let mut reader = ByteReader::new(&bytes);
        assert!(header_is_missing_data(&FileHeader::parse(&mut reader)));
        assert_eq!(reader.remaining(), 60);
        let mut reader = ByteReader::new(&bytes);
        assert!(header_is_missing_data(&ElfDescriptor::parse(&mut reader)));
        assert_eq!(reader.remaining(), 60);
    }
}

#[test]
fn wrong_magic_number_of_exactly_four_bytes() {
    let bytes = [0x7Fu8, b'E', b'L', b'G'];
    let mut reader = ByteReader::new(&bytes);
    assert!(header_is_missing_data(&FileHeader::parse(&mut reader)));
    assert_eq!(reader.remaining(), 0);
}

#[test]
fn little_endian_64_header_consumes_64_bytes() {
    let mut bytes = little_endian_64_header(0, 0);
    bytes.extend_from_slice(&[0xEE; 10]);
    let mut reader = ByteReader::new(&bytes);
    let header = FileHeader::parse(&mut reader).unwrap();
    assert_eq!(reader.remaining(), 10);
    assert_eq!(header.width, ArchitectureWidth::SixtyFour);
    assert_eq!(header.endianess, Endianess::Little);
    assert_eq!(header.elf_version, ElfVersion::One);
    assert_eq!(header.os_abi, OsAbi::SystemV);
    assert_eq!(header.object_file_type, ObjectFileType::Exec);
    assert_eq!(header.instruction_set_arch, InstructionSetArch::Amd64);
    assert_eq!(header.entry_point, NativeInteger::SixtyFour(0x401000));
    assert_eq!(header.program_header, NativeInteger::SixtyFour(0x40));
    assert_eq!(header.section_header, NativeInteger::SixtyFour(0x2000));
    assert_eq!(header.flags, 5);
    assert_eq!(header.file_header_size, 64);
    assert_eq!(header.program_header_entry_size, 56);
    assert_eq!(header.program_header_entry_count, 0);
    assert_eq!(header.section_header_entry_size, 64);
    assert_eq!(header.section_header_entry_count, 0);
    assert_eq!(header.section_names_entry_index, 3);
}

#[test]
fn big_endian_32_header_consumes_52_bytes() {
    let mut bytes = big_endian_32_header(7, 9);
    bytes.extend_from_slice(&[0xEE; 5]);
    let mut reader = ByteReader::new(&bytes);
    let header = FileHeader::parse(&mut reader).unwrap();
    assert_eq!(reader.remaining(), 5);
    assert_eq!(header.width, ArchitectureWidth::ThirtyTwo);
    assert_eq!(header.endianess, Endianess::Big);
    assert_eq!(header.elf_version, ElfVersion::One);
    assert_eq!(header.os_abi, OsAbi::Linux);
    assert_eq!(header.object_file_type, ObjectFileType::Dyn);
    assert_eq!(header.instruction_set_arch, InstructionSetArch::PowerPc);
    assert_eq!(header.entry_point, NativeInteger::ThirtyTwo(0x10000074));
    assert_eq!(header.program_header, NativeInteger::ThirtyTwo(0x34));
    assert_eq!(header.section_header, NativeInteger::ThirtyTwo(0x1234));
    assert_eq!(header.flags, 0x80000001);
    assert_eq!(header.file_header_size, 52);
    assert_eq!(header.program_header_entry_size, 32);
    assert_eq!(header.program_header_entry_count, 7);
    assert_eq!(header.section_header_entry_size, 40);
    assert_eq!(header.section_header_entry_count, 9);
    assert_eq!(header.section_names_entry_index, 0xFFFF);
}

#[test]
fn header_of_exactly_its_size_leaves_nothing() {
    let bytes = big_endian_32_header(0, 0);
    let mut reader = ByteReader::new(&bytes);
    assert!(FileHeader::parse(&mut reader).is_ok());
    assert_eq!(reader.remaining(), 0);
}

#[test]
fn minimal_descriptor_has_two_empty_tables() {
    let bytes = little_endian_64_header(0, 0);
    let mut reader = ByteReader::new(&bytes);
    let descriptor = ElfDescriptor::parse(&mut reader).unwrap();
    assert_eq!(reader.remaining(), 0);
    assert_eq!(descriptor.file_header.width, ArchitectureWidth::SixtyFour);
    assert_eq!(descriptor.file_header.endianess, Endianess::Little);
    assert_eq!(descriptor.file_header.object_file_type, ObjectFileType::Exec);
    assert_eq!(descriptor.file_header.instruction_set_arch, InstructionSetArch::Amd64);
    assert!(descriptor.program_header.entries().is_empty());
    assert!(descriptor.section_header.entries().is_empty());
}

#[test]
fn descriptor_without_entries_leaves_trailing_bytes() {
    let mut bytes = little_endian_64_header(0, 0);
    bytes.extend_from_slice(&[1, 2, 3]);
    let mut reader = ByteReader::new(&bytes);
    let descriptor = ElfDescriptor::parse(&mut reader).unwrap();
    assert_eq!(reader.remaining(), 3);
    assert_eq!(descriptor.program_header.entries().len(), 0);
    assert_eq!(descriptor.section_header.entries().len(), 0);
}

#[test]
fn truncated_header_is_missing_data_and_consumes_all() {
    let full = little_endian_64_header(0, 0);
    for length in 4..64 {
        let mut reader = ByteReader::new(&full[..length]);
        assert!(header_is_missing_data(&FileHeader::parse(&mut reader)), "length {}", length);
        assert_eq!(reader.remaining(), 0, "length {}", length);
    }
    let full = big_endian_32_header(0, 0);
    for length in 4..52 {
        let mut reader = ByteReader::new(&full[..length]);
        assert!(header_is_missing_data(&FileHeader::parse(&mut reader)), "length {}", length);
        assert_eq!(reader.remaining(), 0, "length {}", length);
    }
}

#[test]
fn unknown_address_width_is_rejected() {
    let mut bytes = little_endian_64_header(0, 0);
    bytes[4] = 3;
    let mut reader = ByteReader::new(&bytes);
    assert_eq!(header_rejected_bytes(FileHeader::parse(&mut reader)), vec![3]);
    assert_eq!(reader.remaining(), 59);
}

#[test]
fn unknown_byte_order_is_rejected() {
    let mut bytes = little_endian_64_header(0, 0);
    bytes[5] = 0;
    let mut reader = ByteReader::new(&bytes);
    assert_eq!(header_rejected_bytes(FileHeader::parse(&mut reader)), vec![0]);
    assert_eq!(reader.remaining(), 58);
}

#[test]
fn unknown_format_version_is_rejected() {
    let mut bytes = little_endian_64_header(0, 0);
    bytes[6] = 2;
    let mut reader = ByteReader::new(&bytes);
    assert_eq!(header_rejected_bytes(FileHeader::parse(&mut reader)), vec![2]);
    assert_eq!(reader.remaining(), 57);
    assert_eq!(header_rejected_bytes(ElfVersion::parse(&mut ByteReader::new(&[0]))), vec![0]);
    assert_eq!(ElfVersion::parse(&mut ByteReader::new(&[1])).unwrap(), ElfVersion::One);
}

#[test]
fn unknown_os_abi_is_rejected() {
    let mut bytes = little_endian_64_header(0, 0);
    bytes[7] = 0x05;
    let mut reader = ByteReader::new(&bytes);
    assert_eq!(header_rejected_bytes(FileHeader::parse(&mut reader)), vec![0x05]);
    assert_eq!(reader.remaining(), 56);
}

#[test]
fn unknown_object_type_is_rejected_with_its_raw_bytes() {
    let mut bytes = little_endian_64_header(0, 0);
    bytes[16] = 0x05;
    bytes[17] = 0x01;
    let mut reader = ByteReader::new(&bytes);
    assert_eq!(header_rejected_bytes(FileHeader::parse(&mut reader)), vec![0x05, 0x01]);
    assert_eq!(reader.remaining(), 46);

    let mut bytes = big_endian_32_header(0, 0);
    bytes[16] = 0x05;
    bytes[17] = 0x01;
    let mut reader = ByteReader::new(&bytes);
    assert_eq!(header_rejected_bytes(FileHeader::parse(&mut reader)), vec![0x05, 0x01]);
    assert_eq!(reader.remaining(), 34);
}

#[test]
fn unknown_machine_is_rejected_with_its_raw_bytes() {
    let mut bytes = little_endian_64_header(0, 0);
    bytes[18] = 0x10;
    bytes[19] = 0x00;
    let mut reader = ByteReader::new(&bytes);
    assert_eq!(header_rejected_bytes(FileHeader::parse(&mut reader)), vec![0x10, 0x00]);
    assert_eq!(reader.remaining(), 44);
}

#[test]
fn first_failure_in_field_order_decides() {
    let mut bytes = little_endian_64_header(0, 0);
    bytes[5] = 7;
    bytes[7] = 0xEE;
    bytes[16] = 0x99;
    let mut reader = ByteReader::new(&bytes);
    assert_eq!(header_rejected_bytes(FileHeader::parse(&mut reader)), vec![7]);

    let mut short = little_endian_64_header(0, 0);
    short[7] = 0xEE;
    let mut reader = ByteReader::new(&short[..7]);
    assert!(header_is_missing_data(&FileHeader::parse(&mut reader)));
    let mut reader = ByteReader::new(&short[..8]);
    assert_eq!(header_rejected_bytes(FileHeader::parse(&mut reader)), vec![0xEE]);
}

#[test]
fn reserved_bytes_are_not_validated() {
    let mut bytes = little_endian_64_header(0, 0);
    for position in 8..16 {
        bytes[position] = 0xFF;
    }
    for position in 20..24 {
        bytes[position] = 0xFF;
    }
    let mut reader = ByteReader::new(&bytes);
    let header = FileHeader::parse(&mut reader).unwrap();
    assert_eq!(header.object_file_type, ObjectFileType::Exec);
    assert_eq!(reader.remaining(), 0);
}

#[test]
fn every_os_abi_code() {
    let table = [
        (0x00u8, OsAbi::SystemV),
        (0x01, OsAbi::HpUx),
        (0x02, OsAbi::NetBsd),
        (0x03, OsAbi::Linux),
        (0x04, OsAbi::GnuHurd),
        (0x06, OsAbi::Solaris),
        (0x07, OsAbi::Aix),
        (0x08, OsAbi::Irix),
        (0x09, OsAbi::FreeBsd),
        (0x0A, OsAbi::Tru64),
        (0x0B, OsAbi::NovellModesto),
        (0x0C, OsAbi::OpenBsd),
        (0x0D, OsAbi::OpenVms),
        (0x0E, OsAbi::NonStopKernel),
        (0x0F, OsAbi::Aros),
        (0x10, OsAbi::FenixOs),
        (0x11, OsAbi::CloudAbi),
        (0x12, OsAbi::StratusTechnologiesOpenVos),
    ];
    assert_eq!(table.len(), 18);
    for code in 0..=255u8 {
        let result = OsAbi::parse(&mut ByteReader::new(&[code]));
        match table.iter().find(|(known, _)| *known == code) {
            Some((_, variant)) => assert_eq!(result.unwrap(), *variant),
            None => assert_eq!(header_rejected_bytes(result), vec![code]),
        }
    }
}

#[test]
fn every_object_type_code() {
    let table = [
        (0x0000u16, ObjectFileType::NoType),
        (0x0001, ObjectFileType::Rel),
        (0x0002, ObjectFileType::Exec),
        (0x0003, ObjectFileType::Dyn),
        (0x0004, ObjectFileType::Core),
        (0xFE00, ObjectFileType::Loos),
        (0xFEFF, ObjectFileType::Hios),
        (0xFF00, ObjectFileType::Loproc),
        (0xFFFF, ObjectFileType::Hiproc),
    ];
    assert_eq!(table.len(), 9);
    for code in 0..=u16::MAX {
        let bytes = code.to_be_bytes();
        let result =
            ObjectFileType::parse_from_endianess(&mut ByteReader::new(&bytes), Endianess::Big);
        match table.iter().find(|(known, _)| *known == code) {
            Some((_, variant)) => assert_eq!(result.unwrap(), *variant),
            None => assert_eq!(header_rejected_bytes(result), bytes.to_vec()),
        }
    }
}

#[test]
fn every_machine_code() {
    let table = [
        (0x00u16, InstructionSetArch::NoSpecific),
        (0x01, InstructionSetArch::AttWe32100),
        (0x02, InstructionSetArch::Sparc),
        (0x03, InstructionSetArch::X86),
        (0x04, InstructionSetArch::Motorolla68000),
        (0x05, InstructionSetArch::Motorolla88000),
        (0x06, InstructionSetArch::IntelMcu),
        (0x07, InstructionSetArch::Intel80860),
        (0x08, InstructionSetArch::Mips),
        (0x09, InstructionSetArch::IbmSystem370),
        (0x0A, InstructionSetArch::MipsRs3000LittleEndian),
        (0x0B, InstructionSetArch::Reserved),
        (0x0C, InstructionSetArch::Reserved),
        (0x0D, InstructionSetArch::Reserved),
        (0x0E, InstructionSetArch::HewlettPackardPaRisc),
        (0x0F, InstructionSetArch::Reserved),
        (0x13, InstructionSetArch::Intel80960),
        (0x14, InstructionSetArch::PowerPc),
        (0x15, InstructionSetArch::PowerPc64),
        (0x16, InstructionSetArch::S390),
        (0x28, InstructionSetArch::Arm),
        (0x2A, InstructionSetArch::SuperH),
        (0x32, InstructionSetArch::IA64),
        (0x3E, InstructionSetArch::Amd64),
        (0x8C, InstructionSetArch::Tms320C6000),
        (0xB7, InstructionSetArch::Arm64),
        (0xF3, InstructionSetArch::RiscV),
    ];
    for code in 0..=u16::MAX {
        let bytes = code.to_le_bytes();
        let result = InstructionSetArch::parse_from_endianess(
            &mut ByteReader::new(&bytes),
            Endianess::Little,
        );
        match table.iter().find(|(known, _)| *known == code) {
            Some((_, variant)) => assert_eq!(result.unwrap(), *variant),
            None => assert_eq!(header_rejected_bytes(result), bytes.to_vec()),
        }
    }
}

#[test]
fn enumerated_field_cut_short_is_missing_data() {
    let mut reader = ByteReader::new(&[0x02]);
    let result = ObjectFileType::parse_from_endianess(&mut reader, Endianess::Little);
    assert!(header_is_missing_data(&result));
    assert_eq!(reader.remaining(), 0);
    assert!(header_is_missing_data(&OsAbi::parse(&mut ByteReader::new(&[]))));
    assert!(header_is_missing_data(&ElfVersion::parse(&mut ByteReader::new(&[]))));
}
