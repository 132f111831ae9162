use dolls::elf::parsing::ParseFromContext;
use dolls::elf::parsing::ParseFromEndianess;
use dolls::elf::parsing::ParseFromWorkingContext;
use dolls::elf::ArchitectureWidth;
use dolls::errors::ParseError;
use dolls::parsing::read_bytes;
use dolls::parsing::ByteReader;
use dolls::parsing::Parse;
use dolls::parsing::To2Bytes;
use dolls::parsing::To4Bytes;
use dolls::parsing::To8Bytes;
use dolls::parsing::ToByte;
use dolls::shared::Endianess;
use dolls::shared::NativeInteger;

fn is_missing_data<T>(result: &Result<T, ParseError>) -> bool {
    matches!(result, Err(ParseError::MissingData))
}

fn rejected_bytes<T>(result: Result<T, ParseError>) -> Vec<u8> {
    match result {
        Err(ParseError::InvalidValue { value }) => value.to_vec(),
        Err(other) => panic!("expected an invalid value, got {:?}", other),
        Ok(_) => panic!("expected an invalid value, got a value"),
    }
}

#[test]
fn new_reader_has_every_byte_left() {
    let data = [1u8, 2, 3];
    let reader = ByteReader::new(&data);
    assert_eq!(reader.remaining(), 3);
    let empty: [u8; 0] = [];
    assert_eq!(ByteReader::new(&empty).remaining(), 0);
}

#[test]
fn read_bytes_takes_the_front() {
    let data = [10u8, 20, 30, 40, 50];
    let mut reader = ByteReader::new(&data);
    let first = read_bytes::<2>(&mut reader).unwrap();
    assert_eq!(first, [10, 20]);
    assert_eq!(reader.remaining(), 3);
    let second = read_bytes::<3>(&mut reader).unwrap();
    assert_eq!(second, [30, 40, 50]);
    assert_eq!(reader.remaining(), 0);
}

#[test]
fn read_bytes_of_nothing_takes_nothing() {
    let data = [7u8];
    let mut reader = ByteReader::new(&data);
    let none = read_bytes::<0>(&mut reader).unwrap();
    assert_eq!(none.len(), 0);
    assert_eq!(reader.remaining(), 1);
}

#[test]
fn read_bytes_cut_short_consumes_what_is_left() {
    let data = [10u8, 20, 30];
    let mut reader = ByteReader::new(&data);
    let result = read_bytes::<4>(&mut reader);
    assert!(is_missing_data(&result));
    assert_eq!(reader.remaining(), 0);
    let again = read_bytes::<1>(&mut reader);
    assert!(is_missing_data(&again));
}

#[test]
fn single_byte_is_read_as_it_stands() {
    let data = [0xABu8, 0xCD];
    let mut reader = ByteReader::new(&data);
    assert_eq!(u8::parse(&mut reader).unwrap(), 0xAB);
    assert_eq!(u8::parse(&mut reader).unwrap(), 0xCD);
    assert!(is_missing_data(&u8::parse(&mut reader)));
}

#[test]
fn u16_in_both_byte_orders() {
    let data = [0x12u8, 0x34, 0x12, 0x34];
    let mut reader = ByteReader::new(&data);
    assert_eq!(u16::parse_from_endianess(&mut reader, Endianess::Little).unwrap(), 0x3412);
    assert_eq!(u16::parse_from_endianess(&mut reader, Endianess::Big).unwrap(), 0x1234);
    assert_eq!(reader.remaining(), 0);
}

#[test]
fn u32_in_both_byte_orders() {
    let data = [0x12u8, 0x34, 0x56, 0x78, 0x12, 0x34, 0x56, 0x78];
    let mut reader = ByteReader::new(&data);
    assert_eq!(u32::parse_from_endianess(&mut reader, Endianess::Little).unwrap(), 0x78563412);
    assert_eq!(u32::parse_from_endianess(&mut reader, Endianess::Big).unwrap(), 0x12345678);
    assert_eq!(reader.remaining(), 0);
}

#[test]
fn u64_in_both_byte_orders() {
    let data = [
        0x01u8, 0x23, 0x45, 0x67, 0x89, 0xAB, 0xCD, 0xEF, 0x01, 0x23, 0x45, 0x67, 0x89, 0xAB,
        0xCD, 0xEF,
    ];
    let mut reader = ByteReader::new(&data);
    assert_eq!(
        u64::parse_from_endianess(&mut reader, Endianess::Little).unwrap(),
        0xEFCDAB8967452301
    );
    assert_eq!(
        u64::parse_from_endianess(&mut reader, Endianess::Big).unwrap(),
        0x0123456789ABCDEF
    );
    assert_eq!(reader.remaining(), 0);
}

#[test]
fn integers_at_their_limits() {
    let ones = [0xFFu8; 8];
    assert_eq!(
        u16::parse_from_endianess(&mut ByteReader::new(&ones), Endianess::Big).unwrap(),
        u16::MAX
    );
    assert_eq!(
        u32::parse_from_endianess(&mut ByteReader::new(&ones), Endianess::Little).unwrap(),
        u32::MAX
    );
    assert_eq!(
        u64::parse_from_endianess(&mut ByteReader::new(&ones), Endianess::Big).unwrap(),
        u64::MAX
    );
    let zeros = [0u8; 8];
    assert_eq!(
        u64::parse_from_endianess(&mut ByteReader::new(&zeros), Endianess::Little).unwrap(),
        0
    );
}

#[test]
fn integers_cut_short_are_missing_data() {
    let data = [1u8, 2, 3, 4, 5, 6, 7];
    let mut reader = ByteReader::new(&data[..1]);
    assert!(is_missing_data(&u16::parse_from_endianess(&mut reader, Endianess::Little)));
    assert_eq!(reader.remaining(), 0);
    let mut reader = ByteReader::new(&data[..3]);
    assert!(is_missing_data(&u32::parse_from_endianess(&mut reader, Endianess::Big)));
    assert_eq!(reader.remaining(), 0);
    let mut reader = ByteReader::new(&data);
    assert!(is_missing_data(&u64::parse_from_endianess(&mut reader, Endianess::Little)));
    assert_eq!(reader.remaining(), 0);
}

#[test]
fn to_bytes_in_both_byte_orders() {
    assert_eq!(ToByte::to_bytes(&0x7Fu8), [0x7F]);
    assert_eq!(To2Bytes::to_bytes(&0x1234u16, Endianess::Little), [0x34, 0x12]);
    assert_eq!(To2Bytes::to_bytes(&0x1234u16, Endianess::Big), [0x12, 0x34]);
    assert_eq!(To4Bytes::to_bytes(&0x12345678u32, Endianess::Little), [0x78, 0x56, 0x34, 0x12]);
    assert_eq!(To4Bytes::to_bytes(&0x12345678u32, Endianess::Big), [0x12, 0x34, 0x56, 0x78]);
    assert_eq!(
        To8Bytes::to_bytes(&0x0123456789ABCDEFu64, Endianess::Little),
        [0xEF, 0xCD, 0xAB, 0x89, 0x67, 0x45, 0x23, 0x01]
    );
    assert_eq!(
        To8Bytes::to_bytes(&0x0123456789ABCDEFu64, Endianess::Big),
        [0x01, 0x23, 0x45, 0x67, 0x89, 0xAB, 0xCD, 0xEF]
    );
}

#[test]
fn to_bytes_agrees_with_the_standard_library() {
    let samples16 = [0u16, 1, 0xFF, 0x100, 0xFEFF, u16::MAX];
    for x in samples16 {
        assert_eq!(To2Bytes::to_bytes(&x, Endianess::Little), x.to_le_bytes());
        assert_eq!(To2Bytes::to_bytes(&x, Endianess::Big), x.to_be_bytes());
    }
    let samples32 = [0u32, 1, 0xD, 0x60000000, 0x7FFFFFFF, 0xDEADBEEF, u32::MAX];
    for x in samples32 {
        assert_eq!(To4Bytes::to_bytes(&x, Endianess::Little), x.to_le_bytes());
        assert_eq!(To4Bytes::to_bytes(&x, Endianess::Big), x.to_be_bytes());
    }
    let samples64 = [0u64, 1, 0x100000000, 0xDEADBEEFCAFEF00D, u64::MAX];
    for x in samples64 {
        assert_eq!(To8Bytes::to_bytes(&x, Endianess::Little), x.to_le_bytes());
        assert_eq!(To8Bytes::to_bytes(&x, Endianess::Big), x.to_be_bytes());
    }
}

#[test]
fn reading_back_what_was_written() {
    let samples = [0u32, 5, 0xD, 0x01020304, 0xFFFFFFFE];
    for x in samples {
        for order in [Endianess::Little, Endianess::Big] {
            let bytes = To4Bytes::to_bytes(&x, order);
            let mut reader = ByteReader::new(&bytes);
            assert_eq!(u32::parse_from_endianess(&mut reader, order).unwrap(), x);
        }
    }
}

#[test]
fn byte_order_codes() {
    assert_eq!(Endianess::parse(&mut ByteReader::new(&[1])).unwrap(), Endianess::Little);
    assert_eq!(Endianess::parse(&mut ByteReader::new(&[2])).unwrap(), Endianess::Big);
    assert_eq!(rejected_bytes(Endianess::parse(&mut ByteReader::new(&[0]))), vec![0]);
    assert_eq!(rejected_bytes(Endianess::parse(&mut ByteReader::new(&[3, 9]))), vec![3]);
    assert!(is_missing_data(&Endianess::parse(&mut ByteReader::new(&[]))));
}

#[test]
fn address_width_codes() {
    assert_eq!(
        ArchitectureWidth::parse(&mut ByteReader::new(&[1])).unwrap(),
        ArchitectureWidth::ThirtyTwo
    );
    assert_eq!(
        ArchitectureWidth::parse(&mut ByteReader::new(&[2])).unwrap(),
        ArchitectureWidth::SixtyFour
    );
    assert_eq!(rejected_bytes(ArchitectureWidth::parse(&mut ByteReader::new(&[0]))), vec![0]);
    assert_eq!(rejected_bytes(ArchitectureWidth::parse(&mut ByteReader::new(&[0xFF]))), vec![0xFF]);
    assert!(is_missing_data(&ArchitectureWidth::parse(&mut ByteReader::new(&[]))));
}

#[test]
fn rejected_code_still_consumes_its_byte() {
    let data = [9u8, 1];
    let mut reader = ByteReader::new(&data);
    assert_eq!(rejected_bytes(Endianess::parse(&mut reader)), vec![9]);
    assert_eq!(reader.remaining(), 1);
}

#[test]
fn native_integer_follows_the_address_width() {
    let data = [0x01u8, 0x02, 0x03, 0x04, 0x05, 0x06, 0x07, 0x08];
    let mut reader = ByteReader::new(&data);
    let narrow = NativeInteger::parse_from_context(
        &mut reader,
        Endianess::Little,
        ArchitectureWidth::ThirtyTwo,
    )
    .unwrap();
    assert_eq!(narrow, NativeInteger::ThirtyTwo(0x04030201));
    assert_eq!(reader.remaining(), 4);

    let mut reader = ByteReader::new(&data);
    let wide = NativeInteger::parse_from_context(
        &mut reader,
        Endianess::Big,
        ArchitectureWidth::SixtyFour,
    )
    .unwrap();
    assert_eq!(wide, NativeInteger::SixtyFour(0x0102030405060708));
    assert_eq!(reader.remaining(), 0);
}

#[test]
fn native_integer_cut_short_is_missing_data() {
    let data = [1u8, 2, 3, 4, 5];
    let mut reader = ByteReader::new(&data);
    let result = NativeInteger::parse_from_context(
        &mut reader,
        Endianess::Little,
        ArchitectureWidth::SixtyFour,
    );
    assert!(is_missing_data(&result));
    assert_eq!(reader.remaining(), 0);
}

#[test]
fn native_integer_from_plain_integers() {
    assert_eq!(NativeInteger::from(7u32), NativeInteger::ThirtyTwo(7));
    assert_eq!(NativeInteger::from(7u64), NativeInteger::SixtyFour(7));
    assert_ne!(NativeInteger::from(7u32), NativeInteger::from(7u64));
}

#[test]
fn context_free_decoders_ignore_the_byte_order() {
    for order in [Endianess::Little, Endianess::Big] {
        let data = [0x2Au8, 2];
        let mut reader = ByteReader::new(&data);
        assert_eq!(u8::parse_from_endianess(&mut reader, order).unwrap(), 0x2A);
        assert_eq!(Endianess::parse_from_endianess(&mut reader, order).unwrap(), Endianess::Big);
        assert_eq!(reader.remaining(), 0);
    }
}

#[test]
fn byte_order_decoders_ignore_the_address_width() {
    for width in [ArchitectureWidth::ThirtyTwo, ArchitectureWidth::SixtyFour] {
        let data = [0x12u8, 0x34, 0x56, 0x78, 0x9A];
        let mut reader = ByteReader::new(&data);
        assert_eq!(
            u16::parse_from_context(&mut reader, Endianess::Big, width).unwrap(),
            0x1234
        );
        assert_eq!(
            u16::parse_from_context(&mut reader, Endianess::Little, width).unwrap(),
            0x7856
        );
        assert_eq!(u8::parse_from_context(&mut reader, Endianess::Little, width).unwrap(), 0x9A);
    }
}

#[test]
fn width_decoders_ignore_the_working_context() {
    let data = [0x01u8, 0x02, 0x03, 0x04];
    let mut reader = ByteReader::new(&data);
    let value = NativeInteger::parse_from_working_context(
        &mut reader,
        Endianess::Big,
        ArchitectureWidth::ThirtyTwo,
        &"anything",
    )
    .unwrap();
    assert_eq!(value, NativeInteger::ThirtyTwo(0x01020304));
    let mut reader = ByteReader::new(&data);
    let value = u16::parse_from_working_context(
        &mut reader,
        Endianess::Little,
        ArchitectureWidth::SixtyFour,
        &17u64,
    )
    .unwrap();
    assert_eq!(value, 0x0201);
}

#[test]
fn io_failure_becomes_a_parse_error() {
    let failure = std::io::Error::new(std::io::ErrorKind::NotFound, "gone");
    match ParseError::from(failure) {
        ParseError::IoError(inner) => assert_eq!(inner.kind(), std::io::ErrorKind::NotFound),
        other => panic!("expected an I/O failure, got {:?}", other),
    }
}
