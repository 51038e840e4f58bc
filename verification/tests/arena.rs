use probe::{
    native_order, order_of_sample, read_word, ArenaContext, ArenaError, ArenaHeader, ByteOrder,
    DataArena, OpsArena, ProbeError,
};
use std::mem::size_of;

const HEADER: usize = 4 * size_of::<usize>();

fn arena(instantiation: usize, base: usize, used: usize, body: &[u8]) -> Vec<u8> {
    let mut bytes = Vec::new();
    for word in [instantiation, base, HEADER + body.len(), used] {
        bytes.extend_from_slice(&word.to_ne_bytes());
    }
    bytes.extend_from_slice(body);
    bytes
}

fn arena_error(e: ProbeError) -> ArenaError {
    match e {
        ProbeError::ArenaError(e) => e,
        ProbeError::Context { inner, .. } => arena_error(*inner),
        other => panic!("{other:?}"),
    }
}

fn decode_bytes(record: &[u8], _: &ArenaContext) -> Result<Vec<u8>, ProbeError> {
    Ok(record.to_vec())
}

fn decode_below_7(record: &[u8], _: &ArenaContext) -> Result<u8, ProbeError> {
    if record[0] < 7 {
        Ok(record[0])
    } else {
        Err(ProbeError::MissingValue("too large"))
    }
}

fn decode_pointer(record: &[u8], ctx: &ArenaContext) -> Result<Vec<u8>, ProbeError> {
    match ctx.try_get_slice(record[0] as usize) {
        Some(slice) => Ok(slice.to_vec()),
        None => Err(ProbeError::MissingValue("dangling pointer")),
    }
}

#[test]
fn native_byte_order() {
    let expected = if 1u16.to_ne_bytes()[0] == 1 {
        ByteOrder::LittleEndian
    } else {
        ByteOrder::BigEndian
    };
    assert_eq!(native_order(), expected);
}

#[test]
fn byte_order_of_a_reading() {
    assert_eq!(order_of_sample(u16::from_le_bytes([1, 0])), ByteOrder::LittleEndian);
    assert_eq!(order_of_sample(u16::from_be_bytes([1, 0])), ByteOrder::BigEndian);
}

#[test]
fn words_of_both_byte_orders() {
    for n in [0, 1, 255, 256, 0x01020304, usize::MAX, usize::MAX - 1] {
        let mut bytes = vec![9];
        bytes.extend_from_slice(&n.to_le_bytes());
        assert_eq!(read_word(ByteOrder::LittleEndian, &bytes, 1), n);
        let mut bytes = vec![9];
        bytes.extend_from_slice(&n.to_be_bytes());
        assert_eq!(read_word(ByteOrder::BigEndian, &bytes, 1), n);
    }
}

#[test]
fn header_of_this_machine() {
    let bytes = arena(3, 0x1000, HEADER + 2, b"abcd");
    let header = ArenaHeader::from_bytes(&bytes, 3).unwrap();
    assert_eq!(
        header,
        ArenaHeader {
            instantiation: 3,
            base_address: 0x1000,
            capacity: HEADER + 4,
            used: HEADER + 2,
        }
    );
    assert_eq!(ArenaHeader::size(), HEADER);
}

#[test]
fn header_of_a_big_endian_machine() {
    let mut bytes = Vec::new();
    for word in [5usize, 0x2000, HEADER, HEADER] {
        bytes.extend_from_slice(&word.to_be_bytes());
    }
    let header = ArenaHeader::from_bytes_in(ByteOrder::BigEndian, &bytes, 5).unwrap();
    assert_eq!(header.base_address, 0x2000);
}

#[test]
fn header_ignores_what_follows() {
    let one = ArenaHeader::from_bytes(&arena(1, 2, HEADER, b"xx"), 1).unwrap();
    let other = ArenaHeader::from_bytes(&arena(1, 2, HEADER, b"yy"), 1).unwrap();
    assert_eq!(one, other);
}

#[test]
fn buffer_too_small() {
    let bytes = arena(0, 0, HEADER, b"");
    let e = ArenaHeader::from_bytes(&bytes[..HEADER - 1], 0).unwrap_err();
    let e = arena_error(e);
    assert_eq!(e, ArenaError::BufferTooSmall { got: HEADER - 1, needed: HEADER });
    assert_eq!(
        e.message(),
        format!("Arena buffer too small, got {}, minimum size {}", HEADER - 1, HEADER)
    );
}

#[test]
fn invalid_capacity() {
    let mut bytes = arena(0, 0, HEADER, b"abcd");
    bytes.push(0);
    let e = arena_error(ArenaHeader::from_bytes(&bytes, 0).unwrap_err());
    assert_eq!(e, ArenaError::InvalidCapacity { expected: HEADER + 4, actual: HEADER + 5 });
    assert_eq!(
        e.message(),
        format!("Invalid arena capacity, expected {}, got {}", HEADER + 4, HEADER + 5)
    );
}

#[test]
fn invalid_size() {
    let bytes = arena(0, 0, HEADER + 5, b"abcd");
    let e = arena_error(ArenaHeader::from_bytes(&bytes, 9).unwrap_err());
    assert_eq!(e, ArenaError::InvalidSize { size: HEADER + 5, capacity: HEADER + 4 });
    assert_eq!(
        e.message(),
        format!("Arena size {} is greater than capacity {}", HEADER + 5, HEADER + 4)
    );
}

#[test]
fn instantiation_mismatch() {
    let bytes = arena(4, 0, HEADER, b"");
    let e = arena_error(ArenaHeader::from_bytes(&bytes, 5).unwrap_err());
    assert_eq!(e, ArenaError::InstantiationMismatch { header: 4, passed: 5 });
    assert_eq!(e.message(), "Header contained Instantiation ID 4, but 5 was indicated");
}

#[test]
fn data_arena_errors_have_a_heading() {
    match DataArena::from_bytes(vec![1, 2, 3], 0) {
        Err(ProbeError::Context { context, .. }) => {
            assert_eq!(context, "Failed to create ArenaHeader for DataArena");
        }
        other => panic!("{other:?}"),
    }
}

#[test]
fn slices_of_a_data_arena() {
    let bytes = arena(0, 0x100, HEADER + 3, b"abcd");
    let data = DataArena::from_bytes(bytes.clone(), 0).unwrap();
    let end = 0x100 + HEADER + 3;
    assert_eq!(data.try_get_slice(0xff), None);
    assert_eq!(data.try_get_slice(0x100), Some(&bytes[..HEADER + 3]));
    assert_eq!(data.try_get_slice(0x100 + HEADER), Some(&b"abc"[..]));
    assert_eq!(data.try_get_slice(0x100 + HEADER + 1), Some(&b"bc"[..]));
    assert_eq!(data.try_get_slice(end), Some(&b""[..]));
    assert_eq!(data.try_get_slice(end + 1), None);
}

#[test]
fn the_first_arena_that_holds_a_pointer_wins() {
    let first = DataArena::from_bytes(arena(0, 0x100, HEADER + 1, b"a"), 0).unwrap();
    let second = DataArena::from_bytes(arena(1, 0x100, HEADER + 4, b"wxyz"), 1).unwrap();
    let ctx = ArenaContext(vec![first, second]);
    assert_eq!(ctx.try_get_slice(0x100 + HEADER), Some(&b"a"[..]));
    assert_eq!(ctx.try_get_slice(0x100 + HEADER + 1), Some(&b""[..]));
    assert_eq!(ctx.try_get_slice(0x100 + HEADER + 2), Some(&b"yz"[..]));
    assert_eq!(ctx.try_get_slice(0x100 + HEADER + 5), None);
    assert_eq!(ArenaContext(vec![]).try_get_slice(0), None);
}

#[test]
fn ops_are_cut_behind_the_header() {
    let bytes = arena(2, 0, HEADER + 6, b"abcdefgh");
    let ops = OpsArena::from_bytes(bytes, 2, 2).ok().unwrap();
    let decoded = ops.decode(&ArenaContext(vec![]), &decode_bytes).unwrap();
    assert_eq!(decoded, vec![b"ab".to_vec(), b"cd".to_vec(), b"ef".to_vec()]);
}

#[test]
fn an_arena_without_ops() {
    let ops = OpsArena::from_bytes(arena(2, 0, HEADER, b"abc"), 2, 2).ok().unwrap();
    assert!(ops.decode(&ArenaContext(vec![]), &decode_bytes).unwrap().is_empty());
}

#[test]
fn misaligned_ops() {
    for used in [HEADER + 1, HEADER + 5, HEADER - 2, 0] {
        let e = match OpsArena::from_bytes(arena(2, 0, used, b"abcdefgh"), 2, 2) {
            Err(e) => e,
            Ok(_) => {
                panic!("accepted {used}");
            }
        };
        assert!(matches!(e, ProbeError::ArenaError(_)));
        let e = arena_error(e);
        assert_eq!(e, ArenaError::Misaligned { size: used, header_size: HEADER, op_size: 2 });
        assert_eq!(
            e.message(),
            format!(
                "Arena alignment error: arena size ({used}) minus header ({HEADER}) isn't a \
                 multiple of op size (2)"
            )
        );
    }
}

#[test]
fn ops_arena_errors_have_a_heading() {
    match OpsArena::from_bytes(arena(1, 0, HEADER, b""), 2, 2) {
        Err(ProbeError::Context { context, inner }) => {
            assert_eq!(context, "Failed to create ArenaHeader for OpsArena");
            assert_eq!(
                arena_error(*inner),
                ArenaError::InstantiationMismatch { header: 1, passed: 2 }
            );
        }
        _ => panic!("accepted"),
    }
}

#[test]
fn decoding_stops_at_the_first_error() {
    let ops = OpsArena::from_bytes(arena(0, 0, HEADER + 4, &[1, 6, 7, 8]), 0, 1).ok().unwrap();
    match ops.decode(&ArenaContext(vec![]), &decode_below_7) {
        Err(ProbeError::Context { context, inner }) => {
            assert_eq!(context, "Failed to decode arena ops");
            assert!(matches!(*inner, ProbeError::MissingValue("too large")));
        }
        other => panic!("{other:?}"),
    }
    let ops = OpsArena::from_bytes(arena(0, 0, HEADER + 2, &[1, 6, 7, 8]), 0, 1).ok().unwrap();
    assert_eq!(ops.decode(&ArenaContext(vec![]), &decode_below_7).unwrap(), vec![1, 6]);
}

#[test]
fn ops_refer_to_the_memory_of_the_thread() {
    let data = DataArena::from_bytes(arena(0, 100, HEADER + 3, b"xyz"), 0).unwrap();
    let ctx = ArenaContext(vec![data]);
    let pointer = (100 + HEADER + 1) as u8;
    let ops = OpsArena::from_bytes(arena(0, 0, HEADER + 1, &[pointer]), 0, 1).ok().unwrap();
    assert_eq!(ops.decode(&ctx, &decode_pointer).unwrap(), vec![b"yz".to_vec()]);
}

#[test]
fn arenas_at_the_end_of_the_address_space() {
    let low = || DataArena::from_bytes(arena(0, 0x100, HEADER, b""), 0).unwrap();
    let last = usize::MAX - HEADER;
    let fits = DataArena::from_bytes(arena(0, last, HEADER, b""), 0).unwrap();
    assert!(fits.is_addressable());
    assert_eq!(fits.try_get_slice(usize::MAX), Some(&b""[..]));
    let over = || DataArena::from_bytes(arena(0, last + 1, HEADER, b""), 0).unwrap();
    assert!(!over().is_addressable());
    let ctx = ArenaContext(vec![low(), over()]);
    assert!(ctx.is_addressable(0x100));
    assert!(!ctx.is_addressable(0));
    assert!(ArenaContext(vec![low(), fits]).is_addressable(0));
}
