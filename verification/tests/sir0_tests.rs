use pmd_sir0::write_sir0_header;
use pmd_sir0::Sir0;
use pmd_sir0::Sir0Error;

fn le32(value: u32) -> [u8; 4] {
    [
        (value & 0xFF) as u8,
        ((value >> 8) & 0xFF) as u8,
        ((value >> 16) & 0xFF) as u8,
        ((value >> 24) & 0xFF) as u8,
    ]
}

fn build_file(header_offset: u32, pointer_offset: u32, rest: &[u8]) -> Vec<u8> {
    let mut file = vec![b'S', b'I', b'R', b'0'];
    file.extend_from_slice(&le32(header_offset));
    file.extend_from_slice(&le32(pointer_offset));
    file.extend_from_slice(rest);
    file
}

#[test]
fn parse_full_container() {
    // Payload at [12, 14), table at 14: two deltas then the terminator,
    // plus the trailing byte the decoder never touches.
    let file = build_file(12, 14, &[0xAA, 0xBB, 0x04, 0x08, 0x00, 0xCC]);
    let mut parsed = Sir0::new(file.clone()).unwrap();
    assert_eq!(parsed.offsets_len(), 2);
    assert_eq!(parsed.offsets_get(0), Some(&4));
    assert_eq!(parsed.offsets_get(1), Some(&12));
    assert_eq!(parsed.offsets_get(2), None);
    assert_eq!(parsed.get_header(), &vec![0xAA, 0xBB]);
    assert_eq!(parsed.get_file(), &file);
}

#[test]
fn parse_empty_table_via_terminator() {
    // The table opens with a standalone zero byte: an empty container, not
    // an error.
    let file = build_file(12, 12, &[0x00, 0xCC]);
    let parsed = Sir0::new(file).unwrap();
    assert_eq!(parsed.offsets_len(), 0);
    assert_eq!(parsed.get_header(), &Vec::<u8>::new());
}

#[test]
fn parse_rejects_short_input_as_bad_magic() {
    assert_eq!(
        Sir0::new(vec![]).unwrap_err(),
        Sir0Error::InvalidMagic([0, 0, 0, 0])
    );
    assert_eq!(
        Sir0::new(vec![b'S', b'I']).unwrap_err(),
        Sir0Error::InvalidMagic([b'S', b'I', 0, 0])
    );
}

#[test]
fn parse_rejects_wrong_magic() {
    let mut file = build_file(12, 14, &[0, 0, 0, 0, 0, 0]);
    file[3] = b'1';
    assert_eq!(
        Sir0::new(file).unwrap_err(),
        Sir0Error::InvalidMagic([b'S', b'I', b'R', b'1'])
    );
}

#[test]
fn parse_rejects_truncated_header() {
    let file = vec![b'S', b'I', b'R', b'0', 0x0C, 0x00];
    assert_eq!(Sir0::new(file).unwrap_err(), Sir0Error::TruncatedHeader(6));
}

#[test]
fn parse_rejects_pointer_before_header() {
    let file = build_file(16, 12, &[0, 0, 0, 0, 0, 0, 0, 0]);
    assert_eq!(
        Sir0::new(file).unwrap_err(),
        Sir0Error::PointerBeforeHeader(16, 12)
    );
}

#[test]
fn parse_rejects_header_block_past_end() {
    // Declared payload [12, 100) runs past the 20-byte input.
    let file = build_file(12, 100, &[0; 8]);
    assert_eq!(
        Sir0::new(file).unwrap_err(),
        Sir0Error::CloneHeaderError(12, 88)
    );
}

#[test]
fn parse_rejects_table_at_file_end() {
    // pointer_table_offset == file_length - 1: no room for a table byte
    // plus the trailing byte.
    let file = build_file(12, 12, &[0x55]);
    assert_eq!(
        Sir0::new(file).unwrap_err(),
        Sir0Error::PointerOffsetPostOrAtFileEnd(12, 13)
    );
    // Exactly the 12 header bytes: the offset is right at the end.
    let file = build_file(12, 12, &[]);
    assert_eq!(
        Sir0::new(file).unwrap_err(),
        Sir0Error::PointerOffsetPostOrAtFileEnd(12, 12)
    );
}

#[test]
fn parse_header_block_ending_at_file_end_is_no_clone_error() {
    // The payload block [12, 16) fits exactly; what fails afterwards is the
    // room check for the table.
    let file = build_file(12, 16, &[1, 2, 3, 4]);
    assert_eq!(
        Sir0::new(file).unwrap_err(),
        Sir0Error::PointerOffsetPostOrAtFileEnd(16, 16)
    );
}

#[test]
fn parse_surfaces_decoder_overflow() {
    let mut tail = vec![0xFF; 10];
    tail.push(0xCC);
    let file = build_file(12, 12, &tail);
    assert_eq!(
        Sir0::new(file).unwrap_err(),
        Sir0Error::AbsolutePointerOverflow(0, (1u64 << 63) - 1)
    );
}

#[test]
fn parser_total_on_arbitrary_bytes() {
    // Fuzz-grade: any byte string parses to a container or a typed error;
    // it must never panic.
    let mut state: u64 = 0x9E3779B97F4A7C15;
    for len in 0..120usize {
        let mut bytes: Vec<u8> = Vec::with_capacity(len);
        for pos in 0..len {
            state = state.wrapping_mul(6364136223846793005).wrapping_add(1442695040888963407);
            // Keep the magic on some rounds so deeper stages are reached.
            bytes.push(if pos < 4 && len % 3 == 0 {
                [b'S', b'I', b'R', b'0'][pos]
            } else {
                (state >> 33) as u8
            });
        }
        let _ = Sir0::new(bytes);
    }
}

#[test]
fn file_mutation_leaves_decoded_state_alone() {
    let file = build_file(12, 14, &[0xAA, 0xBB, 0x04, 0x08, 0x00, 0xCC]);
    let mut parsed = Sir0::new(file).unwrap();
    parsed.get_file().push(0xEE);
    assert_eq!(parsed.offsets_len(), 2);
    assert_eq!(parsed.offsets_get(0), Some(&4));
    assert_eq!(parsed.get_header(), &vec![0xAA, 0xBB]);
    assert_eq!(*parsed.get_file().last().unwrap(), 0xEE);
}

#[test]
fn header_writer_emits_exactly_twelve_bytes() {
    let mut out: Vec<u8> = Vec::new();
    write_sir0_header(&mut out, 0x12345678, 0x9ABCDEF0);
    assert_eq!(
        out,
        vec![
            b'S', b'I', b'R', b'0', 0x78, 0x56, 0x34, 0x12, 0xF0, 0xDE, 0xBC, 0x9A
        ]
    );
}

#[test]
fn header_writer_appends_after_existing_bytes() {
    let mut out: Vec<u8> = vec![0x01];
    write_sir0_header(&mut out, 12, 14);
    assert_eq!(out.len(), 13);
    assert_eq!(&out[1..5], &b"SIR0"[..]);
}

#[test]
fn built_file_parses_back() {
    // Build a file the way the writer intends: reserve 12 bytes, payload,
    // footer, trailing terminator, then the fixed block at the front.
    let payload: Vec<u8> = vec![1, 2, 3, 4];
    let positions: Vec<u32> = vec![4, 8];
    let header_offset: u32 = 12;
    let pointer_offset: u32 = 12 + payload.len() as u32;

    let mut file: Vec<u8> = Vec::new();
    write_sir0_header(&mut file, header_offset, pointer_offset);
    file.extend_from_slice(&payload);
    pmd_sir0::write_sir0_footer(&mut file, &positions).unwrap();
    file.push(0x00);

    let parsed = Sir0::new(file).unwrap();
    assert_eq!(parsed.offsets_len(), 2);
    assert_eq!(parsed.offsets_get(0), Some(&4));
    assert_eq!(parsed.offsets_get(1), Some(&8));
    assert_eq!(parsed.get_header(), &payload);
}
