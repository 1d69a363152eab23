use crcvm::bytecode::{Bytecode, Constant, DecodeErr, Instr};

/// A container header: magic, version, constant count.
fn header(version: u16, const_count: u16) -> Vec<u8> {
    let mut buf = vec![b'C', b'R', b'C', b'0'];
    buf.extend_from_slice(&version.to_le_bytes());
    buf.extend_from_slice(&const_count.to_le_bytes());
    buf
}

fn number_record(v: f64) -> Vec<u8> {
    let mut rec = vec![0x01u8];
    rec.extend_from_slice(&v.to_bits().to_le_bytes());
    rec
}

fn text_record(s: &str) -> Vec<u8> {
    let mut rec = vec![0x02u8];
    rec.extend_from_slice(&(s.len() as u16).to_le_bytes());
    rec.extend_from_slice(s.as_bytes());
    rec
}

#[test]
fn minimal_program_decodes() {
    let mut buf = header(7, 0);
    buf.push(0xff);
    let bc = Bytecode::from_bytes(&buf).unwrap();
    assert_eq!(bc.version, 7);
    assert!(bc.consts.is_empty());
    assert_eq!(bc.code, vec![Instr::Halt]);
}

#[test]
fn wrong_magic_rejected() {
    let mut buf = vec![b'X', b'X', b'X', b'X'];
    buf.extend_from_slice(&1u16.to_le_bytes());
    buf.extend_from_slice(&0u16.to_le_bytes());
    buf.push(0xff);
    assert_eq!(Bytecode::from_bytes(&buf).unwrap_err(), DecodeErr::InvalidHeader);
    // One wrong byte is enough, whatever follows.
    let mut buf2 = vec![b'C', b'R', b'C', b'1'];
    buf2.extend_from_slice(&[0, 0, 0, 0, 0xff, 0x10, 0x99]);
    assert_eq!(Bytecode::from_bytes(&buf2).unwrap_err(), DecodeErr::InvalidHeader);
}

#[test]
fn empty_and_short_buffers_truncated() {
    assert_eq!(Bytecode::from_bytes(&[]).unwrap_err(), DecodeErr::Truncated);
    assert_eq!(Bytecode::from_bytes(&[b'C', b'R']).unwrap_err(), DecodeErr::Truncated);
    assert_eq!(
        Bytecode::from_bytes(&[b'C', b'R', b'C', b'0', 1]).unwrap_err(),
        DecodeErr::Truncated
    );
}

#[test]
fn number_constant_round_trips() {
    for v in [13.625f64, -0.0, 1.0e308, f64::NAN] {
        let mut buf = header(1, 1);
        buf.extend_from_slice(&number_record(v));
        buf.push(0xff);
        let bc = Bytecode::from_bytes(&buf).unwrap();
        // Equal bit for bit, NaN included.
        assert_eq!(bc.consts, vec![Constant::Number(v.to_bits())]);
    }
}

#[test]
fn text_constant_round_trips() {
    let s = "héllo wörld ✓";
    let mut buf = header(1, 1);
    buf.extend_from_slice(&text_record(s));
    buf.push(0xff);
    let bc = Bytecode::from_bytes(&buf).unwrap();
    assert_eq!(bc.consts, vec![Constant::Text(s.to_string())]);
}

#[test]
fn empty_text_round_trips() {
    let mut buf = header(1, 1);
    buf.extend_from_slice(&text_record(""));
    buf.push(0xff);
    let bc = Bytecode::from_bytes(&buf).unwrap();
    assert_eq!(bc.consts, vec![Constant::Text(String::new())]);
}

#[test]
fn truncated_number_record() {
    let mut buf = header(1, 1);
    buf.extend_from_slice(&[0x01, 0xaa, 0xbb]);
    assert_eq!(Bytecode::from_bytes(&buf).unwrap_err(), DecodeErr::Truncated);
}

#[test]
fn truncated_text_record() {
    let mut buf = header(1, 1);
    buf.extend_from_slice(&[0x02, 0x05, 0x00, b'a', b'b']);
    assert_eq!(Bytecode::from_bytes(&buf).unwrap_err(), DecodeErr::Truncated);
}

#[test]
fn unknown_const_tag() {
    let mut buf = header(1, 1);
    buf.extend_from_slice(&[0x03, 0x00]);
    assert_eq!(Bytecode::from_bytes(&buf).unwrap_err(), DecodeErr::UnknownConstTag(0x03));
}

#[test]
fn invalid_utf8_payload() {
    let mut buf = header(1, 1);
    buf.extend_from_slice(&[0x02, 0x02, 0x00, 0xff, 0xfe]);
    assert_eq!(Bytecode::from_bytes(&buf).unwrap_err(), DecodeErr::InvalidUtf8);
}

#[test]
fn unknown_opcode() {
    let mut buf = header(1, 0);
    buf.push(0x20);
    assert_eq!(Bytecode::from_bytes(&buf).unwrap_err(), DecodeErr::UnknownOpcode(0x20));
}

#[test]
fn all_opcodes_decode() {
    let mut buf = header(1, 0);
    buf.extend_from_slice(&[0x01, 0x05, 0x00]);
    buf.extend_from_slice(&[0x02, 0x00, 0x00]);
    buf.extend_from_slice(&[0x03, 0x01, 0x00]);
    buf.extend_from_slice(&[0x10, 0x11, 0x12, 0x13, 0xff]);
    let bc = Bytecode::from_bytes(&buf).unwrap();
    assert_eq!(
        bc.code,
        vec![
            Instr::LoadConst(5),
            Instr::StoreVar(0),
            Instr::LoadVar(1),
            Instr::Add,
            Instr::Sub,
            Instr::Mul,
            Instr::Div,
            Instr::Halt,
        ]
    );
}

#[test]
fn halt_stops_decoding_even_if_bytes_remain() {
    let mut buf = header(1, 0);
    // Garbage after the Halt opcode must be ignored, not rejected.
    buf.extend_from_slice(&[0xff, 0x99, 0x98, 0x97]);
    let bc = Bytecode::from_bytes(&buf).unwrap();
    assert_eq!(bc.code, vec![Instr::Halt]);
}

#[test]
fn code_may_end_without_halt() {
    let mut buf = header(1, 1);
    buf.extend_from_slice(&number_record(2.0));
    buf.extend_from_slice(&[0x01, 0x00, 0x00]);
    let bc = Bytecode::from_bytes(&buf).unwrap();
    assert_eq!(bc.code, vec![Instr::LoadConst(0)]);
}

#[test]
fn truncated_operand() {
    let mut buf = header(1, 0);
    buf.extend_from_slice(&[0x01, 0x05]);
    assert_eq!(Bytecode::from_bytes(&buf).unwrap_err(), DecodeErr::Truncated);
}

#[test]
fn pool_indices_not_validated_at_decode_time() {
    let mut buf = header(1, 0);
    // LoadConst(40000) with an empty pool still decodes.
    buf.push(0x01);
    buf.extend_from_slice(&40000u16.to_le_bytes());
    buf.push(0xff);
    let bc = Bytecode::from_bytes(&buf).unwrap();
    assert_eq!(bc.code, vec![Instr::LoadConst(40000), Instr::Halt]);
}

#[test]
fn const_accessors() {
    let mut buf = header(3, 2);
    buf.extend_from_slice(&number_record(2.5));
    buf.extend_from_slice(&text_record("name"));
    buf.push(0xff);
    let bc = Bytecode::from_bytes(&buf).unwrap();
    assert_eq!(bc.const_as_number(0), Some(2.5f64.to_bits()));
    assert_eq!(bc.const_as_number(1), None);
    assert_eq!(bc.const_as_str(1), Some("name"));
    assert_eq!(bc.const_as_str(0), None);
    assert_eq!(bc.const_as_number(2), None);
    assert_eq!(bc.const_as_str(2), None);
}

#[test]
fn const_count_exceeds_records() {
    let mut buf = header(1, 2);
    buf.extend_from_slice(&number_record(1.0));
    assert_eq!(Bytecode::from_bytes(&buf).unwrap_err(), DecodeErr::Truncated);
}

#[test]
fn several_constants_keep_pool_order() {
    let mut buf = header(1, 3);
    buf.extend_from_slice(&text_record("first"));
    buf.extend_from_slice(&number_record(-2.25));
    buf.extend_from_slice(&text_record("third"));
    buf.push(0xff);
    let bc = Bytecode::from_bytes(&buf).unwrap();
    assert_eq!(
        bc.consts,
        vec![
            Constant::Text("first".to_string()),
            Constant::Number((-2.25f64).to_bits()),
            Constant::Text("third".to_string()),
        ]
    );
}

#[test]
fn version_is_opaque_and_kept() {
    let mut buf = header(0xbeef, 0);
    buf.push(0xff);
    let bc = Bytecode::from_bytes(&buf).unwrap();
    assert_eq!(bc.version, 0xbeef);
}
