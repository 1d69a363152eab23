//! Binary container decoder.
//!
//! A program is stored as: a 4-byte magic (`CRC0`), a 16-bit version, a
//! 16-bit constant count, that many constant records, then instructions until
//! the buffer ends or a Halt opcode is read. All multi-byte fields are
//! little-endian. Constant records are a 1-byte tag: `0x01` is a number (the
//! 8-byte IEEE-754 pattern, kept here as its raw 64 bits), `0x02` is a text
//! (16-bit byte length, then that many UTF-8 bytes).
//!
//! `spec_decode` states the format as a mathematical function over the byte
//! sequence; `Bytecode::from_bytes` is proved to return exactly its result.
//! Decoding never validates instruction operands against the pool: that is an
//! execution-time concern.
use vstd::prelude::*;
use vstd::slice::{slice_subrange, slice_to_vec};
use vstd::utf8::{decode_utf8, valid_utf8, encode_utf8, encode_utf8_valid_utf8, encode_utf8_decode_utf8};

verus! {

/// A constant-pool entry. Numbers carry the 64-bit pattern of an IEEE-754
/// double; the engine never interprets the pattern itself.
#[derive(Debug, Clone, PartialEq)]
pub enum Constant {
    Number(u64),
    Text(String),
}

/// The mathematical shape of a constant: a number's 64-bit pattern or a
/// text's character sequence.
#[verifier::ext_equal]
pub enum ConstantS {
    Number(u64),
    Text(Seq<char>),
}

impl View for Constant {
    type V = ConstantS;

    open spec fn view(&self) -> ConstantS {
        match self {
            Constant::Number(bits) => ConstantS::Number(*bits),
            Constant::Text(s) => ConstantS::Text(s@),
        }
    }
}

/// One instruction. Pool indices are 16-bit and are not validated at decode
/// time.
#[derive(Debug, Clone, Copy, PartialEq, Eq, Structural)]
pub enum Instr {
    LoadConst(u16),
    StoreVar(u16),
    LoadVar(u16),
    Add,
    Sub,
    Mul,
    Div,
    Halt,
}

/// Why a buffer failed to decode.
#[derive(Debug, Clone, Copy, PartialEq, Eq, Structural)]
pub enum DecodeErr {
    /// A read ran past the end of the buffer.
    Truncated,
    /// The first four bytes are not the container magic.
    InvalidHeader,
    /// A constant record carries a tag other than `0x01` or `0x02`.
    UnknownConstTag(u8),
    /// A text constant's payload is not valid UTF-8.
    InvalidUtf8,
    /// An instruction byte matches no opcode.
    UnknownOpcode(u8),
}

/// A decoded program: opaque version tag, constant pool and instruction
/// sequence. Built once by the decoder and immutable afterwards.
#[derive(Debug)]
pub struct Bytecode {
    pub version: u16,
    pub consts: Vec<Constant>,
    pub code: Vec<Instr>,
}

/// The mathematical shape of a program.
#[verifier::ext_equal]
pub struct BytecodeS {
    pub version: u16,
    pub consts: Seq<ConstantS>,
    pub code: Seq<Instr>,
}

/// The views of a sequence of constants.
pub open spec fn consts_view(s: Seq<Constant>) -> Seq<ConstantS> {
    s.map_values(|c: Constant| c@)
}

impl View for Bytecode {
    type V = BytecodeS;

    open spec fn view(&self) -> BytecodeS {
        BytecodeS { version: self.version, consts: consts_view(self.consts@), code: self.code@ }
    }
}

/// The container magic: the ASCII bytes `C R C 0`.
pub open spec fn magic() -> Seq<u8> {
    seq![67u8, 82u8, 67u8, 48u8]
}

/// The 16-bit little-endian value stored at offset `i`.
pub open spec fn le16_at(b: Seq<u8>, i: int) -> u16
    recommends
        0 <= i,
        i + 2 <= b.len(),
{
    (b[i] as u16) | ((b[i + 1] as u16) << 8)
}

/// The 64-bit little-endian value stored at offset `i`.
pub open spec fn le64_at(b: Seq<u8>, i: int) -> u64
    recommends
        0 <= i,
        i + 8 <= b.len(),
{
    (b[i] as u64) | ((b[i + 1] as u64) << 8) | ((b[i + 2] as u64) << 16) | ((b[i + 3] as u64)
        << 24) | ((b[i + 4] as u64) << 32) | ((b[i + 5] as u64) << 40) | ((b[i + 6] as u64) << 48)
        | ((b[i + 7] as u64) << 56)
}

/// Decodes the constant record starting at `pos`: the constant and the
/// position just past it, or the error that aborts the decode.
pub open spec fn spec_decode_const(b: Seq<u8>, pos: int) -> Result<(ConstantS, int), DecodeErr>
    recommends
        0 <= pos,
{
    if pos + 1 > b.len() {
        Err(DecodeErr::Truncated)
    } else {
        let tag = b[pos];
        if tag == 0x01u8 {
            if pos + 9 <= b.len() {
                Ok((ConstantS::Number(le64_at(b, pos + 1)), pos + 9))
            } else {
                Err(DecodeErr::Truncated)
            }
        } else if tag == 0x02u8 {
            if pos + 3 > b.len() {
                Err(DecodeErr::Truncated)
            } else {
                let len = le16_at(b, pos + 1) as int;
                if pos + 3 + len > b.len() {
                    Err(DecodeErr::Truncated)
                } else {
                    let payload = b.subrange(pos + 3, pos + 3 + len);
                    if valid_utf8(payload) {
                        Ok((ConstantS::Text(decode_utf8(payload)), pos + 3 + len))
                    } else {
                        Err(DecodeErr::InvalidUtf8)
                    }
                }
            }
        } else {
            Err(DecodeErr::UnknownConstTag(tag))
        }
    }
}

/// Prepends already-decoded constants to the outcome of decoding the rest.
pub open spec fn prepend_consts(done: Seq<ConstantS>, r: Result<(Seq<ConstantS>, int), DecodeErr>) -> Result<(Seq<ConstantS>, int), DecodeErr> {
    match r {
        Ok(p) => Ok((done + p.0, p.1)),
        Err(e) => Err(e),
    }
}

/// Decodes `n` constant records starting at `pos`.
pub open spec fn spec_decode_consts(b: Seq<u8>, pos: int, n: nat) -> Result<(Seq<ConstantS>, int), DecodeErr>
    recommends
        0 <= pos,
    decreases n,
{
    if n == 0 {
        Ok((Seq::empty(), pos))
    } else {
        match spec_decode_const(b, pos) {
            Ok(p) => prepend_consts(seq![p.0], spec_decode_consts(b, p.1, (n - 1) as nat)),
            Err(e) => Err(e),
        }
    }
}

/// Decodes the instruction starting at `pos`: the instruction and the
/// position just past it, or the error that aborts the decode.
pub open spec fn spec_decode_instr(b: Seq<u8>, pos: int) -> Result<(Instr, int), DecodeErr>
    recommends
        0 <= pos < b.len(),
{
    let op = b[pos];
    if op == 0x01u8 || op == 0x02u8 || op == 0x03u8 {
        if pos + 3 <= b.len() {
            let idx = le16_at(b, pos + 1);
            let ins = if op == 0x01u8 {
                Instr::LoadConst(idx)
            } else if op == 0x02u8 {
                Instr::StoreVar(idx)
            } else {
                Instr::LoadVar(idx)
            };
            Ok((ins, pos + 3))
        } else {
            Err(DecodeErr::Truncated)
        }
    } else if op == 0x10u8 {
        Ok((Instr::Add, pos + 1))
    } else if op == 0x11u8 {
        Ok((Instr::Sub, pos + 1))
    } else if op == 0x12u8 {
        Ok((Instr::Mul, pos + 1))
    } else if op == 0x13u8 {
        Ok((Instr::Div, pos + 1))
    } else if op == 0xffu8 {
        Ok((Instr::Halt, pos + 1))
    } else {
        Err(DecodeErr::UnknownOpcode(op))
    }
}

/// Prepends an already-decoded instruction to the outcome of decoding the
/// rest.
pub open spec fn prepend_code(done: Seq<Instr>, r: Result<Seq<Instr>, DecodeErr>) -> Result<Seq<Instr>, DecodeErr> {
    match r {
        Ok(rest) => Ok(done + rest),
        Err(e) => Err(e),
    }
}

/// Decodes instructions from `pos` until the buffer ends or a Halt opcode is
/// read; Halt is kept as the final instruction and decoding stops there even
/// if bytes remain.
pub open spec fn spec_decode_code(b: Seq<u8>, pos: int) -> Result<Seq<Instr>, DecodeErr>
    recommends
        0 <= pos,
    decreases b.len() - pos,
{
    if pos < 0 || pos >= b.len() {
        Ok(Seq::empty())
    } else {
        match spec_decode_instr(b, pos) {
            Ok(p) => if p.0 is Halt {
                Ok(seq![Instr::Halt])
            } else {
                prepend_code(seq![p.0], spec_decode_code(b, p.1))
            },
            Err(e) => Err(e),
        }
    }
}

/// The whole container format: what decoding a byte buffer yields.
pub open spec fn spec_decode(b: Seq<u8>) -> Result<BytecodeS, DecodeErr> {
    if b.len() < 4 {
        Err(DecodeErr::Truncated)
    } else if b.subrange(0, 4) != magic() {
        Err(DecodeErr::InvalidHeader)
    } else if b.len() < 8 {
        Err(DecodeErr::Truncated)
    } else {
        match spec_decode_consts(b, 8, le16_at(b, 6) as nat) {
            Ok(p) => match spec_decode_code(b, p.1) {
                Ok(code) => Ok(BytecodeS { version: le16_at(b, 4), consts: p.0, code }),
                Err(e) => Err(e),
            },
            Err(e) => Err(e),
        }
    }
}

/// Relies on `String::from_utf8`: it succeeds exactly when the bytes are a
/// valid UTF-8 encoding, and the string it returns holds the characters
/// those bytes encode (vstd's `valid_utf8` and `decode_utf8`).
#[verifier::external_body]
fn string_from_utf8(bytes: Vec<u8>) -> (r: Option<String>)
    ensures
        r is Some <==> valid_utf8(bytes@),
        r matches Some(s) ==> s@ == decode_utf8(bytes@),
{
    String::from_utf8(bytes).ok()
}

/// Reads the 16-bit little-endian value at `pos`.
fn read_u16(b: &[u8], pos: usize) -> (r: u16)
    requires
        pos + 2 <= b@.len(),
    ensures
        r == le16_at(b@, pos as int),
{
    (b[pos] as u16) | ((b[pos + 1] as u16) << 8)
}

/// Reads the 64-bit little-endian value at `pos`.
fn read_u64(b: &[u8], pos: usize) -> (r: u64)
    requires
        pos + 8 <= b@.len(),
    ensures
        r == le64_at(b@, pos as int),
{
    (b[pos] as u64) | ((b[pos + 1] as u64) << 8) | ((b[pos + 2] as u64) << 16) | ((b[pos + 3]
        as u64) << 24) | ((b[pos + 4] as u64) << 32) | ((b[pos + 5] as u64) << 40) | ((b[pos + 6]
        as u64) << 48) | ((b[pos + 7] as u64) << 56)
}

proof fn lemma_prepend_consts_assoc(done: Seq<ConstantS>, c: ConstantS, r: Result<(Seq<ConstantS>, int), DecodeErr>)
    ensures
        prepend_consts(done, prepend_consts(seq![c], r)) == prepend_consts(done.push(c), r),
{
    match r {
        Ok(p) => {
            assert(done + (seq![c] + p.0) =~= done.push(c) + p.0);
        },
        Err(e) => {},
    }
}

proof fn lemma_prepend_code_assoc(done: Seq<Instr>, i: Instr, r: Result<Seq<Instr>, DecodeErr>)
    ensures
        prepend_code(done, prepend_code(seq![i], r)) == prepend_code(done.push(i), r),
{
    match r {
        Ok(rest) => {
            assert(done + (seq![i] + rest) =~= done.push(i) + rest);
        },
        Err(e) => {},
    }
}

impl Bytecode {
    /// Decodes a byte buffer into a program, or reports the first error.
    /// The result is exactly what `spec_decode` states of the bytes; no
    /// partial program is ever returned.
    pub fn from_bytes(bytes: &[u8]) -> (r: Result<Bytecode, DecodeErr>)
        ensures
            r matches Ok(bc) ==> spec_decode(bytes@) == Ok::<BytecodeS, DecodeErr>(bc@),
            r matches Err(e) ==> spec_decode(bytes@) == Err::<BytecodeS, DecodeErr>(e),
    {
        let ghost b = bytes@;
        let n = bytes.len();
        if n < 4 {
            return Err(DecodeErr::Truncated);
        }
        if !(bytes[0] == 67 && bytes[1] == 82 && bytes[2] == 67 && bytes[3] == 48) {
            proof {
                let s = b.subrange(0, 4);
                assert(s[0] == b[0] && s[1] == b[1] && s[2] == b[2] && s[3] == b[3]);
                assert(s != magic());
            }
            return Err(DecodeErr::InvalidHeader);
        }
        proof {
            assert(b.subrange(0, 4) =~= magic());
        }
        if n < 8 {
            return Err(DecodeErr::Truncated);
        }
        let version = read_u16(bytes, 4);
        let const_count = read_u16(bytes, 6);
        let ghost nc = le16_at(b, 6) as nat;

        let mut consts: Vec<Constant> = Vec::new();
        let mut pos: usize = 8;
        let mut i: u16 = 0;
        while i < const_count
            invariant
                bytes@ == b,
                n == b.len(),
                n >= 8,
                b.subrange(0, 4) == magic(),
                nc == le16_at(b, 6) as nat,
                i <= const_count,
                nc == const_count as nat,
                8 <= pos <= n,
                spec_decode_consts(b, 8, nc) == prepend_consts(
                    consts_view(consts@),
                    spec_decode_consts(b, pos as int, (const_count - i) as nat),
                ),
            decreases const_count - i,
        {
            let ghost rem = (const_count - i) as nat;
            let ghost done = consts_view(consts@);
            assert(rem > 0);
            if pos >= n {
                proof {
                    assert(spec_decode_const(b, pos as int) == Err::<(ConstantS, int), DecodeErr>(DecodeErr::Truncated));
                    assert(spec_decode_consts(b, pos as int, rem) == Err::<(Seq<ConstantS>, int), DecodeErr>(DecodeErr::Truncated));
                }
                return Err(DecodeErr::Truncated);
            }
            let tag = bytes[pos];
            if tag == 0x01 {
                if n - pos < 9 {
                    proof {
                        assert(spec_decode_consts(b, pos as int, rem) == Err::<(Seq<ConstantS>, int), DecodeErr>(DecodeErr::Truncated));
                    }
                    return Err(DecodeErr::Truncated);
                }
                let bits = read_u64(bytes, pos + 1);
                let ghost c = ConstantS::Number(bits);
                proof {
                    assert(spec_decode_const(b, pos as int) == Ok::<(ConstantS, int), DecodeErr>((c, pos + 9)));
                    lemma_prepend_consts_assoc(done, c, spec_decode_consts(b, pos + 9, (rem - 1) as nat));
                }
                consts.push(Constant::Number(bits));
                proof {
                    assert(consts_view(consts@) =~= done.push(c));
                }
                pos = pos + 9;
            } else if tag == 0x02 {
                if n - pos < 3 {
                    proof {
                        assert(spec_decode_consts(b, pos as int, rem) == Err::<(Seq<ConstantS>, int), DecodeErr>(DecodeErr::Truncated));
                    }
                    return Err(DecodeErr::Truncated);
                }
                let len = read_u16(bytes, pos + 1) as usize;
                if n - (pos + 3) < len {
                    proof {
                        assert(spec_decode_consts(b, pos as int, rem) == Err::<(Seq<ConstantS>, int), DecodeErr>(DecodeErr::Truncated));
                    }
                    return Err(DecodeErr::Truncated);
                }
                let payload = slice_subrange(bytes, pos + 3, pos + 3 + len);
                let pv = slice_to_vec(payload);
                match string_from_utf8(pv) {
                    Some(s) => {
                        let ghost c = ConstantS::Text(s@);
                        proof {
                            assert(spec_decode_const(b, pos as int) == Ok::<(ConstantS, int), DecodeErr>((c, pos + 3 + len)));
                            lemma_prepend_consts_assoc(done, c, spec_decode_consts(b, pos + 3 + len, (rem - 1) as nat));
                        }
                        consts.push(Constant::Text(s));
                        proof {
                            assert(consts_view(consts@) =~= done.push(c));
                        }
                        pos = pos + 3 + len;
                    },
                    None => {
                        proof {
                            assert(spec_decode_const(b, pos as int) == Err::<(ConstantS, int), DecodeErr>(DecodeErr::InvalidUtf8));
                            assert(spec_decode_consts(b, pos as int, rem) == Err::<(Seq<ConstantS>, int), DecodeErr>(DecodeErr::InvalidUtf8));
                        }
                        return Err(DecodeErr::InvalidUtf8);
                    },
                }
            } else {
                proof {
                    assert(spec_decode_const(b, pos as int) == Err::<(ConstantS, int), DecodeErr>(DecodeErr::UnknownConstTag(tag)));
                    assert(spec_decode_consts(b, pos as int, rem) == Err::<(Seq<ConstantS>, int), DecodeErr>(DecodeErr::UnknownConstTag(tag)));
                }
                return Err(DecodeErr::UnknownConstTag(tag));
            }
            i = i + 1;
        }
        proof {
            assert(spec_decode_consts(b, pos as int, 0) == Ok::<(Seq<ConstantS>, int), DecodeErr>((Seq::empty(), pos as int)));
            assert(consts_view(consts@) + Seq::<ConstantS>::empty() =~= consts_view(consts@));
            assert(spec_decode_consts(b, 8, nc) == Ok::<(Seq<ConstantS>, int), DecodeErr>((consts_view(consts@), pos as int)));
        }

        let ghost cpos = pos as int;
        let mut code: Vec<Instr> = Vec::new();
        let mut halted = false;
        while pos < n && !halted
            invariant
                bytes@ == b,
                n == b.len(),
                n >= 8,
                b.subrange(0, 4) == magic(),
                nc == le16_at(b, 6) as nat,
                spec_decode_consts(b, 8, nc) == Ok::<(Seq<ConstantS>, int), DecodeErr>((
                    consts_view(consts@),
                    cpos,
                )),
                pos <= n,
                !halted ==> spec_decode_code(b, cpos) == prepend_code(
                    code@,
                    spec_decode_code(b, pos as int),
                ),
                halted ==> spec_decode_code(b, cpos) == Ok::<Seq<Instr>, DecodeErr>(code@),
            decreases n - pos,
        {
            let ghost done = code@;
            let op = bytes[pos];
            if op == 0x01 || op == 0x02 || op == 0x03 {
                if n - pos < 3 {
                    proof {
                        assert(spec_decode_instr(b, pos as int) == Err::<(Instr, int), DecodeErr>(DecodeErr::Truncated));
                        assert(spec_decode_code(b, pos as int) == Err::<Seq<Instr>, DecodeErr>(DecodeErr::Truncated));
                    }
                    return Err(DecodeErr::Truncated);
                }
                let idx = read_u16(bytes, pos + 1);
                let ins = if op == 0x01 {
                    Instr::LoadConst(idx)
                } else if op == 0x02 {
                    Instr::StoreVar(idx)
                } else {
                    Instr::LoadVar(idx)
                };
                proof {
                    assert(spec_decode_instr(b, pos as int) == Ok::<(Instr, int), DecodeErr>((ins, pos + 3)));
                    lemma_prepend_code_assoc(done, ins, spec_decode_code(b, pos + 3));
                }
                code.push(ins);
                proof {
                    assert(code@ =~= done.push(ins));
                }
                pos = pos + 3;
            } else if op == 0x10 || op == 0x11 || op == 0x12 || op == 0x13 {
                let ins = if op == 0x10 {
                    Instr::Add
                } else if op == 0x11 {
                    Instr::Sub
                } else if op == 0x12 {
                    Instr::Mul
                } else {
                    Instr::Div
                };
                proof {
                    assert(spec_decode_instr(b, pos as int) == Ok::<(Instr, int), DecodeErr>((ins, pos + 1)));
                    lemma_prepend_code_assoc(done, ins, spec_decode_code(b, pos + 1));
                }
                code.push(ins);
                proof {
                    assert(code@ =~= done.push(ins));
                }
                pos = pos + 1;
            } else if op == 0xff {
                proof {
                    assert(spec_decode_instr(b, pos as int) == Ok::<(Instr, int), DecodeErr>((Instr::Halt, pos + 1)));
                    assert(spec_decode_code(b, pos as int) == Ok::<Seq<Instr>, DecodeErr>(seq![Instr::Halt]));
                }
                code.push(Instr::Halt);
                proof {
                    assert(done + seq![Instr::Halt] =~= code@);
                }
                halted = true;
                pos = pos + 1;
            } else {
                proof {
                    assert(spec_decode_instr(b, pos as int) == Err::<(Instr, int), DecodeErr>(DecodeErr::UnknownOpcode(op)));
                    assert(spec_decode_code(b, pos as int) == Err::<Seq<Instr>, DecodeErr>(DecodeErr::UnknownOpcode(op)));
                }
                return Err(DecodeErr::UnknownOpcode(op));
            }
        }
        proof {
            if !halted {
                assert(spec_decode_code(b, pos as int) == Ok::<Seq<Instr>, DecodeErr>(Seq::empty()));
                assert(code@ + Seq::<Instr>::empty() =~= code@);
            }
            assert(spec_decode_code(b, cpos) == Ok::<Seq<Instr>, DecodeErr>(code@));
        }

        let bc = Bytecode { version, consts, code };
        proof {
            assert(spec_decode(b) == Ok::<BytecodeS, DecodeErr>(bc@));
        }
        Ok(bc)
    }

    /// The number's 64-bit pattern at pool index `idx`, if that entry exists
    /// and is a number.
    pub fn const_as_number(&self, idx: usize) -> (r: Option<u64>)
        ensures
            match r {
                Some(bits) => idx < self@.consts.len() && self@.consts[idx as int]
                    == ConstantS::Number(bits),
                None => idx >= self@.consts.len() || !(self@.consts[idx as int] is Number),
            },
    {
        if idx < self.consts.len() {
            match &self.consts[idx] {
                Constant::Number(bits) => Some(*bits),
                Constant::Text(_) => None,
            }
        } else {
            None
        }
    }

    /// The text at pool index `idx`, if that entry exists and is a text.
    pub fn const_as_str(&self, idx: usize) -> (r: Option<&str>)
        ensures
            match r {
                Some(s) => idx < self@.consts.len() && self@.consts[idx as int]
                    == ConstantS::Text(s@),
                None => idx >= self@.consts.len() || !(self@.consts[idx as int] is Text),
            },
    {
        if idx < self.consts.len() {
            match &self.consts[idx] {
                Constant::Text(s) => Some(s.as_str()),
                Constant::Number(_) => None,
            }
        } else {
            None
        }
    }
}

/// Law: a buffer whose first four bytes are missing or differ from the
/// container magic never decodes, whatever the remaining bytes hold.
pub proof fn lemma_wrong_magic_rejected(b: Seq<u8>)
    requires
        !(b.len() >= 4 && b.subrange(0, 4) == magic()),
    ensures
        spec_decode(b) is Err,
{
}

/// Law: a buffer holding the magic, any version, an empty constant pool and
/// a single Halt opcode decodes to a program with that version, no constants
/// and exactly one Halt instruction.
pub proof fn lemma_minimal_program(v0: u8, v1: u8)
    ensures
        ({
            let b = seq![67u8, 82u8, 67u8, 48u8, v0, v1, 0u8, 0u8, 0xffu8];
            spec_decode(b) == Ok::<BytecodeS, DecodeErr>(
                BytecodeS { version: le16_at(b, 4), consts: Seq::empty(), code: seq![Instr::Halt] },
            )
        }),
{
    let b = seq![67u8, 82u8, 67u8, 48u8, v0, v1, 0u8, 0u8, 0xffu8];
    assert(b.subrange(0, 4) =~= magic());
    assert(b[6] == 0u8 && b[7] == 0u8);
    assert((0u8 as u16) | ((0u8 as u16) << 8) == 0u16) by (bit_vector);
    assert(le16_at(b, 6) == 0u16);
    assert(spec_decode_consts(b, 8, 0) == Ok::<(Seq<ConstantS>, int), DecodeErr>((
        Seq::empty(),
        8,
    )));
    assert(b[8] == 0xffu8);
    assert(spec_decode_instr(b, 8) == Ok::<(Instr, int), DecodeErr>((Instr::Halt, 9)));
    assert(spec_decode_code(b, 8) == Ok::<Seq<Instr>, DecodeErr>(seq![Instr::Halt]));
}

/// The 8-byte little-endian encoding of a 64-bit pattern.
pub open spec fn le64_bytes(x: u64) -> Seq<u8> {
    seq![
        (x & 0xff) as u8,
        ((x >> 8) & 0xff) as u8,
        ((x >> 16) & 0xff) as u8,
        ((x >> 24) & 0xff) as u8,
        ((x >> 32) & 0xff) as u8,
        ((x >> 40) & 0xff) as u8,
        ((x >> 48) & 0xff) as u8,
        ((x >> 56) & 0xff) as u8,
    ]
}

/// The 2-byte little-endian encoding of a 16-bit value.
pub open spec fn le16_bytes(x: u16) -> Seq<u8> {
    seq![(x & 0xff) as u8, ((x >> 8) & 0xff) as u8]
}

/// Law: a number constant round-trips. Decoding a record made of tag `0x01`
/// and the 8-byte little-endian form of any 64-bit pattern yields exactly
/// that number, consuming all 9 bytes.
pub proof fn lemma_number_round_trip(x: u64)
    ensures
        spec_decode_const(seq![1u8] + le64_bytes(x), 0) == Ok::<(ConstantS, int), DecodeErr>((
            ConstantS::Number(x),
            9,
        )),
{
    let b = seq![1u8] + le64_bytes(x);
    assert(b.len() == 9);
    assert(b[0] == 1u8);
    assert(b[1] == (x & 0xff) as u8);
    assert(b[2] == ((x >> 8) & 0xff) as u8);
    assert(b[3] == ((x >> 16) & 0xff) as u8);
    assert(b[4] == ((x >> 24) & 0xff) as u8);
    assert(b[5] == ((x >> 32) & 0xff) as u8);
    assert(b[6] == ((x >> 40) & 0xff) as u8);
    assert(b[7] == ((x >> 48) & 0xff) as u8);
    assert(b[8] == ((x >> 56) & 0xff) as u8);
    assert(((x & 0xff) as u8 as u64) | (((x >> 8) & 0xff) as u8 as u64) << 8 | (((x >> 16) & 0xff)
        as u8 as u64) << 16 | (((x >> 24) & 0xff) as u8 as u64) << 24 | (((x >> 32) & 0xff) as u8
        as u64) << 32 | (((x >> 40) & 0xff) as u8 as u64) << 40 | (((x >> 48) & 0xff) as u8 as u64)
        << 48 | (((x >> 56) & 0xff) as u8 as u64) << 56 == x) by (bit_vector);
    assert(le64_at(b, 1) == x);
}

/// Law: a text constant round-trips. For any character sequence whose UTF-8
/// encoding fits in 65535 bytes, decoding a record made of tag `0x02`, the
/// encoding's 2-byte length and the encoding itself yields exactly that text,
/// consuming the whole record.
pub proof fn lemma_text_round_trip(s: Seq<char>)
    requires
        encode_utf8(s).len() <= 0xffff,
    ensures
        ({
            let payload = encode_utf8(s);
            let record = seq![2u8] + le16_bytes(payload.len() as u16) + payload;
            spec_decode_const(record, 0) == Ok::<(ConstantS, int), DecodeErr>((
                ConstantS::Text(s),
                3 + payload.len() as int,
            ))
        }),
{
    let payload = encode_utf8(s);
    let l = payload.len() as u16;
    let record = seq![2u8] + le16_bytes(l) + payload;
    assert(record.len() == 3 + payload.len());
    assert(record[0] == 2u8);
    assert(record[1] == (l & 0xff) as u8);
    assert(record[2] == ((l >> 8) & 0xff) as u8);
    assert(((l & 0xff) as u8 as u16) | (((l >> 8) & 0xff) as u8 as u16) << 8 == l) by (bit_vector);
    assert(le16_at(record, 1) == l);
    assert(record.subrange(3, 3 + payload.len() as int) =~= payload);
    encode_utf8_valid_utf8(s);
    encode_utf8_decode_utf8(s);
}

} // verus!
