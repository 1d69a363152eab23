use crcvm::bytecode::{Bytecode, Constant, Instr};
use crcvm::gc::GC;
use crcvm::stdlib::make_stdlib;
use crcvm::vm::{coerce, BinOp, Coerced, ExecError, StepOutcome, Value, VM};

/// Finishes a coercion: a text is read as a floating-point literal,
/// substituting zero silently if it does not parse.
fn to_f64(c: &Coerced) -> f64 {
    match c {
        Coerced::Bits(bits) => f64::from_bits(*bits),
        Coerced::Parse(s) => s.parse::<f64>().unwrap_or(0.0),
    }
}

/// Drives a machine to its end: performs the floating-point work the engine
/// asks for and resumes it, until the run halts, finishes or fails.
fn drive(vm: &mut VM<u8>, bc: &Bytecode) -> StepOutcome {
    loop {
        match vm.run(bc) {
            StepOutcome::NeedNumber(op, lhs, rhs) => {
                let a = to_f64(&lhs);
                let b = to_f64(&rhs);
                let r = match op {
                    BinOp::Add => a + b,
                    BinOp::Sub => a - b,
                    BinOp::Mul => a * b,
                    BinOp::Div => a / b,
                };
                vm.resume_number(r.to_bits());
            }
            StepOutcome::NeedName(bits) => {
                vm.resume_name(f64::from_bits(bits).to_string());
            }
            other => return other,
        }
    }
}

fn number(v: f64) -> Constant {
    Constant::Number(v.to_bits())
}

fn text(s: &str) -> Constant {
    Constant::Text(s.to_string())
}

fn program(consts: Vec<Constant>, code: Vec<Instr>) -> Bytecode {
    Bytecode { version: 1, consts, code }
}

fn halted_number(outcome: StepOutcome) -> f64 {
    match outcome {
        StepOutcome::Halted(Some(Value::Number(bits))) => f64::from_bits(bits),
        other => panic!("expected a halt with a number on top, got {:?}", other),
    }
}

#[test]
fn store_load_add_reports_seven() {
    let bc = program(
        vec![text("x"), number(3.0), number(4.0)],
        vec![
            Instr::LoadConst(1),
            Instr::StoreVar(0),
            Instr::LoadConst(2),
            Instr::LoadVar(0),
            Instr::Add,
            Instr::Halt,
        ],
    );
    let mut vm: VM<u8> = VM::new();
    let n = halted_number(drive(&mut vm, &bc));
    assert_eq!(n, 7.0);
    assert_eq!(format!("{}", n), "7");
}

#[test]
fn non_numeric_operands_coerce_to_zero() {
    let bc = program(
        vec![text("abc")],
        vec![Instr::LoadConst(0), Instr::LoadConst(0), Instr::Add, Instr::Halt],
    );
    let mut vm: VM<u8> = VM::new();
    let n = halted_number(drive(&mut vm, &bc));
    assert_eq!(n, 0.0);
    assert_eq!(format!("{}", n), "0");
}

#[test]
fn numeric_text_parses_in_arithmetic() {
    let bc = program(
        vec![text("2.5"), number(0.5)],
        vec![Instr::LoadConst(0), Instr::LoadConst(1), Instr::Add, Instr::Halt],
    );
    let mut vm: VM<u8> = VM::new();
    assert_eq!(halted_number(drive(&mut vm, &bc)), 3.0);
}

#[test]
fn division_by_zero_yields_infinity() {
    let bc = program(
        vec![number(1.0), number(0.0)],
        vec![Instr::LoadConst(0), Instr::LoadConst(1), Instr::Div, Instr::Halt],
    );
    let mut vm: VM<u8> = VM::new();
    let n = halted_number(drive(&mut vm, &bc));
    assert_eq!(n, f64::INFINITY);
}

#[test]
fn sub_and_mul() {
    let bc = program(
        vec![number(10.0), number(4.0), number(7.0)],
        vec![
            Instr::LoadConst(0),
            Instr::LoadConst(1),
            Instr::Sub,
            Instr::LoadConst(2),
            Instr::Mul,
            Instr::Halt,
        ],
    );
    let mut vm: VM<u8> = VM::new();
    assert_eq!(halted_number(drive(&mut vm, &bc)), 42.0);
}

#[test]
fn load_const_out_of_range_fails() {
    let bc = program(
        vec![],
        vec![Instr::LoadConst(3), Instr::LoadConst(0), Instr::Halt],
    );
    let mut vm: VM<u8> = VM::new();
    let outcome = drive(&mut vm, &bc);
    assert_eq!(outcome, StepOutcome::Failed(ExecError::ConstIndexOutOfRange(3)));
    // The state did not move past the failing instruction: stepping again
    // fails the same way, and nothing was pushed meanwhile.
    let again = drive(&mut vm, &bc);
    assert_eq!(again, StepOutcome::Failed(ExecError::ConstIndexOutOfRange(3)));
}

#[test]
fn implicit_halt_reports_top() {
    let bc = program(vec![number(5.0)], vec![Instr::LoadConst(0)]);
    let mut vm: VM<u8> = VM::new();
    match drive(&mut vm, &bc) {
        StepOutcome::Finished(Some(Value::Number(bits))) => {
            assert_eq!(f64::from_bits(bits), 5.0);
        }
        other => panic!("expected an implicit halt with a top value, got {:?}", other),
    }
}

#[test]
fn implicit_halt_with_empty_stack() {
    let bc = program(vec![], vec![]);
    let mut vm: VM<u8> = VM::new();
    assert_eq!(drive(&mut vm, &bc), StepOutcome::Finished(None));
}

#[test]
fn halt_with_empty_stack() {
    let bc = program(vec![], vec![Instr::Halt]);
    let mut vm: VM<u8> = VM::new();
    assert_eq!(drive(&mut vm, &bc), StepOutcome::Halted(None));
}

#[test]
fn halt_reports_text_top() {
    let bc = program(vec![text("done")], vec![Instr::LoadConst(0), Instr::Halt]);
    let mut vm: VM<u8> = VM::new();
    assert_eq!(
        drive(&mut vm, &bc),
        StepOutcome::Halted(Some(Value::Text("done".to_string())))
    );
}

#[test]
fn numeric_constant_renders_variable_name() {
    // StoreVar/LoadVar through a Number constant resolve the name "3".
    let bc = program(
        vec![number(3.0), number(42.0)],
        vec![
            Instr::LoadConst(1),
            Instr::StoreVar(0),
            Instr::LoadVar(0),
            Instr::Halt,
        ],
    );
    let mut vm: VM<u8> = VM::new();
    assert_eq!(halted_number(drive(&mut vm, &bc)), 42.0);
}

#[test]
fn missing_variable_loads_absent() {
    let bc = program(vec![text("y")], vec![Instr::LoadVar(0), Instr::Halt]);
    let mut vm: VM<u8> = VM::new();
    assert_eq!(drive(&mut vm, &bc), StepOutcome::Halted(Some(Value::Absent)));
}

#[test]
fn out_of_range_name_resolves_to_empty() {
    // StoreVar(7) with an empty pool binds the empty name; LoadVar(9) reads
    // the same empty name back. The store pops an empty stack, so the bound
    // value is the no-value marker.
    let bc = program(
        vec![],
        vec![Instr::StoreVar(7), Instr::LoadVar(9), Instr::Halt],
    );
    let mut vm: VM<u8> = VM::new();
    assert_eq!(drive(&mut vm, &bc), StepOutcome::Halted(Some(Value::Absent)));
}

#[test]
fn insertion_overwrites() {
    let bc = program(
        vec![text("v"), number(1.0), number(2.0)],
        vec![
            Instr::LoadConst(1),
            Instr::StoreVar(0),
            Instr::LoadConst(2),
            Instr::StoreVar(0),
            Instr::LoadVar(0),
            Instr::Halt,
        ],
    );
    let mut vm: VM<u8> = VM::new();
    assert_eq!(halted_number(drive(&mut vm, &bc)), 2.0);
}

#[test]
fn absent_operands_coerce_to_zero() {
    // Arithmetic on an empty stack: both pops yield the no-value marker,
    // which coerces to zero.
    let bc = program(vec![], vec![Instr::Add, Instr::Halt]);
    let mut vm: VM<u8> = VM::new();
    assert_eq!(halted_number(drive(&mut vm, &bc)), 0.0);
}

#[test]
fn coercion_shapes() {
    assert_eq!(coerce(Value::Absent), Coerced::Bits(0));
    assert_eq!(coerce(Value::Number(2.5f64.to_bits())), Coerced::Bits(2.5f64.to_bits()));
    assert_eq!(
        coerce(Value::Text("7".to_string())),
        Coerced::Parse("7".to_string())
    );
}

#[test]
fn decode_then_execute_end_to_end() {
    let mut buf = vec![b'C', b'R', b'C', b'0'];
    buf.extend_from_slice(&1u16.to_le_bytes());
    buf.extend_from_slice(&3u16.to_le_bytes());
    // Text "x"
    buf.extend_from_slice(&[0x02, 0x01, 0x00, b'x']);
    // Numbers 3 and 4
    buf.push(0x01);
    buf.extend_from_slice(&3.0f64.to_bits().to_le_bytes());
    buf.push(0x01);
    buf.extend_from_slice(&4.0f64.to_bits().to_le_bytes());
    // LoadConst 1, StoreVar 0, LoadConst 2, LoadVar 0, Add, Halt
    buf.extend_from_slice(&[0x01, 0x01, 0x00]);
    buf.extend_from_slice(&[0x02, 0x00, 0x00]);
    buf.extend_from_slice(&[0x01, 0x02, 0x00]);
    buf.extend_from_slice(&[0x03, 0x00, 0x00]);
    buf.extend_from_slice(&[0x10, 0xff]);
    let bc = Bytecode::from_bytes(&buf).unwrap();
    let mut vm: VM<u8> = VM::new();
    vm.load_stdlib(make_stdlib());
    assert_eq!(halted_number(drive(&mut vm, &bc)), 7.0);
}

#[test]
fn program_is_reusable_across_runs() {
    let bc = program(
        vec![number(2.0), number(3.0)],
        vec![Instr::LoadConst(0), Instr::LoadConst(1), Instr::Mul, Instr::Halt],
    );
    let mut first: VM<u8> = VM::new();
    assert_eq!(halted_number(drive(&mut first, &bc)), 6.0);
    let mut second: VM<u8> = VM::new();
    assert_eq!(halted_number(drive(&mut second, &bc)), 6.0);
}

#[test]
fn gc_is_a_no_op() {
    let gc = GC::new();
    gc.collect();
}

#[test]
fn stdlib_is_empty_by_default() {
    let mut vm: VM<u8> = VM::new();
    vm.load_stdlib(make_stdlib());
    assert!(vm.awaiting().is_none());
}

#[test]
fn registry_accepts_entries_without_affecting_runs() {
    let mut lib = make_stdlib();
    lib.register("print".to_string(), 0u8);
    let bc = program(vec![number(9.0)], vec![Instr::LoadConst(0), Instr::Halt]);
    let mut vm: VM<u8> = VM::new();
    vm.load_stdlib(lib);
    assert_eq!(halted_number(drive(&mut vm, &bc)), 9.0);
}
