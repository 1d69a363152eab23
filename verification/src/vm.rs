//! Execution engine.
//!
//! The machine owns an operand stack, a global-variable store and a
//! host-function registry, and consumes a decoded program one instruction at
//! a time. `step_spec` states the transition each instruction makes.
//!
//! Numbers are IEEE-754 doubles carried as their 64-bit patterns; the engine
//! never computes on the patterns. Where an instruction needs floating-point
//! work — arithmetic on two operands, parsing a text as a number, or
//! rendering a number as the canonical text used for a variable name — the
//! machine hands the operands to its driver in a `StepOutcome` and waits; the
//! driver performs the one floating-point operation and hands the result back
//! through `resume_number` or `resume_name`. Everything else — dispatch,
//! stack moves, coercion shape, the variable store, halting — is verified.
use vstd::prelude::*;
use crate::bytecode::{Bytecode, BytecodeS, ConstantS, Constant, Instr};
use crate::stdlib::StdLib;

verus! {

/// A runtime value: a number (the 64-bit pattern of an IEEE-754 double), a
/// text, or the distinct no-value marker used whenever an operation needs a
/// value it cannot obtain (empty stack, missing variable).
#[derive(Debug, Clone, PartialEq)]
pub enum Value {
    Number(u64),
    Text(String),
    Absent,
}

/// The mathematical shape of a runtime value.
#[verifier::ext_equal]
pub enum ValueS {
    Number(u64),
    Text(Seq<char>),
    Absent,
}

impl View for Value {
    type V = ValueS;

    open spec fn view(&self) -> ValueS {
        match self {
            Value::Number(bits) => ValueS::Number(*bits),
            Value::Text(s) => ValueS::Text(s@),
            Value::Absent => ValueS::Absent,
        }
    }
}

impl Value {
    /// An equal copy of the value.
    pub fn duplicate(&self) -> (r: Value)
        ensures
            r@ == self@,
    {
        match self {
            Value::Number(bits) => Value::Number(*bits),
            Value::Text(s) => Value::Text(s.clone()),
            Value::Absent => Value::Absent,
        }
    }
}

/// An arithmetic opcode.
#[derive(Debug, Clone, Copy, PartialEq, Eq, Structural)]
pub enum BinOp {
    Add,
    Sub,
    Mul,
    Div,
}

/// A run-time failure. Only a LoadConst whose index lies outside the
/// constant pool is fatal; every other irregularity is absorbed by
/// default-value substitution.
#[derive(Debug, Clone, Copy, PartialEq, Eq, Structural)]
pub enum ExecError {
    ConstIndexOutOfRange(u16),
}

/// What the machine is waiting for after handing work to its driver.
#[derive(Debug, Clone, Copy, PartialEq, Eq, Structural)]
pub enum Pending {
    /// An arithmetic result: the next `resume_number` pushes it.
    Arith,
    /// A rendered variable name for a store: the next `resume_name` pops the
    /// value and binds it.
    Store,
    /// A rendered variable name for a load: the next `resume_name` looks it
    /// up and pushes the result.
    Load,
}

/// An arithmetic operand, coerced as far as the engine can without
/// floating-point work: a number is already its 64-bit pattern, the no-value
/// marker is the pattern of zero, and a text still needs the driver to parse
/// it (substituting zero on parse failure).
#[derive(Debug, Clone, PartialEq)]
pub enum Coerced {
    Bits(u64),
    Parse(String),
}

/// The mathematical shape of a coerced operand.
#[verifier::ext_equal]
pub enum CoercedS {
    Bits(u64),
    Parse(Seq<char>),
}

impl View for Coerced {
    type V = CoercedS;

    open spec fn view(&self) -> CoercedS {
        match self {
            Coerced::Bits(bits) => CoercedS::Bits(*bits),
            Coerced::Parse(s) => CoercedS::Parse(s@),
        }
    }
}

/// What one step of the machine produced.
#[derive(Debug, Clone, PartialEq)]
pub enum StepOutcome {
    /// The instruction completed; the machine is ready for the next step.
    Ran,
    /// An arithmetic instruction needs `lhs op rhs` computed on IEEE-754
    /// doubles; hand the 64-bit pattern of the result to `resume_number`.
    NeedNumber(BinOp, Coerced, Coerced),
    /// A store or load resolves its variable name through a number constant;
    /// hand the number's canonical decimal text to `resume_name`.
    NeedName(u64),
    /// A Halt instruction executed: the run ended, reporting the stack's top
    /// value, or nothing if the stack is empty.
    Halted(Option<Value>),
    /// The instruction pointer reached the end of the code: the run ended
    /// implicitly, likewise reporting the stack's top value if present.
    Finished(Option<Value>),
    /// The run aborted; the state is unchanged and no further instruction
    /// executes.
    Failed(ExecError),
}

/// The mathematical shape of a step outcome.
#[verifier::ext_equal]
pub enum OutcomeS {
    Ran,
    NeedNumber(BinOp, CoercedS, CoercedS),
    NeedName(u64),
    Halted(Option<ValueS>),
    Finished(Option<ValueS>),
    Failed(ExecError),
}

impl View for StepOutcome {
    type V = OutcomeS;

    open spec fn view(&self) -> OutcomeS {
        match self {
            StepOutcome::Ran => OutcomeS::Ran,
            StepOutcome::NeedNumber(op, lhs, rhs) => OutcomeS::NeedNumber(*op, lhs@, rhs@),
            StepOutcome::NeedName(bits) => OutcomeS::NeedName(*bits),
            StepOutcome::Halted(top) => OutcomeS::Halted(
                match top {
                    Some(v) => Some(v@),
                    None => None,
                },
            ),
            StepOutcome::Finished(top) => OutcomeS::Finished(
                match top {
                    Some(v) => Some(v@),
                    None => None,
                },
            ),
            StepOutcome::Failed(e) => OutcomeS::Failed(*e),
        }
    }
}

/// The global-variable store: a flat name-to-value mapping where insertion
/// overwrites. Held as the insertion history; its view is the mapping.
pub struct Globals {
    entries: Vec<(String, Value)>,
}

/// The mapping that an insertion history denotes: later entries win.
pub open spec fn map_of(s: Seq<(String, Value)>) -> Map<Seq<char>, ValueS>
    decreases s.len(),
{
    if s.len() == 0 {
        Map::empty()
    } else {
        map_of(s.drop_last()).insert(s.last().0@, s.last().1@)
    }
}

impl View for Globals {
    type V = Map<Seq<char>, ValueS>;

    closed spec fn view(&self) -> Map<Seq<char>, ValueS> {
        map_of(self.entries@)
    }
}

impl Globals {
    /// An empty store.
    pub fn new() -> (g: Globals)
        ensures
            g@ == Map::<Seq<char>, ValueS>::empty(),
    {
        Globals { entries: Vec::new() }
    }

    /// Binds `name` to `val`, overwriting any previous binding.
    pub fn insert(&mut self, name: String, val: Value)
        ensures
            final(self)@ == old(self)@.insert(name@, val@),
    {
        let ghost olds = self.entries@;
        self.entries.push((name, val));
        proof {
            assert(self.entries@.drop_last() =~= olds);
        }
    }

    /// The value bound to `name`, if any.
    pub fn get(&self, name: &String) -> (r: Option<&Value>)
        ensures
            match r {
                Some(v) => self@.contains_key(name@) && v@ == self@[name@],
                None => !self@.contains_key(name@),
            },
    {
        let ghost s = self.entries@;
        let ghost k = name@;
        let mut i = self.entries.len();
        proof {
            assert(s.take(i as int) =~= s);
        }
        while i > 0
            invariant
                i <= self.entries.len(),
                s == self.entries@,
                k == name@,
                map_of(s).contains_key(k) == map_of(s.take(i as int)).contains_key(k),
                map_of(s).contains_key(k) ==> map_of(s.take(i as int)).contains_key(k)
                    && map_of(s)[k] == map_of(s.take(i as int))[k],
            decreases i,
        {
            let entry = &self.entries[i - 1];
            proof {
                assert(s.take(i as int).drop_last() =~= s.take(i - 1));
                assert(s.take(i as int).last() == s[i - 1]);
            }
            if entry.0 == *name {
                return Some(&entry.1);
            }
            i = i - 1;
        }
        proof {
            assert(s.take(0) =~= Seq::<(String, Value)>::empty());
        }
        None
    }
}

/// The abstract state of a machine: the operand stack, the variable mapping,
/// the names of the registered host functions, the instruction pointer, and
/// what the machine is waiting for, if anything.
#[verifier::ext_equal]
pub struct VmS {
    pub stack: Seq<ValueS>,
    pub globals: Map<Seq<char>, ValueS>,
    pub hosts: Seq<Seq<char>>,
    pub ip: int,
    pub pending: Option<Pending>,
}

/// The views of the values on a stack.
pub open spec fn stack_view(s: Seq<Value>) -> Seq<ValueS> {
    s.map_values(|v: Value| v@)
}

/// The state a fresh machine starts in.
pub open spec fn init_state() -> VmS {
    VmS {
        stack: Seq::empty(),
        globals: Map::empty(),
        hosts: Seq::empty(),
        ip: 0,
        pending: None,
    }
}

/// The value a constant pushes when loaded.
pub open spec fn const_value(c: ConstantS) -> ValueS {
    match c {
        ConstantS::Number(bits) => ValueS::Number(bits),
        ConstantS::Text(s) => ValueS::Text(s),
    }
}

/// The 64-bit pattern of the IEEE-754 double zero.
pub const ZERO_BITS: u64 = 0;

/// Arithmetic coercion, as far as it is float-free: a number is its own
/// pattern, the no-value marker is zero, and a text awaits a parse.
pub open spec fn coerce_view(v: ValueS) -> CoercedS {
    match v {
        ValueS::Number(bits) => CoercedS::Bits(bits),
        ValueS::Text(s) => CoercedS::Parse(s),
        ValueS::Absent => CoercedS::Bits(ZERO_BITS),
    }
}

/// The stack's top value, if any.
pub open spec fn top_of(stack: Seq<ValueS>) -> Option<ValueS> {
    if stack.len() > 0 {
        Some(stack.last())
    } else {
        None
    }
}

/// A pop: the rest of the stack and the popped value, where an empty stack
/// yields the no-value marker and stays empty.
pub open spec fn popped(stack: Seq<ValueS>) -> (Seq<ValueS>, ValueS) {
    if stack.len() > 0 {
        (stack.drop_last(), stack.last())
    } else {
        (stack, ValueS::Absent)
    }
}

/// The value bound to a name, or the no-value marker.
pub open spec fn lookup(g: Map<Seq<char>, ValueS>, name: Seq<char>) -> ValueS {
    if g.contains_key(name) {
        g[name]
    } else {
        ValueS::Absent
    }
}

/// How a store or load resolves pool index `idx` to a variable name: a text
/// constant is the name itself, a number constant needs its canonical
/// decimal rendering, and a missing entry resolves to the empty name.
pub enum NameReqS {
    Known(Seq<char>),
    Render(u64),
}

/// See `NameReqS`.
pub open spec fn name_request(consts: Seq<ConstantS>, idx: int) -> NameReqS {
    if 0 <= idx < consts.len() {
        match consts[idx] {
            ConstantS::Text(s) => NameReqS::Known(s),
            ConstantS::Number(bits) => NameReqS::Render(bits),
        }
    } else {
        NameReqS::Known(Seq::empty())
    }
}

/// The transition an arithmetic instruction makes: pop the right-hand then
/// the left-hand operand, coerce both, and wait for the driver to compute.
pub open spec fn arith_spec(st: VmS, op: BinOp) -> (VmS, OutcomeS) {
    let rhs = popped(st.stack);
    let lhs = popped(rhs.0);
    (
        VmS { stack: lhs.0, ip: st.ip + 1, pending: Some(Pending::Arith), ..st },
        OutcomeS::NeedNumber(op, coerce_view(lhs.1), coerce_view(rhs.1)),
    )
}

/// One step of the machine on a ready state (nothing pending): the next
/// state and what the step produced.
pub open spec fn step_spec(prog: BytecodeS, st: VmS) -> (VmS, OutcomeS)
    recommends
        st.pending is None,
{
    if !(0 <= st.ip < prog.code.len()) {
        (st, OutcomeS::Finished(top_of(st.stack)))
    } else {
        match prog.code[st.ip] {
            Instr::LoadConst(idx) => if idx < prog.consts.len() {
                (
                    VmS {
                        stack: st.stack.push(const_value(prog.consts[idx as int])),
                        ip: st.ip + 1,
                        ..st
                    },
                    OutcomeS::Ran,
                )
            } else {
                (st, OutcomeS::Failed(ExecError::ConstIndexOutOfRange(idx)))
            },
            Instr::StoreVar(idx) => match name_request(prog.consts, idx as int) {
                NameReqS::Known(name) => {
                    let p = popped(st.stack);
                    (
                        VmS {
                            stack: p.0,
                            globals: st.globals.insert(name, p.1),
                            ip: st.ip + 1,
                            ..st
                        },
                        OutcomeS::Ran,
                    )
                },
                NameReqS::Render(bits) => (
                    VmS { ip: st.ip + 1, pending: Some(Pending::Store), ..st },
                    OutcomeS::NeedName(bits),
                ),
            },
            Instr::LoadVar(idx) => match name_request(prog.consts, idx as int) {
                NameReqS::Known(name) => (
                    VmS { stack: st.stack.push(lookup(st.globals, name)), ip: st.ip + 1, ..st },
                    OutcomeS::Ran,
                ),
                NameReqS::Render(bits) => (
                    VmS { ip: st.ip + 1, pending: Some(Pending::Load), ..st },
                    OutcomeS::NeedName(bits),
                ),
            },
            Instr::Add => arith_spec(st, BinOp::Add),
            Instr::Sub => arith_spec(st, BinOp::Sub),
            Instr::Mul => arith_spec(st, BinOp::Mul),
            Instr::Div => arith_spec(st, BinOp::Div),
            Instr::Halt => (st, OutcomeS::Halted(top_of(st.stack))),
        }
    }
}

/// What `resume_number` does: push the computed number and become ready.
pub open spec fn resume_number_spec(st: VmS, bits: u64) -> VmS
    recommends
        st.pending == Some(Pending::Arith),
{
    VmS { stack: st.stack.push(ValueS::Number(bits)), pending: None, ..st }
}

/// What `resume_name` does: finish the store or load that was waiting for a
/// rendered name, and become ready.
pub open spec fn resume_name_spec(st: VmS, name: Seq<char>) -> VmS
    recommends
        st.pending == Some(Pending::Store) || st.pending == Some(Pending::Load),
{
    match st.pending {
        Some(Pending::Store) => {
            let p = popped(st.stack);
            VmS { stack: p.0, globals: st.globals.insert(name, p.1), pending: None, ..st }
        },
        Some(Pending::Load) => VmS {
            stack: st.stack.push(lookup(st.globals, name)),
            pending: None,
            ..st
        },
        _ => st,
    }
}

/// Steps remaining before the instruction pointer reaches the end.
pub open spec fn run_measure(prog: BytecodeS, st: VmS) -> int {
    if st.ip <= prog.code.len() {
        prog.code.len() - st.ip
    } else {
        0
    }
}

/// Repeated stepping until a step yields anything but `Ran`: what `run`
/// returns and the state it leaves behind.
pub open spec fn run_spec(prog: BytecodeS, st: VmS) -> (VmS, OutcomeS)
    recommends
        st.pending is None,
    decreases run_measure(prog, st),
{
    let r = step_spec(prog, st);
    if r.1 is Ran {
        run_spec(prog, r.0)
    } else {
        r
    }
}

/// Arithmetic coercion, as far as it is float-free. The driver finishes a
/// `Parse` by reading the text as a floating-point literal, substituting
/// zero silently if it does not parse.
pub fn coerce(v: Value) -> (c: Coerced)
    ensures
        c@ == coerce_view(v@),
{
    match v {
        Value::Number(bits) => Coerced::Bits(bits),
        Value::Text(s) => Coerced::Parse(s),
        Value::Absent => Coerced::Bits(0),
    }
}

/// A machine: the run-time state of one execution. `H` is the embedder's
/// host-function callback type; the current instruction set never invokes a
/// callback, so the engine only carries the registry.
pub struct VM<H> {
    stack: Vec<Value>,
    globals: Globals,
    stdlib: StdLib<H>,
    ip: usize,
    pending: Option<Pending>,
}

impl<H> View for VM<H> {
    type V = VmS;

    closed spec fn view(&self) -> VmS {
        VmS {
            stack: stack_view(self.stack@),
            globals: self.globals@,
            hosts: self.stdlib.names(),
            ip: self.ip as int,
            pending: self.pending,
        }
    }
}

impl<H> VM<H> {
    /// A fresh machine: empty stack, no variables, empty registry, ready at
    /// the first instruction.
    pub fn new() -> (vm: VM<H>)
        ensures
            vm@ == init_state(),
    {
        let vm = VM {
            stack: Vec::new(),
            globals: Globals::new(),
            stdlib: StdLib::empty(),
            ip: 0,
            pending: None,
        };
        proof {
            assert(vm@ =~= init_state());
        }
        vm
    }

    /// Replaces the host-function registry. Done once, before a run; the
    /// rest of the state is untouched.
    pub fn load_stdlib(&mut self, lib: StdLib<H>)
        ensures
            final(self)@ == (VmS { hosts: lib.names(), ..old(self)@ }),
    {
        let ghost names = lib.names();
        self.stdlib = lib;
        proof {
            assert(self@ =~= (VmS { hosts: names, ..old(self)@ }));
        }
    }

    /// What the machine is waiting for: `None` when it is ready to step,
    /// otherwise the resume call the driver owes it.
    pub fn awaiting(&self) -> (p: Option<Pending>)
        ensures
            p == self@.pending,
    {
        self.pending
    }

    /// Pops the operand stack, yielding the no-value marker if it is empty.
    fn pop_or_absent(&mut self) -> (v: Value)
        ensures
            final(self)@ == (VmS { stack: popped(old(self)@.stack).0, ..old(self)@ }),
            v@ == popped(old(self)@.stack).1,
    {
        let ghost st0 = self@;
        let r = match self.stack.pop() {
            Some(v) => v,
            None => Value::Absent,
        };
        proof {
            if st0.stack.len() > 0 {
                assert(stack_view(self.stack@) =~= st0.stack.drop_last());
            }
            assert(self@ =~= (VmS { stack: popped(st0.stack).0, ..st0 }));
        }
        r
    }

    /// A copy of the stack's top value, if any.
    fn top_value(&self) -> (r: Option<Value>)
        ensures
            match r {
                Some(v) => top_of(self@.stack) == Some(v@),
                None => top_of(self@.stack) is None,
            },
    {
        if self.stack.len() > 0 {
            Some(self.stack[self.stack.len() - 1].duplicate())
        } else {
            None
        }
    }

    /// Pushes the value bound to `name`, or the no-value marker.
    fn push_var(&mut self, name: &String)
        ensures
            final(self)@ == (VmS {
                stack: old(self)@.stack.push(lookup(old(self)@.globals, name@)),
                ..old(self)@
            }),
    {
        let ghost st0 = self@;
        let v = match self.globals.get(name) {
            Some(found) => found.duplicate(),
            None => Value::Absent,
        };
        self.stack.push(v);
        proof {
            assert(stack_view(self.stack@) =~= st0.stack.push(lookup(st0.globals, name@)));
            assert(self@ =~= (VmS { stack: st0.stack.push(lookup(st0.globals, name@)), ..st0 }));
        }
    }

    /// One step: executes the instruction under the instruction pointer as
    /// far as the engine can without floating-point work, exactly as
    /// `step_spec` states. A `NeedNumber` or `NeedName` outcome leaves the
    /// machine waiting for the matching resume call.
    pub fn step(&mut self, bc: &Bytecode) -> (o: StepOutcome)
        requires
            old(self)@.pending is None,
        ensures
            final(self)@ == step_spec(bc@, old(self)@).0,
            o@ == step_spec(bc@, old(self)@).1,
    {
        let ghost st0 = self@;
        let ghost r = step_spec(bc@, st0);
        if self.ip >= bc.code.len() {
            let top = self.top_value();
            return StepOutcome::Finished(top);
        }
        let instr = bc.code[self.ip];
        match instr {
            Instr::LoadConst(idx) => {
                let i = idx as usize;
                if i < bc.consts.len() {
                    let v = match &bc.consts[i] {
                        Constant::Number(bits) => Value::Number(*bits),
                        Constant::Text(s) => Value::Text(s.clone()),
                    };
                    proof {
                        assert(v@ == const_value(bc@.consts[i as int]));
                    }
                    self.stack.push(v);
                    self.ip = self.ip + 1;
                    proof {
                        assert(stack_view(self.stack@) =~= st0.stack.push(
                            const_value(bc@.consts[i as int]),
                        ));
                        assert(self@ =~= r.0);
                    }
                    StepOutcome::Ran
                } else {
                    StepOutcome::Failed(ExecError::ConstIndexOutOfRange(idx))
                }
            },
            Instr::StoreVar(idx) => {
                let i = idx as usize;
                if i < bc.consts.len() {
                    match &bc.consts[i] {
                        Constant::Text(s) => {
                            let name = s.clone();
                            let val = self.pop_or_absent();
                            self.globals.insert(name, val);
                            self.ip = self.ip + 1;
                            proof {
                                assert(self@ =~= r.0);
                            }
                            StepOutcome::Ran
                        },
                        Constant::Number(bits) => {
                            let b = *bits;
                            self.pending = Some(Pending::Store);
                            self.ip = self.ip + 1;
                            proof {
                                assert(self@ =~= r.0);
                            }
                            StepOutcome::NeedName(b)
                        },
                    }
                } else {
                    let name = String::new();
                    let val = self.pop_or_absent();
                    self.globals.insert(name, val);
                    self.ip = self.ip + 1;
                    proof {
                        assert(self@ =~= r.0);
                    }
                    StepOutcome::Ran
                }
            },
            Instr::LoadVar(idx) => {
                let i = idx as usize;
                if i < bc.consts.len() {
                    match &bc.consts[i] {
                        Constant::Text(s) => {
                            let name = s.clone();
                            self.push_var(&name);
                            self.ip = self.ip + 1;
                            proof {
                                assert(self@ =~= r.0);
                            }
                            StepOutcome::Ran
                        },
                        Constant::Number(bits) => {
                            let b = *bits;
                            self.pending = Some(Pending::Load);
                            self.ip = self.ip + 1;
                            proof {
                                assert(self@ =~= r.0);
                            }
                            StepOutcome::NeedName(b)
                        },
                    }
                } else {
                    let name = String::new();
                    self.push_var(&name);
                    self.ip = self.ip + 1;
                    proof {
                        assert(self@ =~= r.0);
                    }
                    StepOutcome::Ran
                }
            },
            Instr::Add => self.arith(BinOp::Add),
            Instr::Sub => self.arith(BinOp::Sub),
            Instr::Mul => self.arith(BinOp::Mul),
            Instr::Div => self.arith(BinOp::Div),
            Instr::Halt => {
                let top = self.top_value();
                StepOutcome::Halted(top)
            },
        }
    }

    /// The shared body of the four arithmetic opcodes: pop the right-hand
    /// then the left-hand operand, coerce both, and wait for the result.
    fn arith(&mut self, op: BinOp) -> (o: StepOutcome)
        requires
            old(self)@.pending is None,
            old(self)@.ip < usize::MAX,
        ensures
            final(self)@ == arith_spec(old(self)@, op).0,
            o@ == arith_spec(old(self)@, op).1,
    {
        let ghost st0 = self@;
        let rhs = self.pop_or_absent();
        let lhs = self.pop_or_absent();
        self.pending = Some(Pending::Arith);
        self.ip = self.ip + 1;
        proof {
            assert(self@ =~= arith_spec(st0, op).0);
        }
        StepOutcome::NeedNumber(op, coerce(lhs), coerce(rhs))
    }

    /// Hands back the 64-bit pattern of the arithmetic result the machine
    /// asked for in a `NeedNumber` outcome: it is pushed and the machine is
    /// ready again.
    pub fn resume_number(&mut self, bits: u64)
        requires
            old(self)@.pending == Some(Pending::Arith),
        ensures
            final(self)@ == resume_number_spec(old(self)@, bits),
    {
        let ghost st0 = self@;
        self.stack.push(Value::Number(bits));
        self.pending = None;
        proof {
            assert(stack_view(self.stack@) =~= st0.stack.push(ValueS::Number(bits)));
            assert(self@ =~= resume_number_spec(st0, bits));
        }
    }

    /// Hands back the rendered variable name the machine asked for in a
    /// `NeedName` outcome: the waiting store or load completes and the
    /// machine is ready again.
    pub fn resume_name(&mut self, name: String)
        requires
            old(self)@.pending == Some(Pending::Store) || old(self)@.pending == Some(
                Pending::Load,
            ),
        ensures
            final(self)@ == resume_name_spec(old(self)@, name@),
    {
        let ghost st0 = self@;
        match self.pending {
            Some(Pending::Store) => {
                let val = self.pop_or_absent();
                self.globals.insert(name, val);
                self.pending = None;
                proof {
                    assert(self@ =~= resume_name_spec(st0, name@));
                }
            },
            _ => {
                self.push_var(&name);
                self.pending = None;
                proof {
                    assert(self@ =~= resume_name_spec(st0, name@));
                }
            },
        }
    }

    /// Runs the machine until a step yields anything but `Ran`: until it
    /// needs floating-point work from the driver, halts, finishes, or fails.
    pub fn run(&mut self, bc: &Bytecode) -> (o: StepOutcome)
        requires
            old(self)@.pending is None,
        ensures
            final(self)@ == run_spec(bc@, old(self)@).0,
            o@ == run_spec(bc@, old(self)@).1,
            !(o@ is Ran),
    {
        let ghost st0 = self@;
        loop
            invariant
                old(self)@ == st0,
                self@.pending is None,
                run_spec(bc@, st0) == run_spec(bc@, self@),
            decreases run_measure(bc@, self@),
        {
            let ghost pre = self@;
            let o = self.step(bc);
            match o {
                StepOutcome::Ran => {
                    proof {
                        assert(step_spec(bc@, pre).1 is Ran);
                        assert(run_spec(bc@, pre) == run_spec(bc@, self@));
                    }
                },
                _ => {
                    proof {
                        assert(!(step_spec(bc@, pre).1 is Ran));
                        assert(run_spec(bc@, pre) == step_spec(bc@, pre));
                        assert(run_spec(bc@, st0).0 == self@);
                        assert(run_spec(bc@, st0).1 == o@);
                    }
                    return o;
                },
            }
        }
    }
}

/// Law: a LoadConst whose index is not below the pool size fails the run.
/// The machine reports the error, its state is unchanged, and the run as a
/// whole stops there: no further instruction executes.
pub proof fn lemma_load_const_out_of_range(prog: BytecodeS, st: VmS, idx: u16)
    requires
        st.pending is None,
        0 <= st.ip < prog.code.len(),
        prog.code[st.ip] == Instr::LoadConst(idx),
        idx >= prog.consts.len(),
    ensures
        step_spec(prog, st) == (st, OutcomeS::Failed(ExecError::ConstIndexOutOfRange(idx))),
        run_spec(prog, st) == (st, OutcomeS::Failed(ExecError::ConstIndexOutOfRange(idx))),
{
}

/// Law: a machine whose instruction pointer has passed the end of the code
/// halts implicitly. The run ends successfully, reporting the stack's top
/// value if one is present, and the state is unchanged.
pub proof fn lemma_implicit_halt(prog: BytecodeS, st: VmS)
    requires
        st.pending is None,
        st.ip >= prog.code.len(),
    ensures
        step_spec(prog, st) == (st, OutcomeS::Finished(top_of(st.stack))),
        run_spec(prog, st) == (st, OutcomeS::Finished(top_of(st.stack))),
{
}

/// Law: the one fatal run-time error is a LoadConst whose index lies outside
/// the constant pool. Every other irregularity — empty-stack pops, missing
/// variables, out-of-range store or load indices, non-numeric operands — is
/// absorbed by default-value substitution and never fails a step.
pub proof fn lemma_only_load_const_fails(prog: BytecodeS, st: VmS)
    requires
        st.pending is None,
    ensures
        step_spec(prog, st).1 is Failed ==> 0 <= st.ip < prog.code.len() && (prog.code[st.ip] matches Instr::LoadConst(idx) && idx >= prog.consts.len()),
{
}

/// Law: an explicit Halt instruction ends the run, reporting the stack's top
/// value if one is present, and leaves the state unchanged.
pub proof fn lemma_halt_reports_top(prog: BytecodeS, st: VmS)
    requires
        st.pending is None,
        0 <= st.ip < prog.code.len(),
        prog.code[st.ip] == Instr::Halt,
    ensures
        step_spec(prog, st) == (st, OutcomeS::Halted(top_of(st.stack))),
        run_spec(prog, st) == (st, OutcomeS::Halted(top_of(st.stack))),
{
}

} // verus!
