//! The virtual machine: it runs the bytecode of the top-level chunk of a
//! program on a stack of values.
//!
//! What one instruction does is said by `step` on a model of the machine;
//! the machine itself follows it instruction by instruction. Arithmetic on
//! floats is left to the host: the machine stops before such an
//! instruction and goes on once the host has put the result in its place.

use vstd::prelude::*;
use vstd::string::StringExecFns;
use crate::codegen::chunk::{const_value, Constant, Program};
use crate::codegen::jumps::jump_target;
use crate::codegen::opcodes::OpCode;
use crate::debug::dasm::{decode, decode_at, Instruction};
use crate::debug::traceback::TraceSite;
use crate::parser::binop::BinaryOp;
use crate::parser::expr::UnaryOp;
use crate::runtime::echo::{Glyph, Rendering};
use crate::runtime::errors::{ErrorKind, ExecResult, RuntimeError};
use crate::runtime::gc::GC;
use crate::runtime::globals::GlobalEnv;
use crate::runtime::ops::{
    apply_binary, apply_unary, eval_binary, eval_unary, strings_after, tells, truth_of, Applied,
};
use crate::runtime::strings::{text_of, StringTable, SYMBOL_LIMIT};
use crate::runtime::variant::{
    known, lemma_value_facts, lemma_views, lemma_views_take, show, views, StringSymbol, Value,
    Variant,
};

verus! {

/// The state of the machine: the stack of values, the place of the next
/// instruction, what was echoed, the global variables by the positions of
/// their names, and the strings of the process.
pub ghost struct Machine {
    pub stack: Seq<Value>,
    pub ip: int,
    pub output: Seq<Seq<Glyph>>,
    pub globals: Map<nat, (Value, bool)>,
    pub strings: Seq<Seq<char>>,
}

/// Why an instruction failed.
pub ghost enum Failure {
    /// An operator failed on its operands.
    Operator(Applied),
    /// No global variable has the name.
    NotDefined(Seq<char>),
    /// The global variable cannot be assigned to.
    Immutable,
    AssertFailed,
    /// The bytecode is no program: a byte that is no instruction, a value
    /// missing on the stack, a constant or a name that is not there.
    Broken,
}

/// What one instruction comes to: the machine goes on, the program
/// returns, the host has to compute, or the instruction fails.
pub ghost enum Stepped {
    Next(Machine),
    Return,
    Host,
    Fail(Failure),
}

/// Whether `value` is the name of a string of `strings`.
pub open spec fn is_name(value: Value, strings: Seq<Seq<char>>) -> bool {
    value matches Value::String(name) && name.index() < strings.len()
}

/// Whether the constant can be loaded: it is no function, and a string
/// constant refers to a string of the program.
pub open spec fn loadable(constant: Constant, symbols: Seq<StringSymbol>) -> bool {
    &&& !(constant is Function)
    &&& constant matches Constant::String(at) ==> at < symbols.len()
}

/// The binary operator that `op` computes, if it computes one.
pub open spec fn spec_binary_of(op: OpCode) -> Option<BinaryOp> {
    match op {
        OpCode::Mul => Some(BinaryOp::Mul),
        OpCode::Div => Some(BinaryOp::Div),
        OpCode::Mod => Some(BinaryOp::Mod),
        OpCode::Add => Some(BinaryOp::Add),
        OpCode::Sub => Some(BinaryOp::Sub),
        OpCode::LShift => Some(BinaryOp::LShift),
        OpCode::RShift => Some(BinaryOp::RShift),
        OpCode::And => Some(BinaryOp::BitAnd),
        OpCode::Xor => Some(BinaryOp::BitXor),
        OpCode::Or => Some(BinaryOp::BitOr),
        OpCode::LT => Some(BinaryOp::LT),
        OpCode::GT => Some(BinaryOp::GT),
        OpCode::LE => Some(BinaryOp::LE),
        OpCode::GE => Some(BinaryOp::GE),
        OpCode::EQ => Some(BinaryOp::EQ),
        OpCode::NE => Some(BinaryOp::NE),
        _ => None,
    }
}

#[verifier::when_used_as_spec(spec_binary_of)]
pub fn binary_of(op: OpCode) -> (found: Option<BinaryOp>)
    ensures
        found == spec_binary_of(op),
{
    match op {
        OpCode::Mul => Some(BinaryOp::Mul),
        OpCode::Div => Some(BinaryOp::Div),
        OpCode::Mod => Some(BinaryOp::Mod),
        OpCode::Add => Some(BinaryOp::Add),
        OpCode::Sub => Some(BinaryOp::Sub),
        OpCode::LShift => Some(BinaryOp::LShift),
        OpCode::RShift => Some(BinaryOp::RShift),
        OpCode::And => Some(BinaryOp::BitAnd),
        OpCode::Xor => Some(BinaryOp::BitXor),
        OpCode::Or => Some(BinaryOp::BitOr),
        OpCode::LT => Some(BinaryOp::LT),
        OpCode::GT => Some(BinaryOp::GT),
        OpCode::LE => Some(BinaryOp::LE),
        OpCode::GE => Some(BinaryOp::GE),
        OpCode::EQ => Some(BinaryOp::EQ),
        OpCode::NE => Some(BinaryOp::NE),
        _ => None,
    }
}

/// The unary operator that `op` computes, if it computes one.
pub open spec fn spec_unary_of(op: OpCode) -> Option<UnaryOp> {
    match op {
        OpCode::Neg => Some(UnaryOp::Neg),
        OpCode::Pos => Some(UnaryOp::Pos),
        OpCode::Inv => Some(UnaryOp::Inv),
        OpCode::Not => Some(UnaryOp::Not),
        _ => None,
    }
}

#[verifier::when_used_as_spec(spec_unary_of)]
pub fn unary_of(op: OpCode) -> (found: Option<UnaryOp>)
    ensures
        found == spec_unary_of(op),
{
    match op {
        OpCode::Neg => Some(UnaryOp::Neg),
        OpCode::Pos => Some(UnaryOp::Pos),
        OpCode::Inv => Some(UnaryOp::Inv),
        OpCode::Not => Some(UnaryOp::Not),
        _ => None,
    }
}

/// The machine `m` with `value` pushed, at the instruction at `next`.
pub open spec fn pushed(m: Machine, value: Value, next: int) -> Machine {
    Machine { stack: m.stack.push(value), ip: next, ..m }
}

/// The machine `m` with the top `count` values taken off, at the
/// instruction at `next`.
pub open spec fn dropped(m: Machine, count: int, next: int) -> Machine {
    Machine { stack: m.stack.take(m.stack.len() - count), ip: next, ..m }
}

/// What an operator comes to on the machine `m`, its result replacing its
/// `count` operands.
pub open spec fn operated(m: Machine, found: Applied, count: int, next: int, strings: Seq<Seq<char>>)
    -> Stepped {
    match found {
        Applied::Value(value) => Stepped::Next(
            Machine { strings, ..pushed(dropped(m, count, next), value, next) },
        ),
        Applied::Host => Stepped::Host,
        failed => Stepped::Fail(Failure::Operator(failed)),
    }
}

/// What a jump of the machine `m` to `target` comes to.
pub open spec fn jumped(code: Seq<u8>, m: Machine) -> Stepped {
    let target = jump_target(code, m.ip);
    if 0 <= target <= code.len() {
        Stepped::Next(Machine { ip: target, ..m })
    } else {
        Stepped::Fail(Failure::Broken)
    }
}

/// What the instruction at the place of the machine `m` comes to, in the
/// code `code` of a program with the constants `consts` and the string
/// symbols `symbols`.
pub open spec fn step(code: Seq<u8>, consts: Seq<Constant>, symbols: Seq<StringSymbol>, m: Machine)
    -> Stepped {
    match decode_at(code, m.ip) {
        None => Stepped::Fail(Failure::Broken),
        Some(instr) => {
            let next = m.ip + 1 + instr.opcode.spec_operand_len();
            let depth = m.stack.len();
            if spec_binary_of(instr.opcode).is_some() {
                let op = spec_binary_of(instr.opcode).unwrap();
                if depth >= 2 && (m.stack[depth - 2] is String ==> is_name(
                    m.stack[depth - 2],
                    m.strings,
                )) && (m.stack[depth - 1] is String ==> is_name(m.stack[depth - 1], m.strings))
                    && m.strings.len() < SYMBOL_LIMIT {
                    operated(
                        m,
                        apply_binary(op, m.stack[depth - 2], m.stack[depth - 1], m.strings),
                        2,
                        next,
                        if m.stack[depth - 2].holds_float() || m.stack[depth - 1].holds_float() {
                            m.strings
                        } else {
                            strings_after(op, m.stack[depth - 2], m.stack[depth - 1], m.strings)
                        },
                    )
                } else {
                    Stepped::Fail(Failure::Broken)
                }
            } else if spec_unary_of(instr.opcode).is_some() {
                let op = spec_unary_of(instr.opcode).unwrap();
                if depth >= 1 {
                    operated(m, apply_unary(op, m.stack[depth - 1]), 1, next, m.strings)
                } else {
                    Stepped::Fail(Failure::Broken)
                }
            } else {
                match instr.opcode {
                    OpCode::Return => Stepped::Return,
                    OpCode::Pop => if depth >= 1 {
                        Stepped::Next(dropped(m, 1, next))
                    } else {
                        Stepped::Fail(Failure::Broken)
                    },
                    OpCode::Dup => if depth >= 1 {
                        Stepped::Next(pushed(m, m.stack[depth - 1], next))
                    } else {
                        Stepped::Fail(Failure::Broken)
                    },
                    OpCode::LoadConst | OpCode::LoadConstWide => if instr.operand < consts.len()
                        && loadable(consts[instr.operand as int], symbols) {
                        Stepped::Next(
                            pushed(m, const_value(consts[instr.operand as int], symbols), next),
                        )
                    } else {
                        Stepped::Fail(Failure::Broken)
                    },
                    OpCode::Nil => Stepped::Next(pushed(m, Value::Nil, next)),
                    OpCode::Empty => Stepped::Next(pushed(m, Value::EmptyTuple, next)),
                    OpCode::True => Stepped::Next(pushed(m, Value::BoolTrue, next)),
                    OpCode::False => Stepped::Next(pushed(m, Value::BoolFalse, next)),
                    OpCode::LoadGlobal => if depth >= 1 && is_name(m.stack[depth - 1], m.strings) {
                        let name = m.stack[depth - 1]->String_0;
                        if m.globals.contains_key(name.index()) {
                            Stepped::Next(
                                pushed(dropped(m, 1, next), m.globals[name.index()].0, next),
                            )
                        } else {
                            Stepped::Fail(Failure::NotDefined(text_of(m.strings, name)))
                        }
                    } else {
                        Stepped::Fail(Failure::Broken)
                    },
                    OpCode::StoreGlobal => if depth >= 2 && is_name(m.stack[depth - 1], m.strings) {
                        let name = m.stack[depth - 1]->String_0;
                        if !m.globals.contains_key(name.index()) {
                            Stepped::Fail(Failure::NotDefined(text_of(m.strings, name)))
                        } else if !m.globals[name.index()].1 {
                            Stepped::Fail(Failure::Immutable)
                        } else {
                            Stepped::Next(
                                Machine {
                                    globals: m.globals.insert(
                                        name.index(),
                                        (m.stack[depth - 2], true),
                                    ),
                                    ..dropped(m, 1, next)
                                },
                            )
                        }
                    } else {
                        Stepped::Fail(Failure::Broken)
                    },
                    OpCode::InsertGlobal | OpCode::InsertGlobalMut => if depth >= 2 && is_name(
                        m.stack[depth - 1],
                        m.strings,
                    ) {
                        let name = m.stack[depth - 1]->String_0;
                        Stepped::Next(
                            Machine {
                                globals: m.globals.insert(
                                    name.index(),
                                    (m.stack[depth - 2], instr.opcode == OpCode::InsertGlobalMut),
                                ),
                                ..dropped(m, 2, next)
                            },
                        )
                    } else {
                        Stepped::Fail(Failure::Broken)
                    },
                    OpCode::Jump => jumped(code, m),
                    OpCode::JumpIfFalse => if depth >= 1 {
                        if !m.stack[depth - 1].truth() {
                            jumped(code, m)
                        } else {
                            Stepped::Next(Machine { ip: next, ..m })
                        }
                    } else {
                        Stepped::Fail(Failure::Broken)
                    },
                    OpCode::JumpIfTrue => if depth >= 1 {
                        if m.stack[depth - 1].truth() {
                            jumped(code, m)
                        } else {
                            Stepped::Next(Machine { ip: next, ..m })
                        }
                    } else {
                        Stepped::Fail(Failure::Broken)
                    },
                    OpCode::Echo => if depth >= 1 && known(m.stack[depth - 1], m.strings) {
                        Stepped::Next(
                            Machine {
                                output: m.output.push(show(m.stack[depth - 1], m.strings, false)),
                                ..dropped(m, 1, next)
                            },
                        )
                    } else {
                        Stepped::Fail(Failure::Broken)
                    },
                    OpCode::Assert => if depth >= 1 {
                        if m.stack[depth - 1].truth() {
                            Stepped::Next(dropped(m, 1, next))
                        } else {
                            Stepped::Fail(Failure::AssertFailed)
                        }
                    } else {
                        Stepped::Fail(Failure::Broken)
                    },
                    _ => Stepped::Fail(Failure::Broken),
                }
            }
        },
    }
}

/// Whether `error` tells the failure `failure` of the instruction at `at`:
/// it is of the kind of the failure, and its traceback is that instruction.
pub open spec fn reports(failure: Failure, error: Box<RuntimeError>, at: int) -> bool {
    &&& error.trace() == seq![TraceSite { chunk_id: 0, offset: at as usize }]
    &&& error.spec_cause().is_none()
    &&& match failure {
        Failure::Operator(Applied::Overflow) => error.spec_kind() is OverflowError,
        Failure::Operator(Applied::DivideByZero) => error.spec_kind() is DivideByZero,
        Failure::Operator(Applied::NegativeShiftCount) => error.spec_kind() is NegativeShiftCount,
        Failure::Operator(Applied::Invalid(left, right)) => error.spec_kind() matches ErrorKind::InvalidBinaryOperand(
            a,
            b,
        ) && a == left && b == right,
        Failure::Operator(Applied::InvalidOperand(tag)) => error.spec_kind() matches ErrorKind::InvalidUnaryOperand(
            a,
        ) && a == tag,
        Failure::Operator(_) => false,
        Failure::NotDefined(name) => error.spec_kind() matches ErrorKind::NameNotDefined(told)
            && told@ == name,
        Failure::Immutable => error.spec_kind() is CantAssignImmutable,
        Failure::AssertFailed => error.spec_kind() is AssertFailed,
        Failure::Broken => error.spec_kind() matches ErrorKind::Other(message) && message@
            == "malformed bytecode"@,
    }
}

/// How a run of the machine ends.
pub ghost enum Ended {
    /// The steps that were allowed are used up.
    OutOfSteps,
    Return,
    Host,
    Fail(Failure),
}

/// What a run comes to: the machine where it stopped, and how it ended.
pub ghost struct Ran {
    pub machine: Machine,
    pub end: Ended,
}

/// What running the machine `m` for at most `steps` instructions comes to:
/// it goes on instruction by instruction until the program returns, the
/// host has to compute, an instruction fails, or the steps are used up.
pub open spec fn run(
    code: Seq<u8>,
    consts: Seq<Constant>,
    symbols: Seq<StringSymbol>,
    m: Machine,
    steps: nat,
) -> Ran
    decreases steps,
{
    if steps == 0 {
        Ran { machine: m, end: Ended::OutOfSteps }
    } else {
        match step(code, consts, symbols, m) {
            Stepped::Next(next) => run(code, consts, symbols, next, (steps - 1) as nat),
            Stepped::Return => Ran { machine: m, end: Ended::Return },
            Stepped::Host => Ran { machine: m, end: Ended::Host },
            Stepped::Fail(failure) => Ran { machine: m, end: Ended::Fail(failure) },
        }
    }
}

/// How the machine came to stop.
#[derive(Debug, Clone, Copy, PartialEq, Eq, Structural)]
pub enum Flow {
    /// The machine can go on.
    Continue,
    /// The program has returned.
    Return,
    /// The next instruction computes on floats: the host puts its result
    /// in the place of its operands with `resume`.
    Host,
}

/// Whether the machine went from `before` to `after` with `result` as the
/// instruction said: on to the next state, or stopped where it was.
pub open spec fn conforms(
    stepped: Stepped,
    before: Machine,
    after: Machine,
    result: Result<Flow, Box<RuntimeError>>,
) -> bool {
    match stepped {
        Stepped::Next(m) => result == Ok::<Flow, Box<RuntimeError>>(Flow::Continue) && after == m,
        Stepped::Return => result == Ok::<Flow, Box<RuntimeError>>(Flow::Return) && after == before,
        Stepped::Host => result == Ok::<Flow, Box<RuntimeError>>(Flow::Host) && after == before,
        Stepped::Fail(failure) => result matches Err(error) && reports(failure, error, before.ip)
            && after == before,
    }
}

/// What `out` holds, text by text.
pub open spec fn texts(out: Seq<Rendering>) -> Seq<Seq<Glyph>>
    decreases out.len(),
{
    if out.len() == 0 {
        Seq::empty()
    } else {
        texts(out.drop_last()).push(out.last()@)
    }
}

/// How many operands the host is to compute on in `m`: those of the
/// operator that the machine is before, if they are on the stack, else
/// none.
pub open spec fn operands_due(code: Seq<u8>, m: Machine) -> int {
    match decode_at(code, m.ip) {
        Some(instr) => {
            let count: int = if spec_binary_of(instr.opcode).is_some() {
                2
            } else if spec_unary_of(instr.opcode).is_some() {
                1
            } else {
                0
            };
            if count <= m.stack.len() {
                count
            } else {
                0
            }
        },
        None => 0,
    }
}

/// The machine `m` once the host has computed `result`: it stands in the
/// place of the operands, and the machine is behind the operator. A
/// machine that no operands are due in stays as it is.
pub open spec fn resumed(code: Seq<u8>, m: Machine, result: Value) -> Machine {
    let count = operands_due(code, m);
    if count > 0 {
        let next = m.ip + 1 + decode_at(code, m.ip).unwrap().opcode.spec_operand_len();
        pushed(dropped(m, count, next), result, next)
    } else {
        m
    }
}

/// A virtual machine on the top-level chunk of a program.
pub struct VirtualMachine<'p> {
    program: &'p Program,
    stack: Vec<Variant>,
    ip: usize,
    output: Vec<Rendering>,
}

impl<'p> VirtualMachine<'p> {
    /// The program that the machine runs.
    pub closed spec fn program(&self) -> &'p Program {
        self.program
    }

    /// The code that the machine runs: the top-level chunk of its program.
    pub open spec fn code(&self) -> Seq<u8> {
        self.program()@.chunks[0]
    }

    /// The state of the machine, with the global variables `globals` and the
    /// strings `strings`.
    pub closed spec fn machine(&self, globals: Map<nat, (Value, bool)>, strings: Seq<Seq<char>>)
        -> Machine {
        Machine {
            stack: views(self.stack@),
            ip: self.ip as int,
            output: texts(self.output@),
            globals,
            strings,
        }
    }

    /// The invariant of the machine: its program has a top-level chunk.
    pub closed spec fn wf(&self) -> bool {
        self.program@.chunks.len() >= 1
    }

    /// What the next instruction comes to, with the global variables
    /// `globals` and the strings `strings`.
    pub open spec fn next_step(&self, globals: Map<nat, (Value, bool)>, strings: Seq<Seq<char>>)
        -> Stepped {
        step(
            self.code(),
            self.program()@.consts,
            self.program()@.strings,
            self.machine(globals, strings),
        )
    }

    /// A machine at the start of the top-level chunk of `program`, with an
    /// empty stack.
    pub fn new(program: &'p Program) -> (vm: VirtualMachine<'p>)
        requires
            program@.chunks.len() >= 1,
        ensures
            vm.wf(),
            vm.program() == program,
            forall|globals: Map<nat, (Value, bool)>, strings: Seq<Seq<char>>|
                #[trigger] vm.machine(globals, strings) == (Machine {
                    stack: Seq::empty(),
                    ip: 0,
                    output: Seq::empty(),
                    globals,
                    strings,
                }),
    {
        VirtualMachine { program, stack: Vec::new(), ip: 0, output: Vec::new() }
    }

    /// What was echoed, in its order.
    pub fn output(&self) -> (output: &Vec<Rendering>)
        ensures
            forall|globals: Map<nat, (Value, bool)>, strings: Seq<Seq<char>>|
                texts(output@) == (#[trigger] self.machine(globals, strings)).output,
    {
        &self.output
    }

    /// The values on the stack, the top last.
    pub fn stack(&self) -> (stack: &Vec<Variant>)
        ensures
            forall|globals: Map<nat, (Value, bool)>, strings: Seq<Seq<char>>|
                views(stack@) == (#[trigger] self.machine(globals, strings)).stack,
    {
        &self.stack
    }

    /// The place of the next instruction.
    pub fn ip(&self) -> (ip: usize)
        ensures
            forall|globals: Map<nat, (Value, bool)>, strings: Seq<Seq<char>>|
                ip == (#[trigger] self.machine(globals, strings)).ip,
    {
        self.ip
    }

    /// The error of the kind `kind` at the instruction that the machine is
    /// at.
    fn fail(&self, kind: ErrorKind) -> (error: Box<RuntimeError>)
        ensures
            *error.spec_kind() == kind,
            error.trace() == seq![TraceSite { chunk_id: 0, offset: self.ip }],
            error.spec_cause().is_none(),
    {
        let error = RuntimeError::boxed(kind).push_frame(TraceSite { chunk_id: 0, offset: self.ip });
        assert(error.trace() =~= seq![TraceSite { chunk_id: 0, offset: self.ip }]);
        error
    }

    /// The error of bytecode that is no program.
    fn broken(&self) -> (error: Box<RuntimeError>)
        ensures
            reports(Failure::Broken, error, self.ip as int),
    {
        self.fail(ErrorKind::Other(String::from_str("malformed bytecode")))
    }

    /// Takes the top `count` values off the stack and puts `value` there,
    /// and goes to the instruction at `next`.
    fn replace(&mut self, count: usize, value: Variant, next: usize)
        requires
            old(self).wf(),
            count <= old(self).stack@.len(),
        ensures
            final(self).wf(),
            final(self).program() == old(self).program(),
            forall|globals: Map<nat, (Value, bool)>, strings: Seq<Seq<char>>|
                #[trigger] final(self).machine(globals, strings) == pushed(
                    dropped(old(self).machine(globals, strings), count as int, next as int),
                    value@,
                    next as int,
                ),
    {
        let depth = self.stack.len();
        proof {
            lemma_views(self.stack@);
            lemma_views_take(self.stack@, depth - count);
            lemma_views_take(self.stack@.take(depth - count), 0);
        }
        self.stack.truncate(depth - count);
        self.stack.push(value);
        self.ip = next;
    }

    /// Takes the top `count` values off the stack, and goes to the
    /// instruction at `next`.
    fn drop_top(&mut self, count: usize, next: usize)
        requires
            old(self).wf(),
            count <= old(self).stack@.len(),
        ensures
            final(self).wf(),
            final(self).program() == old(self).program(),
            forall|globals: Map<nat, (Value, bool)>, strings: Seq<Seq<char>>|
                #[trigger] final(self).machine(globals, strings) == dropped(
                    old(self).machine(globals, strings),
                    count as int,
                    next as int,
                ),
    {
        let depth = self.stack.len();
        proof {
            lemma_views(self.stack@);
            lemma_views_take(self.stack@, depth - count);
        }
        self.stack.truncate(depth - count);
        self.ip = next;
    }

    /// Puts `value` on the stack, and goes to the instruction at `next`.
    fn push(&mut self, value: Variant, next: usize)
        requires
            old(self).wf(),
        ensures
            final(self).wf(),
            final(self).program() == old(self).program(),
            forall|globals: Map<nat, (Value, bool)>, strings: Seq<Seq<char>>|
                #[trigger] final(self).machine(globals, strings) == pushed(
                    old(self).machine(globals, strings),
                    value@,
                    next as int,
                ),
    {
        proof {
            lemma_views_take(self.stack@, 0);
        }
        self.stack.push(value);
        self.ip = next;
    }

    /// Whether `value`, if it is a string, is a string of `table`.
    fn string_known(value: &Variant, table: &StringTable) -> (res: bool)
        ensures
            res == (value@ is String ==> is_name(value@, table@)),
    {
        match value {
            Variant::String(symbol) => symbol.to_usize() < table.len(),
            _ => true,
        }
    }

    /// Runs an instruction that computes a binary operator.
    fn step_binary(
        &mut self,
        op: BinaryOp,
        next: usize,
        globals: &GlobalEnv,
        table: &mut StringTable,
    ) -> (result: Result<Flow, Box<RuntimeError>>)
        requires
            old(self).wf(),
            decode_at(old(self).code(), old(self).ip as int) matches Some(instr) && spec_binary_of(
                instr.opcode,
            ) == Some(op) && next == old(self).ip + 1 + instr.opcode.spec_operand_len(),
        ensures
            final(self).wf(),
            final(self).program() == old(self).program(),
            conforms(
                old(self).next_step(globals@, old(table)@),
                old(self).machine(globals@, old(table)@),
                final(self).machine(globals@, final(table)@),
                result,
            ),
    {
        let depth = self.stack.len();
        proof {
            lemma_views(self.stack@);
        }
        if depth < 2 || table.len() >= SYMBOL_LIMIT {
            return Err(self.broken());
        }
        if !Self::string_known(&self.stack[depth - 2], table) || !Self::string_known(
            &self.stack[depth - 1],
            table,
        ) {
            return Err(self.broken());
        }
        let found = eval_binary(op, &self.stack[depth - 2], &self.stack[depth - 1], table);
        match found {
            None => Ok(Flow::Host),
            Some(Ok(value)) => {
                self.replace(2, value, next);
                Ok(Flow::Continue)
            },
            Some(Err(error)) => {
                let error = error.push_frame(TraceSite { chunk_id: 0, offset: self.ip });
                assert(error.trace() =~= seq![TraceSite { chunk_id: 0, offset: self.ip }]);
                Err(error)
            },
        }
    }

    /// Runs an instruction that computes a unary operator.
    fn step_unary(&mut self, op: UnaryOp, next: usize, globals: &GlobalEnv, table: &StringTable) -> (result:
        Result<Flow, Box<RuntimeError>>)
        requires
            old(self).wf(),
            decode_at(old(self).code(), old(self).ip as int) matches Some(instr) && spec_binary_of(
                instr.opcode,
            ).is_none() && spec_unary_of(instr.opcode) == Some(op) && next == old(self).ip + 1
                + instr.opcode.spec_operand_len(),
        ensures
            final(self).wf(),
            final(self).program() == old(self).program(),
            conforms(
                old(self).next_step(globals@, table@),
                old(self).machine(globals@, table@),
                final(self).machine(globals@, table@),
                result,
            ),
    {
        let depth = self.stack.len();
        proof {
            lemma_views(self.stack@);
        }
        if depth < 1 {
            return Err(self.broken());
        }
        let found = eval_unary(op, &self.stack[depth - 1]);
        match found {
            None => Ok(Flow::Host),
            Some(Ok(value)) => {
                self.replace(1, value, next);
                Ok(Flow::Continue)
            },
            Some(Err(error)) => {
                let error = error.push_frame(TraceSite { chunk_id: 0, offset: self.ip });
                assert(error.trace() =~= seq![TraceSite { chunk_id: 0, offset: self.ip }]);
                Err(error)
            },
        }
    }

    /// Runs an instruction that loads a constant.
    fn step_const(&mut self, id: u16, next: usize, globals: &GlobalEnv, table: &StringTable) -> (result:
        Result<Flow, Box<RuntimeError>>)
        requires
            old(self).wf(),
            decode_at(old(self).code(), old(self).ip as int) matches Some(instr) && (instr.opcode
                == OpCode::LoadConst || instr.opcode == OpCode::LoadConstWide) && instr.operand
                == id && next == old(self).ip + 1 + instr.opcode.spec_operand_len(),
        ensures
            final(self).wf(),
            final(self).program() == old(self).program(),
            conforms(
                old(self).next_step(globals@, table@),
                old(self).machine(globals@, table@),
                final(self).machine(globals@, table@),
                result,
            ),
    {
        if (id as usize) >= self.program.const_count() {
            return Err(self.broken());
        }
        let loadable = match self.program.const_at(id) {
            Constant::Function(..) => false,
            Constant::String(at) => *at < self.program.string_count(),
            _ => true,
        };
        if !loadable {
            return Err(self.broken());
        }
        let value = self.program.value_at(id);
        self.push(value, next);
        Ok(Flow::Continue)
    }

    /// The name on top of the stack, if a name of a string of `table` is
    /// there.
    fn name_on_top(&self, table: &StringTable) -> (name: Option<StringSymbol>)
        ensures
            match name {
                Some(name) => self.stack@.len() >= 1 && views(self.stack@).last() == Value::String(
                    name,
                ) && name.index() < table@.len(),
                None => self.stack@.len() == 0 || !is_name(views(self.stack@).last(), table@),
            },
    {
        proof {
            lemma_views(self.stack@);
        }
        let depth = self.stack.len();
        if depth == 0 {
            return None;
        }
        match &self.stack[depth - 1] {
            Variant::String(name) => {
                if name.to_usize() < table.len() {
                    Some(*name)
                } else {
                    None
                }
            },
            _ => None,
        }
    }

    /// Runs an instruction that loads, stores or declares a global
    /// variable.
    fn step_global(&mut self, op: OpCode, next: usize, globals: &mut GlobalEnv, table: &StringTable) -> (result:
        Result<Flow, Box<RuntimeError>>)
        requires
            old(self).wf(),
            decode_at(old(self).code(), old(self).ip as int) matches Some(instr) && instr.opcode
                == op && next == old(self).ip + 1 + instr.opcode.spec_operand_len(),
            op == OpCode::LoadGlobal || op == OpCode::StoreGlobal || op == OpCode::InsertGlobal
                || op == OpCode::InsertGlobalMut,
        ensures
            final(self).wf(),
            final(self).program() == old(self).program(),
            conforms(
                old(self).next_step(old(globals)@, table@),
                old(self).machine(old(globals)@, table@),
                final(self).machine(final(globals)@, table@),
                result,
            ),
    {
        proof {
            lemma_views(self.stack@);
        }
        let depth = self.stack.len();
        let name = match self.name_on_top(table) {
            Some(name) => name,
            None => {
                return Err(self.broken());
            },
        };
        match op {
            OpCode::LoadGlobal => {
                match globals.load(name, table) {
                    Ok(value) => {
                        self.replace(1, value, next);
                        Ok(Flow::Continue)
                    },
                    Err(_) => Err(
                        self.fail(
                            ErrorKind::NameNotDefined(String::from_str(table.resolve(&name))),
                        ),
                    ),
                }
            },
            OpCode::StoreGlobal => {
                if depth < 2 {
                    return Err(self.broken());
                }
                let value = self.stack[depth - 2].duplicate();
                match globals.store(name, value, table) {
                    Ok(()) => {
                        self.drop_top(1, next);
                        Ok(Flow::Continue)
                    },
                    Err(error) => {
                        let error = error.push_frame(TraceSite { chunk_id: 0, offset: self.ip });
                        assert(error.trace() =~= seq![TraceSite { chunk_id: 0, offset: self.ip }]);
                        Err(error)
                    },
                }
            },
            _ => {
                if depth < 2 {
                    return Err(self.broken());
                }
                let value = self.stack[depth - 2].duplicate();
                globals.insert(name, value, matches!(op, OpCode::InsertGlobalMut));
                self.drop_top(2, next);
                Ok(Flow::Continue)
            },
        }
    }

    /// Runs a jump.
    fn step_jump(&mut self, op: OpCode, operand: u16, next: usize, globals: &GlobalEnv, table: &StringTable) -> (result:
        Result<Flow, Box<RuntimeError>>)
        requires
            old(self).wf(),
            decode_at(old(self).code(), old(self).ip as int) matches Some(instr) && instr.opcode
                == op && instr.operand == operand && next == old(self).ip + 1
                + instr.opcode.spec_operand_len(),
            op.spec_is_jump(),
        ensures
            final(self).wf(),
            final(self).program() == old(self).program(),
            conforms(
                old(self).next_step(globals@, table@),
                old(self).machine(globals@, table@),
                final(self).machine(globals@, table@),
                result,
            ),
    {
        proof {
            lemma_views(self.stack@);
        }
        let depth = self.stack.len();
        let taken = match op {
            OpCode::Jump => true,
            _ => {
                if depth < 1 {
                    return Err(self.broken());
                }
                proof {
                    lemma_value_facts(&self.stack@[depth - 1]);
                }
                let truth = self.stack[depth - 1].truth_value();
                if matches!(op, OpCode::JumpIfFalse) {
                    !truth
                } else {
                    truth
                }
            },
        };
        if !taken {
            self.ip = next;
            return Ok(Flow::Continue);
        }
        let len = self.program.chunk(0).len();
        // the distance is a number of 16 bits in two's complement
        let target: Option<usize> = if operand < 0x8000 {
            if operand as usize <= len - next {
                Some(next + operand as usize)
            } else {
                None
            }
        } else {
            let back = 0x1_0000 - operand as usize;
            if back <= next {
                Some(next - back)
            } else {
                None
            }
        };
        match target {
            Some(target) => {
                self.ip = target;
                Ok(Flow::Continue)
            },
            None => Err(self.broken()),
        }
    }

    /// Runs the instruction that the machine is at: see `step`.
    pub fn step(&mut self, globals: &mut GlobalEnv, table: &mut StringTable) -> (result: Result<
        Flow,
        Box<RuntimeError>,
    >)
        requires
            old(self).wf(),
        ensures
            final(self).wf(),
            final(self).program() == old(self).program(),
            conforms(
                old(self).next_step(old(globals)@, old(table)@),
                old(self).machine(old(globals)@, old(table)@),
                final(self).machine(final(globals)@, final(table)@),
                result,
            ),
    {
        proof {
            lemma_views(self.stack@);
        }
        let code = self.program.chunk(0);
        let len = code.len();
        let instr = match decode(code, self.ip) {
            Some(instr) => instr,
            None => {
                return Err(self.broken());
            },
        };
        let next = self.ip + 1 + instr.opcode.operand_len();
        let depth = self.stack.len();
        if let Some(op) = binary_of(instr.opcode) {
            return self.step_binary(op, next, globals, table);
        }
        if let Some(op) = unary_of(instr.opcode) {
            return self.step_unary(op, next, globals, table);
        }
        match instr.opcode {
            OpCode::Return => Ok(Flow::Return),
            OpCode::Pop => {
                if depth < 1 {
                    return Err(self.broken());
                }
                self.drop_top(1, next);
                Ok(Flow::Continue)
            },
            OpCode::Dup => {
                if depth < 1 {
                    return Err(self.broken());
                }
                let value = self.stack[depth - 1].duplicate();
                self.push(value, next);
                Ok(Flow::Continue)
            },
            OpCode::LoadConst | OpCode::LoadConstWide => self.step_const(
                instr.operand,
                next,
                globals,
                table,
            ),
            OpCode::Nil => {
                self.push(Variant::Nil, next);
                Ok(Flow::Continue)
            },
            OpCode::Empty => {
                self.push(Variant::EmptyTuple, next);
                Ok(Flow::Continue)
            },
            OpCode::True => {
                self.push(Variant::BoolTrue, next);
                Ok(Flow::Continue)
            },
            OpCode::False => {
                self.push(Variant::BoolFalse, next);
                Ok(Flow::Continue)
            },
            OpCode::LoadGlobal | OpCode::StoreGlobal | OpCode::InsertGlobal
            | OpCode::InsertGlobalMut => self.step_global(instr.opcode, next, globals, table),
            OpCode::Jump | OpCode::JumpIfFalse | OpCode::JumpIfTrue => self.step_jump(
                instr.opcode,
                instr.operand,
                next,
                globals,
                table,
            ),
            OpCode::Echo => {
                if depth < 1 || !self.stack[depth - 1].is_known(table) {
                    return Err(self.broken());
                }
                let text = self.stack[depth - 1].display(table);
                let ghost before = self.output@;
                self.output.push(text);
                proof {
                    assert(self.output@.drop_last() =~= before);
                }
                self.drop_top(1, next);
                Ok(Flow::Continue)
            },
            OpCode::Assert => {
                if depth < 1 {
                    return Err(self.broken());
                }
                proof {
                    lemma_value_facts(&self.stack@[depth - 1]);
                }
                if self.stack[depth - 1].truth_value() {
                    self.drop_top(1, next);
                    Ok(Flow::Continue)
                } else {
                    Err(self.fail(ErrorKind::AssertFailed))
                }
            },
            _ => Err(self.broken()),
        }
    }

    /// Runs the machine for at most `max_steps` instructions: see `run`.
    /// `Flow::Continue` tells that the steps were used up.
    pub fn run(&mut self, globals: &mut GlobalEnv, table: &mut StringTable, max_steps: usize) -> (result:
        Result<Flow, Box<RuntimeError>>)
        requires
            old(self).wf(),
        ensures
            final(self).wf(),
            final(self).program() == old(self).program(),
            ({
                let ran = run(
                    old(self).code(),
                    old(self).program()@.consts,
                    old(self).program()@.strings,
                    old(self).machine(old(globals)@, old(table)@),
                    max_steps as nat,
                );
                &&& final(self).machine(final(globals)@, final(table)@) == ran.machine
                &&& match ran.end {
                    Ended::OutOfSteps => result == Ok::<Flow, Box<RuntimeError>>(Flow::Continue),
                    Ended::Return => result == Ok::<Flow, Box<RuntimeError>>(Flow::Return),
                    Ended::Host => result == Ok::<Flow, Box<RuntimeError>>(Flow::Host),
                    Ended::Fail(failure) => result matches Err(error) && reports(
                        failure,
                        error,
                        ran.machine.ip,
                    ),
                }
            }),
    {
        let mut left = max_steps;
        while left > 0
            invariant
                self.wf(),
                self.program() == old(self).program(),
                run(
                    old(self).code(),
                    old(self).program()@.consts,
                    old(self).program()@.strings,
                    old(self).machine(old(globals)@, old(table)@),
                    max_steps as nat,
                ) == run(
                    self.code(),
                    self.program()@.consts,
                    self.program()@.strings,
                    self.machine(globals@, table@),
                    left as nat,
                ),
            decreases left,
        {
            match self.step(globals, table) {
                Ok(Flow::Continue) => {},
                Ok(flow) => {
                    return Ok(flow);
                },
                Err(error) => {
                    return Err(error);
                },
            }
            left -= 1;
        }
        Ok(Flow::Continue)
    }

    /// Puts `result` in the place of the operands of the operator that the
    /// machine stopped before, and goes on behind it. Nothing happens, and
    /// `false` is told, if the machine is not before an operator with its
    /// operands on the stack.
    pub fn resume(&mut self, result: Variant) -> (done: bool)
        requires
            old(self).wf(),
        ensures
            final(self).wf(),
            final(self).program() == old(self).program(),
            forall|globals: Map<nat, (Value, bool)>, strings: Seq<Seq<char>>|
                {
                    let m = #[trigger] old(self).machine(globals, strings);
                    &&& done == (operands_due(old(self).code(), m) > 0)
                    &&& final(self).machine(globals, strings) == resumed(
                        old(self).code(),
                        m,
                        result@,
                    )
                },
    {
        proof {
            lemma_views(self.stack@);
        }
        let code = self.program.chunk(0);
        let len = code.len();
        let instr = match decode(code, self.ip) {
            Some(instr) => instr,
            None => {
                return false;
            },
        };
        let count: usize = if binary_of(instr.opcode).is_some() {
            2
        } else if unary_of(instr.opcode).is_some() {
            1
        } else {
            0
        };
        if count == 0 || count > self.stack.len() {
            return false;
        }
        let next = self.ip + 1 + instr.opcode.operand_len();
        self.replace(count, result, next);
        true
    }
}

} // verus!
