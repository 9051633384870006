//! The compiler: it turns statements into the bytecode of the top-level
//! chunk.
//!
//! An expression leaves its value on the stack. A name is a global variable:
//! its name is loaded as a constant, then the variable is loaded or stored
//! by it. `and` and `or` jump over their right operand when the left one
//! decides; `if` jumps over the statement that is not run, `while` jumps
//! back to its condition. Every instruction that can fail is entered in the
//! table of debug symbols with the source text of the statement's
//! expression.

use vstd::prelude::*;
use crate::codegen::chunk::{
    patched, pool_insert, ChunkBuilder, ConstID, Constant, UnloadedProgram,
};
use crate::codegen::errors::{CompileError, ErrorKind};
use crate::codegen::jumps::{
    back_jump, emit_jump, emit_jump_back, operand_bytes, patch_jump, JumpSite, JUMP_BACK_MAX, JUMP_MAX,
};
use crate::codegen::opcodes::OpCode;
use crate::debug::symbol::table::{strictly_rising, DebugSymbolTable, SymbolTableEntry};
use crate::debug::symbol::DebugSymbol;
use crate::parser::binop::BinaryOp;
use crate::parser::expr::{Expr, ExprMeta, UnaryOp};
use crate::parser::primary::Atom;
use crate::parser::stmt::{Stmt, StmtList, StmtMeta};
use crate::runtime::strings::Interner;

verus! {

/// What was emitted so far: the code of the chunk, the constants, the debug
/// symbols by the offsets of their instructions, and the error that stopped
/// the current statement, if one did.
pub ghost struct Emitted {
    pub code: Seq<u8>,
    pub pool: Seq<Constant>,
    pub symbols: Seq<SymbolTableEntry>,
    pub error: Option<ErrorKind>,
}

/// The opcode of a binary operator that is computed on two values.
pub open spec fn spec_binary_opcode(op: BinaryOp) -> OpCode {
    match op {
        BinaryOp::Mul => OpCode::Mul,
        BinaryOp::Div => OpCode::Div,
        BinaryOp::Mod => OpCode::Mod,
        BinaryOp::Add => OpCode::Add,
        BinaryOp::Sub => OpCode::Sub,
        BinaryOp::LShift => OpCode::LShift,
        BinaryOp::RShift => OpCode::RShift,
        BinaryOp::BitAnd => OpCode::And,
        BinaryOp::BitXor => OpCode::Xor,
        BinaryOp::BitOr => OpCode::Or,
        BinaryOp::LT => OpCode::LT,
        BinaryOp::GT => OpCode::GT,
        BinaryOp::LE => OpCode::LE,
        BinaryOp::GE => OpCode::GE,
        BinaryOp::EQ => OpCode::EQ,
        BinaryOp::NE => OpCode::NE,
        BinaryOp::And => OpCode::JumpIfFalse,
        BinaryOp::Or => OpCode::JumpIfTrue,
    }
}

#[verifier::when_used_as_spec(spec_binary_opcode)]
pub fn binary_opcode(op: BinaryOp) -> (code: OpCode)
    ensures
        code == spec_binary_opcode(op),
{
    match op {
        BinaryOp::Mul => OpCode::Mul,
        BinaryOp::Div => OpCode::Div,
        BinaryOp::Mod => OpCode::Mod,
        BinaryOp::Add => OpCode::Add,
        BinaryOp::Sub => OpCode::Sub,
        BinaryOp::LShift => OpCode::LShift,
        BinaryOp::RShift => OpCode::RShift,
        BinaryOp::BitAnd => OpCode::And,
        BinaryOp::BitXor => OpCode::Xor,
        BinaryOp::BitOr => OpCode::Or,
        BinaryOp::LT => OpCode::LT,
        BinaryOp::GT => OpCode::GT,
        BinaryOp::LE => OpCode::LE,
        BinaryOp::GE => OpCode::GE,
        BinaryOp::EQ => OpCode::EQ,
        BinaryOp::NE => OpCode::NE,
        BinaryOp::And => OpCode::JumpIfFalse,
        BinaryOp::Or => OpCode::JumpIfTrue,
    }
}

/// The opcode of a unary operator.
pub open spec fn spec_unary_opcode(op: UnaryOp) -> OpCode {
    match op {
        UnaryOp::Neg => OpCode::Neg,
        UnaryOp::Pos => OpCode::Pos,
        UnaryOp::Inv => OpCode::Inv,
        UnaryOp::Not => OpCode::Not,
    }
}

#[verifier::when_used_as_spec(spec_unary_opcode)]
pub fn unary_opcode(op: UnaryOp) -> (code: OpCode)
    ensures
        code == spec_unary_opcode(op),
{
    match op {
        UnaryOp::Neg => OpCode::Neg,
        UnaryOp::Pos => OpCode::Pos,
        UnaryOp::Inv => OpCode::Inv,
        UnaryOp::Not => OpCode::Not,
    }
}

/// The instruction `op` without an operand, emitted behind `st`.
pub open spec fn with_op(st: Emitted, op: OpCode) -> Emitted {
    if st.error.is_some() {
        st
    } else {
        Emitted { code: st.code.push(op.spec_byte()), ..st }
    }
}

/// The instruction `op`, which can fail, emitted behind `st` and entered in
/// the debug symbols with `symbol`.
pub open spec fn with_marked_op(st: Emitted, op: OpCode, symbol: DebugSymbol) -> Emitted {
    if st.error.is_some() {
        st
    } else {
        Emitted {
            code: st.code.push(op.spec_byte()),
            symbols: st.symbols.push(
                SymbolTableEntry { offset: st.code.len() as usize, symbol: Some(symbol) },
            ),
            ..st
        }
    }
}

/// The instruction that loads the constant with the id `id`: the short form
/// where the id is a byte.
pub open spec fn load_const(id: ConstID) -> Seq<u8> {
    if id < 0x100 {
        seq![OpCode::LoadConst.spec_byte(), id as u8]
    } else {
        seq![OpCode::LoadConstWide.spec_byte()] + operand_bytes(id)
    }
}

/// The constant `value` added to the constants unless they hold it, and the
/// instruction that loads it emitted behind `st`.
pub open spec fn with_const(st: Emitted, value: Constant) -> Emitted {
    if st.error.is_some() {
        st
    } else {
        match pool_insert(st.pool, value).1 {
            Ok(id) => Emitted {
                code: st.code + load_const(id),
                pool: pool_insert(st.pool, value).0,
                ..st
            },
            Err(kind) => Emitted { error: Some(kind), ..st },
        }
    }
}

/// The jump `op` emitted behind `st`, with a gap for its distance.
pub open spec fn with_jump(st: Emitted, op: OpCode) -> Emitted {
    if st.error.is_some() {
        st
    } else {
        Emitted { code: st.code + seq![op.spec_byte(), 0u8, 0u8], ..st }
    }
}

/// The jump at `site` let go to the end of the code of `st`.
pub open spec fn with_patch(st: Emitted, site: int) -> Emitted {
    if st.error.is_some() {
        st
    } else if st.code.len() - (site + 3) <= JUMP_MAX {
        Emitted {
            code: patched(
                st.code,
                site + 1,
                2,
                operand_bytes((st.code.len() - (site + 3)) as u16),
            ),
            ..st
        }
    } else {
        Emitted { error: Some(ErrorKind::JumpLimit), ..st }
    }
}

/// The statement given up with the error `kind`.
pub open spec fn with_error(st: Emitted, kind: ErrorKind) -> Emitted {
    if st.error.is_some() {
        st
    } else {
        Emitted { error: Some(kind), ..st }
    }
}

/// The code of the expression `expr` emitted behind `st`. The instructions
/// that can fail are entered in the debug symbols with `symbol`. `self`,
/// `super`, paths, tuples, objects and assignments to anything but a name
/// are not compiled.
pub open spec fn with_expr(st: Emitted, expr: Expr, symbol: DebugSymbol) -> Emitted
    decreases expr,
{
    match expr {
        Expr::Atom(Atom::Nil) => with_op(st, OpCode::Nil),
        Expr::Atom(Atom::EmptyTuple) => with_op(st, OpCode::Empty),
        Expr::Atom(Atom::BooleanLiteral(value)) => with_op(
            st,
            if value {
                OpCode::True
            } else {
                OpCode::False
            },
        ),
        Expr::Atom(Atom::IntegerLiteral(value)) => with_const(st, Constant::Integer(value)),
        Expr::Atom(Atom::FloatLiteral(bytes)) => with_const(st, Constant::Float(bytes)),
        Expr::Atom(Atom::StringLiteral(text)) => with_const(
            st,
            Constant::String(text.index() as usize),
        ),
        Expr::Atom(Atom::Identifier(name)) => with_marked_op(
            with_const(st, Constant::String(name.index() as usize)),
            OpCode::LoadGlobal,
            symbol,
        ),
        Expr::Atom(Atom::Group(inner)) => with_expr(st, *inner, symbol),
        Expr::UnaryOp(op, operand) => with_marked_op(
            with_expr(st, *operand, symbol),
            spec_unary_opcode(op),
            symbol,
        ),
        Expr::BinaryOp(op, lhs, rhs) => if op == BinaryOp::And || op == BinaryOp::Or {
            let left = with_expr(st, *lhs, symbol);
            let right = with_expr(
                with_op(with_jump(left, spec_binary_opcode(op)), OpCode::Pop),
                *rhs,
                symbol,
            );
            with_patch(right, left.code.len() as int)
        } else {
            with_marked_op(
                with_expr(with_expr(st, *lhs, symbol), *rhs, symbol),
                spec_binary_opcode(op),
                symbol,
            )
        },
        Expr::Assignment(target, value) => match *target {
            Expr::Atom(Atom::Identifier(name)) => with_marked_op(
                with_const(with_expr(st, *value, symbol), Constant::String(name.index() as usize)),
                OpCode::StoreGlobal,
                symbol,
            ),
            _ => with_error(with_expr(st, *value, symbol), ErrorKind::NotSupported),
        },
        _ => with_error(st, ErrorKind::NotSupported),
    }
}

/// The jump back to `target` emitted behind `st`.
pub open spec fn with_jump_back(st: Emitted, target: int) -> Emitted {
    if st.error.is_some() {
        st
    } else if st.code.len() + 3 - target <= JUMP_BACK_MAX && st.code.len() + 3 <= usize::MAX {
        Emitted { code: st.code + back_jump(OpCode::Jump, st.code.len() as int, target), ..st }
    } else {
        Emitted { error: Some(ErrorKind::JumpLimit), ..st }
    }
}

/// Where the jumps of a loop go: a `break` to the jump that leaves the
/// loop, a `continue` to the condition.
#[derive(Clone, Copy)]
pub struct LoopSites {
    pub exit: usize,
    pub again: usize,
}

/// The code of the statement `stmt` emitted behind `st`, in the loop
/// `inside` if it stands in one.
///
/// `if` tests its condition and jumps over the first statement if it does
/// not hold; behind that statement stands the jump over the second one.
/// `while` starts with the jump that leaves the loop, which is jumped over
/// on the way in; then it tests its condition and jumps behind the loop if
/// it does not hold; behind its statement stands the jump back to the
/// condition. Both ways the condition is dropped from the stack. `break`
/// jumps back to the jump that leaves the loop, `continue` to the
/// condition. `return` is not compiled.
pub open spec fn with_statement(st: Emitted, stmt: Stmt, symbol: DebugSymbol, inside: Option<LoopSites>)
    -> Emitted
    decreases stmt, 1int,
{
    match stmt {
        Stmt::Expression(meta) => with_op(with_expr(st, meta.expr, meta.symbol), OpCode::Pop),
        Stmt::Echo(meta) => with_marked_op(
            with_expr(st, meta.expr, meta.symbol),
            OpCode::Echo,
            symbol,
        ),
        Stmt::Assert(meta) => with_marked_op(
            with_expr(st, meta.expr, meta.symbol),
            OpCode::Assert,
            symbol,
        ),
        Stmt::Declaration { name, init, mutable } => with_op(
            with_const(
                with_expr(st, init.expr, init.symbol),
                Constant::String(name.index() as usize),
            ),
            if mutable {
                OpCode::InsertGlobalMut
            } else {
                OpCode::InsertGlobal
            },
        ),
        Stmt::Block(list) => with_list(st, list, inside),
        Stmt::If { .. } => with_if(st, stmt, inside),
        Stmt::While { .. } => with_while(st, stmt, inside),
        Stmt::Break => match inside {
            Some(sites) => with_jump_back(st, sites.exit as int),
            None => with_error(st, ErrorKind::NotInLoop),
        },
        Stmt::Continue => match inside {
            Some(sites) => with_jump_back(st, sites.again as int),
            None => with_error(st, ErrorKind::NotInLoop),
        },
        Stmt::Return(_) => with_error(st, ErrorKind::NotSupported),
    }
}

/// The code of the `if` that `stmt` is, emitted behind `st`: the
/// condition, the jump over the first statement, that statement, the jump
/// over the second one, and the second one.
pub open spec fn with_if(st: Emitted, stmt: Stmt, inside: Option<LoopSites>) -> Emitted
    decreases stmt, 0int,
{
    match stmt {
        Stmt::If { cond, then, otherwise } => {
            let tested = with_expr(st, cond.expr, cond.symbol);
            let taken = with_statement(
                with_op(with_jump(tested, OpCode::JumpIfFalse), OpCode::Pop),
                then.stmt,
                then.symbol,
                inside,
            );
            let skipped = with_op(
                with_patch(with_jump(taken, OpCode::Jump), tested.code.len() as int),
                OpCode::Pop,
            );
            let other = match otherwise {
                Some(second) => with_statement(skipped, second.stmt, second.symbol, inside),
                None => skipped,
            };
            with_patch(other, taken.code.len() as int)
        },
        _ => st,
    }
}

/// The code of the `while` that `stmt` is, emitted behind `st`: the jump
/// over the jump that leaves the loop, that jump, the condition, the jump
/// behind the loop, the statement, and the jump back to the condition.
pub open spec fn with_while(st: Emitted, stmt: Stmt, inside: Option<LoopSites>) -> Emitted
    decreases stmt, 0int,
{
    match stmt {
        Stmt::While { cond, body } => {
            let entered = with_patch(
                with_jump(with_jump(st, OpCode::Jump), OpCode::Jump),
                st.code.len() as int,
            );
            let tested = with_expr(entered, cond.expr, cond.symbol);
            let run = with_statement(
                with_op(with_jump(tested, OpCode::JumpIfFalse), OpCode::Pop),
                body.stmt,
                body.symbol,
                Some(LoopSites { exit: (st.code.len() + 3) as usize, again: (st.code.len() + 6) as usize }),
            );
            with_patch(
                with_op(
                    with_patch(
                        with_jump_back(run, (st.code.len() + 6) as int),
                        tested.code.len() as int,
                    ),
                    OpCode::Pop,
                ),
                (st.code.len() + 3) as int,
            )
        },
        _ => st,
    }
}

/// The code of the statements `list` emitted behind `st`, one after the
/// other.
pub open spec fn with_list(st: Emitted, list: StmtList, inside: Option<LoopSites>) -> Emitted
    decreases list,
{
    match list {
        StmtList::Nil => st,
        StmtList::Cons(first, rest) => with_list(
            with_statement(st, first.stmt, first.symbol, inside),
            *rest,
            inside,
        ),
    }
}

/// What the statements `stmts` from the one at `from` on emit behind `st`,
/// and the errors of those that could not be compiled. A statement with an
/// error is given up where the error came; the next one goes on behind what
/// was emitted of it.
pub open spec fn with_statements(st: Emitted, stmts: Seq<StmtMeta>, from: int) -> (
    Emitted,
    Seq<CompileError>,
)
    decreases stmts.len() - from,
{
    if from < 0 || from >= stmts.len() {
        (st, Seq::empty())
    } else {
        let after = with_statement(st, stmts[from].spec_stmt(), stmts[from].spec_symbol(), None);
        match after.error {
            Some(kind) => {
                let rest = with_statements(Emitted { error: None, ..after }, stmts, from + 1);
                (
                    rest.0,
                    seq![CompileError { kind, symbol: Some(stmts[from].spec_symbol()) }] + rest.1,
                )
            },
            None => with_statements(after, stmts, from + 1),
        }
    }
}

/// A compiler at work: the builder of the program, and the debug symbols of
/// its top-level chunk.
pub struct Compiler {
    builder: ChunkBuilder,
    symbols: DebugSymbolTable,
}

impl Compiler {
    /// What was emitted so far, with `error` as the error of the current
    /// statement.
    pub closed spec fn emitted(&self, error: Option<ErrorKind>) -> Emitted {
        Emitted {
            code: self.builder.chunks()[0],
            pool: self.builder.consts(),
            symbols: self.symbols@,
            error,
        }
    }

    /// The strings of the program.
    pub closed spec fn strings(&self) -> Seq<Seq<char>> {
        self.builder.strings()
    }

    /// The invariant of the compiler: its builder is in order, the code
    /// fits a chunk that can be addressed, and every debug symbol belongs to
    /// an instruction that was emitted, in the order of the instructions.
    pub closed spec fn wf(&self) -> bool {
        &&& self.builder.wf()
        &&& self.builder.chunks().len() == 1
        &&& self.builder.functions().len() == 0
        &&& self.symbols.wf()
        &&& forall|i: int|
            0 <= i < self.symbols@.len() ==> (#[trigger] self.symbols@[i]).offset
                < self.builder.chunks()[0].len()
    }

    /// A compiler for a program with the strings `strings`.
    pub fn new(strings: Interner) -> (compiler: Compiler)
        ensures
            compiler.wf(),
            compiler.strings() == strings@,
            compiler.emitted(None) == (Emitted {
                code: Seq::empty(),
                pool: Seq::empty(),
                symbols: Seq::empty(),
                error: None,
            }),
    {
        Compiler { builder: ChunkBuilder::with_strings(strings), symbols: DebugSymbolTable::new() }
    }

    fn emit_op(&mut self, op: OpCode)
        requires
            old(self).wf(),
        ensures
            final(self).wf(),
            old(self).emitted(None).code.len() <= final(self).emitted(None).code.len(),
            final(self).strings() == old(self).strings(),
            final(self).emitted(None) == with_op(old(self).emitted(None), op),
    {
        let bytes: [u8; 1] = [op.byte()];
        self.builder.chunk_mut(0).extend_bytes(bytes.as_slice());
        proof {
            assert(self.builder.chunks()[0] =~= old(self).builder.chunks()[0].push(op.spec_byte()));
        }
    }

    fn emit_marked_op(&mut self, op: OpCode, symbol: DebugSymbol)
        requires
            old(self).wf(),
        ensures
            final(self).wf(),
            old(self).emitted(None).code.len() <= final(self).emitted(None).code.len(),
            final(self).strings() == old(self).strings(),
            final(self).emitted(None) == with_marked_op(old(self).emitted(None), op, symbol),
    {
        let offset = self.builder.chunk(0).len();
        proof {
            if self.symbols@.len() > 0 {
                assert(self.symbols@[self.symbols@.len() - 1].offset < offset);
            }
        }
        self.symbols.insert(offset, Some(symbol));
        let bytes: [u8; 1] = [op.byte()];
        self.builder.chunk_mut(0).extend_bytes(bytes.as_slice());
        proof {
            assert(self.builder.chunks()[0] =~= old(self).builder.chunks()[0].push(op.spec_byte()));
            assert forall|i: int| 0 <= i < self.symbols@.len() implies (#[trigger] self.symbols@[i]).offset
                < self.builder.chunks()[0].len() by {
                if i < old(self).symbols@.len() {
                    assert(self.symbols@[i] == old(self).symbols@[i]);
                }
            }
        }
    }

    fn emit_const(&mut self, value: Constant) -> (result: Result<(), ErrorKind>)
        requires
            old(self).wf(),
        ensures
            final(self).wf(),
            old(self).emitted(None).code.len() <= final(self).emitted(None).code.len(),
            final(self).strings() == old(self).strings(),
            final(self).emitted(
                match result {
                    Ok(()) => None,
                    Err(kind) => Some(kind),
                },
            ) == with_const(old(self).emitted(None), value),
    {
        let id = match self.builder.get_or_insert_const(value) {
            Ok(id) => id,
            Err(error) => {
                return Err(error.kind);
            },
        };
        if id < 0x100 {
            let bytes: [u8; 2] = [OpCode::LoadConst.byte(), id as u8];
            self.builder.chunk_mut(0).extend_bytes(bytes.as_slice());
            proof {
                assert(self.builder.chunks()[0] =~= old(self).builder.chunks()[0] + load_const(id));
            }
        } else {
            let bytes: [u8; 3] = [OpCode::LoadConstWide.byte(), (id % 256) as u8, (id / 256) as u8];
            self.builder.chunk_mut(0).extend_bytes(bytes.as_slice());
            proof {
                assert(bytes@ =~= load_const(id));
                assert(self.builder.chunks()[0] =~= old(self).builder.chunks()[0] + load_const(id));
            }
        }
        Ok(())
    }

    /// Emits the jump `op` with a gap for its distance.
    fn emit_jump(&mut self, op: OpCode) -> (site: usize)
        requires
            old(self).wf(),
            op.spec_is_jump(),
        ensures
            final(self).wf(),
            final(self).strings() == old(self).strings(),
            final(self).emitted(None) == with_jump(old(self).emitted(None), op),
            site == old(self).emitted(None).code.len(),
    {
        let site = emit_jump(self.builder.chunk_mut(0), op);
        site.offset
    }

    /// Lets the jump at `site` go to the end of the code.
    fn patch(&mut self, site: usize) -> (result: Result<(), ErrorKind>)
        requires
            old(self).wf(),
            site + 3 <= old(self).emitted(None).code.len(),
        ensures
            final(self).wf(),
            final(self).strings() == old(self).strings(),
            final(self).emitted(
                match result {
                    Ok(()) => None,
                    Err(kind) => Some(kind),
                },
            ) == with_patch(old(self).emitted(None), site as int),
    {
        if patch_jump(self.builder.chunk_mut(0), JumpSite { offset: site }) {
            Ok(())
        } else {
            Err(ErrorKind::JumpLimit)
        }
    }

    /// Emits the code of `and` and `or`: the left operand, the jump over
    /// the right one, and the right one.
    fn emit_logical(&mut self, expr: &Expr, symbol: DebugSymbol) -> (result: Result<(), ErrorKind>)
        requires
            old(self).wf(),
            expr matches Expr::BinaryOp(op, _, _) && (op == BinaryOp::And || op == BinaryOp::Or),
        ensures
            final(self).wf(),
            final(self).strings() == old(self).strings(),
            old(self).emitted(None).code.len() <= final(self).emitted(None).code.len(),
            final(self).emitted(
                match result {
                    Ok(()) => None,
                    Err(kind) => Some(kind),
                },
            ) == with_expr(old(self).emitted(None), *expr, symbol),
        decreases expr, 0int,
    {
        match expr {
            Expr::BinaryOp(op, lhs, rhs) => {
                let ghost start = self.emitted(None);
                match self.emit_expr(lhs, symbol) {
                    Ok(()) => {},
                    Err(kind) => {
                        proof {
                            let left = with_expr(start, **lhs, symbol);
                            lemma_error_stays(left, **rhs, symbol);
                        }
                        return Err(kind);
                    },
                }
                let site = self.emit_jump(binary_opcode(*op));
                self.emit_op(OpCode::Pop);
                match self.emit_expr(rhs, symbol) {
                    Ok(()) => {},
                    Err(kind) => {
                        return Err(kind);
                    },
                }
                self.patch(site)
            },
            _ => Ok(()),
        }
    }

    /// Emits the code of an operator that is computed on two values.
    fn emit_binary(&mut self, expr: &Expr, symbol: DebugSymbol) -> (result: Result<(), ErrorKind>)
        requires
            old(self).wf(),
            expr matches Expr::BinaryOp(op, _, _) && op != BinaryOp::And && op != BinaryOp::Or,
        ensures
            final(self).wf(),
            final(self).strings() == old(self).strings(),
            old(self).emitted(None).code.len() <= final(self).emitted(None).code.len(),
            final(self).emitted(
                match result {
                    Ok(()) => None,
                    Err(kind) => Some(kind),
                },
            ) == with_expr(old(self).emitted(None), *expr, symbol),
        decreases expr, 0int,
    {
        match expr {
            Expr::BinaryOp(op, lhs, rhs) => {
                let ghost start = self.emitted(None);
                match self.emit_expr(lhs, symbol) {
                    Ok(()) => {},
                    Err(kind) => {
                        proof {
                            let left = with_expr(start, **lhs, symbol);
                            lemma_error_stays(left, **rhs, symbol);
                        }
                        return Err(kind);
                    },
                }
                match self.emit_expr(rhs, symbol) {
                    Ok(()) => {},
                    Err(kind) => {
                        return Err(kind);
                    },
                }
                self.emit_marked_op(binary_opcode(*op), symbol);
                Ok(())
            },
            _ => Ok(()),
        }
    }

    /// Emits the code of an atom that is no group.
    fn emit_atom(&mut self, atom: &Atom, symbol: DebugSymbol) -> (result: Result<(), ErrorKind>)
        requires
            old(self).wf(),
            !(atom is Group),
        ensures
            final(self).wf(),
            final(self).strings() == old(self).strings(),
            old(self).emitted(None).code.len() <= final(self).emitted(None).code.len(),
            final(self).emitted(
                match result {
                    Ok(()) => None,
                    Err(kind) => Some(kind),
                },
            ) == with_expr(old(self).emitted(None), Expr::Atom(*atom), symbol),
    {
        match atom {
            Atom::Nil => {
                self.emit_op(OpCode::Nil);
                Ok(())
            },
            Atom::EmptyTuple => {
                self.emit_op(OpCode::Empty);
                Ok(())
            },
            Atom::BooleanLiteral(value) => {
                self.emit_op(
                    if *value {
                        OpCode::True
                    } else {
                        OpCode::False
                    },
                );
                Ok(())
            },
            Atom::IntegerLiteral(value) => self.emit_const(Constant::Integer(*value)),
            Atom::FloatLiteral(bytes) => self.emit_const(Constant::Float(*bytes)),
            Atom::StringLiteral(text) => self.emit_const(Constant::String(text.to_usize())),
            Atom::Identifier(name) => {
                match self.emit_const(Constant::String(name.to_usize())) {
                    Ok(()) => {
                        self.emit_marked_op(OpCode::LoadGlobal, symbol);
                        Ok(())
                    },
                    Err(kind) => Err(kind),
                }
            },
            _ => Err(ErrorKind::NotSupported),
        }
    }

    /// Emits the code of `expr`.
    fn emit_expr(&mut self, expr: &Expr, symbol: DebugSymbol) -> (result: Result<(), ErrorKind>)
        requires
            old(self).wf(),
        ensures
            final(self).wf(),
            final(self).strings() == old(self).strings(),
            old(self).emitted(None).code.len() <= final(self).emitted(None).code.len(),
            final(self).emitted(
                match result {
                    Ok(()) => None,
                    Err(kind) => Some(kind),
                },
            ) == with_expr(old(self).emitted(None), *expr, symbol),
        decreases expr, 1int,
    {
        match expr {
            Expr::Atom(Atom::Group(inner)) => self.emit_expr(inner, symbol),
            Expr::Atom(atom) => self.emit_atom(atom, symbol),
            Expr::UnaryOp(op, operand) => {
                match self.emit_expr(operand, symbol) {
                    Ok(()) => {
                        self.emit_marked_op(unary_opcode(*op), symbol);
                        Ok(())
                    },
                    Err(kind) => Err(kind),
                }
            },
            Expr::BinaryOp(op, lhs, rhs) => {
                if matches!(op, BinaryOp::And | BinaryOp::Or) {
                    self.emit_logical(expr, symbol)
                } else {
                    self.emit_binary(expr, symbol)
                }
            },
            Expr::Assignment(target, value) => {
                match self.emit_expr(value, symbol) {
                    Ok(()) => {},
                    Err(kind) => {
                        return Err(kind);
                    },
                }
                match &**target {
                    Expr::Atom(Atom::Identifier(name)) => {
                        match self.emit_const(Constant::String(name.to_usize())) {
                            Ok(()) => {
                                self.emit_marked_op(OpCode::StoreGlobal, symbol);
                                Ok(())
                            },
                            Err(kind) => Err(kind),
                        }
                    },
                    _ => Err(ErrorKind::NotSupported),
                }
            },
            _ => Err(ErrorKind::NotSupported),
        }
    }

    /// Emits the jump back to `target`.
    fn emit_back(&mut self, target: usize) -> (result: Result<(), ErrorKind>)
        requires
            old(self).wf(),
            target <= old(self).emitted(None).code.len(),
        ensures
            final(self).wf(),
            final(self).strings() == old(self).strings(),
            old(self).emitted(None).code.len() <= final(self).emitted(None).code.len(),
            final(self).emitted(
                match result {
                    Ok(()) => None,
                    Err(kind) => Some(kind),
                },
            ) == with_jump_back(old(self).emitted(None), target as int),
    {
        if self.builder.chunk(0).len() > usize::MAX - 3 {
            return Err(ErrorKind::JumpLimit);
        }
        if emit_jump_back(self.builder.chunk_mut(0), OpCode::Jump, target) {
            Ok(())
        } else {
            Err(ErrorKind::JumpLimit)
        }
    }

    /// Emits the code of `if`.
    #[verifier::rlimit(60)]
    fn emit_if(&mut self, stmt: &Stmt, symbol: DebugSymbol, inside: Option<LoopSites>) -> (result: Result<
        (),
        ErrorKind,
    >)
        requires
            old(self).wf(),
            stmt is If,
            inside matches Some(sites) ==> sites.exit <= old(self).emitted(None).code.len() && sites.again
                <= old(self).emitted(None).code.len(),
        ensures
            final(self).wf(),
            final(self).strings() == old(self).strings(),
            old(self).emitted(None).code.len() <= final(self).emitted(None).code.len(),
            final(self).emitted(
                match result {
                    Ok(()) => None,
                    Err(kind) => Some(kind),
                },
            ) == with_if(old(self).emitted(None), *stmt, inside),
        decreases stmt, 0int,
    {
        match stmt {
            Stmt::If { cond, then, otherwise } => {
                let ghost start = self.emitted(None);
                let ghost tested = with_expr(start, cond.expr, cond.symbol);
                let ghost taken = with_statement(
                    with_op(with_jump(tested, OpCode::JumpIfFalse), OpCode::Pop),
                    then.stmt,
                    then.symbol,
                    inside,
                );
                let ghost skipped = with_op(
                    with_patch(with_jump(taken, OpCode::Jump), tested.code.len() as int),
                    OpCode::Pop,
                );
                match self.emit_expr(&cond.expr, cond.symbol) {
                    Ok(()) => {},
                    Err(kind) => {
                        proof {
                            lemma_statement_error_stays(tested, then.stmt, then.symbol, inside);
                            if otherwise.is_some() {
                                lemma_statement_error_stays(
                                    tested,
                                    otherwise.unwrap().stmt,
                                    otherwise.unwrap().symbol,
                                    inside,
                                );
                            }
                        }
                        return Err(kind);
                    },
                }
                let test = self.emit_jump(OpCode::JumpIfFalse);
                self.emit_op(OpCode::Pop);
                match self.emit_statement(&then.stmt, then.symbol, inside) {
                    Ok(()) => {},
                    Err(kind) => {
                        proof {
                            if otherwise.is_some() {
                                lemma_statement_error_stays(
                                    taken,
                                    otherwise.unwrap().stmt,
                                    otherwise.unwrap().symbol,
                                    inside,
                                );
                            }
                        }
                        return Err(kind);
                    },
                }
                let skip = self.emit_jump(OpCode::Jump);
                match self.patch(test) {
                    Ok(()) => {},
                    Err(kind) => {
                        proof {
                            let failed = with_patch(with_jump(taken, OpCode::Jump), tested.code.len() as int);
                            if otherwise.is_some() {
                                lemma_statement_error_stays(
                                    failed,
                                    otherwise.unwrap().stmt,
                                    otherwise.unwrap().symbol,
                                    inside,
                                );
                            }
                        }
                        return Err(kind);
                    },
                }
                self.emit_op(OpCode::Pop);
                match otherwise {
                    Some(second) => {
                        match self.emit_statement(&second.stmt, second.symbol, inside) {
                            Ok(()) => {},
                            Err(kind) => {
                                return Err(kind);
                            },
                        }
                    },
                    None => {},
                }
                self.patch(skip)
            },
            _ => Ok(()),
        }
    }

    /// Emits the code of `while`.
    #[verifier::rlimit(60)]
    fn emit_while(&mut self, stmt: &Stmt, symbol: DebugSymbol, inside: Option<LoopSites>) -> (result: Result<
        (),
        ErrorKind,
    >)
        requires
            old(self).wf(),
            stmt is While,
            inside matches Some(sites) ==> sites.exit <= old(self).emitted(None).code.len() && sites.again
                <= old(self).emitted(None).code.len(),
        ensures
            final(self).wf(),
            final(self).strings() == old(self).strings(),
            old(self).emitted(None).code.len() <= final(self).emitted(None).code.len(),
            final(self).emitted(
                match result {
                    Ok(()) => None,
                    Err(kind) => Some(kind),
                },
            ) == with_while(old(self).emitted(None), *stmt, inside),
        decreases stmt, 0int,
    {
        match stmt {
            Stmt::While { cond, body } => {
                let ghost start = self.emitted(None);
                let ghost first = with_jump(with_jump(start, OpCode::Jump), OpCode::Jump);
                let ghost entered = with_patch(first, start.code.len() as int);
                let ghost tested = with_expr(entered, cond.expr, cond.symbol);
                let over = self.emit_jump(OpCode::Jump);
                let exit = self.emit_jump(OpCode::Jump);
                match self.patch(over) {
                    Ok(()) => {},
                    Err(kind) => {
                        return Err(kind);
                    },
                }
                let again = self.builder.chunk(0).len();
                let sites = LoopSites { exit, again };
                match self.emit_expr(&cond.expr, cond.symbol) {
                    Ok(()) => {},
                    Err(kind) => {
                        proof {
                            lemma_statement_error_stays(tested, body.stmt, body.symbol, Some(sites));
                        }
                        return Err(kind);
                    },
                }
                let test = self.emit_jump(OpCode::JumpIfFalse);
                self.emit_op(OpCode::Pop);
                match self.emit_statement(&body.stmt, body.symbol, Some(sites)) {
                    Ok(()) => {},
                    Err(kind) => {
                        return Err(kind);
                    },
                }
                match self.emit_back(again) {
                    Ok(()) => {},
                    Err(kind) => {
                        return Err(kind);
                    },
                }
                match self.patch(test) {
                    Ok(()) => {},
                    Err(kind) => {
                        return Err(kind);
                    },
                }
                self.emit_op(OpCode::Pop);
                self.patch(exit)
            },
            _ => Ok(()),
        }
    }

    /// Emits the code of the statements `list`.
    fn emit_list(&mut self, list: &StmtList, inside: Option<LoopSites>) -> (result: Result<(), ErrorKind>)
        requires
            old(self).wf(),
            inside matches Some(sites) ==> sites.exit <= old(self).emitted(None).code.len() && sites.again
                <= old(self).emitted(None).code.len(),
        ensures
            final(self).wf(),
            final(self).strings() == old(self).strings(),
            old(self).emitted(None).code.len() <= final(self).emitted(None).code.len(),
            final(self).emitted(
                match result {
                    Ok(()) => None,
                    Err(kind) => Some(kind),
                },
            ) == with_list(old(self).emitted(None), *list, inside),
        decreases list,
    {
        match list {
            StmtList::Nil => Ok(()),
            StmtList::Cons(first, rest) => {
                match self.emit_statement(&first.stmt, first.symbol, inside) {
                    Ok(()) => {},
                    Err(kind) => {
                        proof {
                            lemma_list_error_stays(
                                with_statement(old(self).emitted(None), first.stmt, first.symbol, inside),
                                **rest,
                                inside,
                            );
                        }
                        return Err(kind);
                    },
                }
                self.emit_list(rest, inside)
            },
        }
    }

    /// Emits the code of the statement `stmt`.
    fn emit_statement(&mut self, stmt: &Stmt, symbol: DebugSymbol, inside: Option<LoopSites>) -> (result: Result<
        (),
        ErrorKind,
    >)
        requires
            old(self).wf(),
            inside matches Some(sites) ==> sites.exit <= old(self).emitted(None).code.len() && sites.again
                <= old(self).emitted(None).code.len(),
        ensures
            final(self).wf(),
            final(self).strings() == old(self).strings(),
            old(self).emitted(None).code.len() <= final(self).emitted(None).code.len(),
            final(self).emitted(
                match result {
                    Ok(()) => None,
                    Err(kind) => Some(kind),
                },
            ) == with_statement(old(self).emitted(None), *stmt, symbol, inside),
        decreases stmt, 1int,
    {
        match stmt {
            Stmt::Expression(meta) => {
                match self.emit_expr(&meta.expr, meta.symbol) {
                    Ok(()) => {
                        self.emit_op(OpCode::Pop);
                        Ok(())
                    },
                    Err(kind) => Err(kind),
                }
            },
            Stmt::Echo(meta) => {
                match self.emit_expr(&meta.expr, meta.symbol) {
                    Ok(()) => {
                        self.emit_marked_op(OpCode::Echo, symbol);
                        Ok(())
                    },
                    Err(kind) => Err(kind),
                }
            },
            Stmt::Assert(meta) => {
                match self.emit_expr(&meta.expr, meta.symbol) {
                    Ok(()) => {
                        self.emit_marked_op(OpCode::Assert, symbol);
                        Ok(())
                    },
                    Err(kind) => Err(kind),
                }
            },
            Stmt::Declaration { name, init, mutable } => {
                match self.emit_expr(&init.expr, init.symbol) {
                    Ok(()) => {},
                    Err(kind) => {
                        return Err(kind);
                    },
                }
                match self.emit_const(Constant::String(name.to_usize())) {
                    Ok(()) => {},
                    Err(kind) => {
                        return Err(kind);
                    },
                }
                self.emit_op(
                    if *mutable {
                        OpCode::InsertGlobalMut
                    } else {
                        OpCode::InsertGlobal
                    },
                );
                Ok(())
            },
            Stmt::Block(list) => self.emit_list(list, inside),
            Stmt::If { .. } => self.emit_if(stmt, symbol, inside),
            Stmt::While { .. } => self.emit_while(stmt, symbol, inside),
            Stmt::Break => match inside {
                Some(sites) => self.emit_back(sites.exit),
                None => Err(ErrorKind::NotInLoop),
            },
            Stmt::Continue => match inside {
                Some(sites) => self.emit_back(sites.again),
                None => Err(ErrorKind::NotInLoop),
            },
            Stmt::Return(_) => Err(ErrorKind::NotSupported),
        }
    }

    /// The program of what was emitted, with a return at its end, and its
    /// debug symbols.
    fn finish(self) -> (compiled: CompiledProgram)
        requires
            self.wf(),
        ensures
            compiled.symbols.wf(),
            compiled.symbols@ == self.emitted(None).symbols,
            compiled.program@.chunks == seq![with_op(self.emitted(None), OpCode::Return).code],
            compiled.program@.consts == self.emitted(None).pool,
            compiled.program@.strings == self.strings(),
            compiled.program@.functions.len() == 0,
    {
        let mut compiler = self;
        compiler.emit_op(OpCode::Return);
        let ghost chunks = compiler.builder.chunks();
        let program = compiler.builder.build();
        assert(program@.chunks =~= seq![chunks[0]]);
        CompiledProgram { program, symbols: compiler.symbols }
    }
}

/// A compiled program: the program itself, and the debug symbols of its
/// top-level chunk.
pub struct CompiledProgram {
    pub program: UnloadedProgram,
    pub symbols: DebugSymbolTable,
}

/// What nothing emitted looks like.
pub open spec fn nothing_emitted() -> Emitted {
    Emitted { code: Seq::empty(), pool: Seq::empty(), symbols: Seq::empty(), error: None }
}

/// Compiles the statements of a source whose names and string literals are
/// the strings `strings`. The program is their code in one chunk, with a
/// return at its end. If statements could not be compiled, their errors are
/// given instead, each with the source text of its statement.
#[verifier::rlimit(60)]
pub fn compile(statements: &Vec<StmtMeta>, strings: Interner) -> (result: Result<
    CompiledProgram,
    Vec<CompileError>,
>)
    ensures
        match result {
            Ok(compiled) => {
                let emitted = with_statements(nothing_emitted(), statements@, 0);
                &&& emitted.1.len() == 0
                &&& compiled.symbols.wf()
                &&& compiled.symbols@ == emitted.0.symbols
                &&& compiled.program@.chunks == seq![with_op(emitted.0, OpCode::Return).code]
                &&& compiled.program@.consts == emitted.0.pool
                &&& compiled.program@.strings == strings@
                &&& compiled.program@.functions.len() == 0
            },
            Err(errors) => errors@.len() > 0 && errors@ == with_statements(
                nothing_emitted(),
                statements@,
                0,
            ).1,
        },
{
    let mut compiler = Compiler::new(strings);
    let mut errors: Vec<CompileError> = Vec::new();
    let mut i: usize = 0;
    while i < statements.len()
        invariant
            i <= statements@.len(),
            compiler.wf(),
            compiler.strings() == strings@,
            ({
                let rest = with_statements(compiler.emitted(None), statements@, i as int);
                let all = with_statements(nothing_emitted(), statements@, 0);
                all.0 == rest.0 && all.1 == errors@ + rest.1
            }),
        decreases statements@.len() - i,
    {
        let ghost before = errors@;
        let ghost st = compiler.emitted(None);
        match compiler.emit_statement(&statements[i].stmt, statements[i].symbol, None) {
            Ok(()) => {},
            Err(kind) => {
                let error = CompileError::new(kind).with_symbol(*statements[i].debug_symbol());
                errors.push(error);
                proof {
                    let after = with_statement(
                        st,
                        statements@[i as int].spec_stmt(),
                        statements@[i as int].spec_symbol(),
                        None,
                    );
                    assert(compiler.emitted(None) == (Emitted { error: None, ..after }));
                    let rest = with_statements(compiler.emitted(None), statements@, i + 1);
                    assert(errors@ + rest.1 =~= before + (seq![error] + rest.1));
                }
            },
        }
        i += 1;
    }
    proof {
        assert(errors@ + Seq::<CompileError>::empty() =~= errors@);
    }
    if errors.len() > 0 {
        Err(errors)
    } else {
        Ok(compiler.finish())
    }
}

/// Once a statement has an error, nothing more is emitted of it.
pub proof fn lemma_error_stays(st: Emitted, expr: Expr, symbol: DebugSymbol)
    requires
        st.error.is_some(),
    ensures
        with_expr(st, expr, symbol) == st,
    decreases expr,
{
    match expr {
        Expr::Atom(Atom::Group(inner)) => {
            lemma_error_stays(st, *inner, symbol);
        },
        Expr::UnaryOp(op, operand) => {
            lemma_error_stays(st, *operand, symbol);
        },
        Expr::BinaryOp(op, lhs, rhs) => {
            lemma_error_stays(st, *lhs, symbol);
            lemma_error_stays(st, *rhs, symbol);
        },
        Expr::Assignment(target, value) => {
            lemma_error_stays(st, *value, symbol);
        },
        _ => {},
    }
}

/// Once a statement has an error, nothing more is emitted of it.
pub proof fn lemma_statement_error_stays(
    st: Emitted,
    stmt: Stmt,
    symbol: DebugSymbol,
    inside: Option<LoopSites>,
)
    requires
        st.error.is_some(),
    ensures
        with_statement(st, stmt, symbol, inside) == st,
        with_if(st, stmt, inside) == st,
        with_while(st, stmt, inside) == st,
    decreases stmt,
{
    match stmt {
        Stmt::Expression(meta) => lemma_error_stays(st, meta.expr, meta.symbol),
        Stmt::Echo(meta) => lemma_error_stays(st, meta.expr, meta.symbol),
        Stmt::Assert(meta) => lemma_error_stays(st, meta.expr, meta.symbol),
        Stmt::Declaration { name, init, mutable } => lemma_error_stays(st, init.expr, init.symbol),
        Stmt::Block(list) => lemma_list_error_stays(st, list, inside),
        Stmt::If { cond, then, otherwise } => {
            lemma_error_stays(st, cond.expr, cond.symbol);
            lemma_statement_error_stays(st, then.stmt, then.symbol, inside);
            if otherwise.is_some() {
                lemma_statement_error_stays(
                    st,
                    otherwise.unwrap().stmt,
                    otherwise.unwrap().symbol,
                    inside,
                );
            }
        },
        Stmt::While { cond, body } => {
            lemma_error_stays(st, cond.expr, cond.symbol);
            lemma_statement_error_stays(
                st,
                body.stmt,
                body.symbol,
                Some(LoopSites { exit: (st.code.len() + 3) as usize, again: (st.code.len() + 6) as usize }),
            );
        },
        _ => {},
    }
}

/// Once a statement has an error, nothing more is emitted of the
/// statements of a block.
pub proof fn lemma_list_error_stays(st: Emitted, list: StmtList, inside: Option<LoopSites>)
    requires
        st.error.is_some(),
    ensures
        with_list(st, list, inside) == st,
    decreases list,
{
    match list {
        StmtList::Nil => {},
        StmtList::Cons(first, rest) => {
            lemma_statement_error_stays(st, first.stmt, first.symbol, inside);
            lemma_list_error_stays(st, *rest, inside);
        },
    }
}

} // verus!
