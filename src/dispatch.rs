//! Basic blocks, labels and control flow, lowered onto a dispatch loop driven
//! by the `NEXT_BASIC_BLOCK` and `CURRENT_BASIC_BLOCK` registers.
use vstd::prelude::*;
use crate::location::{
    StaticLocation, str_equal, cell, copy_code, dec_code, equals_code, if_code, if_stmt, inc_code,
    set_const_code, while_code, while_on, CALL_SP, CURRENT_BASIC_BLOCK, CURRENT_BASIC_BLOCK_EQ0,
    CURRENT_BASIC_BLOCK_EQ1, JMP_TEMP, NEXT_BASIC_BLOCK,
};
use crate::dynamic::{DynamicLocation, call_stack, call_stack_table, dyn_copy_code};
use crate::table::{table_get_code, table_set_code};
use crate::assembly::{BasicBlockOp, CompileError, lowering, reg};

verus! {

/// The label registry entries, newest last: the newest entry of a name wins.
pub open spec fn label_lookup(entries: Seq<(String, usize)>, name: Seq<char>) -> Option<usize>
    decreases entries.len(),
{
    if entries.len() == 0 {
        None
    } else if entries.last().0@ == name {
        Some(entries.last().1)
    } else {
        label_lookup(entries.drop_last(), name)
    }
}

/// The state of one compilation: the last block id handed out and the labels
/// bound so far.
pub struct Session {
    pub next_block: usize,
    pub labels: Vec<(String, usize)>,
}

impl Session {
    /// A fresh session: no block ids handed out, no labels.
    pub fn new() -> (r: Self)
        ensures
            r.next_block == 0,
            r.labels@.len() == 0,
    {
        Session { next_block: 0, labels: Vec::new() }
    }

    /// The block bound to the label `name`, if any.
    pub open spec fn label(&self, name: Seq<char>) -> Option<usize> {
        label_lookup(self.labels@, name)
    }

    /// The block bound to the label `name`, if any.
    pub fn lookup(&self, name: &str) -> (r: Option<usize>)
        ensures
            r == self.label(name@),
    {
        let mut i = self.labels.len();
        assert(self.labels@.subrange(0, i as int) =~= self.labels@);
        while i > 0
            invariant
                i <= self.labels@.len(),
                self.label(name@) == label_lookup(self.labels@.subrange(0, i as int), name@),
            decreases i,
        {
            let entry = &self.labels[i - 1];
            proof {
                let pre = self.labels@.subrange(0, i as int);
                assert(pre.drop_last() =~= self.labels@.subrange(0, i - 1));
                assert(pre.last() == *entry);
            }
            if str_equal(entry.0.as_str(), name) {
                return Some(entry.1);
            }
            i = i - 1;
        }
        None
    }
}

/// Hands out the next block id: ids start at 1, and 0 means "halt".
pub fn next_basic_block_number(session: &mut Session) -> (r: usize)
    requires
        old(session).next_block < usize::MAX,
    ensures
        r == old(session).next_block + 1,
        final(session).next_block == r,
        final(session).labels@ == old(session).labels@,
{
    session.next_block = session.next_block + 1;
    session.next_block
}

/// Binds the block's label, if it has one, to the block's id.
fn add_basic_block(session: &mut Session, bb: &BasicBlock)
    ensures
        final(session).next_block == old(session).next_block,
        bb.label is None ==> final(session).labels@ == old(session).labels@,
        bb.label matches Some(l) ==> final(session).labels@ == old(session).labels@.push(
            (l, bb.number),
        ),
{
    match &bb.label {
        Some(label) => {
            session.labels.push((label.clone(), bb.number));
        },
        None => {},
    }
}

/// A straight-line run of instructions with a unique id and an optional label.
#[derive(Debug, Clone)]
pub struct BasicBlock {
    pub label: Option<String>,
    pub number: usize,
    pub ops: Vec<BasicBlockOp>,
}

/// The instructions of a block lowered in order, or `None` if one has no lowering.
pub open spec fn block_code(ops: Seq<BasicBlockOp>) -> Option<Seq<char>>
    decreases ops.len(),
{
    if ops.len() == 0 {
        Some(Seq::empty())
    } else {
        match block_code(ops.drop_last()) {
            Some(s) => if ops.last() is Mod {
                None
            } else {
                Some(s + lowering(ops.last()))
            },
            None => None,
        }
    }
}

impl BasicBlock {
    /// A new block with the next id of `session`, its label bound to it.
    pub fn new(session: &mut Session, label: Option<String>, ops: Vec<BasicBlockOp>) -> (r: Self)
        requires
            old(session).next_block < usize::MAX,
        ensures
            r.number == old(session).next_block + 1,
            r.label == label,
            r.ops@ == ops@,
            final(session).next_block == r.number,
            label is None ==> final(session).labels@ == old(session).labels@,
            label matches Some(l) ==> final(session).labels@ == old(session).labels@.push(
                (l, r.number),
            ),
    {
        let number = next_basic_block_number(session);
        let result = BasicBlock { label, number, ops };
        add_basic_block(session, &result);
        result
    }

    /// The id of the block that follows this one in program order.
    pub fn next_basic_block(&self) -> (r: usize)
        requires
            self.number < usize::MAX,
        ensures
            r == self.number + 1,
    {
        self.number + 1
    }

    /// The block's instructions, lowered in order.
    pub fn assemble_ops(&self) -> (r: Result<String, CompileError>)
        ensures
            r is Ok <==> block_code(self.ops@) is Some,
            r matches Ok(s) ==> block_code(self.ops@) == Some(s@),
            r matches Err(e) ==> e is UnimplementedInstruction,
    {
        let mut out = String::new();
        let mut i: usize = 0;
        while i < self.ops.len()
            invariant
                i <= self.ops@.len(),
                block_code(self.ops@.subrange(0, i as int)) == Some(out@),
            decreases self.ops@.len() - i,
        {
            proof {
                let next = self.ops@.subrange(0, i + 1);
                assert(next.drop_last() =~= self.ops@.subrange(0, i as int));
                assert(next.last() == self.ops@[i as int]);
            }
            match self.ops[i].assemble() {
                Ok(s) => out.append(&s),
                Err(e) => {
                    proof {
                        lemma_block_code_fails(self.ops@, i as int);
                    }
                    return Err(e);
                },
            }
            i = i + 1;
        }
        assert(self.ops@.subrange(0, self.ops@.len() as int) =~= self.ops@);
        Ok(out)
    }

    /// The block's body.
    pub fn assemble(&self) -> (r: Result<String, CompileError>)
        ensures
            r is Ok <==> block_code(self.ops@) is Some,
            r matches Ok(s) ==> block_code(self.ops@) == Some(s@),
            r matches Err(e) ==> e is UnimplementedInstruction,
    {
        self.assemble_ops()
    }
}

/// Once an instruction without lowering appears, the block has no lowering.
proof fn lemma_block_code_fails(ops: Seq<BasicBlockOp>, i: int)
    requires
        0 <= i < ops.len(),
        ops[i] is Mod,
    ensures
        block_code(ops) is None,
    decreases ops.len(),
{
    if i < ops.len() - 1 {
        assert(ops.drop_last()[i] == ops[i]);
        lemma_block_code_fails(ops.drop_last(), i);
    }
}

/// One element of a program.
#[derive(Debug, Clone)]
pub enum Op {
    BasicBlock(BasicBlock),
    Label(String, BasicBlock),
    /// Halts.
    Quit(usize),
    /// Continues at the labelled block.
    Jmp(usize, String),
    /// Pushes the return block and continues at the labelled block.
    Call(usize, String),
    /// Continues at the block popped from the call stack.
    Return(usize),
    /// Continues at the labelled block if the location is nonzero, else at the
    /// next block.
    JmpIf(usize, DynamicLocation, String),
}

/// The block id under which an element of a program runs.
pub open spec fn op_number(op: Op) -> usize {
    match op {
        Op::BasicBlock(bb) => bb.number,
        Op::Label(_, bb) => bb.number,
        Op::Quit(n) => n,
        Op::Jmp(n, _) => n,
        Op::Call(n, _) => n,
        Op::Return(n) => n,
        Op::JmpIf(n, _, _) => n,
    }
}

/// The label a control element refers to, if any.
pub open spec fn op_target(op: Op) -> Option<String> {
    match op {
        Op::Jmp(_, l) => Some(l),
        Op::Call(_, l) => Some(l),
        Op::JmpIf(_, _, l) => Some(l),
        _ => None,
    }
}

/// Pushes cell `x` onto the call stack.
pub open spec fn push_call_code(x: nat) -> Seq<char> {
    inc_code(CALL_SP as nat) + table_set_code(call_stack_table(), CALL_SP as nat, x)
}

/// Pops the call stack into cell `x`.
pub open spec fn pop_call_code(x: nat) -> Seq<char> {
    table_get_code(call_stack_table(), CALL_SP as nat, x) + dec_code(CALL_SP as nat)
}

/// How a control element sets `NEXT_BASIC_BLOCK`, given the id its label
/// resolves to.
pub open spec fn transfer_code(op: Op, target: usize) -> Seq<char> {
    let next = NEXT_BASIC_BLOCK as nat;
    match op {
        Op::BasicBlock(_) => Seq::empty(),
        Op::Label(_, _) => Seq::empty(),
        Op::Quit(_) => set_const_code(next, 0),
        Op::Jmp(_, _) => set_const_code(next, target as nat),
        Op::Call(_, _) => push_call_code(next) + set_const_code(next, target as nat),
        Op::Return(_) => pop_call_code(next),
        Op::JmpIf(n, loc, _) => dyn_copy_code(reg(JMP_TEMP), loc) + set_const_code(next, (n + 1) as nat)
            + if_code(JMP_TEMP as nat, set_const_code(next, target as nat)),
    }
}

/// The body an element runs when its block is current, or `None` when its
/// label is unbound or one of its instructions has no lowering.
pub open spec fn body_code(op: Op, session: Session) -> Option<Seq<char>> {
    match op {
        Op::BasicBlock(bb) => block_code(bb.ops@),
        Op::Label(_, bb) => block_code(bb.ops@),
        _ => match op_target(op) {
            None => Some(transfer_code(op, 0)),
            Some(l) => match session.label(l@) {
                Some(t) => Some(transfer_code(op, t)),
                None => None,
            },
        },
    }
}

/// The error `e` is due to the element `op`: its label is unbound, or one of
/// its instructions has no lowering.
pub open spec fn explains(op: Op, session: Session, e: CompileError) -> bool {
    match e {
        CompileError::UnknownLabel(l) => op_target(op) matches Some(t) && t@ == l@
            && session.label(l@) is None,
        CompileError::UnimplementedInstruction => match op {
            Op::BasicBlock(bb) => block_code(bb.ops@) is None,
            Op::Label(_, bb) => block_code(bb.ops@) is None,
            _ => false,
        },
    }
}

/// Runs `body` exactly when `CURRENT_BASIC_BLOCK` holds `number`.
pub open spec fn guarded_code(number: nat, body: Seq<char>) -> Seq<char> {
    set_const_code(CURRENT_BASIC_BLOCK_EQ1 as nat, number) + equals_code(
        CURRENT_BASIC_BLOCK_EQ0 as nat,
        CURRENT_BASIC_BLOCK as nat,
        CURRENT_BASIC_BLOCK_EQ1 as nat,
    ) + if_code(CURRENT_BASIC_BLOCK_EQ0 as nat, body)
}

pub open spec fn op_code(op: Op, session: Session) -> Option<Seq<char>> {
    match body_code(op, session) {
        Some(b) => Some(guarded_code(op_number(op) as nat, b)),
        None => None,
    }
}

/// The elements lowered in order, or `None` at the first that cannot be.
pub open spec fn ops_code(ops: Seq<Op>, session: Session) -> Option<Seq<char>>
    decreases ops.len(),
{
    if ops.len() == 0 {
        Some(Seq::empty())
    } else {
        match (ops_code(ops.drop_last(), session), op_code(ops.last(), session)) {
            (Some(a), Some(b)) => Some(a + b),
            _ => None,
        }
    }
}

/// The dispatch loop: start at block 1 and, while `NEXT_BASIC_BLOCK` is nonzero,
/// presume a fall through, run the current block's elements, and move on.
pub open spec fn program_code(body: Seq<char>) -> Seq<char> {
    let next = NEXT_BASIC_BLOCK as nat;
    let current = CURRENT_BASIC_BLOCK as nat;
    set_const_code(current, 1) + set_const_code(next, 1) + while_code(
        next,
        inc_code(next) + body + copy_code(current, next),
    )
}

fn push_to_call_stack(loc: StaticLocation) -> (r: String)
    ensures
        r@ == push_call_code(loc.cell()),
{
    let sp = cell(CALL_SP);
    let mut out = sp.inc();
    out.append(&call_stack().set(sp, loc));
    out
}

fn pop_from_call_stack(loc: StaticLocation) -> (r: String)
    ensures
        r@ == pop_call_code(loc.cell()),
{
    let sp = cell(CALL_SP);
    let mut out = call_stack().get(sp, loc);
    out.append(&sp.dec());
    out
}

/// Resolves `label` in `session`.
fn resolve(session: &Session, label: &String) -> (r: Result<usize, CompileError>)
    ensures
        r matches Ok(t) ==> session.label(label@) == Some(t),
        r is Err ==> session.label(label@) is None,
        r matches Err(e) ==> e matches CompileError::UnknownLabel(l) && l@ == label@,
{
    match session.lookup(label.as_str()) {
        Some(t) => Ok(t),
        None => Err(CompileError::UnknownLabel(label.clone())),
    }
}

impl Op {
    /// How this element sets `NEXT_BASIC_BLOCK` once its block has run.
    pub fn goto_next_basic_block(&self, session: &Session) -> (r: Result<String, CompileError>)
        requires
            op_number(*self) < usize::MAX,
        ensures
            r is Ok <==> (op_target(*self) matches Some(l) ==> session.label(l@) is Some),
            r matches Ok(s) ==> s@ == transfer_code(
                *self,
                match op_target(*self) {
                    Some(l) => session.label(l@).unwrap(),
                    None => 0,
                },
            ),
            r matches Err(e) ==> e matches CompileError::UnknownLabel(l) && op_target(*self)
                matches Some(t) && t@ == l@,
    {
        let next = cell(NEXT_BASIC_BLOCK);
        match self {
            Op::BasicBlock(_) | Op::Label(_, _) => Ok(String::new()),
            Op::Quit(_) => Ok(next.set_const(0)),
            Op::Jmp(_, label) => {
                let target = resolve(session, label)?;
                Ok(next.set_const(target as u64))
            },
            Op::Call(_, label) => {
                let target = resolve(session, label)?;
                let mut out = push_to_call_stack(next);
                out.append(&next.set_const(target as u64));
                Ok(out)
            },
            Op::Return(_) => Ok(pop_from_call_stack(next)),
            Op::JmpIf(current, location, label) => {
                let target = resolve(session, label)?;
                let jmp = cell(JMP_TEMP);
                let mut out = DynamicLocation::Static(jmp).set_from(*location);
                out.append(&next.set_const(*current as u64 + 1));
                out.append(&if_stmt(&jmp, next.set_const(target as u64)));
                Ok(out)
            },
        }
    }

    /// The element, guarded so that it runs only when its block is current.
    pub fn assemble(&self, session: &Session) -> (r: Result<String, CompileError>)
        requires
            op_number(*self) < usize::MAX,
        ensures
            r is Ok <==> op_code(*self, *session) is Some,
            r matches Ok(s) ==> op_code(*self, *session) == Some(s@),
            r matches Err(e) ==> explains(*self, *session, e),
    {
        let number = match self {
            Op::BasicBlock(bb) | Op::Label(_, bb) => bb.number,
            Op::Quit(n) | Op::Jmp(n, _) | Op::Call(n, _) | Op::Return(n) | Op::JmpIf(n, _, _) => *n,
        };
        let body = match self {
            Op::BasicBlock(bb) | Op::Label(_, bb) => bb.assemble()?,
            _ => self.goto_next_basic_block(session)?,
        };
        let eq1 = cell(CURRENT_BASIC_BLOCK_EQ1);
        let eq0 = cell(CURRENT_BASIC_BLOCK_EQ0);
        let mut out = eq1.set_const(number as u64);
        out.append(&StaticLocation::equals(eq0, cell(CURRENT_BASIC_BLOCK), eq1));
        out.append(&if_stmt(&eq0, body));
        Ok(out)
    }
}

/// A program: its elements in order. A parsed program ends with `Quit`.
#[derive(Debug, Clone)]
pub struct Program(pub Vec<Op>);

/// `e` is due to an element of `ops` all of whose predecessors lower.
pub open spec fn first_failure(ops: Seq<Op>, session: Session, e: CompileError) -> bool {
    exists|i: int|
        0 <= i < ops.len() && explains(#[trigger] ops[i], session, e) && forall|j: int|
            0 <= j < i ==> op_code(#[trigger] ops[j], session) is Some
}

/// Every element has a block id below the largest.
pub open spec fn numbers_bounded(ops: Seq<Op>) -> bool {
    forall|i: int| 0 <= i < ops.len() ==> op_number(#[trigger] ops[i]) < usize::MAX
}

impl Program {
    pub fn len(&self) -> (r: usize)
        ensures
            r == self.0@.len(),
    {
        self.0.len()
    }

    pub fn push(&mut self, op: Op)
        ensures
            final(self).0@ == old(self).0@.push(op),
    {
        self.0.push(op);
    }

    #[verifier::spinoff_prover]
    #[verifier::rlimit(60)]
    fn assemble_ops(&self, session: &Session) -> (r: Result<String, CompileError>)
        requires
            numbers_bounded(self.0@),
        ensures
            r is Ok <==> ops_code(self.0@, *session) is Some,
            r matches Ok(s) ==> ops_code(self.0@, *session) == Some(s@),
            r matches Err(e) ==> first_failure(self.0@, *session, e),
    {
        let mut out = String::new();
        let mut i: usize = 0;
        while i < self.0.len()
            invariant
                i <= self.0@.len(),
                numbers_bounded(self.0@),
                ops_code(self.0@.subrange(0, i as int), *session) == Some(out@),
                forall|j: int| 0 <= j < i ==> op_code(#[trigger] self.0@[j], *session) is Some,
            decreases self.0@.len() - i,
        {
            proof {
                let next = self.0@.subrange(0, i + 1);
                assert(next.drop_last() =~= self.0@.subrange(0, i as int));
                assert(next.last() == self.0@[i as int]);
            }
            assert(op_number(self.0@[i as int]) < usize::MAX);
            match self.0[i].assemble(session) {
                Ok(s) => out.append(&s),
                Err(e) => {
                    proof {
                        lemma_ops_code_fails(self.0@, *session, i as int);
                        assert(explains(self.0@[i as int], *session, e));
                    }
                    return Err(e);
                },
            }
            i = i + 1;
        }
        assert(self.0@.subrange(0, self.0@.len() as int) =~= self.0@);
        Ok(out)
    }

    /// The whole program as BF: the dispatch loop over all its elements.
    pub fn assemble(&self, session: &Session) -> (r: Result<String, CompileError>)
        requires
            numbers_bounded(self.0@),
        ensures
            r is Ok <==> ops_code(self.0@, *session) is Some,
            r matches Ok(s) ==> s@ == program_code(ops_code(self.0@, *session).unwrap()),
            r matches Err(e) ==> first_failure(self.0@, *session, e),
    {
        let body = self.assemble_ops(session)?;
        let next = cell(NEXT_BASIC_BLOCK);
        let current = cell(CURRENT_BASIC_BLOCK);
        let mut out = current.set_const(1);
        out.append(&next.set_const(1));
        let mut inner = next.inc();
        inner.append(&body);
        inner.append(&current.set_from(next));
        out.append(&while_on(&next, inner));
        Ok(out)
    }
}

/// Once an element cannot be lowered, the program cannot be.
#[verifier::spinoff_prover]
#[verifier::rlimit(60)]
proof fn lemma_ops_code_fails(ops: Seq<Op>, session: Session, i: int)
    requires
        0 <= i < ops.len(),
        op_code(ops[i], session) is None,
    ensures
        ops_code(ops, session) is None,
    decreases ops.len(),
{
    if i < ops.len() - 1 {
        assert(ops.drop_last()[i] == ops[i]);
        lemma_ops_code_fails(ops.drop_last(), session, i);
        assert(ops_code(ops.drop_last(), session) is None);
    } else {
        assert(op_code(ops.last(), session) is None);
    }
}

} // verus!
