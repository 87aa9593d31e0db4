//! Compilation of the syntax tree to stack-machine bytecode.

use vstd::prelude::*;
use std::collections::HashMap;
use crate::ast::{Expr, ExprView, Stmt, StmtView, exprs_view, stmts_view};
use crate::text::{string_from_chars, string_is};

verus! {

/// One instruction of the stack machine. Jump targets are instruction indices.
#[derive(Debug, Clone)]
pub enum OpCode {
    PushInt(String),
    PushStr(String),
    Load(String),
    Store(String),
    Addr(String),
    Deref,
    StoreDeref,
    LeakReport,
    Leak,
    Add,
    Sub,
    Mul,
    Div,
    Jump(usize),
    JumpIfFalse(usize),
    Call(String, usize),
    Ret,
    Put,
    Get,
    Xor,
    Or,
    JitExec,
    EnterTry,
    ExitTry,
    ArenaStart,
    ArenaEnd,
    Halt,
}

pub enum OpView {
    PushInt(Seq<char>),
    PushStr(Seq<char>),
    Load(Seq<char>),
    Store(Seq<char>),
    Addr(Seq<char>),
    Deref,
    StoreDeref,
    LeakReport,
    Leak,
    Add,
    Sub,
    Mul,
    Div,
    Jump(int),
    JumpIfFalse(int),
    Call(Seq<char>, int),
    Ret,
    Put,
    Get,
    Xor,
    Or,
    JitExec,
    EnterTry,
    ExitTry,
    ArenaStart,
    ArenaEnd,
    Halt,
}

impl View for OpCode {
    type V = OpView;

    open spec fn view(&self) -> OpView {
        match self {
            OpCode::PushInt(s) => OpView::PushInt(s@),
            OpCode::PushStr(s) => OpView::PushStr(s@),
            OpCode::Load(s) => OpView::Load(s@),
            OpCode::Store(s) => OpView::Store(s@),
            OpCode::Addr(s) => OpView::Addr(s@),
            OpCode::Deref => OpView::Deref,
            OpCode::StoreDeref => OpView::StoreDeref,
            OpCode::LeakReport => OpView::LeakReport,
            OpCode::Leak => OpView::Leak,
            OpCode::Add => OpView::Add,
            OpCode::Sub => OpView::Sub,
            OpCode::Mul => OpView::Mul,
            OpCode::Div => OpView::Div,
            OpCode::Jump(t) => OpView::Jump(*t as int),
            OpCode::JumpIfFalse(t) => OpView::JumpIfFalse(*t as int),
            OpCode::Call(s, n) => OpView::Call(s@, *n as int),
            OpCode::Ret => OpView::Ret,
            OpCode::Put => OpView::Put,
            OpCode::Get => OpView::Get,
            OpCode::Xor => OpView::Xor,
            OpCode::Or => OpView::Or,
            OpCode::JitExec => OpView::JitExec,
            OpCode::EnterTry => OpView::EnterTry,
            OpCode::ExitTry => OpView::ExitTry,
            OpCode::ArenaStart => OpView::ArenaStart,
            OpCode::ArenaEnd => OpView::ArenaEnd,
            OpCode::Halt => OpView::Halt,
        }
    }
}

impl OpCode {
    /// A copy of the instruction.
    pub fn duplicate(&self) -> (o: OpCode)
        ensures
            o@ == self@,
    {
        match self {
            OpCode::PushInt(s) => OpCode::PushInt(s.clone()),
            OpCode::PushStr(s) => OpCode::PushStr(s.clone()),
            OpCode::Load(s) => OpCode::Load(s.clone()),
            OpCode::Store(s) => OpCode::Store(s.clone()),
            OpCode::Addr(s) => OpCode::Addr(s.clone()),
            OpCode::Deref => OpCode::Deref,
            OpCode::StoreDeref => OpCode::StoreDeref,
            OpCode::LeakReport => OpCode::LeakReport,
            OpCode::Leak => OpCode::Leak,
            OpCode::Add => OpCode::Add,
            OpCode::Sub => OpCode::Sub,
            OpCode::Mul => OpCode::Mul,
            OpCode::Div => OpCode::Div,
            OpCode::Jump(t) => OpCode::Jump(*t),
            OpCode::JumpIfFalse(t) => OpCode::JumpIfFalse(*t),
            OpCode::Call(s, n) => OpCode::Call(s.clone(), *n),
            OpCode::Ret => OpCode::Ret,
            OpCode::Put => OpCode::Put,
            OpCode::Get => OpCode::Get,
            OpCode::Xor => OpCode::Xor,
            OpCode::Or => OpCode::Or,
            OpCode::JitExec => OpCode::JitExec,
            OpCode::EnterTry => OpCode::EnterTry,
            OpCode::ExitTry => OpCode::ExitTry,
            OpCode::ArenaStart => OpCode::ArenaStart,
            OpCode::ArenaEnd => OpCode::ArenaEnd,
            OpCode::Halt => OpCode::Halt,
        }
    }
}

pub open spec fn ops_view(v: Seq<OpCode>) -> Seq<OpView> {
    v.map_values(|o: OpCode| o@)
}

/// Where each top-level statement's code starts, and the source-line number
/// given to it; a later statement at the same index replaces an earlier one.
#[derive(Debug, Clone)]
pub struct DebugMap {
    pub file: String,
    pub lines: HashMap<usize, usize>,
    pub symbols: HashMap<String, String>,
}

/// A compiled program with its debug map and signature.
pub struct SignedBinary {
    pub bytecode: Vec<OpCode>,
    pub debug_map: DebugMap,
    pub signature: String,
}

/// The instruction for a binary operator; other operators compile to nothing.
pub open spec fn binop_code(op: Seq<char>) -> Seq<OpView> {
    if op == seq!['+'] {
        seq![OpView::Add]
    } else if op == seq!['-'] {
        seq![OpView::Sub]
    } else if op == seq!['*'] {
        seq![OpView::Mul]
    } else if op == seq!['/'] {
        seq![OpView::Div]
    } else if op == seq!['^'] {
        seq![OpView::Xor]
    } else if op == seq!['|'] {
        seq![OpView::Or]
    } else {
        seq![]
    }
}

/// Code that leaves the value of an expression on the stack.
pub open spec fn code_expr(e: ExprView) -> Seq<OpView>
    decreases e,
{
    match e {
        ExprView::Number(n) => seq![OpView::PushInt(n)],
        ExprView::Str(s) => seq![OpView::PushStr(s)],
        ExprView::Variable(v) => seq![OpView::Load(v)],
        ExprView::Addr(v) => seq![OpView::Addr(v)],
        ExprView::Deref(inner) => code_expr(*inner) + seq![OpView::Deref],
        ExprView::Cast(inner, _) => code_expr(*inner),
        ExprView::BinaryOp(l, op, r) => code_expr(*l) + code_expr(*r) + binop_code(op),
        ExprView::Call(name, args) => code_args(args) + seq![OpView::Call(name, args.len() as int)],
    }
}

pub open spec fn code_args(args: Seq<ExprView>) -> Seq<OpView>
    decreases args,
{
    if args.len() == 0 {
        seq![]
    } else {
        code_expr(args[0]) + code_args(args.subrange(1, args.len() as int))
    }
}

pub open spec fn one_str() -> Seq<char> {
    seq!['1']
}

/// Code for a statement placed at instruction index `base`.
pub open spec fn code_stmt(s: StmtView, base: int) -> Seq<OpView>
    decreases s,
{
    match s {
        StmtView::Six(_, body) => code_stmts(body, base),
        StmtView::VarDecl(name, _, e) => code_expr(e) + seq![OpView::Store(name)],
        StmtView::Assignment(name, e) => code_expr(e) + seq![OpView::Store(name)],
        StmtView::DerefAssignment(addr, e) => code_expr(e) + code_expr(addr) + seq![OpView::StoreDeref],
        StmtView::For(var, start, end, body) => {
            let init = code_expr(start) + seq![OpView::Store(var)];
            let start_label = base + init.len();
            let test = seq![OpView::Load(var)] + code_expr(end) + seq![OpView::Sub];
            let body_base = start_label + test.len() + 1;
            let body_code = code_stmts(body, body_base);
            let step = seq![
                OpView::Load(var),
                OpView::PushInt(one_str()),
                OpView::Add,
                OpView::Store(var),
                OpView::Jump(start_label),
            ];
            let end_label = body_base + body_code.len() + step.len();
            init + test + seq![OpView::JumpIfFalse(end_label)] + body_code + step
        },
        StmtView::Put(e) => code_expr(e) + seq![OpView::Put],
        StmtView::FnDecl(_, params, body) => params.map_values(|p: Seq<char>| OpView::Store(p))
            + code_stmts(body, base + params.len()) + seq![OpView::Ret],
        StmtView::Return(e) => code_expr(e) + seq![OpView::Ret],
        StmtView::Try(body) => seq![OpView::EnterTry, OpView::ArenaStart] + code_stmts(
            body,
            base + 2,
        ) + seq![OpView::ArenaEnd, OpView::ExitTry],
        StmtView::Expression(e) => code_expr(e),
        _ => seq![],
    }
}

/// Code for statements placed one after another from index `base`.
pub open spec fn code_stmts(ss: Seq<StmtView>, base: int) -> Seq<OpView>
    decreases ss,
{
    if ss.len() == 0 {
        seq![]
    } else {
        let first = code_stmt(ss[0], base);
        first + code_stmts(ss.subrange(1, ss.len() as int), base + first.len())
    }
}

} // verus!

verus! {

proof fn lemma_code_args_push(s: Seq<ExprView>, x: ExprView)
    ensures
        code_args(s.push(x)) == code_args(s) + code_expr(x),
    decreases s.len(),
{
    if s.len() == 0 {
        let t = s.push(x);
        assert(t[0] == x);
        assert(t.subrange(1, 1) =~= Seq::<ExprView>::empty());
        assert(code_args(Seq::<ExprView>::empty()) == Seq::<OpView>::empty());
        assert(code_args(s) == Seq::<OpView>::empty());
        assert(code_args(s.push(x)) =~= code_expr(x));
    } else {
        let tail = s.subrange(1, s.len() as int);
        lemma_code_args_push(tail, x);
        assert(s.push(x).subrange(1, s.len() as int + 1) =~= tail.push(x));
        assert(code_args(s.push(x)) =~= code_args(s) + code_expr(x));
    }
}

proof fn lemma_code_stmts_push(s: Seq<StmtView>, x: StmtView, base: int)
    ensures
        code_stmts(s.push(x), base) == code_stmts(s, base) + code_stmt(
            x,
            base + code_stmts(s, base).len(),
        ),
    decreases s.len(),
{
    if s.len() == 0 {
        let t = s.push(x);
        assert(t[0] == x);
        assert(t.subrange(1, 1) =~= Seq::<StmtView>::empty());
        assert(code_stmts(Seq::<StmtView>::empty(), base + code_stmt(x, base).len()) == Seq::<OpView>::empty());
        assert(code_stmts(s, base) == Seq::<OpView>::empty());
        assert(code_stmts(s.push(x), base) =~= code_stmt(x, base));
    } else {
        let tail = s.subrange(1, s.len() as int);
        let first = code_stmt(s[0], base);
        lemma_code_stmts_push(tail, x, base + first.len());
        assert(s.push(x).subrange(1, s.len() as int + 1) =~= tail.push(x));
        assert(code_stmts(s.push(x), base) =~= code_stmts(s, base) + code_stmt(
            x,
            base + code_stmts(s, base).len(),
        ));
    }
}

proof fn lemma_ops_push(v: Seq<OpCode>, o: OpCode)
    ensures
        ops_view(v.push(o)) == ops_view(v).push(o@),
{
    assert(ops_view(v.push(o)) =~= ops_view(v).push(o@));
}

fn one_char(c: char) -> (v: Vec<char>)
    ensures
        v@ == seq![c],
{
    let v = vec![c];
    assert(v@ =~= seq![c]);
    v
}

/// The text of a single character.
fn char_string(c: char) -> (s: String)
    ensures
        s@ == seq![c],
{
    let v = vec![c];
    assert(v@ =~= seq![c]);
    string_from_chars(v.as_slice())
}

/// A bytecode compiler; compiled code is appended to what it holds.
pub struct Compiler {
    bytecode: Vec<OpCode>,
}

impl View for Compiler {
    type V = Seq<OpView>;

    closed spec fn view(&self) -> Seq<OpView> {
        ops_view(self.bytecode@)
    }
}

impl Compiler {
    pub fn new() -> (c: Self)
        ensures
            c@ == Seq::<OpView>::empty(),
    {
        let c = Self { bytecode: Vec::new() };
        assert(c@ =~= Seq::<OpView>::empty());
        c
    }

    fn emit(&mut self, o: OpCode)
        ensures
            final(self)@ == old(self)@.push(o@),
            final(self).bytecode@.len() == old(self).bytecode@.len() + 1,
    {
        proof {
            lemma_ops_push(self.bytecode@, o);
        }
        self.bytecode.push(o);
    }

    fn compile_expr(&mut self, expr: &Expr)
        ensures
            final(self)@ == old(self)@ + code_expr(expr@),
            final(self).bytecode@.len() == old(self).bytecode@.len() + code_expr(expr@).len(),
        decreases expr,
    {
        let ghost start = self@;
        match expr {
            Expr::Number(n) => self.emit(OpCode::PushInt(n.clone())),
            Expr::String(s) => self.emit(OpCode::PushStr(s.clone())),
            Expr::Variable(v) => self.emit(OpCode::Load(v.clone())),
            Expr::Addr(v) => self.emit(OpCode::Addr(v.clone())),
            Expr::Deref(e) => {
                self.compile_expr(e);
                self.emit(OpCode::Deref);
            },
            Expr::Cast(e, _target_type) => {
                self.compile_expr(e);
            },
            Expr::BinaryOp(left, op, right) => {
                self.compile_expr(left);
                self.compile_expr(right);
                if string_is(op, &one_char('+')) {
                    self.emit(OpCode::Add);
                } else if string_is(op, &one_char('-')) {
                    self.emit(OpCode::Sub);
                } else if string_is(op, &one_char('*')) {
                    self.emit(OpCode::Mul);
                } else if string_is(op, &one_char('/')) {
                    self.emit(OpCode::Div);
                } else if string_is(op, &one_char('^')) {
                    self.emit(OpCode::Xor);
                } else if string_is(op, &one_char('|')) {
                    self.emit(OpCode::Or);
                }
                proof {
                    let l = code_expr(left@);
                    let r = code_expr(right@);
                    assert(self@ =~= start + (l + r + binop_code(op@)));
                }
            },
            Expr::Call(name, args) => {
                let len = args.len();
                let ghost av = exprs_view(args@);
                proof {
                    crate::ast::lemma_exprs_view_index(args@);
                    assert(av.take(0) =~= seq![]);
                }
                let mut i: usize = 0;
                #[verifier::loop_isolation(false)]
                while i < len
                    invariant
                        i <= len,
                        len == args@.len(),
                        av == exprs_view(args@),
                        av.len() == args@.len(),
                        forall|k: int| 0 <= k < args@.len() ==> #[trigger] av[k] == args@[k]@,
                        self@ == start + code_args(av.take(i as int)),
                        self.bytecode@.len() == start.len() + code_args(av.take(i as int)).len(),
                    decreases len - i,
                {
                    proof {
                        assert(decreases_to!(*expr => *args));
                        assert(decreases_to!(*args => args@[i as int]));
                    }
                    self.compile_expr(&args[i]);
                    proof {
                        assert(av.take(i + 1) =~= av.take(i as int).push(av[i as int]));
                        lemma_code_args_push(av.take(i as int), av[i as int]);
                    }
                    i = i + 1;
                }
                proof {
                    assert(av.take(len as int) =~= av);
                }
                self.emit(OpCode::Call(name.clone(), len));
                proof {
                    assert(self@ =~= start + (code_args(av) + seq![OpView::Call(name@, len as int)]));
                }
            },
        }
    }

    fn compile_block(&mut self, body: &Vec<Stmt>)
        ensures
            final(self)@ == old(self)@ + code_stmts(stmts_view(body@), old(self).bytecode@.len() as int),
            final(self).bytecode@.len() == old(self).bytecode@.len() + code_stmts(
                stmts_view(body@),
                old(self).bytecode@.len() as int,
            ).len(),
        decreases body, 0int,
    {
        let ghost start = self@;
        let ghost base = self.bytecode@.len() as int;
        let ghost sv = stmts_view(body@);
        proof {
            crate::ast::lemma_stmts_view_index(body@);
            assert(sv.take(0) =~= seq![]);
        }
        let mut i: usize = 0;
        while i < body.len()
            invariant
                i <= body.len(),
                sv == stmts_view(body@),
                sv.len() == body@.len(),
                forall|k: int| 0 <= k < body@.len() ==> #[trigger] sv[k] == body@[k]@,
                base == start.len(),
                self@ == start + code_stmts(sv.take(i as int), base),
                self.bytecode@.len() == base + code_stmts(sv.take(i as int), base).len(),
            decreases body.len() - i,
        {
            self.compile_stmt(&body[i]);
            proof {
                assert(sv.take(i + 1) =~= sv.take(i as int).push(sv[i as int]));
                lemma_code_stmts_push(sv.take(i as int), sv[i as int], base);
            }
            i = i + 1;
        }
        proof {
            assert(sv.take(body.len() as int) =~= sv);
        }
    }

    fn compile_for(&mut self, var: &String, start_e: &Expr, end_e: &Expr, body: &Vec<Stmt>)
        ensures
            final(self)@ == old(self)@ + code_stmt(
                StmtView::For(var@, start_e@, end_e@, stmts_view(body@)),
                old(self).bytecode@.len() as int,
            ),
            final(self).bytecode@.len() == old(self).bytecode@.len() + code_stmt(
                StmtView::For(var@, start_e@, end_e@, stmts_view(body@)),
                old(self).bytecode@.len() as int,
            ).len(),
        decreases body, 1int,
    {
        let ghost start = self@;
        let ghost base = self.bytecode@.len() as int;
        self.compile_expr(start_e);
        self.emit(OpCode::Store(var.clone()));
        let start_label = self.bytecode.len();
        self.emit(OpCode::Load(var.clone()));
        self.compile_expr(end_e);
        self.emit(OpCode::Sub);
        let exit_jump = self.bytecode.len();
        self.emit(OpCode::JumpIfFalse(0));
        let ghost before_body = self@;
        self.compile_block(body);
        self.emit(OpCode::Load(var.clone()));
        self.emit(OpCode::PushInt(char_string('1')));
        self.emit(OpCode::Add);
        self.emit(OpCode::Store(var.clone()));
        self.emit(OpCode::Jump(start_label));
        let end_label = self.bytecode.len();
        let ghost before_patch = self.bytecode@;
        self.bytecode.set(exit_jump, OpCode::JumpIfFalse(end_label));
        proof {
            let init = code_expr(start_e@) + seq![OpView::Store(var@)];
            let test = seq![OpView::Load(var@)] + code_expr(end_e@) + seq![OpView::Sub];
            let body_code = code_stmts(stmts_view(body@), exit_jump + 1);
            let step = seq![
                OpView::Load(var@),
                OpView::PushInt(one_str()),
                OpView::Add,
                OpView::Store(var@),
                OpView::Jump(start_label as int),
            ];
            assert(ops_view(before_patch) =~= start + (init + test + seq![
                OpView::JumpIfFalse(0),
            ] + body_code + step));
            assert(self@ =~= ops_view(before_patch).update(
                exit_jump as int,
                OpView::JumpIfFalse(end_label as int),
            ));
            assert(self@ =~= start + (init + test + seq![
                OpView::JumpIfFalse(end_label as int),
            ] + body_code + step));
        }
        }

    fn compile_fn(&mut self, params: &Vec<String>, body: &Vec<Stmt>)
        ensures
            final(self)@ == old(self)@ + code_stmt(
                StmtView::FnDecl(seq![], crate::ast::names_view(params@), stmts_view(body@)),
                old(self).bytecode@.len() as int,
            ),
            final(self).bytecode@.len() == old(self).bytecode@.len() + code_stmt(
                StmtView::FnDecl(seq![], crate::ast::names_view(params@), stmts_view(body@)),
                old(self).bytecode@.len() as int,
            ).len(),
        decreases body, 1int,
    {
        let ghost start = self@;
        let ghost base = self.bytecode@.len() as int;
        let ghost pv = crate::ast::names_view(params@);
        let mut i: usize = 0;
        while i < params.len()
            invariant
                i <= params.len(),
                pv == crate::ast::names_view(params@),
                self@ == start + pv.take(i as int).map_values(|p: Seq<char>| OpView::Store(p)),
                self.bytecode@.len() == base + i,
                base == start.len(),
            decreases params.len() - i,
        {
            self.emit(OpCode::Store(params[i].clone()));
            proof {
                assert(pv.take(i + 1).map_values(|p: Seq<char>| OpView::Store(p))
                    =~= pv.take(i as int).map_values(|p: Seq<char>| OpView::Store(p)).push(
                    OpView::Store(params@[i as int]@),
                ));
            }
            i = i + 1;
        }
        proof {
            assert(pv.take(params.len() as int) =~= pv);
        }
        self.compile_block(body);
        self.emit(OpCode::Ret);
        proof {
            let stores = pv.map_values(|p: Seq<char>| OpView::Store(p));
            assert(self@ =~= start + (stores + code_stmts(stmts_view(body@), base + pv.len())
                + seq![OpView::Ret]));
        }
        }

    fn compile_stmt(&mut self, stmt: &Stmt)
        ensures
            final(self)@ == old(self)@ + code_stmt(stmt@, old(self).bytecode@.len() as int),
            final(self).bytecode@.len() == old(self).bytecode@.len() + code_stmt(
                stmt@,
                old(self).bytecode@.len() as int,
            ).len(),
        decreases stmt, 2int,
    {
        let ghost start = self@;
        let ghost base = self.bytecode@.len() as int;
        match stmt {
            Stmt::Six(_name, body) => {
                self.compile_block(body);
            },
            Stmt::VarDecl(name, _type, expr) => {
                self.compile_expr(expr);
                self.emit(OpCode::Store(name.clone()));
            },
            Stmt::Assignment(name, expr) => {
                self.compile_expr(expr);
                self.emit(OpCode::Store(name.clone()));
            },
            Stmt::DerefAssignment(addr, expr) => {
                self.compile_expr(expr);
                self.compile_expr(addr);
                self.emit(OpCode::StoreDeref);
                proof {
                    assert(self@ =~= start + (code_expr(expr@) + code_expr(addr@) + seq![
                        OpView::StoreDeref,
                    ]));
                }
            },
            Stmt::For(var, start_e, end_e, body) => {
                self.compile_for(var, start_e, end_e, body);
            },
            Stmt::Put(expr) => {
                self.compile_expr(expr);
                self.emit(OpCode::Put);
            },
            Stmt::FnDecl(_name, params, body) => {
                self.compile_fn(params, body);
            },
            Stmt::Return(expr) => {
                self.compile_expr(expr);
                self.emit(OpCode::Ret);
            },
            Stmt::Try(body) => {
                self.emit(OpCode::EnterTry);
                self.emit(OpCode::ArenaStart);
                self.compile_block(body);
                self.emit(OpCode::ArenaEnd);
                self.emit(OpCode::ExitTry);
                proof {
                    assert(self@ =~= start + (seq![OpView::EnterTry, OpView::ArenaStart]
                        + code_stmts(stmts_view(body@), base + 2) + seq![
                        OpView::ArenaEnd,
                        OpView::ExitTry,
                    ]));
                }
            },
            Stmt::Leak => {},
            Stmt::Report => {},
            Stmt::Directive(_name, _args) => {},
            Stmt::Expression(expr) => {
                self.compile_expr(expr);
            },
            _ => {},
        }
        proof {
            assert(self@ =~= start + code_stmt(stmt@, base));
        }
    }
}

} // verus!

verus! {

/// The debug line table: each top-level statement, numbered from `n`, is
/// mapped from the index at which its code starts.
pub open spec fn debug_lines(ss: Seq<StmtView>, base: int, n: int, m: Map<usize, usize>) -> Map<
    usize,
    usize,
>
    decreases ss.len(),
{
    if ss.len() == 0 {
        m
    } else {
        debug_lines(
            ss.subrange(1, ss.len() as int),
            base + code_stmt(ss[0], base).len(),
            n + 1,
            m.insert(base as usize, n as usize),
        )
    }
}

proof fn lemma_debug_lines_push(
    ss: Seq<StmtView>,
    x: StmtView,
    base: int,
    n: int,
    m: Map<usize, usize>,
)
    ensures
        debug_lines(ss.push(x), base, n, m) == debug_lines(ss, base, n, m).insert(
            (base + code_stmts(ss, base).len()) as usize,
            (n + ss.len()) as usize,
        ),
    decreases ss.len(),
{
    let t = ss.push(x);
    if ss.len() == 0 {
        assert(t[0] == x);
        assert(t.subrange(1, 1) =~= Seq::<StmtView>::empty());
        assert(code_stmts(ss, base) =~= Seq::<OpView>::empty());
        let m2 = m.insert(base as usize, n as usize);
        assert(debug_lines(t.subrange(1, 1), base + code_stmt(x, base).len(), n + 1, m2) == m2);
        assert(debug_lines(ss, base, n, m) == m);
    } else {
        let tail = ss.subrange(1, ss.len() as int);
        assert(t.subrange(1, t.len() as int) =~= tail.push(x));
        assert(t[0] == ss[0]);
        let b2 = base + code_stmt(ss[0], base).len();
        assert(code_stmts(ss, base).len() == code_stmt(ss[0], base).len() + code_stmts(tail, b2).len());
        lemma_debug_lines_push(
            tail,
            x,
            base + code_stmt(ss[0], base).len(),
            n + 1,
            m.insert(base as usize, n as usize),
        );
    }
}

impl Compiler {
    /// Compiles `statements` after the code held so far, then `Halt`; returns
    /// all the code held and the debug map for `source_file`.
    pub fn compile_with_debug(&mut self, statements: Vec<Stmt>, source_file: &str) -> (r: (
        Vec<OpCode>,
        DebugMap,
    ))
        ensures
            final(self)@ == old(self)@ + code_stmts(
                stmts_view(statements@),
                old(self)@.len() as int,
            ) + seq![OpView::Halt],
            ops_view(r.0@) == final(self)@,
            r.1.file@ == source_file@,
            r.1.lines@ == debug_lines(
                stmts_view(statements@),
                old(self)@.len() as int,
                1,
                Map::empty(),
            ),
            r.1.symbols@ == Map::<String, String>::empty(),
    {
        broadcast use vstd::std_specs::hash::group_hash_axioms;

        let mut lines: HashMap<usize, usize> = HashMap::new();
        let symbols: HashMap<String, String> = HashMap::new();
        let ghost start = self@;
        let ghost base = self.bytecode@.len() as int;
        let ghost sv = stmts_view(statements@);
        proof {
            crate::ast::lemma_stmts_view_index(statements@);
            assert(sv.take(0) =~= seq![]);
            assert(self@.len() == self.bytecode@.len());
        }
        let mut i: usize = 0;
        while i < statements.len()
            invariant
                i <= statements.len(),
                sv == stmts_view(statements@),
                sv.len() == statements@.len(),
                forall|k: int| 0 <= k < statements@.len() ==> #[trigger] sv[k] == statements@[k]@,
                base == start.len(),
                self@ == start + code_stmts(sv.take(i as int), base),
                self.bytecode@.len() == base + code_stmts(sv.take(i as int), base).len(),
                lines@ == debug_lines(sv.take(i as int), base, 1, Map::empty()),
            decreases statements.len() - i,
        {
            let ip = self.bytecode.len();
            lines.insert(ip, i + 1);
            self.compile_stmt(&statements[i]);
            proof {
                assert(sv.take(i + 1) =~= sv.take(i as int).push(sv[i as int]));
                lemma_code_stmts_push(sv.take(i as int), sv[i as int], base);
                lemma_debug_lines_push(sv.take(i as int), sv[i as int], base, 1, Map::empty());
            }
            i = i + 1;
        }
        proof {
            assert(sv.take(statements.len() as int) =~= sv);
        }
        self.emit(OpCode::Halt);
        let code = self.copy_code();
        let file = String::from_str(source_file);
        (code, DebugMap { file, lines, symbols })
    }

    /// Compiles `statements`; the result is all the code held, ending in `Halt`.
    pub fn compile(&mut self, statements: Vec<Stmt>) -> (code: Vec<OpCode>)
        ensures
            final(self)@ == old(self)@ + code_stmts(
                stmts_view(statements@),
                old(self)@.len() as int,
            ) + seq![OpView::Halt],
            ops_view(code@) == final(self)@,
    {
        self.compile_with_debug(statements, "unknown").0
    }

    fn copy_code(&self) -> (code: Vec<OpCode>)
        ensures
            ops_view(code@) == self@,
    {
        let mut code: Vec<OpCode> = Vec::new();
        let mut i: usize = 0;
        while i < self.bytecode.len()
            invariant
                i <= self.bytecode.len(),
                ops_view(code@) == ops_view(self.bytecode@).take(i as int),
            decreases self.bytecode.len() - i,
        {
            let o = self.bytecode[i].duplicate();
            proof {
                lemma_ops_push(code@, o);
                assert(ops_view(self.bytecode@).take(i + 1) =~= ops_view(self.bytecode@).take(
                    i as int,
                ).push(o@));
            }
            code.push(o);
            i = i + 1;
        }
        proof {
            assert(ops_view(self.bytecode@).take(self.bytecode.len() as int) =~= ops_view(
                self.bytecode@,
            ));
        }
        code
    }
}

} // verus!

verus! {

/// Every jump in `code` targets an index between `lo` and `hi`.
pub open spec fn jumps_within(code: Seq<OpView>, lo: int, hi: int) -> bool {
    forall|i: int|
        0 <= i < code.len() ==> match #[trigger] code[i] {
            OpView::Jump(t) => lo <= t <= hi,
            OpView::JumpIfFalse(t) => lo <= t <= hi,
            _ => true,
        }
}

proof fn lemma_jumps_concat(a: Seq<OpView>, b: Seq<OpView>, lo: int, hi: int)
    requires
        jumps_within(a, lo, hi),
        jumps_within(b, lo, hi),
    ensures
        jumps_within(a + b, lo, hi),
{
    assert forall|i: int| 0 <= i < (a + b).len() implies match #[trigger] (a + b)[i] {
        OpView::Jump(t) => lo <= t <= hi,
        OpView::JumpIfFalse(t) => lo <= t <= hi,
        _ => true,
    } by {
        if i < a.len() {
            assert((a + b)[i] == a[i]);
        } else {
            assert((a + b)[i] == b[i - a.len()]);
        }
    }
}

proof fn lemma_jumps_widen(a: Seq<OpView>, lo: int, hi: int, lo2: int, hi2: int)
    requires
        jumps_within(a, lo, hi),
        lo2 <= lo,
        hi <= hi2,
    ensures
        jumps_within(a, lo2, hi2),
{
    assert forall|i: int| 0 <= i < a.len() implies match #[trigger] a[i] {
        OpView::Jump(t) => lo2 <= t <= hi2,
        OpView::JumpIfFalse(t) => lo2 <= t <= hi2,
        _ => true,
    } by {
        match a[i] {
            OpView::Jump(t) => {},
            OpView::JumpIfFalse(t) => {},
            _ => {},
        }
    }
}

proof fn lemma_binop_no_jumps(op: Seq<char>)
    ensures
        forall|lo: int, hi: int| jumps_within(binop_code(op), lo, hi),
{
}

/// Expression code contains no jumps.
proof fn lemma_expr_no_jumps(e: ExprView)
    ensures
        forall|lo: int, hi: int| jumps_within(code_expr(e), lo, hi),
    decreases e,
{
    assert forall|lo: int, hi: int| jumps_within(code_expr(e), lo, hi) by {
        match e {
            ExprView::Deref(inner) => {
                lemma_expr_no_jumps(*inner);
                lemma_jumps_concat(code_expr(*inner), seq![OpView::Deref], lo, hi);
            },
            ExprView::Cast(inner, _) => {
                lemma_expr_no_jumps(*inner);
                assert(code_expr(e) == code_expr(*inner));
            },
            ExprView::BinaryOp(l, op, r) => {
                lemma_expr_no_jumps(*l);
                lemma_expr_no_jumps(*r);
                lemma_binop_no_jumps(op);
                lemma_jumps_concat(code_expr(*l), code_expr(*r), lo, hi);
                lemma_jumps_concat(code_expr(*l) + code_expr(*r), binop_code(op), lo, hi);
            },
            ExprView::Call(name, args) => {
                lemma_args_no_jumps(args);
                lemma_jumps_concat(
                    code_args(args),
                    seq![OpView::Call(name, args.len() as int)],
                    lo,
                    hi,
                );
            },
            _ => {
                assert(code_expr(e).len() == 1);
                assert(code_expr(e)[0] !is Jump && code_expr(e)[0] !is JumpIfFalse);
            },
        }
    }
}

proof fn lemma_args_no_jumps(args: Seq<ExprView>)
    ensures
        forall|lo: int, hi: int| jumps_within(code_args(args), lo, hi),
    decreases args,
{
    if args.len() > 0 {
        lemma_expr_no_jumps(args[0]);
        lemma_args_no_jumps(args.subrange(1, args.len() as int));
        assert forall|lo: int, hi: int| jumps_within(code_args(args), lo, hi) by {
            lemma_jumps_concat(
                code_expr(args[0]),
                code_args(args.subrange(1, args.len() as int)),
                lo,
                hi,
            );
        }
    }
}

/// The jumps of a statement's code stay inside that code (its end included).
pub proof fn lemma_stmt_jumps(s: StmtView, base: int)
    ensures
        jumps_within(code_stmt(s, base), base, base + code_stmt(s, base).len()),
    decreases s,
{
    let c = code_stmt(s, base);
    let hi = base + c.len();
    match s {
        StmtView::Six(_, body) => {
            lemma_stmts_jumps(body, base);
        },
        StmtView::VarDecl(name, _, e) => {
            lemma_expr_no_jumps(e);
            lemma_jumps_concat(code_expr(e), seq![OpView::Store(name)], base, hi);
        },
        StmtView::Assignment(name, e) => {
            lemma_expr_no_jumps(e);
            lemma_jumps_concat(code_expr(e), seq![OpView::Store(name)], base, hi);
        },
        StmtView::DerefAssignment(a, e) => {
            lemma_expr_no_jumps(e);
            lemma_expr_no_jumps(a);
            lemma_jumps_concat(code_expr(e), code_expr(a), base, hi);
            lemma_jumps_concat(code_expr(e) + code_expr(a), seq![OpView::StoreDeref], base, hi);
        },
        StmtView::For(var, start, end, body) => {
            let init = code_expr(start) + seq![OpView::Store(var)];
            let start_label = base + init.len();
            let test = seq![OpView::Load(var)] + code_expr(end) + seq![OpView::Sub];
            let body_base = start_label + test.len() + 1;
            let body_code = code_stmts(body, body_base);
            let step = seq![
                OpView::Load(var),
                OpView::PushInt(one_str()),
                OpView::Add,
                OpView::Store(var),
                OpView::Jump(start_label),
            ];
            let end_label = body_base + body_code.len() + step.len();
            assert(c == init + test + seq![OpView::JumpIfFalse(end_label)] + body_code + step);
            lemma_expr_no_jumps(start);
            lemma_expr_no_jumps(end);
            lemma_jumps_concat(code_expr(start), seq![OpView::Store(var)], base, hi);
            lemma_jumps_concat(seq![OpView::Load(var)], code_expr(end), base, hi);
            lemma_jumps_concat(seq![OpView::Load(var)] + code_expr(end), seq![OpView::Sub], base, hi);
            lemma_jumps_concat(init, test, base, hi);
            lemma_jumps_concat(init + test, seq![OpView::JumpIfFalse(end_label)], base, hi);
            lemma_stmts_jumps(body, body_base);
            lemma_jumps_widen(body_code, body_base, body_base + body_code.len(), base, hi);
            lemma_jumps_concat(
                init + test + seq![OpView::JumpIfFalse(end_label)],
                body_code,
                base,
                hi,
            );
            lemma_jumps_concat(
                init + test + seq![OpView::JumpIfFalse(end_label)] + body_code,
                step,
                base,
                hi,
            );
        },
        StmtView::Put(e) => {
            lemma_expr_no_jumps(e);
            lemma_jumps_concat(code_expr(e), seq![OpView::Put], base, hi);
        },
        StmtView::FnDecl(_, params, body) => {
            let stores = params.map_values(|p: Seq<char>| OpView::Store(p));
            let bc = code_stmts(body, base + params.len());
            lemma_stmts_jumps(body, base + params.len());
            lemma_jumps_widen(bc, base + params.len(), base + params.len() + bc.len(), base, hi);
            lemma_jumps_concat(stores, bc, base, hi);
            lemma_jumps_concat(stores + bc, seq![OpView::Ret], base, hi);
        },
        StmtView::Return(e) => {
            lemma_expr_no_jumps(e);
            lemma_jumps_concat(code_expr(e), seq![OpView::Ret], base, hi);
        },
        StmtView::Try(body) => {
            let bc = code_stmts(body, base + 2);
            lemma_stmts_jumps(body, base + 2);
            lemma_jumps_widen(bc, base + 2, base + 2 + bc.len(), base, hi);
            lemma_jumps_concat(seq![OpView::EnterTry, OpView::ArenaStart], bc, base, hi);
            lemma_jumps_concat(
                seq![OpView::EnterTry, OpView::ArenaStart] + bc,
                seq![OpView::ArenaEnd, OpView::ExitTry],
                base,
                hi,
            );
        },
        StmtView::Expression(e) => {
            lemma_expr_no_jumps(e);
        },
        _ => {},
    }
}

pub proof fn lemma_stmts_jumps(ss: Seq<StmtView>, base: int)
    ensures
        jumps_within(code_stmts(ss, base), base, base + code_stmts(ss, base).len()),
    decreases ss,
{
    if ss.len() > 0 {
        let first = code_stmt(ss[0], base);
        let rest_base = base + first.len();
        let rest = code_stmts(ss.subrange(1, ss.len() as int), rest_base);
        let hi = base + first.len() + rest.len();
        lemma_stmt_jumps(ss[0], base);
        lemma_stmts_jumps(ss.subrange(1, ss.len() as int), rest_base);
        lemma_jumps_widen(first, base, rest_base, base, hi);
        lemma_jumps_widen(rest, rest_base, hi, base, hi);
        lemma_jumps_concat(first, rest, base, hi);
    }
}

/// Law: every jump of a compiled program targets an instruction of the
/// program or its end.
pub proof fn law_compiled_jumps_in_range(program: Seq<StmtView>)
    ensures
        jumps_within(
            code_stmts(program, 0) + seq![OpView::Halt],
            0,
            (code_stmts(program, 0).len() + 1) as int,
        ),
{
    let c = code_stmts(program, 0);
    lemma_stmts_jumps(program, 0);
    lemma_jumps_widen(c, 0, c.len() as int, 0, (c.len() + 1) as int);
    lemma_jumps_concat(c, seq![OpView::Halt], 0, (c.len() + 1) as int);
}

} // verus!
