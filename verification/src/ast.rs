//! The syntax tree of `.six` programs and its mathematical model.

use vstd::prelude::*;

verus! {

#[derive(Debug)]
pub enum Expr {
    Number(String),
    String(String),
    Variable(String),
    Addr(String),
    Deref(Box<Expr>),
    Cast(Box<Expr>, String),
    BinaryOp(Box<Expr>, String, Box<Expr>),
    Call(String, Vec<Expr>),
}

#[derive(Debug)]
pub enum Stmt {
    Six(String, Vec<Stmt>),
    VarDecl(String, Option<String>, Expr),
    Assignment(String, Expr),
    DerefAssignment(Expr, Expr),
    FnDecl(String, Vec<String>, Vec<Stmt>),
    If(Expr, Vec<Stmt>, Option<Vec<Stmt>>),
    For(String, Expr, Expr, Vec<Stmt>),
    Return(Expr),
    Use(String),
    Try(Vec<Stmt>),
    Leak,
    Report,
    Directive(String, Vec<Expr>),
    Put(Expr),
    Get(String),
    Expression(Expr),
}

/// Model of an expression: names and literals as character sequences.
pub enum ExprView {
    Number(Seq<char>),
    Str(Seq<char>),
    Variable(Seq<char>),
    Addr(Seq<char>),
    Deref(Box<ExprView>),
    Cast(Box<ExprView>, Seq<char>),
    BinaryOp(Box<ExprView>, Seq<char>, Box<ExprView>),
    Call(Seq<char>, Seq<ExprView>),
}

/// Model of a statement.
pub enum StmtView {
    Six(Seq<char>, Seq<StmtView>),
    VarDecl(Seq<char>, Option<Seq<char>>, ExprView),
    Assignment(Seq<char>, ExprView),
    DerefAssignment(ExprView, ExprView),
    FnDecl(Seq<char>, Seq<Seq<char>>, Seq<StmtView>),
    If(ExprView, Seq<StmtView>, Option<Seq<StmtView>>),
    For(Seq<char>, ExprView, ExprView, Seq<StmtView>),
    Return(ExprView),
    Use(Seq<char>),
    Try(Seq<StmtView>),
    Leak,
    Report,
    Directive(Seq<char>, Seq<ExprView>),
    Put(ExprView),
    Get(Seq<char>),
    Expression(ExprView),
}

pub open spec fn expr_view(e: Expr) -> ExprView
    decreases e,
{
    match e {
        Expr::Number(s) => ExprView::Number(s@),
        Expr::String(s) => ExprView::Str(s@),
        Expr::Variable(s) => ExprView::Variable(s@),
        Expr::Addr(s) => ExprView::Addr(s@),
        Expr::Deref(b) => ExprView::Deref(Box::new(expr_view(*b))),
        Expr::Cast(b, t) => ExprView::Cast(Box::new(expr_view(*b)), t@),
        Expr::BinaryOp(l, op, r) => ExprView::BinaryOp(
            Box::new(expr_view(*l)),
            op@,
            Box::new(expr_view(*r)),
        ),
        Expr::Call(n, args) => ExprView::Call(n@, exprs_view(args@)),
    }
}

pub open spec fn exprs_view(s: Seq<Expr>) -> Seq<ExprView>
    decreases s,
{
    if s.len() == 0 {
        seq![]
    } else {
        seq![expr_view(s[0])] + exprs_view(s.subrange(1, s.len() as int))
    }
}

pub open spec fn names_view(s: Seq<String>) -> Seq<Seq<char>> {
    s.map_values(|n: String| n@)
}

pub open spec fn stmt_view(st: Stmt) -> StmtView
    decreases st,
{
    match st {
        Stmt::Six(n, body) => StmtView::Six(n@, stmts_view(body@)),
        Stmt::VarDecl(n, t, e) => StmtView::VarDecl(
            n@,
            match t {
                Some(t) => Some(t@),
                None => None,
            },
            expr_view(e),
        ),
        Stmt::Assignment(n, e) => StmtView::Assignment(n@, expr_view(e)),
        Stmt::DerefAssignment(a, e) => StmtView::DerefAssignment(expr_view(a), expr_view(e)),
        Stmt::FnDecl(n, ps, body) => StmtView::FnDecl(n@, names_view(ps@), stmts_view(body@)),
        Stmt::If(c, t, e) => StmtView::If(
            expr_view(c),
            stmts_view(t@),
            match e {
                Some(e) => Some(stmts_view(e@)),
                None => None,
            },
        ),
        Stmt::For(v, s, e, body) => StmtView::For(v@, expr_view(s), expr_view(e), stmts_view(body@)),
        Stmt::Return(e) => StmtView::Return(expr_view(e)),
        Stmt::Use(s) => StmtView::Use(s@),
        Stmt::Try(body) => StmtView::Try(stmts_view(body@)),
        Stmt::Leak => StmtView::Leak,
        Stmt::Report => StmtView::Report,
        Stmt::Directive(n, args) => StmtView::Directive(n@, exprs_view(args@)),
        Stmt::Put(e) => StmtView::Put(expr_view(e)),
        Stmt::Get(s) => StmtView::Get(s@),
        Stmt::Expression(e) => StmtView::Expression(expr_view(e)),
    }
}

pub open spec fn stmts_view(s: Seq<Stmt>) -> Seq<StmtView>
    decreases s,
{
    if s.len() == 0 {
        seq![]
    } else {
        seq![stmt_view(s[0])] + stmts_view(s.subrange(1, s.len() as int))
    }
}

pub proof fn lemma_stmts_view_index(s: Seq<Stmt>)
    ensures
        stmts_view(s).len() == s.len(),
        forall|i: int| 0 <= i < s.len() ==> #[trigger] stmts_view(s)[i] == stmt_view(s[i]),
    decreases s.len(),
{
    if s.len() > 0 {
        let tail = s.subrange(1, s.len() as int);
        lemma_stmts_view_index(tail);
        assert forall|i: int| 0 <= i < s.len() implies #[trigger] stmts_view(s)[i] == stmt_view(
            s[i],
        ) by {
            if i > 0 {
                assert(tail[i - 1] == s[i]);
            }
        }
    }
}

pub proof fn lemma_stmts_view_push(s: Seq<Stmt>, x: Stmt)
    ensures
        stmts_view(s.push(x)) == stmts_view(s).push(stmt_view(x)),
{
    lemma_stmts_view_index(s);
    lemma_stmts_view_index(s.push(x));
    assert(stmts_view(s.push(x)) =~= stmts_view(s).push(stmt_view(x)));
}

pub proof fn lemma_exprs_view_index(s: Seq<Expr>)
    ensures
        exprs_view(s).len() == s.len(),
        forall|i: int| 0 <= i < s.len() ==> #[trigger] exprs_view(s)[i] == expr_view(s[i]),
    decreases s.len(),
{
    if s.len() > 0 {
        let tail = s.subrange(1, s.len() as int);
        lemma_exprs_view_index(tail);
        assert forall|i: int| 0 <= i < s.len() implies #[trigger] exprs_view(s)[i] == expr_view(
            s[i],
        ) by {
            if i > 0 {
                assert(tail[i - 1] == s[i]);
            }
        }
    }
}

pub proof fn lemma_exprs_view_push(s: Seq<Expr>, x: Expr)
    ensures
        exprs_view(s.push(x)) == exprs_view(s).push(expr_view(x)),
{
    lemma_exprs_view_index(s);
    lemma_exprs_view_index(s.push(x));
    assert(exprs_view(s.push(x)) =~= exprs_view(s).push(expr_view(x)));
}

impl View for Expr {
    type V = ExprView;

    open spec fn view(&self) -> ExprView {
        expr_view(*self)
    }
}

impl View for Stmt {
    type V = StmtView;

    open spec fn view(&self) -> StmtView {
        stmt_view(*self)
    }
}

} // verus!

verus! {

impl Expr {
    /// A copy of the expression.
    pub fn duplicate(&self) -> (e: Expr)
        ensures
            e@ == self@,
        decreases self,
    {
        match self {
            Expr::Number(s) => Expr::Number(s.clone()),
            Expr::String(s) => Expr::String(s.clone()),
            Expr::Variable(s) => Expr::Variable(s.clone()),
            Expr::Addr(s) => Expr::Addr(s.clone()),
            Expr::Deref(b) => Expr::Deref(Box::new(b.duplicate())),
            Expr::Cast(b, t) => Expr::Cast(Box::new(b.duplicate()), t.clone()),
            Expr::BinaryOp(l, op, r) => Expr::BinaryOp(
                Box::new(l.duplicate()),
                op.clone(),
                Box::new(r.duplicate()),
            ),
            Expr::Call(n, args) => {
                let mut out: Vec<Expr> = Vec::new();
                let mut i: usize = 0;
                proof {
                    lemma_exprs_view_index(args@);
                }
                #[verifier::loop_isolation(false)]
                while i < args.len()
                    invariant
                        i <= args.len(),
                        exprs_view(out@) == exprs_view(args@).take(i as int),
                    decreases args.len() - i,
                {
                    proof {
                        assert(decreases_to!(*self => *args));
                        assert(decreases_to!(*args => args@[i as int]));
                    }
                    let a = args[i].duplicate();
                    proof {
                        lemma_exprs_view_push(out@, a);
                        assert(exprs_view(args@).take(i + 1) =~= exprs_view(args@).take(
                            i as int,
                        ).push(a@));
                    }
                    out.push(a);
                    i = i + 1;
                }
                proof {
                    assert(exprs_view(args@).take(args.len() as int) =~= exprs_view(args@));
                }
                Expr::Call(n.clone(), out)
            },
        }
    }
}

} // verus!
