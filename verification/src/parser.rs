//! Recursive-descent parser from tokens to the syntax tree.
//!
//! Each parsing function has a spec counterpart (`sp_*`) that states its
//! result as a function of the token sequence and the start position; the
//! executable function is proved to return exactly that.

use vstd::prelude::*;
use crate::ast::{
    Expr, ExprView, Stmt, StmtView, expr_view, exprs_view, names_view, stmt_view, stmts_view,
};
use crate::lexer::{Keyword, Token, TokenData, TokenView};
use crate::text::string_from_chars;

verus! {

/// What went wrong while parsing.
#[derive(Debug)]
pub enum ParseErrorKind {
    /// A top-level item is not `six <name>`.
    MissingSixHeader,
    ExpectedProjectName,
    ExpectedIdentifierAfterV,
    ExpectedTypeName,
    ExpectedFunctionName,
    ExpectedParameterName,
    ExpectedLoopVariable,
    ExpectedStringAfterUse,
    ExpectedIdentifierAfterGet,
    ExpectedTypeAfterAs,
    ExpectedIdentifierAfterAmp,
    UnexpectedToken,
    ExpectedIdentifierAfterHash,
    ExpectedToken(Token),
    ExpectedKeyword(Keyword),
    ExpectedOperator(String),
    /// No `six` block declares `fn main`.
    MissingMain,
}

/// A parse error and the line and column of the token where it was found
/// (both 0 when the input had already ended).
#[derive(Debug)]
pub struct ParseError {
    pub kind: ParseErrorKind,
    pub line: usize,
    pub col: usize,
}

pub enum ParseErrorKindView {
    MissingSixHeader,
    ExpectedProjectName,
    ExpectedIdentifierAfterV,
    ExpectedTypeName,
    ExpectedFunctionName,
    ExpectedParameterName,
    ExpectedLoopVariable,
    ExpectedStringAfterUse,
    ExpectedIdentifierAfterGet,
    ExpectedTypeAfterAs,
    ExpectedIdentifierAfterAmp,
    UnexpectedToken,
    ExpectedIdentifierAfterHash,
    ExpectedToken(TokenView),
    ExpectedKeyword(Keyword),
    ExpectedOperator(Seq<char>),
    MissingMain,
}

pub struct ParseErrorView {
    pub kind: ParseErrorKindView,
    pub line: int,
    pub col: int,
}

impl View for ParseErrorKind {
    type V = ParseErrorKindView;

    open spec fn view(&self) -> ParseErrorKindView {
        match self {
            ParseErrorKind::MissingSixHeader => ParseErrorKindView::MissingSixHeader,
            ParseErrorKind::ExpectedProjectName => ParseErrorKindView::ExpectedProjectName,
            ParseErrorKind::ExpectedIdentifierAfterV => ParseErrorKindView::ExpectedIdentifierAfterV,
            ParseErrorKind::ExpectedTypeName => ParseErrorKindView::ExpectedTypeName,
            ParseErrorKind::ExpectedFunctionName => ParseErrorKindView::ExpectedFunctionName,
            ParseErrorKind::ExpectedParameterName => ParseErrorKindView::ExpectedParameterName,
            ParseErrorKind::ExpectedLoopVariable => ParseErrorKindView::ExpectedLoopVariable,
            ParseErrorKind::ExpectedStringAfterUse => ParseErrorKindView::ExpectedStringAfterUse,
            ParseErrorKind::ExpectedIdentifierAfterGet => ParseErrorKindView::ExpectedIdentifierAfterGet,
            ParseErrorKind::ExpectedTypeAfterAs => ParseErrorKindView::ExpectedTypeAfterAs,
            ParseErrorKind::ExpectedIdentifierAfterAmp => ParseErrorKindView::ExpectedIdentifierAfterAmp,
            ParseErrorKind::UnexpectedToken => ParseErrorKindView::UnexpectedToken,
            ParseErrorKind::ExpectedIdentifierAfterHash => ParseErrorKindView::ExpectedIdentifierAfterHash,
            ParseErrorKind::ExpectedToken(t) => ParseErrorKindView::ExpectedToken(t@),
            ParseErrorKind::ExpectedKeyword(k) => ParseErrorKindView::ExpectedKeyword(*k),
            ParseErrorKind::ExpectedOperator(s) => ParseErrorKindView::ExpectedOperator(s@),
            ParseErrorKind::MissingMain => ParseErrorKindView::MissingMain,
        }
    }
}

impl View for ParseError {
    type V = ParseErrorView;

    open spec fn view(&self) -> ParseErrorView {
        ParseErrorView { kind: self.kind@, line: self.line as int, col: self.col as int }
    }
}

/// A parse outcome: the value and the position after it, or an error.
pub type PR<T> = Result<(T, int), ParseErrorView>;

pub open spec fn pr_expr(r: Result<(Expr, usize), ParseError>) -> PR<ExprView> {
    match r {
        Ok((e, q)) => Ok((e@, q as int)),
        Err(e) => Err(e@),
    }
}

pub open spec fn pr_exprs(r: Result<(Vec<Expr>, usize), ParseError>) -> PR<Seq<ExprView>> {
    match r {
        Ok((e, q)) => Ok((exprs_view(e@), q as int)),
        Err(e) => Err(e@),
    }
}

pub open spec fn pr_stmt(r: Result<(Stmt, usize), ParseError>) -> PR<StmtView> {
    match r {
        Ok((s, q)) => Ok((s@, q as int)),
        Err(e) => Err(e@),
    }
}

pub open spec fn pr_opt_stmt(r: Result<(Option<Stmt>, usize), ParseError>) -> PR<Option<StmtView>> {
    match r {
        Ok((Some(s), q)) => Ok((Some(s@), q as int)),
        Ok((None, q)) => Ok((None, q as int)),
        Err(e) => Err(e@),
    }
}

pub open spec fn pr_stmts(r: Result<(Vec<Stmt>, usize), ParseError>) -> PR<Seq<StmtView>> {
    match r {
        Ok((s, q)) => Ok((stmts_view(s@), q as int)),
        Err(e) => Err(e@),
    }
}

pub open spec fn pr_names(r: Result<(Vec<String>, usize), ParseError>) -> PR<Seq<Seq<char>>> {
    match r {
        Ok((s, q)) => Ok((names_view(s@), q as int)),
        Err(e) => Err(e@),
    }
}

// ---------------------------------------------------------------------------
// Token access
// ---------------------------------------------------------------------------

/// No token is left at `p`: past the end, or at an end-of-input token.
pub open spec fn at_end(t: Seq<TokenData>, p: int) -> bool {
    !(0 <= p < t.len()) || t[p].token@ is EOF
}

pub open spec fn peek(t: Seq<TokenData>, p: int) -> TokenView {
    if at_end(t, p) {
        TokenView::EOF
    } else {
        t[p].token@
    }
}

/// The position after taking one token (unchanged at the end).
pub open spec fn adv(t: Seq<TokenData>, p: int) -> int {
    if at_end(t, p) {
        p
    } else {
        p + 1
    }
}

pub open spec fn err_at(t: Seq<TokenData>, p: int, kind: ParseErrorKindView) -> ParseErrorView {
    if at_end(t, p) {
        ParseErrorView { kind, line: 0, col: 0 }
    } else {
        ParseErrorView { kind, line: t[p].line as int, col: t[p].col as int }
    }
}

pub open spec fn is_kw(t: Seq<TokenData>, p: int, k: Keyword) -> bool {
    peek(t, p) == TokenView::Keyword(k)
}

pub open spec fn consume_kw(t: Seq<TokenData>, p: int, k: Keyword) -> Result<int, ParseErrorView> {
    if is_kw(t, p, k) {
        Ok(adv(t, p))
    } else {
        Err(err_at(t, p, ParseErrorKindView::ExpectedKeyword(k)))
    }
}

pub open spec fn consume_tok(t: Seq<TokenData>, p: int, tok: TokenView) -> Result<int, ParseErrorView> {
    if peek(t, p) == tok {
        Ok(adv(t, p))
    } else {
        Err(err_at(t, p, ParseErrorKindView::ExpectedToken(tok)))
    }
}

pub open spec fn consume_op(t: Seq<TokenData>, p: int, op: Seq<char>) -> Result<int, ParseErrorView> {
    if peek(t, p) == TokenView::Op(op) {
        Ok(adv(t, p))
    } else {
        Err(err_at(t, p, ParseErrorKindView::ExpectedOperator(op)))
    }
}

/// The value of a branch that positions moving forward rule out.
pub open spec fn stuck<T>(t: Seq<TokenData>, p: int) -> PR<T> {
    Err(err_at(t, p, ParseErrorKindView::UnexpectedToken))
}

pub open spec fn within(t: Seq<TokenData>, p: int, q: int) -> bool {
    p <= q <= t.len()
}

pub open spec fn some_stmt(r: PR<StmtView>) -> PR<Option<StmtView>> {
    match r {
        Ok((s, q)) => Ok((Some(s), q)),
        Err(e) => Err(e),
    }
}

pub open spec fn opt_cons(o: Option<StmtView>, rest: Seq<StmtView>) -> Seq<StmtView> {
    match o {
        Some(s) => seq![s] + rest,
        None => rest,
    }
}

pub open spec fn op_text_star() -> Seq<char> {
    seq!['*']
}

pub open spec fn op_text_at() -> Seq<char> {
    seq!['@']
}

pub open spec fn op_text_hash() -> Seq<char> {
    seq!['#']
}

pub open spec fn op_text_amp() -> Seq<char> {
    seq!['&']
}

pub open spec fn op_text_assign() -> Seq<char> {
    seq!['=']
}

pub open spec fn op_text_range() -> Seq<char> {
    seq!['.', '.']
}

pub open spec fn const_text() -> Seq<char> {
    seq!['c', 'o', 'n', 's', 't']
}

pub open spec fn main_text() -> Seq<char> {
    seq!['m', 'a', 'i', 'n']
}

/// Operators at which an expression stops.
pub open spec fn stops_expression(op: Seq<char>) -> bool {
    op == op_text_range() || op == op_text_amp() || op == op_text_at() || op == op_text_assign()
}

// ---------------------------------------------------------------------------
// The grammar as spec functions
// ---------------------------------------------------------------------------

pub open spec fn sp_skip_newlines(t: Seq<TokenData>, p: int) -> int
    decreases t.len() - p,
{
    if 0 <= p < t.len() && peek(t, p) is Newline {
        sp_skip_newlines(t, p + 1)
    } else {
        p
    }
}

/// Parameter names up to the closing `)`; `name: type` drops the type.
pub open spec fn sp_params(t: Seq<TokenData>, p: int) -> PR<Seq<Seq<char>>>
    decreases t.len() - p,
{
    if peek(t, p) is RParen {
        Ok((seq![], p))
    } else {
        let p1 = adv(t, p);
        match peek(t, p) {
            TokenView::Identifier(name) => {
                let p2 = if peek(t, p1) is Colon {
                    adv(t, adv(t, p1))
                } else {
                    p1
                };
                let p3 = if peek(t, p2) is Comma {
                    adv(t, p2)
                } else {
                    p2
                };
                if within(t, p + 1, p3) {
                    match sp_params(t, p3) {
                        Ok((rest, q)) => Ok((seq![name] + rest, q)),
                        Err(e) => Err(e),
                    }
                } else {
                    stuck(t, p)
                }
            },
            _ => Err(err_at(t, p, ParseErrorKindView::ExpectedParameterName)),
        }
    }
}

/// Trailing `as <type>` casts applied to `e`.
pub open spec fn sp_cast_rest(t: Seq<TokenData>, p: int, e: ExprView) -> PR<ExprView>
    decreases t.len() - p,
{
    if is_kw(t, p, Keyword::As) {
        let p1 = adv(t, p);
        let p2 = adv(t, p1);
        match peek(t, p1) {
            TokenView::Identifier(ty) => if within(t, p + 1, p2) {
                sp_cast_rest(t, p2, ExprView::Cast(Box::new(e), ty))
            } else {
                stuck(t, p)
            },
            _ => Err(err_at(t, p1, ParseErrorKindView::ExpectedTypeAfterAs)),
        }
    } else {
        Ok((e, p))
    }
}

pub open spec fn sp_use(t: Seq<TokenData>, p: int) -> PR<StmtView> {
    let p1 = adv(t, p);
    let p2 = adv(t, p1);
    match peek(t, p1) {
        TokenView::Str(s) => Ok((StmtView::Use(s), p2)),
        _ => Err(err_at(t, p2, ParseErrorKindView::ExpectedStringAfterUse)),
    }
}

pub open spec fn sp_get(t: Seq<TokenData>, p: int) -> PR<StmtView> {
    let p1 = adv(t, p);
    let p2 = adv(t, p1);
    match peek(t, p1) {
        TokenView::Identifier(s) => Ok((StmtView::Get(s), p2)),
        _ => Err(err_at(t, p2, ParseErrorKindView::ExpectedIdentifierAfterGet)),
    }
}

/// Statements up to `end` (or `else` when `stop_else`), or the end of input.
pub open spec fn sp_block(t: Seq<TokenData>, p: int, stop_else: bool) -> PR<Seq<StmtView>>
    decreases t.len() - p, 30int,
{
    if at_end(t, p) || is_kw(t, p, Keyword::End) || (stop_else && is_kw(t, p, Keyword::Else)) {
        Ok((seq![], p))
    } else {
        match sp_statement(t, p) {
            Err(e) => Err(e),
            Ok((o, q)) => if p < q <= t.len() {
                match sp_block(t, q, stop_else) {
                    Err(e) => Err(e),
                    Ok((rest, r)) => Ok((opt_cons(o, rest), r)),
                }
            } else {
                stuck(t, p)
            },
        }
    }
}

/// One statement after any blank lines; `None` at `end` or the end of input.
pub open spec fn sp_statement(t: Seq<TokenData>, p: int) -> PR<Option<StmtView>>
    decreases t.len() - p, 25int,
{
    let q = sp_skip_newlines(t, p);
    if !within(t, p, q) {
        stuck(t, p)
    } else if at_end(t, q) || is_kw(t, q, Keyword::End) {
        Ok((None, q))
    } else {
        match peek(t, q) {
            TokenView::Keyword(Keyword::Six) => some_stmt(sp_six(t, q)),
            TokenView::Keyword(Keyword::V) => some_stmt(sp_var_decl(t, q)),
            TokenView::Keyword(Keyword::Fn) => some_stmt(sp_fn_decl(t, q)),
            TokenView::Keyword(Keyword::If) => some_stmt(sp_if(t, q)),
            TokenView::Keyword(Keyword::For) => some_stmt(sp_for(t, q)),
            TokenView::Keyword(Keyword::Ret) => some_stmt(sp_return(t, q)),
            TokenView::Keyword(Keyword::Use) => some_stmt(sp_use(t, q)),
            TokenView::Keyword(Keyword::Try) => some_stmt(sp_try(t, q)),
            TokenView::Keyword(Keyword::Put) => some_stmt(sp_put(t, q)),
            TokenView::Keyword(Keyword::Get) => some_stmt(sp_get(t, q)),
            TokenView::Keyword(Keyword::Leak) => Ok((Some(StmtView::Leak), q + 1)),
            TokenView::Keyword(Keyword::Report) => Ok((Some(StmtView::Report), q + 1)),
            TokenView::Identifier(_) => sp_identifier_stmt(t, q),
            TokenView::Op(o) => if o == op_text_star() || o == op_text_at() {
                some_stmt(sp_deref_assignment(t, q))
            } else if o == op_text_hash() {
                some_stmt(sp_directive(t, q))
            } else {
                some_stmt(sp_expression_stmt(t, q))
            },
            _ => some_stmt(sp_expression_stmt(t, q)),
        }
    }
}

pub open spec fn sp_expression_stmt(t: Seq<TokenData>, p: int) -> PR<StmtView>
    decreases t.len() - p, 10int,
{
    match sp_expression(t, p) {
        Ok((e, q)) => Ok((StmtView::Expression(e), q)),
        Err(e) => Err(e),
    }
}

/// A block closed by `end`.
pub open spec fn sp_closed_block(t: Seq<TokenData>, p: int) -> PR<Seq<StmtView>>
    decreases t.len() - p, 31int,
{
    match sp_block(t, p, false) {
        Err(e) => Err(e),
        Ok((body, q)) => match consume_kw(t, q, Keyword::End) {
            Ok(r) => Ok((body, r)),
            Err(e) => Err(e),
        },
    }
}

pub open spec fn sp_six(t: Seq<TokenData>, p: int) -> PR<StmtView>
    decreases t.len() - p, 20int,
{
    let p1 = adv(t, p);
    let p2 = adv(t, p1);
    match peek(t, p1) {
        TokenView::Identifier(name) => if p < p2 <= t.len() {
            match sp_closed_block(t, p2) {
                Ok((body, q)) => Ok((StmtView::Six(name, body), q)),
                Err(e) => Err(e),
            }
        } else {
            stuck(t, p)
        },
        _ => Err(err_at(t, p1, ParseErrorKindView::ExpectedProjectName)),
    }
}

pub open spec fn sp_var_decl(t: Seq<TokenData>, p: int) -> PR<StmtView>
    decreases t.len() - p, 20int,
{
    let p1 = adv(t, p);
    let p2 = adv(t, p1);
    match peek(t, p1) {
        TokenView::Identifier(name) => {
            let ty: Result<(Option<Seq<char>>, int), ParseErrorView> = if peek(t, p2) is Colon {
                let p3 = adv(t, p2);
                match peek(t, p3) {
                    TokenView::Identifier(ty) => Ok((Some(ty), adv(t, p3))),
                    _ => Err(err_at(t, p3, ParseErrorKindView::ExpectedTypeName)),
                }
            } else {
                Ok((None, p2))
            };
            match ty {
                Err(e) => Err(e),
                Ok((ty, p4)) => match consume_op(t, p4, op_text_assign()) {
                    Err(e) => Err(e),
                    Ok(p5) => if p < p5 <= t.len() {
                        match sp_expression(t, p5) {
                            Ok((v, q)) => Ok((StmtView::VarDecl(name, ty, v), q)),
                            Err(e) => Err(e),
                        }
                    } else {
                        stuck(t, p)
                    },
                },
            }
        },
        _ => Err(err_at(t, p1, ParseErrorKindView::ExpectedIdentifierAfterV)),
    }
}

pub open spec fn sp_fn_decl(t: Seq<TokenData>, p: int) -> PR<StmtView>
    decreases t.len() - p, 20int,
{
    let p1 = adv(t, p);
    let p2 = adv(t, p1);
    match peek(t, p1) {
        TokenView::Identifier(name) => match consume_tok(t, p2, TokenView::LParen) {
            Err(e) => Err(e),
            Ok(p3) => match sp_params(t, p3) {
                Err(e) => Err(e),
                Ok((params, p4)) => match consume_tok(t, p4, TokenView::RParen) {
                    Err(e) => Err(e),
                    Ok(p5) => if p < p5 <= t.len() {
                        match sp_closed_block(t, p5) {
                            Ok((body, q)) => Ok((StmtView::FnDecl(name, params, body), q)),
                            Err(e) => Err(e),
                        }
                    } else {
                        stuck(t, p)
                    },
                },
            },
        },
        _ => Err(err_at(t, p1, ParseErrorKindView::ExpectedFunctionName)),
    }
}

pub open spec fn sp_if(t: Seq<TokenData>, p: int) -> PR<StmtView>
    decreases t.len() - p, 20int,
{
    let p1 = adv(t, p);
    if !(p < p1) {
        stuck(t, p)
    } else {
        match sp_expression(t, p1) {
            Err(e) => Err(e),
            Ok((cond, p2)) => if !(p1 <= p2 <= t.len()) {
                stuck(t, p)
            } else {
                match sp_block(t, p2, true) {
                    Err(e) => Err(e),
                    Ok((then_b, p3)) => if !(p2 <= p3 <= t.len()) {
                        stuck(t, p)
                    } else if is_kw(t, p3, Keyword::Else) {
                        match sp_closed_block(t, adv(t, p3)) {
                            Ok((else_b, q)) => Ok((StmtView::If(cond, then_b, Some(else_b)), q)),
                            Err(e) => Err(e),
                        }
                    } else {
                        match consume_kw(t, p3, Keyword::End) {
                            Ok(q) => Ok((StmtView::If(cond, then_b, None), q)),
                            Err(e) => Err(e),
                        }
                    },
                }
            },
        }
    }
}

pub open spec fn sp_for(t: Seq<TokenData>, p: int) -> PR<StmtView>
    decreases t.len() - p, 20int,
{
    let p1 = adv(t, p);
    let p2 = adv(t, p1);
    match peek(t, p1) {
        TokenView::Identifier(var) => match consume_op(t, p2, op_text_assign()) {
            Err(e) => Err(e),
            Ok(p3) => if !(p < p3 <= t.len()) {
                stuck(t, p)
            } else {
                match sp_expression(t, p3) {
                    Err(e) => Err(e),
                    Ok((start, p4)) => if !(p3 <= p4 <= t.len()) {
                        stuck(t, p)
                    } else {
                        match consume_op(t, p4, op_text_range()) {
                            Err(e) => Err(e),
                            Ok(p5) => match sp_expression(t, p5) {
                                Err(e) => Err(e),
                                Ok((end, p6)) => if !(p5 <= p6 <= t.len()) {
                                    stuck(t, p)
                                } else {
                                    match sp_closed_block(t, p6) {
                                        Ok((body, q)) => Ok((StmtView::For(var, start, end, body), q)),
                                        Err(e) => Err(e),
                                    }
                                },
                            },
                        }
                    },
                }
            },
        },
        _ => Err(err_at(t, p1, ParseErrorKindView::ExpectedLoopVariable)),
    }
}

pub open spec fn sp_return(t: Seq<TokenData>, p: int) -> PR<StmtView>
    decreases t.len() - p, 10int,
{
    match sp_expression(t, adv(t, p)) {
        Ok((e, q)) => Ok((StmtView::Return(e), q)),
        Err(e) => Err(e),
    }
}

pub open spec fn sp_put(t: Seq<TokenData>, p: int) -> PR<StmtView>
    decreases t.len() - p, 10int,
{
    match sp_expression(t, adv(t, p)) {
        Ok((e, q)) => Ok((StmtView::Put(e), q)),
        Err(e) => Err(e),
    }
}

pub open spec fn sp_try(t: Seq<TokenData>, p: int) -> PR<StmtView>
    decreases t.len() - p, 20int,
{
    let p1 = adv(t, p);
    if p < p1 {
        match sp_closed_block(t, p1) {
            Ok((body, q)) => Ok((StmtView::Try(body), q)),
            Err(e) => Err(e),
        }
    } else {
        stuck(t, p)
    }
}

/// `name = value`, or else a call of `name` with optional arguments.
pub open spec fn sp_identifier_stmt(t: Seq<TokenData>, p: int) -> PR<Option<StmtView>>
    decreases t.len() - p, 10int,
{
    let p1 = adv(t, p);
    match peek(t, p) {
        TokenView::Identifier(name) => if peek(t, p1) == TokenView::Op(op_text_assign()) {
            match sp_expression(t, adv(t, p1)) {
                Ok((v, q)) => Ok((Some(StmtView::Assignment(name, v)), q)),
                Err(e) => Err(e),
            }
        } else {
            match sp_call_args(t, p1) {
                Ok((args, q)) => Ok((Some(StmtView::Expression(ExprView::Call(name, args))), q)),
                Err(e) => Err(e),
            }
        },
        _ => Ok((None, p1)),
    }
}

/// A parenthesized argument list, or no arguments when there is no `(`.
pub open spec fn sp_call_args(t: Seq<TokenData>, p: int) -> PR<Seq<ExprView>>
    decreases t.len() - p, 8int,
{
    if peek(t, p) is LParen {
        match sp_args(t, adv(t, p)) {
            Err(e) => Err(e),
            Ok((args, q)) => match consume_tok(t, q, TokenView::RParen) {
                Ok(r) => Ok((args, r)),
                Err(e) => Err(e),
            },
        }
    } else {
        Ok((seq![], p))
    }
}

/// Expressions, each optionally followed by `,`, up to a `)`.
pub open spec fn sp_args(t: Seq<TokenData>, p: int) -> PR<Seq<ExprView>>
    decreases t.len() - p, 6int,
{
    if peek(t, p) is RParen {
        Ok((seq![], p))
    } else {
        match sp_expression(t, p) {
            Err(e) => Err(e),
            Ok((e, p1)) => if !(p < p1 <= t.len()) {
                stuck(t, p)
            } else {
                let p2 = if peek(t, p1) is Comma {
                    adv(t, p1)
                } else {
                    p1
                };
                match sp_args(t, p2) {
                    Ok((rest, q)) => Ok((seq![e] + rest, q)),
                    Err(e) => Err(e),
                }
            },
        }
    }
}

pub open spec fn sp_directive(t: Seq<TokenData>, p: int) -> PR<StmtView>
    decreases t.len() - p, 10int,
{
    let p1 = adv(t, p);
    let p2 = adv(t, p1);
    match peek(t, p1) {
        TokenView::Identifier(name) => if name == const_text() {
            if !(p < p2) {
                stuck(t, p)
            } else {
                match sp_expression(t, p2) {
                    Err(e) => Err(e),
                    Ok((a, p3)) => if !(p2 <= p3 <= t.len()) {
                        stuck(t, p)
                    } else {
                        match consume_op(t, p3, op_text_assign()) {
                            Err(e) => Err(e),
                            Ok(p4) => match sp_expression(t, p4) {
                                Ok((b, q)) => Ok((StmtView::Directive(name, seq![a, b]), q)),
                                Err(e) => Err(e),
                            },
                        }
                    },
                }
            }
        } else {
            Ok((StmtView::Directive(name, seq![]), p2))
        },
        _ => Err(err_at(t, p2, ParseErrorKindView::ExpectedIdentifierAfterHash)),
    }
}

pub open spec fn sp_deref_assignment(t: Seq<TokenData>, p: int) -> PR<StmtView>
    decreases t.len() - p, 10int,
{
    let p1 = adv(t, p);
    match sp_expression(t, p1) {
        Err(e) => Err(e),
        Ok((addr, p2)) => if !(p1 <= p2 <= t.len()) {
            stuck(t, p)
        } else {
            match consume_op(t, p2, op_text_assign()) {
                Err(e) => Err(e),
                Ok(p3) => match sp_expression(t, p3) {
                    Ok((v, q)) => Ok((StmtView::DerefAssignment(addr, v), q)),
                    Err(e) => Err(e),
                },
            }
        },
    }
}

pub open spec fn sp_expression(t: Seq<TokenData>, p: int) -> PR<ExprView>
    decreases t.len() - p, 5int,
{
    sp_binary(t, p)
}

/// Casts joined by binary operators, grouped to the left.
pub open spec fn sp_binary(t: Seq<TokenData>, p: int) -> PR<ExprView>
    decreases t.len() - p, 4int,
{
    match sp_cast(t, p) {
        Err(e) => Err(e),
        Ok((left, p1)) => if within(t, p, p1) {
            sp_binary_rest(t, p1, left)
        } else {
            stuck(t, p)
        },
    }
}

pub open spec fn sp_binary_rest(t: Seq<TokenData>, p: int, left: ExprView) -> PR<ExprView>
    decreases t.len() - p, 2int,
{
    if at_end(t, p) {
        Ok((left, p))
    } else {
        match peek(t, p) {
            TokenView::Op(op) => if stops_expression(op) {
                Ok((left, p))
            } else {
                let p1 = adv(t, p);
                match sp_cast(t, p1) {
                    Err(e) => Err(e),
                    Ok((right, p2)) => if p1 <= p2 <= t.len() {
                        sp_binary_rest(
                            t,
                            p2,
                            ExprView::BinaryOp(Box::new(left), op, Box::new(right)),
                        )
                    } else {
                        stuck(t, p)
                    },
                }
            },
            _ => Ok((left, p)),
        }
    }
}

pub open spec fn sp_cast(t: Seq<TokenData>, p: int) -> PR<ExprView>
    decreases t.len() - p, 3int,
{
    match sp_primary(t, p) {
        Err(e) => Err(e),
        Ok((e, p1)) => sp_cast_rest(t, p1, e),
    }
}

pub open spec fn sp_primary(t: Seq<TokenData>, p: int) -> PR<ExprView>
    decreases t.len() - p, 1int,
{
    let p1 = adv(t, p);
    match peek(t, p) {
        TokenView::Op(o) => if o == op_text_amp() {
            match peek(t, p1) {
                TokenView::Identifier(id) => Ok((ExprView::Addr(id), adv(t, p1))),
                _ => Err(err_at(t, p1, ParseErrorKindView::ExpectedIdentifierAfterAmp)),
            }
        } else if o == op_text_star() || o == op_text_at() {
            match sp_primary(t, p1) {
                Ok((e, q)) => Ok((ExprView::Deref(Box::new(e)), q)),
                Err(e) => Err(e),
            }
        } else {
            Err(err_at(t, p, ParseErrorKindView::UnexpectedToken))
        },
        TokenView::Number(n) => Ok((ExprView::Number(n), p1)),
        TokenView::Str(s) => Ok((ExprView::Str(s), p1)),
        TokenView::Identifier(id) => if peek(t, p1) is LParen {
            match sp_args(t, adv(t, p1)) {
                Err(e) => Err(e),
                Ok((args, p3)) => match consume_tok(t, p3, TokenView::RParen) {
                    Ok(q) => Ok((ExprView::Call(id, args), q)),
                    Err(e) => Err(e),
                },
            }
        } else {
            Ok((ExprView::Variable(id), p1))
        },
        TokenView::LParen => match sp_expression(t, p1) {
            Err(e) => Err(e),
            Ok((e, p2)) => match consume_tok(t, p2, TokenView::RParen) {
                Ok(q) => Ok((e, q)),
                Err(e) => Err(e),
            },
        },
        _ => Err(err_at(t, p, ParseErrorKindView::UnexpectedToken)),
    }
}

/// The top-level `six` blocks from position `p` on.
pub open spec fn sp_program(t: Seq<TokenData>, p: int) -> PR<Seq<StmtView>>
    decreases t.len() - p,
{
    let q = sp_skip_newlines(t, p);
    if !within(t, p, q) {
        stuck(t, p)
    } else if at_end(t, q) {
        Ok((seq![], q))
    } else if is_kw(t, q, Keyword::Six) {
        match sp_six(t, q) {
            Err(e) => Err(e),
            Ok((s, r)) => if q < r <= t.len() {
                match sp_program(t, r) {
                    Ok((rest, z)) => Ok((seq![s] + rest, z)),
                    Err(e) => Err(e),
                }
            } else {
                stuck(t, p)
            },
        }
    } else {
        Err(err_at(t, q, ParseErrorKindView::MissingSixHeader))
    }
}

pub open spec fn is_main_decl(s: StmtView) -> bool {
    match s {
        StmtView::FnDecl(name, _, _) => name == main_text(),
        _ => false,
    }
}

/// Some statement of `body` declares `fn main`.
pub open spec fn declares_main(body: Seq<StmtView>) -> bool {
    exists|j: int| 0 <= j < body.len() && #[trigger] is_main_decl(body[j])
}

/// A `six` block whose body declares `fn main` directly.
pub open spec fn is_six_with_main(s: StmtView) -> bool {
    &&& s is Six
    &&& declares_main(s->Six_1)
}

/// Some top-level `six` block declares a function named `main` directly in its body.
pub open spec fn has_main(stmts: Seq<StmtView>) -> bool {
    exists|i: int| 0 <= i < stmts.len() && #[trigger] is_six_with_main(stmts[i])
}

/// The whole program, or the first error.
pub open spec fn sp_parse(t: Seq<TokenData>, start: int) -> Result<Seq<StmtView>, ParseErrorView> {
    match sp_program(t, start) {
        Err(e) => Err(e),
        Ok((stmts, _)) => if has_main(stmts) {
            Ok(stmts)
        } else {
            Err(ParseErrorView { kind: ParseErrorKindView::MissingMain, line: 0, col: 0 })
        },
    }
}

} // verus!

verus! {

pub open spec fn rpos(r: Result<usize, ParseError>) -> Result<int, ParseErrorView> {
    match r {
        Ok(q) => Ok(q as int),
        Err(e) => Err(e@),
    }
}

pub open spec fn is_bare(t: TokenView) -> bool {
    t is LParen || t is RParen || t is Colon || t is Comma || t is Newline
}

fn tok_at_end(toks: &Vec<TokenData>, p: usize) -> (b: bool)
    ensures
        b == at_end(toks@, p as int),
{
    p >= toks.len() || toks[p].token.is_eof()
}

fn advance(toks: &Vec<TokenData>, p: usize) -> (q: usize)
    requires
        p <= toks.len(),
    ensures
        q == adv(toks@, p as int),
        q <= toks.len(),
{
    if tok_at_end(toks, p) {
        p
    } else {
        p + 1
    }
}

fn check_kw(toks: &Vec<TokenData>, p: usize, k: Keyword) -> (b: bool)
    ensures
        b == is_kw(toks@, p as int, k),
{
    if tok_at_end(toks, p) {
        false
    } else {
        match &toks[p].token {
            Token::Keyword(k2) => *k2 == k,
            _ => false,
        }
    }
}

/// Whether the token at `p` is the payload-free token `expected`.
fn check_tok(toks: &Vec<TokenData>, p: usize, expected: &Token) -> (b: bool)
    requires
        is_bare(expected@),
    ensures
        b == (peek(toks@, p as int) == expected@),
{
    if tok_at_end(toks, p) {
        false
    } else {
        match (&toks[p].token, expected) {
            (Token::LParen, Token::LParen) => true,
            (Token::RParen, Token::RParen) => true,
            (Token::Colon, Token::Colon) => true,
            (Token::Comma, Token::Comma) => true,
            (Token::Newline, Token::Newline) => true,
            _ => false,
        }
    }
}

fn check_op(toks: &Vec<TokenData>, p: usize, word: &Vec<char>) -> (b: bool)
    ensures
        b == (peek(toks@, p as int) == TokenView::Op(word@)),
{
    if tok_at_end(toks, p) {
        false
    } else {
        match &toks[p].token {
            Token::Op(o) => crate::text::string_is(o, word),
            _ => false,
        }
    }
}

/// The identifier at `p`, if there is one.
fn ident_at(toks: &Vec<TokenData>, p: usize) -> (r: Option<String>)
    ensures
        match r {
            Some(s) => peek(toks@, p as int) == TokenView::Identifier(s@),
            None => !(peek(toks@, p as int) is Identifier),
        },
{
    if tok_at_end(toks, p) {
        None
    } else {
        match &toks[p].token {
            Token::Identifier(s) => Some(s.clone()),
            _ => None,
        }
    }
}

fn error_at(toks: &Vec<TokenData>, p: usize, kind: ParseErrorKind) -> (e: ParseError)
    ensures
        e@ == err_at(toks@, p as int, kind@),
{
    if tok_at_end(toks, p) {
        ParseError { kind, line: 0, col: 0 }
    } else {
        ParseError { kind, line: toks[p].line, col: toks[p].col }
    }
}

fn expect_kw(toks: &Vec<TokenData>, p: usize, k: Keyword) -> (r: Result<usize, ParseError>)
    requires
        p <= toks.len(),
    ensures
        rpos(r) == consume_kw(toks@, p as int, k),
        r matches Ok(q) ==> p < q <= toks.len(),
{
    if check_kw(toks, p, k) {
        Ok(advance(toks, p))
    } else {
        Err(error_at(toks, p, ParseErrorKind::ExpectedKeyword(k)))
    }
}

fn expect_tok(toks: &Vec<TokenData>, p: usize, tok: Token) -> (r: Result<usize, ParseError>)
    requires
        p <= toks.len(),
        is_bare(tok@),
    ensures
        rpos(r) == consume_tok(toks@, p as int, tok@),
        r matches Ok(q) ==> p < q <= toks.len(),
{
    if check_tok(toks, p, &tok) {
        Ok(advance(toks, p))
    } else {
        Err(error_at(toks, p, ParseErrorKind::ExpectedToken(tok)))
    }
}

fn expect_op(toks: &Vec<TokenData>, p: usize, word: Vec<char>) -> (r: Result<usize, ParseError>)
    requires
        p <= toks.len(),
    ensures
        rpos(r) == consume_op(toks@, p as int, word@),
        r matches Ok(q) ==> p < q <= toks.len(),
{
    if check_op(toks, p, &word) {
        Ok(advance(toks, p))
    } else {
        Err(error_at(toks, p, ParseErrorKind::ExpectedOperator(string_from_chars(word.as_slice()))))
    }
}

fn op_star() -> (v: Vec<char>)
    ensures
        v@ == op_text_star(),
{
    let v = vec!['*'];
    assert(v@ =~= op_text_star());
    v
}

fn op_at() -> (v: Vec<char>)
    ensures
        v@ == op_text_at(),
{
    let v = vec!['@'];
    assert(v@ =~= op_text_at());
    v
}

fn op_hash() -> (v: Vec<char>)
    ensures
        v@ == op_text_hash(),
{
    let v = vec!['#'];
    assert(v@ =~= op_text_hash());
    v
}

fn op_amp() -> (v: Vec<char>)
    ensures
        v@ == op_text_amp(),
{
    let v = vec!['&'];
    assert(v@ =~= op_text_amp());
    v
}

fn op_assign() -> (v: Vec<char>)
    ensures
        v@ == op_text_assign(),
{
    let v = vec!['='];
    assert(v@ =~= op_text_assign());
    v
}

fn op_range() -> (v: Vec<char>)
    ensures
        v@ == op_text_range(),
{
    let v = vec!['.', '.'];
    assert(v@ =~= op_text_range());
    v
}

fn word_const() -> (v: Vec<char>)
    ensures
        v@ == const_text(),
{
    let v = vec!['c', 'o', 'n', 's', 't'];
    assert(v@ =~= const_text());
    v
}

fn word_main() -> (v: Vec<char>)
    ensures
        v@ == main_text(),
{
    let v = vec!['m', 'a', 'i', 'n'];
    assert(v@ =~= main_text());
    v
}

fn some_stmt_of(r: Result<(Stmt, usize), ParseError>) -> (o: Result<(Option<Stmt>, usize), ParseError>)
    ensures
        pr_opt_stmt(o) == some_stmt(pr_stmt(r)),
        o matches Ok((_, q)) ==> r matches Ok((_, q2)) && q == q2,
        r is Ok ==> o is Ok,
{
    match r {
        Ok((s, q)) => Ok((Some(s), q)),
        Err(e) => Err(e),
    }
}

fn skip_newlines(toks: &Vec<TokenData>, p: usize) -> (q: usize)
    requires
        p <= toks.len(),
    ensures
        q == sp_skip_newlines(toks@, p as int),
        p <= q <= toks.len(),
        q > p || !(peek(toks@, p as int) is Newline),
{
    let mut q = p;
    let nl = Token::Newline;
    while q < toks.len() && check_tok(toks, q, &nl)
        invariant
            p <= q <= toks.len(),
            nl@ is Newline,
            sp_skip_newlines(toks@, p as int) == sp_skip_newlines(toks@, q as int),
        decreases toks.len() - q,
    {
        q = q + 1;
    }
    q
}

} // verus!

verus! {

pub open spec fn prepend_stmts(acc: Seq<StmtView>, r: PR<Seq<StmtView>>) -> PR<Seq<StmtView>> {
    match r {
        Ok((s, q)) => Ok((acc + s, q)),
        Err(e) => Err(e),
    }
}

pub open spec fn prepend_exprs(acc: Seq<ExprView>, r: PR<Seq<ExprView>>) -> PR<Seq<ExprView>> {
    match r {
        Ok((s, q)) => Ok((acc + s, q)),
        Err(e) => Err(e),
    }
}

pub open spec fn prepend_names(acc: Seq<Seq<char>>, r: PR<Seq<Seq<char>>>) -> PR<Seq<Seq<char>>> {
    match r {
        Ok((s, q)) => Ok((acc + s, q)),
        Err(e) => Err(e),
    }
}

/// A parser over a token sequence; `source` is the text the tokens came from.
pub struct Parser {
    tokens: Vec<TokenData>,
    pos: usize,
    source: String,
}

pub struct ParserView {
    pub tokens: Seq<TokenData>,
    pub pos: int,
    pub source: Seq<char>,
}

impl View for Parser {
    type V = ParserView;

    closed spec fn view(&self) -> ParserView {
        ParserView { tokens: self.tokens@, pos: self.pos as int, source: self.source@ }
    }
}

impl Parser {
    #[verifier::type_invariant]
    spec fn inv(self) -> bool {
        self.pos <= self.tokens.len()
    }

    pub fn new(tokens: Vec<TokenData>, source: String) -> (p: Self)
        ensures
            p@ == (ParserView { tokens: tokens@, pos: 0, source: source@ }),
    {
        Self { tokens, pos: 0, source }
    }

    /// The text the tokens came from.
    pub fn source(&self) -> (s: &String)
        ensures
            s@ == self@.source,
    {
        &self.source
    }

    fn parse_params(toks: &Vec<TokenData>, p: usize) -> (r: Result<(Vec<String>, usize), ParseError>)
        requires
            p <= toks.len(),
        ensures
            pr_names(r) == sp_params(toks@, p as int),
            r matches Ok((_, q)) ==> p <= q <= toks.len(),
    {
        let mut params: Vec<String> = Vec::new();
        let mut pos = p;
        let rparen = Token::RParen;
        let colon = Token::Colon;
        let comma = Token::Comma;
        while !check_tok(toks, pos, &rparen)
            invariant
                p <= pos <= toks.len(),
                rparen@ is RParen,
                colon@ is Colon,
                comma@ is Comma,
                sp_params(toks@, p as int) == prepend_names(
                    names_view(params@),
                    sp_params(toks@, pos as int),
                ),
            decreases toks.len() - pos,
        {
            let ghost before = pos;
            match ident_at(toks, pos) {
                Some(name) => {
                    pos = advance(toks, pos);
                    if check_tok(toks, pos, &colon) {
                        pos = advance(toks, pos);
                        pos = advance(toks, pos);
                    }
                    if check_tok(toks, pos, &comma) {
                        pos = advance(toks, pos);
                    }
                    let ghost old_params = params@;
                    params.push(name);
                    proof {
                        assert(names_view(params@) =~= names_view(old_params) + seq![name@]);
                        assert(within(toks@, before + 1, pos as int));
                        match sp_params(toks@, pos as int) {
                            Ok((rest, q)) => {
                                assert(names_view(old_params) + (seq![name@] + rest) =~= names_view(
                                    params@,
                                ) + rest);
                            },
                            Err(_) => {},
                        }
                    }
                },
                None => {
                    return Err(error_at(toks, pos, ParseErrorKind::ExpectedParameterName));
                },
            }
        }
        proof {
            assert(names_view(params@) + seq![] =~= names_view(params@));
        }
        Ok((params, pos))
    }

    fn parse_use(toks: &Vec<TokenData>, p: usize) -> (r: Result<(Stmt, usize), ParseError>)
        requires
            p <= toks.len(),
            !at_end(toks@, p as int),
        ensures
            pr_stmt(r) == sp_use(toks@, p as int),
            r matches Ok((_, q)) ==> p < q <= toks.len(),
    {
        let p1 = advance(toks, p);
        let p2 = advance(toks, p1);
        if !tok_at_end(toks, p1) {
            match &toks[p1].token {
                Token::String(s) => {
                    return Ok((Stmt::Use(s.clone()), p2));
                },
                _ => {},
            }
        }
        Err(error_at(toks, p2, ParseErrorKind::ExpectedStringAfterUse))
    }

    fn parse_get(toks: &Vec<TokenData>, p: usize) -> (r: Result<(Stmt, usize), ParseError>)
        requires
            p <= toks.len(),
            !at_end(toks@, p as int),
        ensures
            pr_stmt(r) == sp_get(toks@, p as int),
            r matches Ok((_, q)) ==> p < q <= toks.len(),
    {
        let p1 = advance(toks, p);
        let p2 = advance(toks, p1);
        match ident_at(toks, p1) {
            Some(s) => Ok((Stmt::Get(s), p2)),
            None => Err(error_at(toks, p2, ParseErrorKind::ExpectedIdentifierAfterGet)),
        }
    }

    fn parse_block(toks: &Vec<TokenData>, p: usize, stop_else: bool) -> (r: Result<
        (Vec<Stmt>, usize),
        ParseError,
    >)
        requires
            p <= toks.len(),
        ensures
            pr_stmts(r) == sp_block(toks@, p as int, stop_else),
            r matches Ok((_, q)) ==> p <= q <= toks.len(),
        decreases toks.len() - p, 30int,
    {
        let mut body: Vec<Stmt> = Vec::new();
        let mut pos = p;
        while !(tok_at_end(toks, pos) || check_kw(toks, pos, Keyword::End) || (stop_else
            && check_kw(toks, pos, Keyword::Else)))
            invariant
                p <= pos <= toks.len(),
                sp_block(toks@, p as int, stop_else) == prepend_stmts(
                    stmts_view(body@),
                    sp_block(toks@, pos as int, stop_else),
                ),
            decreases toks.len() - pos,
        {
            match Self::parse_statement(toks, pos) {
                Err(e) => {
                    return Err(e);
                },
                Ok((o, q)) => {
                    let ghost old_body = body@;
                    let ghost ov = match o {
                        Some(ref s) => Some(s@),
                        None => None::<StmtView>,
                    };
                    match o {
                        Some(s) => {
                            body.push(s);
                            proof {
                                crate::ast::lemma_stmts_view_push(old_body, s);
                            }
                        },
                        None => {},
                    }
                    proof {
                        match sp_block(toks@, q as int, stop_else) {
                            Ok((rest, r)) => {
                                assert(stmts_view(old_body) + opt_cons(ov, rest) =~= stmts_view(
                                    body@,
                                ) + rest);
                            },
                            Err(_) => {},
                        }
                    }
                    pos = q;
                },
            }
        }
        proof {
            assert(stmts_view(body@) + seq![] =~= stmts_view(body@));
        }
        Ok((body, pos))
    }

    fn parse_closed_block(toks: &Vec<TokenData>, p: usize) -> (r: Result<
        (Vec<Stmt>, usize),
        ParseError,
    >)
        requires
            p <= toks.len(),
        ensures
            pr_stmts(r) == sp_closed_block(toks@, p as int),
            r matches Ok((_, q)) ==> p < q <= toks.len(),
        decreases toks.len() - p, 31int,
    {
        let (body, q) = Self::parse_block(toks, p, false)?;
        let r = expect_kw(toks, q, Keyword::End)?;
        Ok((body, r))
    }

    fn parse_statement(toks: &Vec<TokenData>, p: usize) -> (r: Result<
        (Option<Stmt>, usize),
        ParseError,
    >)
        requires
            p <= toks.len(),
        ensures
            pr_opt_stmt(r) == sp_statement(toks@, p as int),
            r matches Ok((_, q)) ==> p <= q <= toks.len() && (q > p || at_end(toks@, p as int)
                || is_kw(toks@, p as int, Keyword::End)),
        decreases toks.len() - p, 25int,
    {
        let q = skip_newlines(toks, p);
        if tok_at_end(toks, q) || check_kw(toks, q, Keyword::End) {
            return Ok((None, q));
        }
        match &toks[q].token {
            Token::Keyword(Keyword::Six) => some_stmt_of(Self::parse_six(toks, q)),
            Token::Keyword(Keyword::V) => some_stmt_of(Self::parse_var_decl(toks, q)),
            Token::Keyword(Keyword::Fn) => some_stmt_of(Self::parse_fn_decl(toks, q)),
            Token::Keyword(Keyword::If) => some_stmt_of(Self::parse_if(toks, q)),
            Token::Keyword(Keyword::For) => some_stmt_of(Self::parse_for(toks, q)),
            Token::Keyword(Keyword::Ret) => some_stmt_of(Self::parse_return(toks, q)),
            Token::Keyword(Keyword::Use) => some_stmt_of(Self::parse_use(toks, q)),
            Token::Keyword(Keyword::Try) => some_stmt_of(Self::parse_try(toks, q)),
            Token::Keyword(Keyword::Put) => some_stmt_of(Self::parse_put(toks, q)),
            Token::Keyword(Keyword::Get) => some_stmt_of(Self::parse_get(toks, q)),
            Token::Keyword(Keyword::Leak) => Ok((Some(Stmt::Leak), q + 1)),
            Token::Keyword(Keyword::Report) => Ok((Some(Stmt::Report), q + 1)),
            Token::Identifier(_) => Self::parse_identifier_stmt(toks, q),
            Token::Op(o) => {
                if crate::text::string_is(o, &op_star()) || crate::text::string_is(o, &op_at()) {
                    some_stmt_of(Self::parse_deref_assignment(toks, q))
                } else if crate::text::string_is(o, &op_hash()) {
                    some_stmt_of(Self::parse_directive(toks, q))
                } else {
                    some_stmt_of(Self::parse_expression_stmt(toks, q))
                }
            },
            _ => some_stmt_of(Self::parse_expression_stmt(toks, q)),
        }
    }

    fn parse_expression_stmt(toks: &Vec<TokenData>, p: usize) -> (r: Result<(Stmt, usize), ParseError>)
        requires
            p <= toks.len(),
        ensures
            pr_stmt(r) == sp_expression_stmt(toks@, p as int),
            r matches Ok((_, q)) ==> p < q <= toks.len(),
        decreases toks.len() - p, 10int,
    {
        let (e, q) = Self::parse_expression(toks, p)?;
        Ok((Stmt::Expression(e), q))
    }

    fn parse_six(toks: &Vec<TokenData>, p: usize) -> (r: Result<(Stmt, usize), ParseError>)
        requires
            p <= toks.len(),
        ensures
            pr_stmt(r) == sp_six(toks@, p as int),
            r matches Ok((_, q)) ==> p < q <= toks.len(),
        decreases toks.len() - p, 20int,
    {
        let p1 = advance(toks, p);
        let p2 = advance(toks, p1);
        match ident_at(toks, p1) {
            Some(name) => {
                let (body, q) = Self::parse_closed_block(toks, p2)?;
                Ok((Stmt::Six(name, body), q))
            },
            None => Err(error_at(toks, p1, ParseErrorKind::ExpectedProjectName)),
        }
    }

    fn parse_var_decl(toks: &Vec<TokenData>, p: usize) -> (r: Result<(Stmt, usize), ParseError>)
        requires
            p <= toks.len(),
        ensures
            pr_stmt(r) == sp_var_decl(toks@, p as int),
            r matches Ok((_, q)) ==> p < q <= toks.len(),
        decreases toks.len() - p, 20int,
    {
        let p1 = advance(toks, p);
        let p2 = advance(toks, p1);
        match ident_at(toks, p1) {
            Some(name) => {
                let mut p4 = p2;
                let mut var_type: Option<String> = None;
                if check_tok(toks, p2, &Token::Colon) {
                    let p3 = advance(toks, p2);
                    match ident_at(toks, p3) {
                        Some(t) => {
                            var_type = Some(t);
                            p4 = advance(toks, p3);
                        },
                        None => {
                            return Err(error_at(toks, p3, ParseErrorKind::ExpectedTypeName));
                        },
                    }
                }
                let ghost tyv = match var_type {
                    Some(ref t) => Some(t@),
                    None => None::<Seq<char>>,
                };
                let p5 = expect_op(toks, p4, op_assign())?;
                let (value, q) = Self::parse_expression(toks, p5)?;
                proof {
                    assert(stmt_view(Stmt::VarDecl(name, var_type, value)) == StmtView::VarDecl(
                        name@,
                        tyv,
                        value@,
                    ));
                }
                Ok((Stmt::VarDecl(name, var_type, value), q))
            },
            None => Err(error_at(toks, p1, ParseErrorKind::ExpectedIdentifierAfterV)),
        }
    }

    fn parse_fn_decl(toks: &Vec<TokenData>, p: usize) -> (r: Result<(Stmt, usize), ParseError>)
        requires
            p <= toks.len(),
        ensures
            pr_stmt(r) == sp_fn_decl(toks@, p as int),
            r matches Ok((_, q)) ==> p < q <= toks.len(),
        decreases toks.len() - p, 20int,
    {
        let p1 = advance(toks, p);
        let p2 = advance(toks, p1);
        match ident_at(toks, p1) {
            Some(name) => {
                let p3 = expect_tok(toks, p2, Token::LParen)?;
                let (params, p4) = Self::parse_params(toks, p3)?;
                let p5 = expect_tok(toks, p4, Token::RParen)?;
                let (body, q) = Self::parse_closed_block(toks, p5)?;
                Ok((Stmt::FnDecl(name, params, body), q))
            },
            None => Err(error_at(toks, p1, ParseErrorKind::ExpectedFunctionName)),
        }
    }

    fn parse_if(toks: &Vec<TokenData>, p: usize) -> (r: Result<(Stmt, usize), ParseError>)
        requires
            p <= toks.len(),
            !at_end(toks@, p as int),
        ensures
            pr_stmt(r) == sp_if(toks@, p as int),
            r matches Ok((_, q)) ==> p < q <= toks.len(),
        decreases toks.len() - p, 20int,
    {
        let p1 = advance(toks, p);
        let (condition, p2) = Self::parse_expression(toks, p1)?;
        let (then_branch, p3) = Self::parse_block(toks, p2, true)?;
        if check_kw(toks, p3, Keyword::Else) {
            let p4 = advance(toks, p3);
            let (else_branch, q) = Self::parse_closed_block(toks, p4)?;
            Ok((Stmt::If(condition, then_branch, Some(else_branch)), q))
        } else {
            let q = expect_kw(toks, p3, Keyword::End)?;
            Ok((Stmt::If(condition, then_branch, None), q))
        }
    }

    fn parse_for(toks: &Vec<TokenData>, p: usize) -> (r: Result<(Stmt, usize), ParseError>)
        requires
            p <= toks.len(),
        ensures
            pr_stmt(r) == sp_for(toks@, p as int),
            r matches Ok((_, q)) ==> p < q <= toks.len(),
        decreases toks.len() - p, 20int,
    {
        let p1 = advance(toks, p);
        let p2 = advance(toks, p1);
        match ident_at(toks, p1) {
            Some(var) => {
                let p3 = expect_op(toks, p2, op_assign())?;
                let (start, p4) = Self::parse_expression(toks, p3)?;
                let p5 = expect_op(toks, p4, op_range())?;
                let (end, p6) = Self::parse_expression(toks, p5)?;
                let (body, q) = Self::parse_closed_block(toks, p6)?;
                Ok((Stmt::For(var, start, end, body), q))
            },
            None => Err(error_at(toks, p1, ParseErrorKind::ExpectedLoopVariable)),
        }
    }

    fn parse_return(toks: &Vec<TokenData>, p: usize) -> (r: Result<(Stmt, usize), ParseError>)
        requires
            p <= toks.len(),
        ensures
            pr_stmt(r) == sp_return(toks@, p as int),
            r matches Ok((_, q)) ==> p < q <= toks.len(),
        decreases toks.len() - p, 10int,
    {
        let (e, q) = Self::parse_expression(toks, advance(toks, p))?;
        Ok((Stmt::Return(e), q))
    }

    fn parse_put(toks: &Vec<TokenData>, p: usize) -> (r: Result<(Stmt, usize), ParseError>)
        requires
            p <= toks.len(),
        ensures
            pr_stmt(r) == sp_put(toks@, p as int),
            r matches Ok((_, q)) ==> p < q <= toks.len(),
        decreases toks.len() - p, 10int,
    {
        let (e, q) = Self::parse_expression(toks, advance(toks, p))?;
        Ok((Stmt::Put(e), q))
    }

    fn parse_try(toks: &Vec<TokenData>, p: usize) -> (r: Result<(Stmt, usize), ParseError>)
        requires
            p <= toks.len(),
            !at_end(toks@, p as int),
        ensures
            pr_stmt(r) == sp_try(toks@, p as int),
            r matches Ok((_, q)) ==> p < q <= toks.len(),
        decreases toks.len() - p, 20int,
    {
        let (body, q) = Self::parse_closed_block(toks, advance(toks, p))?;
        Ok((Stmt::Try(body), q))
    }

    fn parse_identifier_stmt(toks: &Vec<TokenData>, p: usize) -> (r: Result<
        (Option<Stmt>, usize),
        ParseError,
    >)
        requires
            p <= toks.len(),
            peek(toks@, p as int) is Identifier,
        ensures
            pr_opt_stmt(r) == sp_identifier_stmt(toks@, p as int),
            r matches Ok((_, q)) ==> p < q <= toks.len(),
        decreases toks.len() - p, 10int,
    {
        let p1 = advance(toks, p);
        match ident_at(toks, p) {
            Some(name) => {
                if check_op(toks, p1, &op_assign()) {
                    let (value, q) = Self::parse_expression(toks, advance(toks, p1))?;
                    Ok((Some(Stmt::Assignment(name, value)), q))
                } else {
                    let (args, q) = Self::parse_call_args(toks, p1)?;
                    Ok((Some(Stmt::Expression(Expr::Call(name, args))), q))
                }
            },
            None => Ok((None, p1)),
        }
    }

    fn parse_call_args(toks: &Vec<TokenData>, p: usize) -> (r: Result<(Vec<Expr>, usize), ParseError>)
        requires
            p <= toks.len(),
        ensures
            pr_exprs(r) == sp_call_args(toks@, p as int),
            r matches Ok((_, q)) ==> p <= q <= toks.len(),
        decreases toks.len() - p, 8int,
    {
        if check_tok(toks, p, &Token::LParen) {
            let (args, q) = Self::parse_args(toks, advance(toks, p))?;
            let r = expect_tok(toks, q, Token::RParen)?;
            Ok((args, r))
        } else {
            Ok((Vec::new(), p))
        }
    }

    fn parse_args(toks: &Vec<TokenData>, p: usize) -> (r: Result<(Vec<Expr>, usize), ParseError>)
        requires
            p <= toks.len(),
        ensures
            pr_exprs(r) == sp_args(toks@, p as int),
            r matches Ok((_, q)) ==> p <= q <= toks.len(),
        decreases toks.len() - p, 6int,
    {
        let mut args: Vec<Expr> = Vec::new();
        let mut pos = p;
        let rparen = Token::RParen;
        let comma = Token::Comma;
        while !check_tok(toks, pos, &rparen)
            invariant
                p <= pos <= toks.len(),
                rparen@ is RParen,
                comma@ is Comma,
                sp_args(toks@, p as int) == prepend_exprs(
                    exprs_view(args@),
                    sp_args(toks@, pos as int),
                ),
            decreases toks.len() - pos,
        {
            let (e, p1) = Self::parse_expression(toks, pos)?;
            let mut p2 = p1;
            if check_tok(toks, p1, &comma) {
                p2 = advance(toks, p1);
            }
            let ghost old_args = args@;
            let ghost ev = e@;
            args.push(e);
            proof {
                crate::ast::lemma_exprs_view_push(old_args, e);
                match sp_args(toks@, p2 as int) {
                    Ok((rest, q)) => {
                        assert(exprs_view(old_args) + (seq![ev] + rest) =~= exprs_view(args@)
                            + rest);
                    },
                    Err(_) => {},
                }
            }
            pos = p2;
        }
        proof {
            assert(exprs_view(args@) + seq![] =~= exprs_view(args@));
        }
        Ok((args, pos))
    }

    fn parse_directive(toks: &Vec<TokenData>, p: usize) -> (r: Result<(Stmt, usize), ParseError>)
        requires
            p <= toks.len(),
        ensures
            pr_stmt(r) == sp_directive(toks@, p as int),
            r matches Ok((_, q)) ==> p < q <= toks.len(),
        decreases toks.len() - p, 10int,
    {
        let p1 = advance(toks, p);
        let p2 = advance(toks, p1);
        match ident_at(toks, p1) {
            Some(name) => {
                if crate::text::string_is(&name, &word_const()) {
                    let (a, p3) = Self::parse_expression(toks, p2)?;
                    let p4 = expect_op(toks, p3, op_assign())?;
                    let (b, q) = Self::parse_expression(toks, p4)?;
                    let ghost av = a@;
                    let ghost bv = b@;
                    let args = vec![a, b];
                    proof {
                        crate::ast::lemma_exprs_view_index(args@);
                        assert(exprs_view(args@) =~= seq![av, bv]);
                    }
                    Ok((Stmt::Directive(name, args), q))
                } else {
                    let args: Vec<Expr> = Vec::new();
                    proof {
                        assert(exprs_view(args@) =~= seq![]);
                    }
                    Ok((Stmt::Directive(name, args), p2))
                }
            },
            None => Err(error_at(toks, p2, ParseErrorKind::ExpectedIdentifierAfterHash)),
        }
    }

    fn parse_deref_assignment(toks: &Vec<TokenData>, p: usize) -> (r: Result<(Stmt, usize), ParseError>)
        requires
            p <= toks.len(),
        ensures
            pr_stmt(r) == sp_deref_assignment(toks@, p as int),
            r matches Ok((_, q)) ==> p < q <= toks.len(),
        decreases toks.len() - p, 10int,
    {
        let p1 = advance(toks, p);
        let (addr, p2) = Self::parse_expression(toks, p1)?;
        let p3 = expect_op(toks, p2, op_assign())?;
        let (value, q) = Self::parse_expression(toks, p3)?;
        Ok((Stmt::DerefAssignment(addr, value), q))
    }

    fn parse_expression(toks: &Vec<TokenData>, p: usize) -> (r: Result<(Expr, usize), ParseError>)
        requires
            p <= toks.len(),
        ensures
            pr_expr(r) == sp_expression(toks@, p as int),
            r matches Ok((_, q)) ==> p < q <= toks.len(),
        decreases toks.len() - p, 5int,
    {
        Self::parse_binary(toks, p)
    }

    fn parse_binary(toks: &Vec<TokenData>, p: usize) -> (r: Result<(Expr, usize), ParseError>)
        requires
            p <= toks.len(),
        ensures
            pr_expr(r) == sp_binary(toks@, p as int),
            r matches Ok((_, q)) ==> p < q <= toks.len(),
        decreases toks.len() - p, 4int,
    {
        let (mut left, mut pos) = Self::parse_cast(toks, p)?;
        loop
            invariant_except_break
                p < pos <= toks.len(),
                sp_binary(toks@, p as int) == sp_binary_rest(toks@, pos as int, left@),
            ensures
                p < pos <= toks.len(),
                sp_binary(toks@, p as int) == Ok::<(ExprView, int), ParseErrorView>((left@, pos as int)),
            decreases toks.len() - pos,
        {
            if tok_at_end(toks, pos) {
                break ;
            }
            let op = match &toks[pos].token {
                Token::Op(o) => o.clone(),
                _ => {
                    break ;
                },
            };
            if crate::text::string_is(&op, &op_range()) || crate::text::string_is(&op, &op_amp())
                || crate::text::string_is(&op, &op_at()) || crate::text::string_is(
                &op,
                &op_assign(),
            ) {
                break ;
            }
            let p1 = advance(toks, pos);
            let (right, p2) = Self::parse_cast(toks, p1)?;
            left = Expr::BinaryOp(Box::new(left), op, Box::new(right));
            pos = p2;
        }
        Ok((left, pos))
    }

    fn parse_cast(toks: &Vec<TokenData>, p: usize) -> (r: Result<(Expr, usize), ParseError>)
        requires
            p <= toks.len(),
        ensures
            pr_expr(r) == sp_cast(toks@, p as int),
            r matches Ok((_, q)) ==> p < q <= toks.len(),
        decreases toks.len() - p, 3int,
    {
        let (mut expr, mut pos) = Self::parse_primary(toks, p)?;
        while check_kw(toks, pos, Keyword::As)
            invariant
                p < pos <= toks.len(),
                sp_cast(toks@, p as int) == sp_cast_rest(toks@, pos as int, expr@),
            decreases toks.len() - pos,
        {
            let p1 = advance(toks, pos);
            let p2 = advance(toks, p1);
            match ident_at(toks, p1) {
                Some(t) => {
                    expr = Expr::Cast(Box::new(expr), t);
                    pos = p2;
                },
                None => {
                    return Err(error_at(toks, p1, ParseErrorKind::ExpectedTypeAfterAs));
                },
            }
        }
        Ok((expr, pos))
    }

    fn parse_primary(toks: &Vec<TokenData>, p: usize) -> (r: Result<(Expr, usize), ParseError>)
        requires
            p <= toks.len(),
        ensures
            pr_expr(r) == sp_primary(toks@, p as int),
            r matches Ok((_, q)) ==> p < q <= toks.len(),
        decreases toks.len() - p, 1int,
    {
        if tok_at_end(toks, p) {
            return Err(error_at(toks, p, ParseErrorKind::UnexpectedToken));
        }
        let p1 = p + 1;
        match &toks[p].token {
            Token::Op(o) => {
                if crate::text::string_is(o, &op_amp()) {
                    match ident_at(toks, p1) {
                        Some(id) => Ok((Expr::Addr(id), advance(toks, p1))),
                        None => Err(error_at(toks, p1, ParseErrorKind::ExpectedIdentifierAfterAmp)),
                    }
                } else if crate::text::string_is(o, &op_star()) || crate::text::string_is(
                    o,
                    &op_at(),
                ) {
                    let (e, q) = Self::parse_primary(toks, p1)?;
                    Ok((Expr::Deref(Box::new(e)), q))
                } else {
                    Err(error_at(toks, p, ParseErrorKind::UnexpectedToken))
                }
            },
            Token::Number(n) => Ok((Expr::Number(n.clone()), p1)),
            Token::String(s) => Ok((Expr::String(s.clone()), p1)),
            Token::Identifier(id) => {
                if check_tok(toks, p1, &Token::LParen) {
                    let (args, p3) = Self::parse_args(toks, advance(toks, p1))?;
                    let q = expect_tok(toks, p3, Token::RParen)?;
                    Ok((Expr::Call(id.clone(), args), q))
                } else {
                    Ok((Expr::Variable(id.clone()), p1))
                }
            },
            Token::LParen => {
                let (e, p2) = Self::parse_expression(toks, p1)?;
                let q = expect_tok(toks, p2, Token::RParen)?;
                Ok((e, q))
            },
            _ => Err(error_at(toks, p, ParseErrorKind::UnexpectedToken)),
        }
    }
}


impl Parser {
    /// Parses the whole program from the current position: the top-level
    /// `six` blocks, of which one must declare `fn main`.
    pub fn parse(&mut self) -> (r: Result<Vec<Stmt>, ParseError>)
        ensures
            final(self)@.tokens == old(self)@.tokens,
            final(self)@.source == old(self)@.source,
            match r {
                Ok(s) => sp_parse(old(self)@.tokens, old(self)@.pos) == Ok::<
                    Seq<StmtView>,
                    ParseErrorView,
                >(stmts_view(s@)),
                Err(e) => sp_parse(old(self)@.tokens, old(self)@.pos) == Err::<
                    Seq<StmtView>,
                    ParseErrorView,
                >(e@),
            },
            r is Ok ==> (sp_program(old(self)@.tokens, old(self)@.pos) matches Ok((_, z))
                && final(self)@.pos == z),
            r is Err ==> final(self)@.pos == old(self)@.pos,
    {
        proof {
            use_type_invariant(&*self);
        }
        let (statements, pos) = parse_program(&self.tokens, self.pos)?;
        if !has_main_block(&statements) {
            return Err(ParseError { kind: ParseErrorKind::MissingMain, line: 0, col: 0 });
        }
        self.pos = pos;
        Ok(statements)
    }
}

/// The top-level `six` blocks from position `p` to the end of input.
fn parse_program(toks: &Vec<TokenData>, p: usize) -> (r: Result<(Vec<Stmt>, usize), ParseError>)
    requires
        p <= toks.len(),
    ensures
        pr_stmts(r) == sp_program(toks@, p as int),
        r matches Ok((_, q)) ==> q <= toks.len(),
{
        let mut statements: Vec<Stmt> = Vec::new();
        let mut pos = p;
        loop
            invariant_except_break
                p <= pos <= toks.len(),
                sp_program(toks@, p as int) == prepend_stmts(
                    stmts_view(statements@),
                    sp_program(toks@, pos as int),
                ),
            ensures
                p <= pos <= toks.len(),
                sp_program(toks@, p as int) == Ok::<(Seq<StmtView>, int), ParseErrorView>(
                    (stmts_view(statements@), pos as int),
                ),
            decreases toks.len() - pos,
        {
            let q = skip_newlines(toks, pos);
            if tok_at_end(toks, q) {
                proof {
                    lemma_program_end(toks@, pos as int, stmts_view(statements@));
                }
                pos = q;
                break ;
            }
            if check_kw(toks, q, Keyword::Six) {
                match Parser::parse_six(toks, q) {
                    Err(e) => {
                        proof {
                            lemma_program_six_err(toks@, pos as int, stmts_view(statements@));
                        }
                        return Err(e);
                    },
                    Ok((s, r)) => {
                        let ghost old_stmts = statements@;
                        proof {
                            lemma_program_six(toks@, pos as int, stmts_view(old_stmts), s@);
                            crate::ast::lemma_stmts_view_push(old_stmts, s);
                        }
                        statements.push(s);
                        pos = r;
                    },
                }
            } else {
                let e = error_at(toks, q, ParseErrorKind::MissingSixHeader);
                return Err(e);
            }
        }
        Ok((statements, pos))
}

proof fn lemma_program_end(t: Seq<TokenData>, pos: int, acc: Seq<StmtView>)
    requires
        0 <= pos <= t.len(),
        sp_skip_newlines(t, pos) <= t.len(),
        pos <= sp_skip_newlines(t, pos),
        at_end(t, sp_skip_newlines(t, pos)),
    ensures
        prepend_stmts(acc, sp_program(t, pos)) == Ok::<(Seq<StmtView>, int), ParseErrorView>(
            (acc, sp_skip_newlines(t, pos)),
        ),
{
    assert(acc + seq![] =~= acc);
}

proof fn lemma_program_six_err(t: Seq<TokenData>, pos: int, acc: Seq<StmtView>)
    requires
        0 <= pos <= t.len(),
        pos <= sp_skip_newlines(t, pos) <= t.len(),
        !at_end(t, sp_skip_newlines(t, pos)),
        is_kw(t, sp_skip_newlines(t, pos), Keyword::Six),
        sp_six(t, sp_skip_newlines(t, pos)) is Err,
    ensures
        prepend_stmts(acc, sp_program(t, pos)) == Err::<(Seq<StmtView>, int), ParseErrorView>(
            sp_six(t, sp_skip_newlines(t, pos))->Err_0,
        ),
{
}

proof fn lemma_program_six(t: Seq<TokenData>, pos: int, acc: Seq<StmtView>, s: StmtView)
    requires
        0 <= pos <= t.len(),
        pos <= sp_skip_newlines(t, pos) <= t.len(),
        !at_end(t, sp_skip_newlines(t, pos)),
        is_kw(t, sp_skip_newlines(t, pos), Keyword::Six),
        sp_six(t, sp_skip_newlines(t, pos)) matches Ok((s2, r)) && s2 == s && sp_skip_newlines(t, pos) < r <= t.len(),
    ensures
        prepend_stmts(acc, sp_program(t, pos)) == prepend_stmts(
            acc.push(s),
            sp_program(t, sp_six(t, sp_skip_newlines(t, pos))->Ok_0.1),
        ),
{
    let r = sp_six(t, sp_skip_newlines(t, pos))->Ok_0.1;
    match sp_program(t, r) {
        Ok((rest, z)) => {
            assert(acc + (seq![s] + rest) =~= acc.push(s) + rest);
        },
        Err(_) => {},
    }
}

/// Whether some top-level `six` block declares `fn main` directly.
pub fn has_main_block(stmts: &Vec<Stmt>) -> (b: bool)
    ensures
        b == has_main(stmts_view(stmts@)),
{
    proof {
        crate::ast::lemma_stmts_view_index(stmts@);
    }
    let main = word_main();
    let mut i: usize = 0;
    while i < stmts.len()
        invariant
            i <= stmts.len(),
            main@ == main_text(),
            stmts_view(stmts@).len() == stmts@.len(),
            forall|k: int| 0 <= k < stmts@.len() ==> #[trigger] stmts_view(stmts@)[k] == stmt_view(stmts@[k]),
            forall|k: int| 0 <= k < i ==> !is_six_with_main(#[trigger] stmts_view(stmts@)[k]),
        decreases stmts.len() - i,
    {
        match &stmts[i] {
            Stmt::Six(nm, body) => {
                proof {
                    crate::ast::lemma_stmts_view_index(body@);
                }
                assert(stmts_view(stmts@)[i as int] == StmtView::Six(nm@, stmts_view(body@)));
                let mut j: usize = 0;
                while j < body.len()
                    invariant
                        j <= body.len(),
                        i < stmts.len(),
                        stmts_view(stmts@).len() == stmts@.len(),
                        stmts_view(stmts@)[i as int] == StmtView::Six(nm@, stmts_view(body@)),
                        main@ == main_text(),
                        stmts_view(body@).len() == body@.len(),
                        forall|k: int| 0 <= k < body@.len() ==> #[trigger] stmts_view(body@)[k] == stmt_view(body@[k]),
                        forall|k: int| 0 <= k < j ==> !is_main_decl(#[trigger] stmts_view(body@)[k]),
                    decreases body.len() - j,
                {
                    match &body[j] {
                        Stmt::FnDecl(name, _, _) => {
                            if crate::text::string_is(name, &main) {
                                proof {
                                    let bv = stmts_view(body@);
                                    assert(is_main_decl(bv[j as int]));
                                    assert(declares_main(bv));
                                    assert(is_six_with_main(StmtView::Six(nm@, bv)));
                                    assert(is_six_with_main(stmts_view(stmts@)[i as int]));
                                }
                                return true;
                            }
                        },
                        _ => {},
                    }
                    j = j + 1;
                }
            },
            _ => {},
        }
        i = i + 1;
    }
    false
}

} // verus!

verus! {

proof fn lemma_program_all_six(t: Seq<TokenData>, p: int)
    ensures
        sp_program(t, p) matches Ok((ss, _)) ==> forall|i: int|
            0 <= i < ss.len() ==> #[trigger] ss[i] is Six,
    decreases t.len() - p,
{
    let q = sp_skip_newlines(t, p);
    if within(t, p, q) && !at_end(t, q) && is_kw(t, q, Keyword::Six) {
        match sp_six(t, q) {
            Ok((s, r)) => {
                if q < r <= t.len() {
                    lemma_program_all_six(t, r);
                    match sp_program(t, r) {
                        Ok((rest, z)) => {
                            let ss = seq![s] + rest;
                            assert forall|i: int| 0 <= i < ss.len() implies #[trigger] ss[i] is Six by {
                                if i > 0 {
                                    assert(ss[i] == rest[i - 1]);
                                }
                            }
                        },
                        Err(_) => {},
                    }
                }
            },
            Err(_) => {},
        }
    }
}

/// Law: every program the parser accepts is a sequence of top-level `six`
/// blocks, one of which declares `fn main` directly in its body.
pub proof fn law_accepted_programs(t: Seq<TokenData>, p: int)
    ensures
        sp_parse(t, p) matches Ok(ss) ==> has_main(ss) && forall|i: int|
            0 <= i < ss.len() ==> #[trigger] ss[i] is Six,
{
    lemma_program_all_six(t, p);
}

} // verus!

verus! {

/// Law: a parenthesised expression parses to the whole expression inside the
/// brackets, binary operators included: when the expression after `(` ends
/// at a `)`, the primary is that expression and ends after the `)`; when it
/// fails, the primary fails the same way.
pub proof fn law_parenthesised_expression(t: Seq<TokenData>, p: int)
    requires
        0 <= p < t.len(),
        t[p].token@ is LParen,
    ensures
        match sp_expression(t, p + 1) {
            Ok((e, q)) => peek(t, q) is RParen ==> sp_primary(t, p) == Ok::<(ExprView, int), ParseErrorView>((e, q + 1)),
            Err(err) => sp_primary(t, p) == Err::<(ExprView, int), ParseErrorView>(err),
        },
{
}

} // verus!
