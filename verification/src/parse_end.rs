//! Parsing reads nothing past the first end-of-input token: the tokens after
//! it never change the result.

use vstd::prelude::*;
use crate::ast::ExprView;
use crate::lexer::{Keyword, TokenData, TokenView};
use crate::parser::{
    ParseErrorKindView, PR, adv, at_end, const_text, err_at, is_kw, op_text_amp, op_text_assign,
    op_text_at, op_text_hash, op_text_star, peek, sp_args, sp_binary, sp_binary_rest, sp_block,
    sp_call_args, sp_cast, sp_cast_rest, sp_closed_block, sp_deref_assignment, sp_directive,
    sp_expression, sp_expression_stmt, sp_fn_decl, sp_for, sp_get, sp_identifier_stmt, sp_if,
    sp_params, sp_parse, sp_primary, sp_program, sp_put, sp_return, sp_six, sp_skip_newlines,
    sp_statement, sp_try, sp_use, sp_var_decl, stops_expression, within,
};

verus! {

/// `t`, an end-of-input token `e`, then anything.
pub open spec fn ext(t: Seq<TokenData>, e: TokenData, u: Seq<TokenData>) -> Seq<TokenData> {
    t + seq![e] + u
}

/// No token of `t` is an end-of-input token.
pub open spec fn no_eof(t: Seq<TokenData>) -> bool {
    forall|i: int| 0 <= i < t.len() ==> !(#[trigger] t[i].token@ is EOF)
}

/// A successful result ends at or before `k`.
pub open spec fn ends_by<T>(r: PR<T>, k: int) -> bool {
    match r {
        Ok((_, q)) => q <= k,
        Err(_) => true,
    }
}

/// At any position up to the end of `t`, the longer sequence looks the same
/// as `t` to every way the grammar reads tokens.
proof fn lemma_same_at(t: Seq<TokenData>, e: TokenData, u: Seq<TokenData>, p: int)
    requires
        no_eof(t),
        e.token@ is EOF,
        p <= t.len(),
    ensures
        at_end(ext(t, e, u), p) == at_end(t, p),
        peek(ext(t, e, u), p) == peek(t, p),
        adv(ext(t, e, u), p) == adv(t, p),
        p <= adv(t, p) <= t.len() || p < 0,
        forall|kind: ParseErrorKindView| #[trigger] err_at(ext(t, e, u), p, kind) == err_at(t, p, kind),
{
    let l = ext(t, e, u);
    if 0 <= p < t.len() {
        assert(l[p] == t[p]);
        assert(!(t[p].token@ is EOF));
    } else if p == t.len() {
        assert(l[p] == e);
    }
}

proof fn lemma_skip(t: Seq<TokenData>, e: TokenData, u: Seq<TokenData>, p: int)
    requires
        no_eof(t),
        e.token@ is EOF,
        p <= t.len(),
    ensures
        sp_skip_newlines(ext(t, e, u), p) == sp_skip_newlines(t, p),
        sp_skip_newlines(t, p) <= t.len(),
        p >= 0 ==> p <= sp_skip_newlines(t, p),
        p < 0 ==> sp_skip_newlines(t, p) == p,
    decreases t.len() - p,
{
    lemma_same_at(t, e, u, p);
    if 0 <= p < t.len() && peek(t, p) is Newline {
        lemma_skip(t, e, u, p + 1);
    }
}

proof fn lemma_params(t: Seq<TokenData>, e: TokenData, u: Seq<TokenData>, p: int)
    requires
        no_eof(t),
        e.token@ is EOF,
        p <= t.len(),
    ensures
        sp_params(ext(t, e, u), p) == sp_params(t, p),
        ends_by(sp_params(t, p), t.len() as int),
    decreases t.len() - p,
{
    let l = ext(t, e, u);
    lemma_same_at(t, e, u, p);
    if !(peek(t, p) is RParen) {
        let p1 = adv(t, p);
        if peek(t, p) is Identifier {
            lemma_same_at(t, e, u, p1);
            let p2 = if peek(t, p1) is Colon {
                lemma_same_at(t, e, u, adv(t, p1));
                adv(t, adv(t, p1))
            } else {
                p1
            };
            lemma_same_at(t, e, u, p2);
            let p3 = if peek(t, p2) is Comma {
                adv(t, p2)
            } else {
                p2
            };
            if within(t, p + 1, p3) {
                lemma_params(t, e, u, p3);
            }
        }
    }
}

proof fn lemma_cast_rest(t: Seq<TokenData>, e: TokenData, u: Seq<TokenData>, p: int, x: ExprView)
    requires
        no_eof(t),
        e.token@ is EOF,
        p <= t.len(),
    ensures
        sp_cast_rest(ext(t, e, u), p, x) == sp_cast_rest(t, p, x),
        ends_by(sp_cast_rest(t, p, x), t.len() as int),
    decreases t.len() - p,
{
    lemma_same_at(t, e, u, p);
    if is_kw(t, p, Keyword::As) {
        let p1 = adv(t, p);
        lemma_same_at(t, e, u, p1);
        let p2 = adv(t, p1);
        match peek(t, p1) {
            TokenView::Identifier(ty) => {
                if within(t, p + 1, p2) {
                    lemma_cast_rest(t, e, u, p2, ExprView::Cast(Box::new(x), ty));
                }
            },
            _ => {},
        }
    }
}

proof fn lemma_two(t: Seq<TokenData>, e: TokenData, u: Seq<TokenData>, p: int)
    requires
        no_eof(t),
        e.token@ is EOF,
        0 <= p <= t.len(),
    ensures
        sp_use(ext(t, e, u), p) == sp_use(t, p),
        ends_by(sp_use(t, p), t.len() as int),
        sp_get(ext(t, e, u), p) == sp_get(t, p),
        ends_by(sp_get(t, p), t.len() as int),
{
    lemma_same_at(t, e, u, p);
    lemma_same_at(t, e, u, adv(t, p));
    lemma_same_at(t, e, u, adv(t, adv(t, p)));
}

proof fn lemma_block(t: Seq<TokenData>, e: TokenData, u: Seq<TokenData>, p: int, stop_else: bool)
    requires
        no_eof(t),
        e.token@ is EOF,
        0 <= p <= t.len(),
    ensures
        sp_block(ext(t, e, u), p, stop_else) == sp_block(t, p, stop_else),
        ends_by(sp_block(t, p, stop_else), t.len() as int),
    decreases t.len() - p, 30int,
{
    lemma_same_at(t, e, u, p);
    if !(at_end(t, p) || is_kw(t, p, Keyword::End) || (stop_else && is_kw(t, p, Keyword::Else))) {
        lemma_statement(t, e, u, p);
        match sp_statement(t, p) {
            Ok((o, q)) => {
                if p < q <= t.len() {
                    lemma_block(t, e, u, q, stop_else);
                }
            },
            Err(_) => {},
        }
    }
}

proof fn lemma_statement(t: Seq<TokenData>, e: TokenData, u: Seq<TokenData>, p: int)
    requires
        no_eof(t),
        e.token@ is EOF,
        0 <= p <= t.len(),
    ensures
        sp_statement(ext(t, e, u), p) == sp_statement(t, p),
        ends_by(sp_statement(t, p), t.len() as int),
    decreases t.len() - p, 25int,
{
    lemma_skip(t, e, u, p);
    let q = sp_skip_newlines(t, p);
    lemma_same_at(t, e, u, q);
    if within(t, p, q) && !(at_end(t, q) || is_kw(t, q, Keyword::End)) {
        match peek(t, q) {
            TokenView::Keyword(Keyword::Six) => lemma_six(t, e, u, q),
            TokenView::Keyword(Keyword::V) => lemma_var_decl(t, e, u, q),
            TokenView::Keyword(Keyword::Fn) => lemma_fn_decl(t, e, u, q),
            TokenView::Keyword(Keyword::If) => lemma_if(t, e, u, q),
            TokenView::Keyword(Keyword::For) => lemma_for(t, e, u, q),
            TokenView::Keyword(Keyword::Ret) => lemma_return(t, e, u, q),
            TokenView::Keyword(Keyword::Use) => lemma_two(t, e, u, q),
            TokenView::Keyword(Keyword::Try) => lemma_try(t, e, u, q),
            TokenView::Keyword(Keyword::Put) => lemma_put(t, e, u, q),
            TokenView::Keyword(Keyword::Get) => lemma_two(t, e, u, q),
            TokenView::Keyword(Keyword::Leak) => {},
            TokenView::Keyword(Keyword::Report) => {},
            TokenView::Identifier(_) => lemma_identifier_stmt(t, e, u, q),
            TokenView::Op(o) => {
                if o == op_text_star() || o == op_text_at() {
                    lemma_deref_assignment(t, e, u, q);
                } else if o == op_text_hash() {
                    lemma_directive(t, e, u, q);
                } else {
                    lemma_expression_stmt(t, e, u, q);
                }
            },
            _ => lemma_expression_stmt(t, e, u, q),
        }
    }
}

proof fn lemma_expression_stmt(t: Seq<TokenData>, e: TokenData, u: Seq<TokenData>, p: int)
    requires
        no_eof(t),
        e.token@ is EOF,
        0 <= p <= t.len(),
    ensures
        sp_expression_stmt(ext(t, e, u), p) == sp_expression_stmt(t, p),
        ends_by(sp_expression_stmt(t, p), t.len() as int),
    decreases t.len() - p, 10int,
{
    lemma_expression(t, e, u, p);
}

proof fn lemma_closed_block(t: Seq<TokenData>, e: TokenData, u: Seq<TokenData>, p: int)
    requires
        no_eof(t),
        e.token@ is EOF,
        0 <= p <= t.len(),
    ensures
        sp_closed_block(ext(t, e, u), p) == sp_closed_block(t, p),
        ends_by(sp_closed_block(t, p), t.len() as int),
    decreases t.len() - p, 31int,
{
    lemma_block(t, e, u, p, false);
    match sp_block(t, p, false) {
        Ok((_, q)) => lemma_same_at(t, e, u, q),
        Err(_) => {},
    }
}

proof fn lemma_six(t: Seq<TokenData>, e: TokenData, u: Seq<TokenData>, p: int)
    requires
        no_eof(t),
        e.token@ is EOF,
        0 <= p <= t.len(),
    ensures
        sp_six(ext(t, e, u), p) == sp_six(t, p),
        ends_by(sp_six(t, p), t.len() as int),
    decreases t.len() - p, 20int,
{
    lemma_same_at(t, e, u, p);
    let p1 = adv(t, p);
    lemma_same_at(t, e, u, p1);
    let p2 = adv(t, p1);
    if peek(t, p1) is Identifier && p < p2 <= t.len() {
        lemma_closed_block(t, e, u, p2);
    }
}

proof fn lemma_var_decl(t: Seq<TokenData>, e: TokenData, u: Seq<TokenData>, p: int)
    requires
        no_eof(t),
        e.token@ is EOF,
        0 <= p <= t.len(),
    ensures
        sp_var_decl(ext(t, e, u), p) == sp_var_decl(t, p),
        ends_by(sp_var_decl(t, p), t.len() as int),
    decreases t.len() - p, 20int,
{
    lemma_same_at(t, e, u, p);
    let p1 = adv(t, p);
    lemma_same_at(t, e, u, p1);
    let p2 = adv(t, p1);
    lemma_same_at(t, e, u, p2);
    let p3 = adv(t, p2);
    lemma_same_at(t, e, u, p3);
    let p4 = if peek(t, p2) is Colon {
        adv(t, p3)
    } else {
        p2
    };
    lemma_same_at(t, e, u, p4);
    let p5 = adv(t, p4);
    if p < p5 <= t.len() {
        lemma_expression(t, e, u, p5);
    }
}

proof fn lemma_fn_decl(t: Seq<TokenData>, e: TokenData, u: Seq<TokenData>, p: int)
    requires
        no_eof(t),
        e.token@ is EOF,
        0 <= p <= t.len(),
    ensures
        sp_fn_decl(ext(t, e, u), p) == sp_fn_decl(t, p),
        ends_by(sp_fn_decl(t, p), t.len() as int),
    decreases t.len() - p, 20int,
{
    lemma_same_at(t, e, u, p);
    let p1 = adv(t, p);
    lemma_same_at(t, e, u, p1);
    let p2 = adv(t, p1);
    lemma_same_at(t, e, u, p2);
    let p3 = adv(t, p2);
    lemma_params(t, e, u, p3);
    match sp_params(t, p3) {
        Ok((_, p4)) => {
            lemma_same_at(t, e, u, p4);
            let p5 = adv(t, p4);
            if p < p5 <= t.len() {
                lemma_closed_block(t, e, u, p5);
            }
        },
        Err(_) => {},
    }
}

proof fn lemma_if(t: Seq<TokenData>, e: TokenData, u: Seq<TokenData>, p: int)
    requires
        no_eof(t),
        e.token@ is EOF,
        0 <= p <= t.len(),
    ensures
        sp_if(ext(t, e, u), p) == sp_if(t, p),
        ends_by(sp_if(t, p), t.len() as int),
    decreases t.len() - p, 20int,
{
    lemma_same_at(t, e, u, p);
    let p1 = adv(t, p);
    if p < p1 {
        lemma_expression(t, e, u, p1);
        match sp_expression(t, p1) {
            Ok((_, p2)) => {
                if p1 <= p2 <= t.len() {
                    lemma_block(t, e, u, p2, true);
                    match sp_block(t, p2, true) {
                        Ok((_, p3)) => {
                            if p2 <= p3 <= t.len() {
                                lemma_same_at(t, e, u, p3);
                                if is_kw(t, p3, Keyword::Else) {
                                    lemma_closed_block(t, e, u, adv(t, p3));
                                }
                            }
                        },
                        Err(_) => {},
                    }
                }
            },
            Err(_) => {},
        }
    }
}

proof fn lemma_for(t: Seq<TokenData>, e: TokenData, u: Seq<TokenData>, p: int)
    requires
        no_eof(t),
        e.token@ is EOF,
        0 <= p <= t.len(),
    ensures
        sp_for(ext(t, e, u), p) == sp_for(t, p),
        ends_by(sp_for(t, p), t.len() as int),
    decreases t.len() - p, 20int,
{
    lemma_same_at(t, e, u, p);
    let p1 = adv(t, p);
    lemma_same_at(t, e, u, p1);
    let p2 = adv(t, p1);
    lemma_same_at(t, e, u, p2);
    let p3 = adv(t, p2);
    if peek(t, p1) is Identifier && p < p3 <= t.len() {
        lemma_expression(t, e, u, p3);
        match sp_expression(t, p3) {
            Ok((_, p4)) => {
                if p3 <= p4 <= t.len() {
                    lemma_same_at(t, e, u, p4);
                    let p5 = adv(t, p4);
                    lemma_expression(t, e, u, p5);
                    match sp_expression(t, p5) {
                        Ok((_, p6)) => {
                            if p5 <= p6 <= t.len() {
                                lemma_closed_block(t, e, u, p6);
                            }
                        },
                        Err(_) => {},
                    }
                }
            },
            Err(_) => {},
        }
    }
}

proof fn lemma_return(t: Seq<TokenData>, e: TokenData, u: Seq<TokenData>, p: int)
    requires
        no_eof(t),
        e.token@ is EOF,
        0 <= p <= t.len(),
    ensures
        sp_return(ext(t, e, u), p) == sp_return(t, p),
        ends_by(sp_return(t, p), t.len() as int),
    decreases t.len() - p, 10int,
{
    lemma_same_at(t, e, u, p);
    lemma_expression(t, e, u, adv(t, p));
}

proof fn lemma_put(t: Seq<TokenData>, e: TokenData, u: Seq<TokenData>, p: int)
    requires
        no_eof(t),
        e.token@ is EOF,
        0 <= p <= t.len(),
    ensures
        sp_put(ext(t, e, u), p) == sp_put(t, p),
        ends_by(sp_put(t, p), t.len() as int),
    decreases t.len() - p, 10int,
{
    lemma_same_at(t, e, u, p);
    lemma_expression(t, e, u, adv(t, p));
}

proof fn lemma_try(t: Seq<TokenData>, e: TokenData, u: Seq<TokenData>, p: int)
    requires
        no_eof(t),
        e.token@ is EOF,
        0 <= p <= t.len(),
    ensures
        sp_try(ext(t, e, u), p) == sp_try(t, p),
        ends_by(sp_try(t, p), t.len() as int),
    decreases t.len() - p, 20int,
{
    lemma_same_at(t, e, u, p);
    let p1 = adv(t, p);
    if p < p1 {
        lemma_closed_block(t, e, u, p1);
    }
}

proof fn lemma_identifier_stmt(t: Seq<TokenData>, e: TokenData, u: Seq<TokenData>, p: int)
    requires
        no_eof(t),
        e.token@ is EOF,
        0 <= p <= t.len(),
    ensures
        sp_identifier_stmt(ext(t, e, u), p) == sp_identifier_stmt(t, p),
        ends_by(sp_identifier_stmt(t, p), t.len() as int),
    decreases t.len() - p, 10int,
{
    lemma_same_at(t, e, u, p);
    let p1 = adv(t, p);
    lemma_same_at(t, e, u, p1);
    if peek(t, p) is Identifier {
        if peek(t, p1) == TokenView::Op(op_text_assign()) {
            lemma_expression(t, e, u, adv(t, p1));
        } else {
            lemma_call_args(t, e, u, p1);
        }
    }
}

proof fn lemma_call_args(t: Seq<TokenData>, e: TokenData, u: Seq<TokenData>, p: int)
    requires
        no_eof(t),
        e.token@ is EOF,
        0 <= p <= t.len(),
    ensures
        sp_call_args(ext(t, e, u), p) == sp_call_args(t, p),
        ends_by(sp_call_args(t, p), t.len() as int),
    decreases t.len() - p, 8int,
{
    lemma_same_at(t, e, u, p);
    if peek(t, p) is LParen {
        lemma_args(t, e, u, adv(t, p));
        match sp_args(t, adv(t, p)) {
            Ok((_, q)) => lemma_same_at(t, e, u, q),
            Err(_) => {},
        }
    }
}

proof fn lemma_args(t: Seq<TokenData>, e: TokenData, u: Seq<TokenData>, p: int)
    requires
        no_eof(t),
        e.token@ is EOF,
        0 <= p <= t.len(),
    ensures
        sp_args(ext(t, e, u), p) == sp_args(t, p),
        ends_by(sp_args(t, p), t.len() as int),
    decreases t.len() - p, 6int,
{
    lemma_same_at(t, e, u, p);
    if !(peek(t, p) is RParen) {
        lemma_expression(t, e, u, p);
        match sp_expression(t, p) {
            Ok((_, p1)) => {
                if p < p1 <= t.len() {
                    lemma_same_at(t, e, u, p1);
                    let p2 = if peek(t, p1) is Comma {
                        adv(t, p1)
                    } else {
                        p1
                    };
                    lemma_args(t, e, u, p2);
                }
            },
            Err(_) => {},
        }
    }
}

proof fn lemma_directive(t: Seq<TokenData>, e: TokenData, u: Seq<TokenData>, p: int)
    requires
        no_eof(t),
        e.token@ is EOF,
        0 <= p <= t.len(),
    ensures
        sp_directive(ext(t, e, u), p) == sp_directive(t, p),
        ends_by(sp_directive(t, p), t.len() as int),
    decreases t.len() - p, 10int,
{
    lemma_same_at(t, e, u, p);
    let p1 = adv(t, p);
    lemma_same_at(t, e, u, p1);
    let p2 = adv(t, p1);
    lemma_same_at(t, e, u, p2);
    match peek(t, p1) {
        TokenView::Identifier(name) => {
            if name == const_text() && p < p2 {
                lemma_expression(t, e, u, p2);
                match sp_expression(t, p2) {
                    Ok((_, p3)) => {
                        if p2 <= p3 <= t.len() {
                            lemma_same_at(t, e, u, p3);
                            lemma_expression(t, e, u, adv(t, p3));
                        }
                    },
                    Err(_) => {},
                }
            }
        },
        _ => {},
    }
}

proof fn lemma_deref_assignment(t: Seq<TokenData>, e: TokenData, u: Seq<TokenData>, p: int)
    requires
        no_eof(t),
        e.token@ is EOF,
        0 <= p <= t.len(),
    ensures
        sp_deref_assignment(ext(t, e, u), p) == sp_deref_assignment(t, p),
        ends_by(sp_deref_assignment(t, p), t.len() as int),
    decreases t.len() - p, 10int,
{
    lemma_same_at(t, e, u, p);
    let p1 = adv(t, p);
    lemma_expression(t, e, u, p1);
    match sp_expression(t, p1) {
        Ok((_, p2)) => {
            if p1 <= p2 <= t.len() {
                lemma_same_at(t, e, u, p2);
                lemma_expression(t, e, u, adv(t, p2));
            }
        },
        Err(_) => {},
    }
}

proof fn lemma_expression(t: Seq<TokenData>, e: TokenData, u: Seq<TokenData>, p: int)
    requires
        no_eof(t),
        e.token@ is EOF,
        0 <= p <= t.len(),
    ensures
        sp_expression(ext(t, e, u), p) == sp_expression(t, p),
        ends_by(sp_expression(t, p), t.len() as int),
    decreases t.len() - p, 5int,
{
    lemma_binary(t, e, u, p);
}

proof fn lemma_binary(t: Seq<TokenData>, e: TokenData, u: Seq<TokenData>, p: int)
    requires
        no_eof(t),
        e.token@ is EOF,
        0 <= p <= t.len(),
    ensures
        sp_binary(ext(t, e, u), p) == sp_binary(t, p),
        ends_by(sp_binary(t, p), t.len() as int),
    decreases t.len() - p, 4int,
{
    lemma_cast(t, e, u, p);
    match sp_cast(t, p) {
        Ok((left, p1)) => {
            if within(t, p, p1) {
                lemma_binary_rest(t, e, u, p1, left);
            }
        },
        Err(_) => {},
    }
}

proof fn lemma_binary_rest(t: Seq<TokenData>, e: TokenData, u: Seq<TokenData>, p: int, left: ExprView)
    requires
        no_eof(t),
        e.token@ is EOF,
        0 <= p <= t.len(),
    ensures
        sp_binary_rest(ext(t, e, u), p, left) == sp_binary_rest(t, p, left),
        ends_by(sp_binary_rest(t, p, left), t.len() as int),
    decreases t.len() - p, 2int,
{
    lemma_same_at(t, e, u, p);
    if !at_end(t, p) {
        match peek(t, p) {
            TokenView::Op(op) => {
                if !stops_expression(op) {
                    let p1 = adv(t, p);
                    lemma_cast(t, e, u, p1);
                    match sp_cast(t, p1) {
                        Ok((right, p2)) => {
                            if p1 <= p2 <= t.len() {
                                lemma_binary_rest(
                                    t,
                                    e,
                                    u,
                                    p2,
                                    ExprView::BinaryOp(Box::new(left), op, Box::new(right)),
                                );
                            }
                        },
                        Err(_) => {},
                    }
                }
            },
            _ => {},
        }
    }
}

proof fn lemma_cast(t: Seq<TokenData>, e: TokenData, u: Seq<TokenData>, p: int)
    requires
        no_eof(t),
        e.token@ is EOF,
        0 <= p <= t.len(),
    ensures
        sp_cast(ext(t, e, u), p) == sp_cast(t, p),
        ends_by(sp_cast(t, p), t.len() as int),
    decreases t.len() - p, 3int,
{
    lemma_primary(t, e, u, p);
    match sp_primary(t, p) {
        Ok((x, p1)) => lemma_cast_rest(t, e, u, p1, x),
        Err(_) => {},
    }
}

proof fn lemma_primary(t: Seq<TokenData>, e: TokenData, u: Seq<TokenData>, p: int)
    requires
        no_eof(t),
        e.token@ is EOF,
        0 <= p <= t.len(),
    ensures
        sp_primary(ext(t, e, u), p) == sp_primary(t, p),
        ends_by(sp_primary(t, p), t.len() as int),
    decreases t.len() - p, 1int,
{
    lemma_same_at(t, e, u, p);
    let p1 = adv(t, p);
    lemma_same_at(t, e, u, p1);
    match peek(t, p) {
        TokenView::Op(o) => {
            if o == op_text_amp() {
                lemma_same_at(t, e, u, adv(t, p1));
            } else if o == op_text_star() || o == op_text_at() {
                lemma_primary(t, e, u, p1);
            }
        },
        TokenView::Identifier(_) => {
            if peek(t, p1) is LParen {
                lemma_args(t, e, u, adv(t, p1));
                match sp_args(t, adv(t, p1)) {
                    Ok((_, p3)) => lemma_same_at(t, e, u, p3),
                    Err(_) => {},
                }
            }
        },
        TokenView::LParen => {
            lemma_expression(t, e, u, p1);
            match sp_expression(t, p1) {
                Ok((_, p2)) => lemma_same_at(t, e, u, p2),
                Err(_) => {},
            }
        },
        _ => {},
    }
}

proof fn lemma_program(t: Seq<TokenData>, e: TokenData, u: Seq<TokenData>, p: int)
    requires
        no_eof(t),
        e.token@ is EOF,
        0 <= p <= t.len(),
    ensures
        sp_program(ext(t, e, u), p) == sp_program(t, p),
    decreases t.len() - p,
{
    lemma_skip(t, e, u, p);
    let q = sp_skip_newlines(t, p);
    lemma_same_at(t, e, u, q);
    if within(t, p, q) && !at_end(t, q) && is_kw(t, q, Keyword::Six) {
        lemma_six(t, e, u, q);
        match sp_six(t, q) {
            Ok((_, r)) => {
                if q < r <= t.len() {
                    lemma_program(t, e, u, r);
                }
            },
            Err(_) => {},
        }
    }
}

/// Law: parsing stops at the first end-of-input token. Tokens `t` holding
/// none, followed by an end-of-input token and any tokens at all, parse
/// exactly as `t` alone does, with the same statements or the same error.
pub proof fn law_parse_stops_at_eof(t: Seq<TokenData>, e: TokenData, u: Seq<TokenData>)
    requires
        no_eof(t),
        e.token@ is EOF,
    ensures
        sp_parse(t + seq![e] + u, 0) == sp_parse(t, 0),
{
    lemma_program(t, e, u, 0);
}

} // verus!
