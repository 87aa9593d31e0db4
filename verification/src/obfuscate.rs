//! Renaming of program symbols to short generated codes (`s1`, `f2`, `p3`, `i4`).

use vstd::prelude::*;
use vstd::hash_map::StringHashMap;
use crate::ast::{
    Expr, ExprView, Stmt, StmtView, exprs_view, names_view, stmts_view,
};
use crate::compiler::Compiler;
use crate::parser::main_text;
use crate::text::{decimal, decimal_chars, digit_char, string_from_chars, string_is};

verus! {

/// The renaming so far and the number of codes handed out.
pub struct ObfState {
    pub map: Map<Seq<char>, Seq<char>>,
    pub counter: nat,
}

/// The code made of `prefix` and the number `n`.
pub open spec fn code_for(prefix: char, n: nat) -> Seq<char> {
    seq![prefix] + decimal(n)
}

/// The name given to `name`: its existing code, or a new one numbered after
/// all the codes handed out so far.
pub open spec fn fresh(st: ObfState, name: Seq<char>, prefix: char) -> (Seq<char>, ObfState) {
    if st.map.contains_key(name) {
        (st.map[name], st)
    } else {
        let c = st.counter + 1;
        let code = code_for(prefix, c);
        (code, ObfState { map: st.map.insert(name, code), counter: c })
    }
}

pub open spec fn renamed(m: Map<Seq<char>, Seq<char>>, name: Seq<char>) -> Seq<char> {
    if m.contains_key(name) {
        m[name]
    } else {
        name
    }
}

/// An expression with every renamed variable, address and callee replaced.
pub open spec fn obf_expr(e: ExprView, m: Map<Seq<char>, Seq<char>>) -> ExprView
    decreases e,
{
    match e {
        ExprView::Variable(v) => ExprView::Variable(renamed(m, v)),
        ExprView::Addr(v) => ExprView::Addr(renamed(m, v)),
        ExprView::Deref(inner) => ExprView::Deref(Box::new(obf_expr(*inner, m))),
        ExprView::Cast(inner, t) => ExprView::Cast(Box::new(obf_expr(*inner, m)), t),
        ExprView::BinaryOp(l, op, r) => ExprView::BinaryOp(
            Box::new(obf_expr(*l, m)),
            op,
            Box::new(obf_expr(*r, m)),
        ),
        ExprView::Call(name, args) => ExprView::Call(renamed(m, name), obf_exprs(args, m)),
        _ => e,
    }
}

pub open spec fn obf_exprs(args: Seq<ExprView>, m: Map<Seq<char>, Seq<char>>) -> Seq<ExprView>
    decreases args,
{
    if args.len() == 0 {
        seq![]
    } else {
        seq![obf_expr(args[0], m)] + obf_exprs(args.subrange(1, args.len() as int), m)
    }
}

/// The renaming after the declarations of the parameters `ps`: each gets a
/// `p` code unless it already has one.
pub open spec fn declare_params(ps: Seq<Seq<char>>, st: ObfState) -> ObfState
    decreases ps.len(),
{
    if ps.len() == 0 {
        st
    } else {
        declare_params(ps.subrange(1, ps.len() as int), fresh(st, ps[0], 'p').1)
    }
}

/// The renaming after the declarations in a statement, taken in order of
/// appearance: variables and assignment targets get `s` codes, functions
/// other than `main` `f` codes, parameters `p` codes, loop variables `i`
/// codes; a name that already has a code keeps it.
pub open spec fn declare_stmt(s: StmtView, st: ObfState) -> ObfState
    decreases s,
{
    match s {
        StmtView::Six(_, body) => declare_stmts(body, st),
        StmtView::VarDecl(name, _, _) => fresh(st, name, 's').1,
        StmtView::Assignment(name, _) => fresh(st, name, 's').1,
        StmtView::FnDecl(name, params, body) => {
            let st1 = if name == main_text() {
                st
            } else {
                fresh(st, name, 'f').1
            };
            declare_stmts(body, declare_params(params, st1))
        },
        StmtView::If(_, t, e) => {
            let st1 = declare_stmts(t, st);
            match e {
                Some(eb) => declare_stmts(eb, st1),
                None => st1,
            }
        },
        StmtView::For(var, _, _, body) => declare_stmts(body, fresh(st, var, 'i').1),
        StmtView::Try(body) => declare_stmts(body, st),
        _ => st,
    }
}

pub open spec fn declare_stmts(ss: Seq<StmtView>, st: ObfState) -> ObfState
    decreases ss,
{
    if ss.len() == 0 {
        st
    } else {
        declare_stmts(ss.subrange(1, ss.len() as int), declare_stmt(ss[0], st))
    }
}

pub open spec fn rename_params(ps: Seq<Seq<char>>, m: Map<Seq<char>, Seq<char>>) -> Seq<Seq<char>> {
    ps.map_values(|p: Seq<char>| renamed(m, p))
}

/// A statement with every name that has a code replaced by it: declared
/// names, and every use of a variable, address, callee or `get` target,
/// wherever it stands. `main` as a function's own name, block and directive
/// names, types and operators stay.
pub open spec fn rename_stmt(s: StmtView, m: Map<Seq<char>, Seq<char>>) -> StmtView
    decreases s,
{
    match s {
        StmtView::Six(n, body) => StmtView::Six(n, rename_stmts(body, m)),
        StmtView::VarDecl(name, t, e) => StmtView::VarDecl(renamed(m, name), t, obf_expr(e, m)),
        StmtView::Assignment(name, e) => StmtView::Assignment(renamed(m, name), obf_expr(e, m)),
        StmtView::DerefAssignment(a, e) => StmtView::DerefAssignment(obf_expr(a, m), obf_expr(e, m)),
        StmtView::FnDecl(name, params, body) => StmtView::FnDecl(
            if name == main_text() {
                name
            } else {
                renamed(m, name)
            },
            rename_params(params, m),
            rename_stmts(body, m),
        ),
        StmtView::If(c, t, e) => StmtView::If(
            obf_expr(c, m),
            rename_stmts(t, m),
            match e {
                Some(eb) => Some(rename_stmts(eb, m)),
                None => None,
            },
        ),
        StmtView::For(var, a, b, body) => StmtView::For(
            renamed(m, var),
            obf_expr(a, m),
            obf_expr(b, m),
            rename_stmts(body, m),
        ),
        StmtView::Return(e) => StmtView::Return(obf_expr(e, m)),
        StmtView::Put(e) => StmtView::Put(obf_expr(e, m)),
        StmtView::Expression(e) => StmtView::Expression(obf_expr(e, m)),
        StmtView::Try(body) => StmtView::Try(rename_stmts(body, m)),
        StmtView::Directive(n, args) => StmtView::Directive(n, obf_exprs(args, m)),
        StmtView::Get(n) => StmtView::Get(renamed(m, n)),
        _ => s,
    }
}

pub open spec fn rename_stmts(ss: Seq<StmtView>, m: Map<Seq<char>, Seq<char>>) -> Seq<StmtView>
    decreases ss,
{
    if ss.len() == 0 {
        seq![]
    } else {
        seq![rename_stmt(ss[0], m)] + rename_stmts(ss.subrange(1, ss.len() as int), m)
    }
}

/// The renaming a whole program gets.
pub open spec fn program_renaming(program: Seq<StmtView>) -> Map<Seq<char>, Seq<char>> {
    declare_stmts(program, initial_state()).map
}

/// The obfuscated program: codes are handed out over all declarations
/// first, then every name with a code is replaced throughout.
pub open spec fn obfuscated(program: Seq<StmtView>) -> Seq<StmtView> {
    rename_stmts(program, program_renaming(program))
}

pub open spec fn initial_state() -> ObfState {
    ObfState { map: Map::empty(), counter: 0 }
}

pub open spec fn state_of(map: StringHashMap<String>, counter: usize) -> ObfState {
    ObfState { map: map@.map_values(|v: String| v@), counter: counter as nat }
}

pub open spec fn tracks(map: StringHashMap<String>, counter: usize) -> bool {
    &&& map@.dom().finite()
    &&& map@.len() == counter
}

fn lookup(map: &StringHashMap<String>, name: &String) -> (r: String)
    ensures
        r@ == renamed(state_of(*map, 0).map, name@),
{
    match map.get(name.as_str()) {
        Some(v) => v.clone(),
        None => name.clone(),
    }
}

fn rename(map: &mut StringHashMap<String>, counter: &mut usize, name: &String, prefix: char) -> (r:
    String)
    requires
        tracks(*old(map), *old(counter)),
    ensures
        tracks(*final(map), *final(counter)),
        (r@, state_of(*final(map), *final(counter))) == fresh(
            state_of(*old(map), *old(counter)),
            name@,
            prefix,
        ),
{
    match map.get(name.as_str()) {
        Some(v) => {
            let r = v.clone();
            r
        },
        None => {
            let n: u128 = (*counter as u128) + 1;
            let mut chars = vec![prefix];
            let mut digits = decimal_chars(n);
            chars.append(&mut digits);
            let code = string_from_chars(chars.as_slice());
            let ghost old_map = map@;
            map.insert(name.clone(), code.clone());
            proof {
                assert(chars@ =~= code_for(prefix, n as nat));
                assert(map@.len() == old_map.len() + 1);
            }
            *counter = map.len();
            proof {
                assert(state_of(*map, *counter).map =~= state_of(*old(map), *old(counter)).map.insert(
                    name@,
                    code@,
                ));
            }
            code
        },
    }
}

/// Rewrites an expression under the renaming.
fn obfuscate_expr(expr: &Expr, map: &StringHashMap<String>) -> (e: Expr)
    ensures
        e@ == obf_expr(expr@, state_of(*map, 0).map),
    decreases expr,
{
    match expr {
        Expr::Variable(v) => Expr::Variable(lookup(map, v)),
        Expr::Addr(v) => Expr::Addr(lookup(map, v)),
        Expr::Deref(e) => Expr::Deref(Box::new(obfuscate_expr(e, map))),
        Expr::Cast(e, t) => Expr::Cast(Box::new(obfuscate_expr(e, map)), t.clone()),
        Expr::BinaryOp(l, op, r) => Expr::BinaryOp(
            Box::new(obfuscate_expr(l, map)),
            op.clone(),
            Box::new(obfuscate_expr(r, map)),
        ),
        Expr::Call(name, args) => {
            proof {
                assert(decreases_to!(*expr => *args));
            }
            Expr::Call(lookup(map, name), obfuscate_exprs(args, map))
        },
        Expr::Number(n) => Expr::Number(n.clone()),
        Expr::String(s) => Expr::String(s.clone()),
    }
}

/// Rewrites a list of expressions under the renaming.
fn obfuscate_exprs(args: &Vec<Expr>, map: &StringHashMap<String>) -> (out: Vec<Expr>)
    ensures
        exprs_view(out@) == obf_exprs(exprs_view(args@), state_of(*map, 0).map),
    decreases args,
{
    let ghost m = state_of(*map, 0).map;
    let ghost av = exprs_view(args@);
    proof {
        crate::ast::lemma_exprs_view_index(args@);
        lemma_obf_exprs_index(av, m);
    }
    let mut out: Vec<Expr> = Vec::new();
    let mut i: usize = 0;
    #[verifier::loop_isolation(false)]
    while i < args.len()
        invariant
            i <= args.len(),
            exprs_view(out@) == obf_exprs(av, m).take(i as int),
        decreases args.len() - i,
    {
        proof {
            assert(decreases_to!(*args => args@[i as int]));
        }
        let a = obfuscate_expr(&args[i], map);
        proof {
            crate::ast::lemma_exprs_view_push(out@, a);
            assert(obf_exprs(av, m).take(i + 1) =~= obf_exprs(av, m).take(i as int).push(a@));
        }
        out.push(a);
        i = i + 1;
    }
    proof {
        assert(obf_exprs(av, m).take(args.len() as int) =~= obf_exprs(av, m));
    }
    out
}

proof fn lemma_obf_exprs_index(args: Seq<ExprView>, m: Map<Seq<char>, Seq<char>>)
    ensures
        obf_exprs(args, m).len() == args.len(),
        forall|k: int| 0 <= k < args.len() ==> #[trigger] obf_exprs(args, m)[k] == obf_expr(args[k], m),
    decreases args.len(),
{
    if args.len() > 0 {
        let tail = args.subrange(1, args.len() as int);
        lemma_obf_exprs_index(tail, m);
        assert forall|k: int| 0 <= k < args.len() implies #[trigger] obf_exprs(args, m)[k]
            == obf_expr(args[k], m) by {
            if k > 0 {
                assert(tail[k - 1] == args[k]);
            }
        }
    }
}

} // verus!

verus! {

/// Hands out codes to the parameters `params`.
fn declare_param_names(params: &Vec<String>, map: &mut StringHashMap<String>, counter: &mut usize)
    requires
        tracks(*old(map), *old(counter)),
    ensures
        tracks(*final(map), *final(counter)),
        state_of(*final(map), *final(counter)) == declare_params(
            names_view(params@),
            state_of(*old(map), *old(counter)),
        ),
{
    let ghost pv = names_view(params@);
    let ghost st0 = state_of(*map, *counter);
    let mut i: usize = 0;
    proof {
        assert(pv.subrange(0, pv.len() as int) =~= pv);
    }
    while i < params.len()
        invariant
            i <= params.len(),
            pv == names_view(params@),
            tracks(*map, *counter),
            declare_params(pv, st0) == declare_params(
                pv.subrange(i as int, pv.len() as int),
                state_of(*map, *counter),
            ),
        decreases params.len() - i,
    {
        let ghost rest = pv.subrange(i as int, pv.len() as int);
        let _code = rename(map, counter, &params[i], 'p');
        proof {
            assert(rest[0] == params@[i as int]@);
            assert(rest.subrange(1, rest.len() as int) =~= pv.subrange(i + 1, pv.len() as int));
        }
        i = i + 1;
    }
    proof {
        assert(pv.subrange(params.len() as int, pv.len() as int) =~= Seq::<Seq<char>>::empty());
    }
}

/// Hands out codes to the declarations of `body`, in order.
fn declare_block(body: &Vec<Stmt>, map: &mut StringHashMap<String>, counter: &mut usize)
    requires
        tracks(*old(map), *old(counter)),
    ensures
        tracks(*final(map), *final(counter)),
        state_of(*final(map), *final(counter)) == declare_stmts(
            stmts_view(body@),
            state_of(*old(map), *old(counter)),
        ),
    decreases body, 0int,
{
    let ghost sv = stmts_view(body@);
    let ghost st0 = state_of(*map, *counter);
    proof {
        crate::ast::lemma_stmts_view_index(body@);
        assert(sv.subrange(0, sv.len() as int) =~= sv);
    }
    let mut i: usize = 0;
    while i < body.len()
        invariant
            i <= body.len(),
            sv == stmts_view(body@),
            sv.len() == body@.len(),
            forall|k: int| 0 <= k < body@.len() ==> #[trigger] sv[k] == body@[k]@,
            tracks(*map, *counter),
            declare_stmts(sv, st0) == declare_stmts(
                sv.subrange(i as int, sv.len() as int),
                state_of(*map, *counter),
            ),
        decreases body.len() - i,
    {
        let ghost rest = sv.subrange(i as int, sv.len() as int);
        declare_in_stmt(&body[i], map, counter);
        proof {
            assert(rest[0] == sv[i as int]);
            assert(rest.subrange(1, rest.len() as int) =~= sv.subrange(i + 1, sv.len() as int));
        }
        i = i + 1;
    }
    proof {
        assert(sv.subrange(body.len() as int, sv.len() as int) =~= Seq::<StmtView>::empty());
    }
}

/// Hands out codes to the declarations of a statement, in order.
fn declare_in_stmt(stmt: &Stmt, map: &mut StringHashMap<String>, counter: &mut usize)
    requires
        tracks(*old(map), *old(counter)),
    ensures
        tracks(*final(map), *final(counter)),
        state_of(*final(map), *final(counter)) == declare_stmt(
            stmt@,
            state_of(*old(map), *old(counter)),
        ),
    decreases stmt, 1int,
{
    match stmt {
        Stmt::Six(_, body) => declare_block(body, map, counter),
        Stmt::VarDecl(name, _, _) => {
            let _code = rename(map, counter, name, 's');
        },
        Stmt::Assignment(name, _) => {
            let _code = rename(map, counter, name, 's');
        },
        Stmt::FnDecl(name, params, body) => {
            let main = vec!['m', 'a', 'i', 'n'];
            proof {
                assert(main@ =~= main_text());
            }
            if !string_is(name, &main) {
                let _code = rename(map, counter, name, 'f');
            }
            declare_param_names(params, map, counter);
            declare_block(body, map, counter);
        },
        Stmt::If(_, t, e) => {
            declare_block(t, map, counter);
            match e {
                Some(eb) => declare_block(eb, map, counter),
                None => {},
            }
        },
        Stmt::For(var, _, _, body) => {
            let _code = rename(map, counter, var, 'i');
            declare_block(body, map, counter);
        },
        Stmt::Try(body) => declare_block(body, map, counter),
        _ => {},
    }
}

/// Replaces each parameter that has a code by its code.
fn rename_param_names(params: &Vec<String>, map: &StringHashMap<String>) -> (out: Vec<String>)
    ensures
        names_view(out@) == rename_params(names_view(params@), state_of(*map, 0).map),
{
    let ghost m = state_of(*map, 0).map;
    let ghost pv = names_view(params@);
    let mut out: Vec<String> = Vec::new();
    let mut i: usize = 0;
    while i < params.len()
        invariant
            i <= params.len(),
            pv == names_view(params@),
            pv.len() == params.len(),
            m == state_of(*map, 0).map,
            names_view(out@) == rename_params(pv, m).take(i as int),
        decreases params.len() - i,
    {
        let n = lookup(map, &params[i]);
        proof {
            assert(pv[i as int] == params@[i as int]@);
            assert(rename_params(pv, m)[i as int] == renamed(m, pv[i as int]));
            assert(names_view(out@.push(n)) =~= names_view(out@).push(n@));
            assert(rename_params(pv, m).take(i + 1) =~= rename_params(pv, m).take(i as int).push(
                renamed(m, pv[i as int]),
            ));
        }
        out.push(n);
        i = i + 1;
    }
    proof {
        assert(rename_params(pv, m).take(params.len() as int) =~= rename_params(pv, m));
    }
    out
}

proof fn lemma_rename_stmts_index(ss: Seq<StmtView>, m: Map<Seq<char>, Seq<char>>)
    ensures
        rename_stmts(ss, m).len() == ss.len(),
        forall|k: int| 0 <= k < ss.len() ==> #[trigger] rename_stmts(ss, m)[k] == rename_stmt(ss[k], m),
    decreases ss.len(),
{
    if ss.len() > 0 {
        let tail = ss.subrange(1, ss.len() as int);
        lemma_rename_stmts_index(tail, m);
        assert forall|k: int| 0 <= k < ss.len() implies #[trigger] rename_stmts(ss, m)[k]
            == rename_stmt(ss[k], m) by {
            if k > 0 {
                assert(tail[k - 1] == ss[k]);
            }
        }
    }
}

/// Replaces, throughout `body`, each name that has a code by its code.
fn rename_block(body: &Vec<Stmt>, map: &StringHashMap<String>) -> (out: Vec<Stmt>)
    ensures
        stmts_view(out@) == rename_stmts(stmts_view(body@), state_of(*map, 0).map),
    decreases body, 0int,
{
    let ghost m = state_of(*map, 0).map;
    let ghost sv = stmts_view(body@);
    proof {
        crate::ast::lemma_stmts_view_index(body@);
        lemma_rename_stmts_index(sv, m);
        assert(stmts_view(Seq::<Stmt>::empty()) =~= rename_stmts(sv, m).take(0));
    }
    let mut out: Vec<Stmt> = Vec::new();
    let mut i: usize = 0;
    while i < body.len()
        invariant
            i <= body.len(),
            sv == stmts_view(body@),
            sv.len() == body@.len(),
            forall|k: int| 0 <= k < body@.len() ==> #[trigger] sv[k] == body@[k]@,
            m == state_of(*map, 0).map,
            rename_stmts(sv, m).len() == sv.len(),
            forall|k: int| 0 <= k < sv.len() ==> #[trigger] rename_stmts(sv, m)[k] == rename_stmt(
                sv[k],
                m,
            ),
            stmts_view(out@) == rename_stmts(sv, m).take(i as int),
        decreases body.len() - i,
    {
        let s = rename_one(&body[i], map);
        proof {
            crate::ast::lemma_stmts_view_push(out@, s);
            assert(rename_stmts(sv, m).take(i + 1) =~= rename_stmts(sv, m).take(i as int).push(
                s@,
            ));
        }
        out.push(s);
        i = i + 1;
    }
    proof {
        assert(rename_stmts(sv, m).take(body.len() as int) =~= rename_stmts(sv, m));
    }
    out
}

/// Replaces, throughout a statement, each name that has a code by its code.
fn rename_one(stmt: &Stmt, map: &StringHashMap<String>) -> (out: Stmt)
    ensures
        out@ == rename_stmt(stmt@, state_of(*map, 0).map),
    decreases stmt, 1int,
{
    match stmt {
        Stmt::Six(n, body) => Stmt::Six(n.clone(), rename_block(body, map)),
        Stmt::VarDecl(name, t, e) => {
            let t2 = match t {
                Some(t) => Some(t.clone()),
                None => None,
            };
            Stmt::VarDecl(lookup(map, name), t2, obfuscate_expr(e, map))
        },
        Stmt::Assignment(name, e) => Stmt::Assignment(lookup(map, name), obfuscate_expr(e, map)),
        Stmt::DerefAssignment(a, e) => Stmt::DerefAssignment(
            obfuscate_expr(a, map),
            obfuscate_expr(e, map),
        ),
        Stmt::FnDecl(name, params, body) => {
            let main = vec!['m', 'a', 'i', 'n'];
            proof {
                assert(main@ =~= main_text());
            }
            let n = if string_is(name, &main) {
                name.clone()
            } else {
                lookup(map, name)
            };
            Stmt::FnDecl(n, rename_param_names(params, map), rename_block(body, map))
        },
        Stmt::If(c, t, e) => {
            let c2 = obfuscate_expr(c, map);
            let t2 = rename_block(t, map);
            match e {
                Some(eb) => Stmt::If(c2, t2, Some(rename_block(eb, map))),
                None => Stmt::If(c2, t2, None),
            }
        },
        Stmt::For(var, start, end, body) => Stmt::For(
            lookup(map, var),
            obfuscate_expr(start, map),
            obfuscate_expr(end, map),
            rename_block(body, map),
        ),
        Stmt::Return(e) => Stmt::Return(obfuscate_expr(e, map)),
        Stmt::Put(e) => Stmt::Put(obfuscate_expr(e, map)),
        Stmt::Expression(e) => Stmt::Expression(obfuscate_expr(e, map)),
        Stmt::Try(body) => Stmt::Try(rename_block(body, map)),
        Stmt::Directive(n, args) => Stmt::Directive(n.clone(), obfuscate_exprs(args, map)),
        Stmt::Get(n) => Stmt::Get(lookup(map, n)),
        Stmt::Use(s) => Stmt::Use(s.clone()),
        Stmt::Leak => Stmt::Leak,
        Stmt::Report => Stmt::Report,
    }
}

impl Compiler {
    /// Renames variables and assignment targets (`s<n>`), functions other
    /// than `main` (`f<n>`), parameters (`p<n>`) and loop variables (`i<n>`),
    /// numbering the codes in order of first declaration; then every use of a
    /// renamed name, anywhere in the program, is replaced by its code.
    pub fn obfuscate_symbols(statements: &mut Vec<Stmt>)
        ensures
            stmts_view(final(statements)@) == obfuscated(stmts_view(old(statements)@)),
    {
        let mut map: StringHashMap<String> = StringHashMap::new();
        let mut counter: usize = 0;
        proof {
            assert(state_of(map, counter).map =~= Map::<Seq<char>, Seq<char>>::empty());
        }
        declare_block(statements, &mut map, &mut counter);
        proof {
            assert(state_of(map, 0).map == state_of(map, counter).map);
        }
        let out = rename_block(statements, &map);
        *statements = out;
    }
}

} // verus!

verus! {

/// `v` is a code: one character followed by the decimal form of a number
/// between 1 and `n`.
pub open spec fn is_code_upto(v: Seq<char>, n: nat) -> bool {
    v.len() >= 1 && exists|c: nat| 1 <= c <= n && #[trigger] decimal(c) == v.drop_first()
}

/// Every name is renamed to a code numbered at most `counter`, and no two
/// names share a code.
pub open spec fn obf_wf(st: ObfState) -> bool {
    &&& forall|k: Seq<char>| #[trigger] st.map.contains_key(k) ==> is_code_upto(st.map[k], st.counter)
    &&& forall|k1: Seq<char>, k2: Seq<char>|
        #[trigger] st.map.contains_key(k1) && #[trigger] st.map.contains_key(k2) && k1 != k2
            ==> st.map[k1] != st.map[k2]
}

/// Handing out a name keeps the renaming injective; the name handed out is a
/// code, and an existing code is kept.
pub proof fn lemma_fresh_wf(st: ObfState, name: Seq<char>, prefix: char)
    requires
        obf_wf(st),
    ensures
        obf_wf(fresh(st, name, prefix).1),
        fresh(st, name, prefix).1.counter >= st.counter,
        fresh(st, name, prefix).1.map.contains_key(name),
        fresh(st, name, prefix).1.map[name] == fresh(st, name, prefix).0,
        is_code_upto(fresh(st, name, prefix).0, fresh(st, name, prefix).1.counter),
        forall|k: Seq<char>| #[trigger] st.map.contains_key(k) ==> fresh(st, name, prefix).1.map.contains_key(k)
            && fresh(st, name, prefix).1.map[k] == st.map[k],
{
    if !st.map.contains_key(name) {
        let c = st.counter + 1;
        let code = code_for(prefix, c);
        let st1 = fresh(st, name, prefix).1;
        assert(code.drop_first() =~= decimal(c));
        crate::text::lemma_decimal_len(c);
        assert(is_code_upto(code, c));
        assert forall|k: Seq<char>| #[trigger] st1.map.contains_key(k) implies is_code_upto(
            st1.map[k],
            st1.counter,
        ) by {
            if k != name {
                let v = st.map[k];
                assert(is_code_upto(v, st.counter));
                let w = choose|w: nat| 1 <= w <= st.counter && #[trigger] decimal(w) == v.drop_first();
                assert(decimal(w) == v.drop_first());
            }
        }
        assert forall|k1: Seq<char>, k2: Seq<char>|
            #[trigger] st1.map.contains_key(k1) && #[trigger] st1.map.contains_key(k2) && k1 != k2
                implies st1.map[k1] != st1.map[k2] by {
            if k1 == name || k2 == name {
                let other = if k1 == name {
                    k2
                } else {
                    k1
                };
                let v = st.map[other];
                assert(is_code_upto(v, st.counter));
                let w = choose|w: nat| 1 <= w <= st.counter && #[trigger] decimal(w) == v.drop_first();
                if v == code {
                    assert(v.drop_first() == code.drop_first());
                    crate::text::lemma_decimal_injective(w, c);
                }
            }
        }
    }
}

/// Whether a statement declares `n`: as a variable or assignment target, a
/// function other than `main`, a parameter or a loop variable, at any depth.
pub open spec fn declares_stmt(s: StmtView, n: Seq<char>) -> bool
    decreases s,
{
    match s {
        StmtView::Six(_, body) => declares_stmts(body, n),
        StmtView::VarDecl(name, _, _) => name == n,
        StmtView::Assignment(name, _) => name == n,
        StmtView::FnDecl(name, params, body) => (name != main_text() && name == n) || params.contains(
            n,
        ) || declares_stmts(body, n),
        StmtView::If(_, t, e) => declares_stmts(t, n) || (e matches Some(eb) && declares_stmts(
            eb,
            n,
        )),
        StmtView::For(var, _, _, body) => var == n || declares_stmts(body, n),
        StmtView::Try(body) => declares_stmts(body, n),
        _ => false,
    }
}

pub open spec fn declares_stmts(ss: Seq<StmtView>, n: Seq<char>) -> bool
    decreases ss,
{
    if ss.len() == 0 {
        false
    } else {
        declares_stmt(ss[0], n) || declares_stmts(ss.subrange(1, ss.len() as int), n)
    }
}

/// `st2` keeps every code of `st`.
pub open spec fn keeps_codes(st: ObfState, st2: ObfState) -> bool {
    forall|k: Seq<char>| #[trigger] st.map.contains_key(k) ==> st2.map.contains_key(k)
        && st2.map[k] == st.map[k]
}

pub proof fn lemma_declare_params_wf(ps: Seq<Seq<char>>, st: ObfState)
    requires
        obf_wf(st),
    ensures
        obf_wf(declare_params(ps, st)),
        declare_params(ps, st).counter >= st.counter,
        keeps_codes(st, declare_params(ps, st)),
        forall|n: Seq<char>| ps.contains(n) ==> declare_params(ps, st).map.contains_key(n),
    decreases ps.len(),
{
    if ps.len() > 0 {
        let rest = ps.subrange(1, ps.len() as int);
        let st1 = fresh(st, ps[0], 'p').1;
        lemma_fresh_wf(st, ps[0], 'p');
        lemma_declare_params_wf(rest, st1);
        assert forall|n: Seq<char>| ps.contains(n) implies declare_params(
            ps,
            st,
        ).map.contains_key(n) by {
            let i = choose|i: int| 0 <= i < ps.len() && ps[i] == n;
            if i > 0 {
                assert(rest[i - 1] == n);
                assert(rest.contains(n));
            } else {
                assert(st1.map.contains_key(n));
            }
        }
    }
}

/// Declaring a statement's names keeps the renaming injective and made of
/// codes, keeps every earlier code, and gives every name it declares a code.
pub proof fn lemma_declare_stmt_wf(s: StmtView, st: ObfState)
    requires
        obf_wf(st),
    ensures
        obf_wf(declare_stmt(s, st)),
        declare_stmt(s, st).counter >= st.counter,
        keeps_codes(st, declare_stmt(s, st)),
        forall|n: Seq<char>| declares_stmt(s, n) ==> declare_stmt(s, st).map.contains_key(n),
    decreases s,
{
    match s {
        StmtView::Six(_, body) => {
            lemma_declare_stmts_wf(body, st);
            assert forall|n: Seq<char>| declares_stmt(s, n) implies declare_stmt(
                s,
                st,
            ).map.contains_key(n) by {
                assert(declares_stmts(body, n));
            }
        },
        StmtView::VarDecl(name, _, _) => {
            lemma_fresh_wf(st, name, 's');
        },
        StmtView::Assignment(name, _) => {
            lemma_fresh_wf(st, name, 's');
        },
        StmtView::FnDecl(name, params, body) => {
            let st1 = if name == main_text() {
                st
            } else {
                lemma_fresh_wf(st, name, 'f');
                fresh(st, name, 'f').1
            };
            lemma_declare_params_wf(params, st1);
            let st2 = declare_params(params, st1);
            lemma_declare_stmts_wf(body, st2);
            assert forall|n: Seq<char>| declares_stmt(s, n) implies declare_stmt(
                s,
                st,
            ).map.contains_key(n) by {
                if name != main_text() && name == n {
                    assert(st1.map.contains_key(n));
                    assert(st2.map.contains_key(n));
                } else if params.contains(n) {
                    assert(st2.map.contains_key(n));
                } else {
                    assert(declares_stmts(body, n));
                }
            }
        },
        StmtView::If(_, t, e) => {
            lemma_declare_stmts_wf(t, st);
            let st1 = declare_stmts(t, st);
            match e {
                Some(eb) => {
                    lemma_declare_stmts_wf(eb, st1);
                    assert forall|n: Seq<char>| declares_stmt(s, n) implies declare_stmt(
                        s,
                        st,
                    ).map.contains_key(n) by {
                        if declares_stmts(t, n) {
                            assert(st1.map.contains_key(n));
                        } else {
                            assert(declares_stmts(eb, n));
                        }
                    }
                },
                None => {
                    assert forall|n: Seq<char>| declares_stmt(s, n) implies declare_stmt(
                        s,
                        st,
                    ).map.contains_key(n) by {
                        assert(declares_stmts(t, n));
                    }
                },
            }
        },
        StmtView::For(var, _, _, body) => {
            lemma_fresh_wf(st, var, 'i');
            let st1 = fresh(st, var, 'i').1;
            lemma_declare_stmts_wf(body, st1);
            assert forall|n: Seq<char>| declares_stmt(s, n) implies declare_stmt(
                s,
                st,
            ).map.contains_key(n) by {
                if var == n {
                    assert(st1.map.contains_key(n));
                } else {
                    assert(declares_stmts(body, n));
                }
            }
        },
        StmtView::Try(body) => {
            lemma_declare_stmts_wf(body, st);
            assert forall|n: Seq<char>| declares_stmt(s, n) implies declare_stmt(
                s,
                st,
            ).map.contains_key(n) by {
                assert(declares_stmts(body, n));
            }
        },
        _ => {},
    }
}

pub proof fn lemma_declare_stmts_wf(ss: Seq<StmtView>, st: ObfState)
    requires
        obf_wf(st),
    ensures
        obf_wf(declare_stmts(ss, st)),
        declare_stmts(ss, st).counter >= st.counter,
        keeps_codes(st, declare_stmts(ss, st)),
        forall|n: Seq<char>| declares_stmts(ss, n) ==> declare_stmts(ss, st).map.contains_key(n),
    decreases ss,
{
    if ss.len() > 0 {
        let rest = ss.subrange(1, ss.len() as int);
        let st1 = declare_stmt(ss[0], st);
        lemma_declare_stmt_wf(ss[0], st);
        lemma_declare_stmts_wf(rest, st1);
        assert forall|n: Seq<char>| declares_stmts(ss, n) implies declare_stmts(
            ss,
            st,
        ).map.contains_key(n) by {
            if declares_stmt(ss[0], n) {
                assert(st1.map.contains_key(n));
            } else {
                assert(declares_stmts(rest, n));
            }
        }
    }
}

/// The counter equals the number of names that have a code.
pub open spec fn counted(st: ObfState) -> bool {
    st.map.dom().finite() && st.map.len() == st.counter
}

/// The letters codes start with: `s` variables, `f` functions, `p`
/// parameters, `i` loop variables.
pub open spec fn prefix_letter(c: char) -> bool {
    c == 's' || c == 'f' || c == 'p' || c == 'i'
}

/// Every name that has a code in `st2` but not in `st` got a prefix letter
/// followed by a number above `st`'s counter and at most `st2`'s.
pub open spec fn new_codes_numbered(st: ObfState, st2: ObfState) -> bool {
    forall|k: Seq<char>| #[trigger] st2.map.contains_key(k) && !st.map.contains_key(k) ==> exists|
        pre: char,
        j: nat,
    |
        prefix_letter(pre) && st.counter < j <= st2.counter && st2.map[k] == #[trigger] code_for(
            pre,
            j,
        )
}

/// Law: giving `name` a code either keeps the renaming as it is, when the
/// name has one, or adds the code made of `prefix` and the counter plus one,
/// and counts it.
pub proof fn law_fresh_code(st: ObfState, name: Seq<char>, prefix: char)
    ensures
        st.map.contains_key(name) ==> fresh(st, name, prefix).1 == st,
        !st.map.contains_key(name) ==> fresh(st, name, prefix).1 == (ObfState {
            map: st.map.insert(name, code_for(prefix, st.counter + 1)),
            counter: st.counter + 1,
        }),
        counted(st) ==> counted(fresh(st, name, prefix).1),
{
}

proof fn lemma_fresh_numbered(st: ObfState, name: Seq<char>, prefix: char)
    requires
        prefix_letter(prefix),
    ensures
        new_codes_numbered(st, fresh(st, name, prefix).1),
{
    let st2 = fresh(st, name, prefix).1;
    assert forall|k: Seq<char>| #[trigger] st2.map.contains_key(k) && !st.map.contains_key(
        k,
    ) implies exists|pre: char, j: nat|
        prefix_letter(pre) && st.counter < j <= st2.counter && st2.map[k] == #[trigger] code_for(
            pre,
            j,
        ) by {
        assert(k == name);
        assert(st2.map[k] == code_for(prefix, st.counter + 1));
    }
}

proof fn lemma_numbered_trans(st: ObfState, st1: ObfState, st2: ObfState)
    requires
        keeps_codes(st1, st2),
        st.counter <= st1.counter <= st2.counter,
        new_codes_numbered(st, st1),
        new_codes_numbered(st1, st2),
    ensures
        new_codes_numbered(st, st2),
{
    assert forall|k: Seq<char>| #[trigger] st2.map.contains_key(k) && !st.map.contains_key(
        k,
    ) implies exists|pre: char, j: nat|
        prefix_letter(pre) && st.counter < j <= st2.counter && st2.map[k] == #[trigger] code_for(
            pre,
            j,
        ) by {
        if st1.map.contains_key(k) {
            let (pre, j) = choose|pre: char, j: nat|
                prefix_letter(pre) && st.counter < j <= st1.counter && st1.map[k]
                    == #[trigger] code_for(pre, j);
            assert(st2.map[k] == code_for(pre, j));
        } else {
            let (pre, j) = choose|pre: char, j: nat|
                prefix_letter(pre) && st1.counter < j <= st2.counter && st2.map[k]
                    == #[trigger] code_for(pre, j);
            assert(st2.map[k] == code_for(pre, j));
        }
    }
}

proof fn lemma_declare_params_counts(ps: Seq<Seq<char>>, st: ObfState)
    requires
        obf_wf(st),
        counted(st),
    ensures
        counted(declare_params(ps, st)),
        new_codes_numbered(st, declare_params(ps, st)),
    decreases ps.len(),
{
    if ps.len() > 0 {
        let rest = ps.subrange(1, ps.len() as int);
        let st1 = fresh(st, ps[0], 'p').1;
        lemma_fresh_wf(st, ps[0], 'p');
        law_fresh_code(st, ps[0], 'p');
        lemma_fresh_numbered(st, ps[0], 'p');
        lemma_declare_params_counts(rest, st1);
        lemma_declare_params_wf(rest, st1);
        lemma_numbered_trans(st, st1, declare_params(rest, st1));
    }
}

proof fn lemma_declare_stmt_counts(s: StmtView, st: ObfState)
    requires
        obf_wf(st),
        counted(st),
    ensures
        counted(declare_stmt(s, st)),
        new_codes_numbered(st, declare_stmt(s, st)),
    decreases s,
{
    match s {
        StmtView::Six(_, body) => {
            lemma_declare_stmts_counts(body, st);
        },
        StmtView::VarDecl(name, _, _) => {
            law_fresh_code(st, name, 's');
            lemma_fresh_numbered(st, name, 's');
        },
        StmtView::Assignment(name, _) => {
            law_fresh_code(st, name, 's');
            lemma_fresh_numbered(st, name, 's');
        },
        StmtView::FnDecl(name, params, body) => {
            let st1 = if name == main_text() {
                st
            } else {
                fresh(st, name, 'f').1
            };
            if name != main_text() {
                lemma_fresh_wf(st, name, 'f');
                law_fresh_code(st, name, 'f');
                lemma_fresh_numbered(st, name, 'f');
            }
            let st2 = declare_params(params, st1);
            lemma_declare_params_wf(params, st1);
            lemma_declare_params_counts(params, st1);
            lemma_declare_stmts_wf(body, st2);
            lemma_declare_stmts_counts(body, st2);
            lemma_numbered_trans(st, st1, st2);
            lemma_numbered_trans(st, st2, declare_stmts(body, st2));
        },
        StmtView::If(_, t, e) => {
            let st1 = declare_stmts(t, st);
            lemma_declare_stmts_wf(t, st);
            lemma_declare_stmts_counts(t, st);
            match e {
                Some(eb) => {
                    lemma_declare_stmts_wf(eb, st1);
                    lemma_declare_stmts_counts(eb, st1);
                    lemma_numbered_trans(st, st1, declare_stmts(eb, st1));
                },
                None => {},
            }
        },
        StmtView::For(var, _, _, body) => {
            let st1 = fresh(st, var, 'i').1;
            lemma_fresh_wf(st, var, 'i');
            law_fresh_code(st, var, 'i');
            lemma_fresh_numbered(st, var, 'i');
            lemma_declare_stmts_wf(body, st1);
            lemma_declare_stmts_counts(body, st1);
            lemma_numbered_trans(st, st1, declare_stmts(body, st1));
        },
        StmtView::Try(body) => {
            lemma_declare_stmts_counts(body, st);
        },
        _ => {},
    }
}

proof fn lemma_declare_stmts_counts(ss: Seq<StmtView>, st: ObfState)
    requires
        obf_wf(st),
        counted(st),
    ensures
        counted(declare_stmts(ss, st)),
        new_codes_numbered(st, declare_stmts(ss, st)),
    decreases ss,
{
    if ss.len() > 0 {
        let rest = ss.subrange(1, ss.len() as int);
        let st1 = declare_stmt(ss[0], st);
        lemma_declare_stmt_wf(ss[0], st);
        lemma_declare_stmt_counts(ss[0], st);
        lemma_declare_stmts_wf(rest, st1);
        lemma_declare_stmts_counts(rest, st1);
        lemma_numbered_trans(st, st1, declare_stmts(rest, st1));
    }
}

/// Law: handing out codes over a statement keeps every earlier code and the
/// renaming injective, and counts exactly: the counter grows by the number
/// of names that got a new code, and each new code is a prefix letter
/// followed by a number above the old counter and at most the new one.
pub proof fn law_declarations_counted(s: StmtView, st: ObfState)
    requires
        obf_wf(st),
        counted(st),
    ensures
        obf_wf(declare_stmt(s, st)),
        keeps_codes(st, declare_stmt(s, st)),
        counted(declare_stmt(s, st)),
        declare_stmt(s, st).counter - st.counter == declare_stmt(s, st).map.len() - st.map.len(),
        new_codes_numbered(st, declare_stmt(s, st)),
{
    lemma_declare_stmt_wf(s, st);
    lemma_declare_stmt_counts(s, st);
}

/// Every code of `st` is in the renaming `m`.
pub open spec fn codes_in(st: ObfState, m: Map<Seq<char>, Seq<char>>) -> bool {
    forall|k: Seq<char>| #[trigger] st.map.contains_key(k) ==> m.contains_key(k) && m[k]
        == st.map[k]
}

proof fn lemma_keeps_trans(a: ObfState, b: ObfState, m: Map<Seq<char>, Seq<char>>)
    requires
        keeps_codes(a, b),
        codes_in(b, m),
    ensures
        codes_in(a, m),
{
    assert forall|k: Seq<char>| #[trigger] a.map.contains_key(k) implies m.contains_key(k)
        && m[k] == a.map[k] by {
        assert(b.map.contains_key(k));
    }
}

proof fn lemma_decimal_last(n: nat)
    ensures
        decimal(n).len() >= 1,
        decimal(n).last() == digit_char(n % 10),
    decreases n,
{
    crate::text::lemma_decimal_len(n);
}

/// No code is `main`: a code ends in a digit.
proof fn lemma_code_not_main(v: Seq<char>, n: nat)
    requires
        is_code_upto(v, n),
    ensures
        v != main_text(),
{
    let c = choose|c: nat| 1 <= c <= n && #[trigger] decimal(c) == v.drop_first();
    lemma_decimal_last(c);
    if v == main_text() {
        assert(v.drop_first() =~= seq!['a', 'i', 'n']);
        assert(decimal(c).last() == 'n');
    }
}

/// `st2` is what handing out codes over the renamed program gives when
/// `st1` is what it gives over the program: the same count, and every code
/// of `st1` named by itself.
pub open spec fn replays(st1: ObfState, st2: ObfState) -> bool {
    &&& st2.counter == st1.counter
    &&& forall|k: Seq<char>| #[trigger] st1.map.contains_key(k) ==> st2.map.contains_key(st1.map[k])
        && st2.map[st1.map[k]] == st1.map[k]
    &&& forall|c: Seq<char>| #[trigger] st2.map.contains_key(c) ==> st2.map[c] == c && exists|
        k: Seq<char>,
    | st1.map.contains_key(k) && #[trigger] st1.map[k] == c
}

proof fn lemma_replay_fresh(
    st1: ObfState,
    st2: ObfState,
    name: Seq<char>,
    pre: char,
    m: Map<Seq<char>, Seq<char>>,
)
    requires
        obf_wf(st1),
        replays(st1, st2),
        codes_in(fresh(st1, name, pre).1, m),
    ensures
        replays(fresh(st1, name, pre).1, fresh(st2, renamed(m, name), pre).1),
        renamed(m, name) == fresh(st1, name, pre).1.map[name],
{
    lemma_fresh_wf(st1, name, pre);
    let f1 = fresh(st1, name, pre).1;
    assert(f1.map.contains_key(name));
    assert(m.contains_key(name));
    if st1.map.contains_key(name) {
        assert(f1 == st1);
    } else {
        let c = st1.counter + 1;
        let code = code_for(pre, c);
        assert(m[name] == code);
        assert(code.drop_first() =~= decimal(c));
        if st2.map.contains_key(code) {
            let k = choose|k: Seq<char>| st1.map.contains_key(k) && #[trigger] st1.map[k] == code;
            assert(is_code_upto(st1.map[k], st1.counter));
            let v = st1.map[k];
            let w = choose|w: nat| 1 <= w <= st1.counter && #[trigger] decimal(w) == v.drop_first();
            crate::text::lemma_decimal_injective(w, c);
        }
        let f2 = fresh(st2, code, pre).1;
        assert(f2.map == st2.map.insert(code, code));
        assert forall|k: Seq<char>| #[trigger] f1.map.contains_key(k) implies f2.map.contains_key(
            f1.map[k],
        ) && f2.map[f1.map[k]] == f1.map[k] by {
            if k != name {
                assert(st1.map.contains_key(k));
                assert(st2.map.contains_key(st1.map[k]));
                assert(st1.map[k] != code);
            }
        }
        assert forall|x: Seq<char>| #[trigger] f2.map.contains_key(x) implies f2.map[x] == x
            && exists|k: Seq<char>| f1.map.contains_key(k) && #[trigger] f1.map[k] == x by {
            if x == code {
                assert(f1.map[name] == x);
            } else {
                assert(st2.map.contains_key(x));
                let k = choose|k: Seq<char>| st1.map.contains_key(k) && #[trigger] st1.map[k] == x;
                assert(k != name);
                assert(f1.map[k] == x);
            }
        }
    }
}

proof fn lemma_replay_params(
    ps: Seq<Seq<char>>,
    st1: ObfState,
    st2: ObfState,
    m: Map<Seq<char>, Seq<char>>,
)
    requires
        obf_wf(st1),
        replays(st1, st2),
        codes_in(declare_params(ps, st1), m),
    ensures
        replays(declare_params(ps, st1), declare_params(rename_params(ps, m), st2)),
    decreases ps.len(),
{
    if ps.len() > 0 {
        let rest = ps.subrange(1, ps.len() as int);
        let f1 = fresh(st1, ps[0], 'p').1;
        lemma_fresh_wf(st1, ps[0], 'p');
        lemma_declare_params_wf(rest, f1);
        lemma_keeps_trans(f1, declare_params(rest, f1), m);
        lemma_replay_fresh(st1, st2, ps[0], 'p', m);
        let f2 = fresh(st2, renamed(m, ps[0]), 'p').1;
        lemma_replay_params(rest, f1, f2, m);
        let rp = rename_params(ps, m);
        assert(rp[0] == renamed(m, ps[0]));
        assert(rp.subrange(1, rp.len() as int) =~= rename_params(rest, m));
    }
}

proof fn lemma_replay_stmt(s: StmtView, st1: ObfState, st2: ObfState, m: Map<Seq<char>, Seq<char>>)
    requires
        obf_wf(st1),
        replays(st1, st2),
        codes_in(declare_stmt(s, st1), m),
    ensures
        replays(declare_stmt(s, st1), declare_stmt(rename_stmt(s, m), st2)),
    decreases s,
{
    match s {
        StmtView::Six(_, body) => {
            lemma_replay_stmts(body, st1, st2, m);
        },
        StmtView::VarDecl(name, _, _) => {
            lemma_replay_fresh(st1, st2, name, 's', m);
        },
        StmtView::Assignment(name, _) => {
            lemma_replay_fresh(st1, st2, name, 's', m);
        },
        StmtView::FnDecl(name, params, body) => {
            let f1 = if name == main_text() {
                st1
            } else {
                fresh(st1, name, 'f').1
            };
            if name != main_text() {
                lemma_fresh_wf(st1, name, 'f');
            }
            let p1 = declare_params(params, f1);
            lemma_declare_params_wf(params, f1);
            lemma_declare_stmts_wf(body, p1);
            lemma_keeps_trans(p1, declare_stmts(body, p1), m);
            lemma_keeps_trans(f1, p1, m);
            let f2 = if name == main_text() {
                st2
            } else {
                lemma_fresh_wf(st1, name, 'f');
                lemma_replay_fresh(st1, st2, name, 'f', m);
                lemma_code_not_main(f1.map[name], f1.counter);
                fresh(st2, renamed(m, name), 'f').1
            };
            lemma_replay_params(params, f1, f2, m);
            let p2 = declare_params(rename_params(params, m), f2);
            lemma_replay_stmts(body, p1, p2, m);
        },
        StmtView::If(_, t, e) => {
            let t1 = declare_stmts(t, st1);
            lemma_declare_stmts_wf(t, st1);
            match e {
                Some(eb) => {
                    lemma_declare_stmts_wf(eb, t1);
                    lemma_keeps_trans(t1, declare_stmts(eb, t1), m);
                    lemma_replay_stmts(t, st1, st2, m);
                    lemma_replay_stmts(eb, t1, declare_stmts(rename_stmts(t, m), st2), m);
                },
                None => {
                    lemma_replay_stmts(t, st1, st2, m);
                },
            }
        },
        StmtView::For(var, _, _, body) => {
            let f1 = fresh(st1, var, 'i').1;
            lemma_fresh_wf(st1, var, 'i');
            lemma_declare_stmts_wf(body, f1);
            lemma_keeps_trans(f1, declare_stmts(body, f1), m);
            lemma_replay_fresh(st1, st2, var, 'i', m);
            lemma_replay_stmts(body, f1, fresh(st2, renamed(m, var), 'i').1, m);
        },
        StmtView::Try(body) => {
            lemma_replay_stmts(body, st1, st2, m);
        },
        _ => {},
    }
}

proof fn lemma_replay_stmts(
    ss: Seq<StmtView>,
    st1: ObfState,
    st2: ObfState,
    m: Map<Seq<char>, Seq<char>>,
)
    requires
        obf_wf(st1),
        replays(st1, st2),
        codes_in(declare_stmts(ss, st1), m),
    ensures
        replays(declare_stmts(ss, st1), declare_stmts(rename_stmts(ss, m), st2)),
    decreases ss,
{
    if ss.len() > 0 {
        let rest = ss.subrange(1, ss.len() as int);
        let a1 = declare_stmt(ss[0], st1);
        lemma_declare_stmt_wf(ss[0], st1);
        lemma_declare_stmts_wf(rest, a1);
        lemma_keeps_trans(a1, declare_stmts(rest, a1), m);
        lemma_replay_stmt(ss[0], st1, st2, m);
        let a2 = declare_stmt(rename_stmt(ss[0], m), st2);
        lemma_replay_stmts(rest, a1, a2, m);
        let r = rename_stmts(ss, m);
        assert(r[0] == rename_stmt(ss[0], m));
        assert(r.subrange(1, r.len() as int) =~= rename_stmts(rest, m));
    }
}

/// A renaming that names every name it holds by itself.
pub open spec fn identity_on_keys(m: Map<Seq<char>, Seq<char>>) -> bool {
    forall|c: Seq<char>| #[trigger] m.contains_key(c) ==> m[c] == c
}

proof fn lemma_expr_id(e: ExprView, m: Map<Seq<char>, Seq<char>>)
    requires
        identity_on_keys(m),
    ensures
        obf_expr(e, m) == e,
    decreases e,
{
    match e {
        ExprView::Deref(inner) => {
            lemma_expr_id(*inner, m);
        },
        ExprView::Cast(inner, _) => {
            lemma_expr_id(*inner, m);
        },
        ExprView::BinaryOp(l, _, r) => {
            lemma_expr_id(*l, m);
            lemma_expr_id(*r, m);
        },
        ExprView::Call(_, args) => {
            lemma_exprs_id(args, m);
        },
        _ => {},
    }
}

proof fn lemma_exprs_id(args: Seq<ExprView>, m: Map<Seq<char>, Seq<char>>)
    requires
        identity_on_keys(m),
    ensures
        obf_exprs(args, m) == args,
    decreases args,
{
    if args.len() > 0 {
        let rest = args.subrange(1, args.len() as int);
        lemma_expr_id(args[0], m);
        lemma_exprs_id(rest, m);
        assert(seq![args[0]] + rest =~= args);
    } else {
        assert(args =~= seq![]);
    }
}

proof fn lemma_rename_stmt_id(s: StmtView, m: Map<Seq<char>, Seq<char>>)
    requires
        identity_on_keys(m),
    ensures
        rename_stmt(s, m) == s,
    decreases s,
{
    match s {
        StmtView::Six(_, body) => {
            lemma_rename_stmts_id(body, m);
        },
        StmtView::VarDecl(_, _, e) => {
            lemma_expr_id(e, m);
        },
        StmtView::Assignment(_, e) => {
            lemma_expr_id(e, m);
        },
        StmtView::DerefAssignment(a, e) => {
            lemma_expr_id(a, m);
            lemma_expr_id(e, m);
        },
        StmtView::FnDecl(_, params, body) => {
            lemma_rename_stmts_id(body, m);
            assert(rename_params(params, m) =~= params);
        },
        StmtView::If(c, t, e) => {
            lemma_expr_id(c, m);
            lemma_rename_stmts_id(t, m);
            match e {
                Some(eb) => {
                    lemma_rename_stmts_id(eb, m);
                },
                None => {},
            }
        },
        StmtView::For(_, a, b, body) => {
            lemma_expr_id(a, m);
            lemma_expr_id(b, m);
            lemma_rename_stmts_id(body, m);
        },
        StmtView::Return(e) => {
            lemma_expr_id(e, m);
        },
        StmtView::Put(e) => {
            lemma_expr_id(e, m);
        },
        StmtView::Expression(e) => {
            lemma_expr_id(e, m);
        },
        StmtView::Try(body) => {
            lemma_rename_stmts_id(body, m);
        },
        StmtView::Directive(_, args) => {
            lemma_exprs_id(args, m);
        },
        _ => {},
    }
}

proof fn lemma_rename_stmts_id(ss: Seq<StmtView>, m: Map<Seq<char>, Seq<char>>)
    requires
        identity_on_keys(m),
    ensures
        rename_stmts(ss, m) == ss,
    decreases ss,
{
    if ss.len() > 0 {
        let rest = ss.subrange(1, ss.len() as int);
        lemma_rename_stmt_id(ss[0], m);
        lemma_rename_stmts_id(rest, m);
        assert(seq![ss[0]] + rest =~= ss);
    } else {
        assert(ss =~= seq![]);
    }
}

/// Law: obfuscating an obfuscated program changes nothing: the codes are
/// handed out again in the same order, so every code is named by itself.
pub proof fn law_obfuscation_idempotent(program: Seq<StmtView>)
    ensures
        obfuscated(obfuscated(program)) == obfuscated(program),
{
    let m = program_renaming(program);
    let p1 = obfuscated(program);
    lemma_replay_stmts(program, initial_state(), initial_state(), m);
    let st2 = declare_stmts(p1, initial_state());
    assert(identity_on_keys(st2.map));
    lemma_rename_stmts_id(p1, st2.map);
}

/// Law: obfuscating a program renames injectively — no two different names
/// get the same code — and every code is a prefix letter followed by a
/// number no larger than the count of codes handed out.
pub proof fn law_obfuscation_injective(program: Seq<StmtView>)
    ensures
        obf_wf(declare_stmts(program, initial_state())),
{
    lemma_declare_stmts_wf(program, initial_state());
}

/// Law: every name the program declares gets a code, and every occurrence of
/// it, declaration or use (as a variable, an address, a callee or a `get`
/// target), anywhere in the program, is replaced by that same code.
pub proof fn law_uses_follow_declarations(program: Seq<StmtView>, n: Seq<char>)
    requires
        declares_stmts(program, n),
    ensures
        program_renaming(program).contains_key(n),
        ({
            let m = program_renaming(program);
            &&& renamed(m, n) == m[n]
            &&& obf_expr(ExprView::Variable(n), m) == ExprView::Variable(m[n])
            &&& obf_expr(ExprView::Addr(n), m) == ExprView::Addr(m[n])
            &&& forall|args: Seq<ExprView>| #[trigger] obf_expr(ExprView::Call(n, args), m)
                == ExprView::Call(m[n], obf_exprs(args, m))
            &&& rename_stmt(StmtView::Get(n), m) == StmtView::Get(m[n])
        }),
{
    lemma_declare_stmts_wf(program, initial_state());
}

/// Law: the entry point keeps its name; a function named `main` is never renamed.
pub proof fn law_main_kept(params: Seq<Seq<char>>, body: Seq<StmtView>, m: Map<Seq<char>, Seq<char>>)
    ensures
        rename_stmt(StmtView::FnDecl(main_text(), params, body), m) matches StmtView::FnDecl(
            name,
            _,
            _,
        ) && name == main_text(),
{
}

} // verus!

verus! {

/// An expression with the names that renaming may change blanked out.
pub open spec fn expr_shape(e: ExprView) -> ExprView
    decreases e,
{
    match e {
        ExprView::Variable(_) => ExprView::Variable(seq![]),
        ExprView::Addr(_) => ExprView::Addr(seq![]),
        ExprView::Deref(inner) => ExprView::Deref(Box::new(expr_shape(*inner))),
        ExprView::Cast(inner, t) => ExprView::Cast(Box::new(expr_shape(*inner)), t),
        ExprView::BinaryOp(l, op, r) => ExprView::BinaryOp(
            Box::new(expr_shape(*l)),
            op,
            Box::new(expr_shape(*r)),
        ),
        ExprView::Call(_, args) => ExprView::Call(seq![], exprs_shape(args)),
        _ => e,
    }
}

pub open spec fn exprs_shape(args: Seq<ExprView>) -> Seq<ExprView>
    decreases args,
{
    if args.len() == 0 {
        seq![]
    } else {
        seq![expr_shape(args[0])] + exprs_shape(args.subrange(1, args.len() as int))
    }
}

/// As many blank names as `names` has.
pub open spec fn blank_names(names: Seq<Seq<char>>) -> Seq<Seq<char>> {
    Seq::new(names.len(), |i: int| Seq::<char>::empty())
}

/// A statement with the names that renaming may change blanked out.
pub open spec fn stmt_shape(s: StmtView) -> StmtView
    decreases s,
{
    match s {
        StmtView::Six(n, body) => StmtView::Six(n, stmts_shape(body)),
        StmtView::VarDecl(_, t, e) => StmtView::VarDecl(seq![], t, expr_shape(e)),
        StmtView::Assignment(_, e) => StmtView::Assignment(seq![], expr_shape(e)),
        StmtView::FnDecl(_, ps, body) => StmtView::FnDecl(
            seq![],
            blank_names(ps),
            stmts_shape(body),
        ),
        StmtView::If(c, t, e) => StmtView::If(
            expr_shape(c),
            stmts_shape(t),
            match e {
                Some(eb) => Some(stmts_shape(eb)),
                None => None,
            },
        ),
        StmtView::For(_, a, b, body) => StmtView::For(
            seq![],
            expr_shape(a),
            expr_shape(b),
            stmts_shape(body),
        ),
        StmtView::Return(e) => StmtView::Return(expr_shape(e)),
        StmtView::Put(e) => StmtView::Put(expr_shape(e)),
        StmtView::Expression(e) => StmtView::Expression(expr_shape(e)),
        StmtView::Try(body) => StmtView::Try(stmts_shape(body)),
        StmtView::DerefAssignment(a, e) => StmtView::DerefAssignment(expr_shape(a), expr_shape(e)),
        StmtView::Directive(n, args) => StmtView::Directive(n, exprs_shape(args)),
        StmtView::Get(_) => StmtView::Get(seq![]),
        _ => s,
    }
}

pub open spec fn stmts_shape(ss: Seq<StmtView>) -> Seq<StmtView>
    decreases ss,
{
    if ss.len() == 0 {
        seq![]
    } else {
        seq![stmt_shape(ss[0])] + stmts_shape(ss.subrange(1, ss.len() as int))
    }
}

proof fn lemma_obf_expr_shape(e: ExprView, m: Map<Seq<char>, Seq<char>>)
    ensures
        expr_shape(obf_expr(e, m)) == expr_shape(e),
    decreases e,
{
    match e {
        ExprView::Deref(inner) => {
            lemma_obf_expr_shape(*inner, m);
        },
        ExprView::Cast(inner, _) => {
            lemma_obf_expr_shape(*inner, m);
        },
        ExprView::BinaryOp(l, _, r) => {
            lemma_obf_expr_shape(*l, m);
            lemma_obf_expr_shape(*r, m);
        },
        ExprView::Call(_, args) => {
            lemma_obf_exprs_shape(args, m);
        },
        _ => {},
    }
}

proof fn lemma_obf_exprs_shape(args: Seq<ExprView>, m: Map<Seq<char>, Seq<char>>)
    ensures
        exprs_shape(obf_exprs(args, m)) == exprs_shape(args),
    decreases args,
{
    if args.len() > 0 {
        let rest = args.subrange(1, args.len() as int);
        lemma_obf_expr_shape(args[0], m);
        lemma_obf_exprs_shape(rest, m);
        let o = obf_exprs(args, m);
        assert(o[0] == obf_expr(args[0], m));
        assert(o.subrange(1, o.len() as int) =~= obf_exprs(rest, m));
    }
}

proof fn lemma_rename_stmt_shape(s: StmtView, m: Map<Seq<char>, Seq<char>>)
    ensures
        stmt_shape(rename_stmt(s, m)) == stmt_shape(s),
    decreases s,
{
    match s {
        StmtView::Six(_, body) => {
            lemma_rename_stmts_shape(body, m);
        },
        StmtView::VarDecl(_, _, e) => {
            lemma_obf_expr_shape(e, m);
        },
        StmtView::Assignment(_, e) => {
            lemma_obf_expr_shape(e, m);
        },
        StmtView::DerefAssignment(a, e) => {
            lemma_obf_expr_shape(a, m);
            lemma_obf_expr_shape(e, m);
        },
        StmtView::FnDecl(_, params, body) => {
            lemma_rename_stmts_shape(body, m);
            assert(blank_names(rename_params(params, m)) =~= blank_names(params));
        },
        StmtView::If(c, t, e) => {
            lemma_obf_expr_shape(c, m);
            lemma_rename_stmts_shape(t, m);
            match e {
                Some(eb) => {
                    lemma_rename_stmts_shape(eb, m);
                },
                None => {},
            }
        },
        StmtView::For(_, a, b, body) => {
            lemma_obf_expr_shape(a, m);
            lemma_obf_expr_shape(b, m);
            lemma_rename_stmts_shape(body, m);
        },
        StmtView::Return(e) => {
            lemma_obf_expr_shape(e, m);
        },
        StmtView::Put(e) => {
            lemma_obf_expr_shape(e, m);
        },
        StmtView::Expression(e) => {
            lemma_obf_expr_shape(e, m);
        },
        StmtView::Try(body) => {
            lemma_rename_stmts_shape(body, m);
        },
        StmtView::Directive(_, args) => {
            lemma_obf_exprs_shape(args, m);
        },
        _ => {},
    }
}

proof fn lemma_rename_stmts_shape(ss: Seq<StmtView>, m: Map<Seq<char>, Seq<char>>)
    ensures
        stmts_shape(rename_stmts(ss, m)) == stmts_shape(ss),
    decreases ss,
{
    if ss.len() > 0 {
        let rest = ss.subrange(1, ss.len() as int);
        lemma_rename_stmt_shape(ss[0], m);
        lemma_rename_stmts_shape(rest, m);
        let o = rename_stmts(ss, m);
        assert(o[0] == rename_stmt(ss[0], m));
        assert(o.subrange(1, o.len() as int) =~= rename_stmts(rest, m));
    }
}

/// Law: obfuscation changes names only. With the names it may rename
/// blanked out, a program and its obfuscated form are the same.
pub proof fn law_obfuscation_renames_only(program: Seq<StmtView>)
    ensures
        stmts_shape(obfuscated(program)) == stmts_shape(program),
{
    lemma_rename_stmts_shape(program, program_renaming(program));
}

} // verus!


verus! {

/// The names an expression uses, in order: variables, addresses and callees.
pub open spec fn expr_names(e: ExprView) -> Seq<Seq<char>>
    decreases e,
{
    match e {
        ExprView::Variable(v) => seq![v],
        ExprView::Addr(v) => seq![v],
        ExprView::Deref(inner) => expr_names(*inner),
        ExprView::Cast(inner, _) => expr_names(*inner),
        ExprView::BinaryOp(l, _, r) => expr_names(*l) + expr_names(*r),
        ExprView::Call(n, args) => seq![n] + exprs_names(args),
        _ => seq![],
    }
}

pub open spec fn exprs_names(args: Seq<ExprView>) -> Seq<Seq<char>>
    decreases args,
{
    if args.len() == 0 {
        seq![]
    } else {
        expr_names(args[0]) + exprs_names(args.subrange(1, args.len() as int))
    }
}

/// The names a statement declares or uses, in order: declared variables,
/// functions (other than `main`), parameters and loop variables, the names
/// its expressions use, and `get` targets.
pub open spec fn stmt_names(s: StmtView) -> Seq<Seq<char>>
    decreases s,
{
    match s {
        StmtView::Six(_, body) => stmts_names(body),
        StmtView::VarDecl(n, _, e) => seq![n] + expr_names(e),
        StmtView::Assignment(n, e) => seq![n] + expr_names(e),
        StmtView::DerefAssignment(a, e) => expr_names(a) + expr_names(e),
        StmtView::FnDecl(n, ps, body) => (if n == main_text() {
            seq![]
        } else {
            seq![n]
        }) + ps + stmts_names(body),
        StmtView::If(c, t, e) => expr_names(c) + stmts_names(t) + match e {
            Some(eb) => stmts_names(eb),
            None => seq![],
        },
        StmtView::For(v, a, b, body) => seq![v] + expr_names(a) + expr_names(b) + stmts_names(body),
        StmtView::Return(e) => expr_names(e),
        StmtView::Put(e) => expr_names(e),
        StmtView::Expression(e) => expr_names(e),
        StmtView::Try(body) => stmts_names(body),
        StmtView::Directive(_, args) => exprs_names(args),
        StmtView::Get(n) => seq![n],
        _ => seq![],
    }
}

pub open spec fn stmts_names(ss: Seq<StmtView>) -> Seq<Seq<char>>
    decreases ss,
{
    if ss.len() == 0 {
        seq![]
    } else {
        stmt_names(ss[0]) + stmts_names(ss.subrange(1, ss.len() as int))
    }
}

/// Every name replaced as the renaming `m` says.
pub open spec fn renamed_all(ns: Seq<Seq<char>>, m: Map<Seq<char>, Seq<char>>) -> Seq<Seq<char>> {
    ns.map_values(|n: Seq<char>| renamed(m, n))
}

/// No name is renamed to `main`.
pub open spec fn never_main(m: Map<Seq<char>, Seq<char>>) -> bool {
    forall|k: Seq<char>| #[trigger] m.contains_key(k) ==> m[k] != main_text()
}

proof fn lemma_renamed_concat(a: Seq<Seq<char>>, b: Seq<Seq<char>>, m: Map<Seq<char>, Seq<char>>)
    ensures
        renamed_all(a + b, m) == renamed_all(a, m) + renamed_all(b, m),
{
    assert(renamed_all(a + b, m) =~= renamed_all(a, m) + renamed_all(b, m));
}

proof fn lemma_expr_names(e: ExprView, m: Map<Seq<char>, Seq<char>>)
    ensures
        expr_names(obf_expr(e, m)) == renamed_all(expr_names(e), m),
    decreases e,
{
    match e {
        ExprView::Variable(v) => {
            assert(renamed_all(seq![v], m) =~= seq![renamed(m, v)]);
        },
        ExprView::Addr(v) => {
            assert(renamed_all(seq![v], m) =~= seq![renamed(m, v)]);
        },
        ExprView::Deref(inner) => {
            lemma_expr_names(*inner, m);
        },
        ExprView::Cast(inner, _) => {
            lemma_expr_names(*inner, m);
        },
        ExprView::BinaryOp(l, _, r) => {
            lemma_expr_names(*l, m);
            lemma_expr_names(*r, m);
            lemma_renamed_concat(expr_names(*l), expr_names(*r), m);
        },
        ExprView::Call(n, args) => {
            lemma_exprs_names(args, m);
            lemma_renamed_concat(seq![n], exprs_names(args), m);
            assert(renamed_all(seq![n], m) =~= seq![renamed(m, n)]);
        },
        _ => {
            assert(renamed_all(seq![], m) =~= seq![]);
        },
    }
}

proof fn lemma_exprs_names(args: Seq<ExprView>, m: Map<Seq<char>, Seq<char>>)
    ensures
        exprs_names(obf_exprs(args, m)) == renamed_all(exprs_names(args), m),
    decreases args,
{
    if args.len() > 0 {
        let rest = args.subrange(1, args.len() as int);
        lemma_expr_names(args[0], m);
        lemma_exprs_names(rest, m);
        lemma_renamed_concat(expr_names(args[0]), exprs_names(rest), m);
        let o = obf_exprs(args, m);
        assert(o[0] == obf_expr(args[0], m));
        assert(o.subrange(1, o.len() as int) =~= obf_exprs(rest, m));
    } else {
        assert(renamed_all(seq![], m) =~= seq![]);
    }
}

proof fn lemma_stmt_names(s: StmtView, m: Map<Seq<char>, Seq<char>>)
    requires
        never_main(m),
    ensures
        stmt_names(rename_stmt(s, m)) == renamed_all(stmt_names(s), m),
    decreases s,
{
    let empty = Seq::<Seq<char>>::empty();
    assert(renamed_all(empty, m) =~= empty);
    match s {
        StmtView::Six(_, body) => {
            lemma_stmts_names(body, m);
        },
        StmtView::VarDecl(n, _, e) => {
            lemma_expr_names(e, m);
            lemma_renamed_concat(seq![n], expr_names(e), m);
            assert(renamed_all(seq![n], m) =~= seq![renamed(m, n)]);
        },
        StmtView::Assignment(n, e) => {
            lemma_expr_names(e, m);
            lemma_renamed_concat(seq![n], expr_names(e), m);
            assert(renamed_all(seq![n], m) =~= seq![renamed(m, n)]);
        },
        StmtView::DerefAssignment(a, e) => {
            lemma_expr_names(a, m);
            lemma_expr_names(e, m);
            lemma_renamed_concat(expr_names(a), expr_names(e), m);
        },
        StmtView::FnDecl(n, ps, body) => {
            lemma_stmts_names(body, m);
            let head: Seq<Seq<char>> = if n == main_text() {
                seq![]
            } else {
                seq![n]
            };
            if n != main_text() {
                if m.contains_key(n) {
                    assert(m[n] != main_text());
                }
                assert(renamed(m, n) != main_text());
                assert(renamed_all(seq![n], m) =~= seq![renamed(m, n)]);
            }
            assert(renamed_all(ps, m) =~= rename_params(ps, m));
            lemma_renamed_concat(head, ps, m);
            lemma_renamed_concat(head + ps, stmts_names(body), m);
        },
        StmtView::If(c, t, e) => {
            lemma_expr_names(c, m);
            lemma_stmts_names(t, m);
            let tail = match e {
                Some(eb) => stmts_names(eb),
                None => empty,
            };
            match e {
                Some(eb) => {
                    lemma_stmts_names(eb, m);
                },
                None => {},
            }
            lemma_renamed_concat(expr_names(c), stmts_names(t), m);
            lemma_renamed_concat(expr_names(c) + stmts_names(t), tail, m);
        },
        StmtView::For(v, a, b, body) => {
            lemma_expr_names(a, m);
            lemma_expr_names(b, m);
            lemma_stmts_names(body, m);
            assert(renamed_all(seq![v], m) =~= seq![renamed(m, v)]);
            lemma_renamed_concat(seq![v], expr_names(a), m);
            lemma_renamed_concat(seq![v] + expr_names(a), expr_names(b), m);
            lemma_renamed_concat(seq![v] + expr_names(a) + expr_names(b), stmts_names(body), m);
        },
        StmtView::Return(e) => {
            lemma_expr_names(e, m);
        },
        StmtView::Put(e) => {
            lemma_expr_names(e, m);
        },
        StmtView::Expression(e) => {
            lemma_expr_names(e, m);
        },
        StmtView::Try(body) => {
            lemma_stmts_names(body, m);
        },
        StmtView::Directive(_, args) => {
            lemma_exprs_names(args, m);
        },
        StmtView::Get(n) => {
            assert(renamed_all(seq![n], m) =~= seq![renamed(m, n)]);
        },
        _ => {},
    }
}

proof fn lemma_stmts_names(ss: Seq<StmtView>, m: Map<Seq<char>, Seq<char>>)
    requires
        never_main(m),
    ensures
        stmts_names(rename_stmts(ss, m)) == renamed_all(stmts_names(ss), m),
    decreases ss,
{
    if ss.len() > 0 {
        let rest = ss.subrange(1, ss.len() as int);
        lemma_stmt_names(ss[0], m);
        lemma_stmts_names(rest, m);
        lemma_renamed_concat(stmt_names(ss[0]), stmts_names(rest), m);
        let o = rename_stmts(ss, m);
        assert(o[0] == rename_stmt(ss[0], m));
        assert(o.subrange(1, o.len() as int) =~= rename_stmts(rest, m));
    } else {
        assert(renamed_all(seq![], m) =~= seq![]);
    }
}

/// Law: obfuscation replaces every name, wherever it stands (a declaration,
/// a parameter, a variable, an address, a callee, a `get` target, in any
/// condition, body or argument), by its code, and only by it: the names of
/// the obfuscated program, in order, are those of the program with each
/// replaced by its code, and every name the program declares has a code.
pub proof fn law_every_name_renamed(program: Seq<StmtView>)
    ensures
        stmts_names(obfuscated(program)) == renamed_all(
            stmts_names(program),
            program_renaming(program),
        ),
        forall|n: Seq<char>| declares_stmts(program, n) ==> program_renaming(program).contains_key(n),
{
    let m = program_renaming(program);
    lemma_declare_stmts_wf(program, initial_state());
    assert forall|k: Seq<char>| #[trigger] m.contains_key(k) implies m[k] != main_text() by {
        lemma_code_not_main(m[k], declare_stmts(program, initial_state()).counter);
    }
    lemma_stmts_names(program, m);
}

} // verus!
