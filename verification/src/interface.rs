//! The C-style interface header listing a library's functions.

use vstd::prelude::*;
use crate::ast::{Stmt, StmtView, stmts_view};
use crate::compiler::Compiler;
use crate::text::{decimal, decimal_chars, string_from_chars};

verus! {

pub open spec fn header_start() -> Seq<char> {
    "// .six Interface Header\n#ifndef SIX_INTERFACE_H\n#define SIX_INTERFACE_H\n\n"@
}

pub open spec fn header_end() -> Seq<char> {
    "\n#endif\n"@
}

/// `BigInt arg0, BigInt arg1, ...` for the first `k` of `total` parameters.
pub open spec fn args_text(k: nat, total: nat) -> Seq<char>
    decreases k,
{
    if k == 0 {
        seq![]
    } else {
        let i = (k - 1) as nat;
        args_text(i, total) + "BigInt arg"@ + decimal(i) + if i + 1 < total {
            ", "@
        } else {
            seq![]
        }
    }
}

/// The declaration line of a function statement; nothing for other statements.
pub open spec fn decl_text(s: StmtView) -> Seq<char> {
    match s {
        StmtView::FnDecl(name, params, _) => "void "@ + name + "("@ + args_text(
            params.len(),
            params.len(),
        ) + ");\n"@,
        _ => seq![],
    }
}

/// Declarations of the functions of a `six` block's body, in order.
pub open spec fn decls_text(body: Seq<StmtView>) -> Seq<char>
    decreases body.len(),
{
    if body.len() == 0 {
        seq![]
    } else {
        decls_text(body.drop_last()) + decl_text(body.last())
    }
}

/// Declarations of the functions declared directly in top-level `six` blocks.
pub open spec fn blocks_text(ss: Seq<StmtView>) -> Seq<char>
    decreases ss.len(),
{
    if ss.len() == 0 {
        seq![]
    } else {
        blocks_text(ss.drop_last()) + match ss.last() {
            StmtView::Six(_, body) => decls_text(body),
            _ => seq![],
        }
    }
}

pub open spec fn interface_text(ss: Seq<StmtView>) -> Seq<char> {
    header_start() + blocks_text(ss) + header_end()
}

fn decimal_string(n: usize) -> (s: String)
    ensures
        s@ == decimal(n as nat),
{
    let d = decimal_chars(n as u128);
    string_from_chars(d.as_slice())
}

fn append_decl(header: &mut String, name: &String, params: &Vec<String>)
    ensures
        final(header)@ == old(header)@ + "void "@ + name@ + "("@ + args_text(
            params@.len(),
            params@.len(),
        ) + ");\n"@,
{
    header.append("void ");
    header.append(name.as_str());
    header.append("(");
    let ghost mid = header@;
    let n = params.len();
    let mut i: usize = 0;
    while i < n
        invariant
            i <= n,
            n == params@.len(),
            header@ == mid + args_text(i as nat, n as nat),
        decreases n - i,
    {
        header.append("BigInt arg");
        let d = decimal_string(i);
        header.append(d.as_str());
        if i < n - 1 {
            header.append(", ");
        }
        proof {
            let sep: Seq<char> = if (i as nat) + 1 < n as nat {
                ", "@
            } else {
                seq![]
            };
            assert(args_text((i + 1) as nat, n as nat) =~= args_text(i as nat, n as nat)
                + "BigInt arg"@ + decimal(i as nat) + sep);
            assert(header@ =~= mid + args_text((i + 1) as nat, n as nat));
        }
        i = i + 1;
    }
    header.append(");\n");
    proof {
        assert(header@ =~= old(header)@ + "void "@ + name@ + "("@ + args_text(n as nat, n as nat)
            + ");\n"@);
    }
}

impl Compiler {
    /// The interface header: a `void name(BigInt arg0, ...);` line for each
    /// function declared directly in a top-level `six` block.
    pub fn generate_interface(statements: &Vec<Stmt>) -> (header: String)
        ensures
            header@ == interface_text(stmts_view(statements@)),
    {
        let mut header = String::from_str(
            "// .six Interface Header\n#ifndef SIX_INTERFACE_H\n#define SIX_INTERFACE_H\n\n",
        );
        let ghost sv = stmts_view(statements@);
        proof {
            crate::ast::lemma_stmts_view_index(statements@);
            assert(sv.take(0) =~= seq![]);
        }
        let mut i: usize = 0;
        while i < statements.len()
            invariant
                i <= statements.len(),
                sv == stmts_view(statements@),
                sv.len() == statements@.len(),
                forall|k: int| 0 <= k < statements@.len() ==> #[trigger] sv[k] == statements@[k]@,
                header@ == header_start() + blocks_text(sv.take(i as int)),
            decreases statements.len() - i,
        {
            let ghost before = header@;
            match &statements[i] {
                Stmt::Six(_, body) => {
                    let ghost bv = stmts_view(body@);
                    proof {
                        crate::ast::lemma_stmts_view_index(body@);
                        assert(bv.take(0) =~= seq![]);
                    }
                    let mut j: usize = 0;
                    while j < body.len()
                        invariant
                            j <= body.len(),
                            bv == stmts_view(body@),
                            bv.len() == body@.len(),
                            forall|k: int| 0 <= k < body@.len() ==> #[trigger] bv[k] == body@[k]@,
                            header@ == before + decls_text(bv.take(j as int)),
                        decreases body.len() - j,
                    {
                        match &body[j] {
                            Stmt::FnDecl(name, params, _) => {
                                append_decl(&mut header, name, params);
                                proof {
                                    assert(bv[j as int] == body@[j as int]@);
                                }
                            },
                            _ => {},
                        }
                        proof {
                            assert(bv.take(j + 1).drop_last() =~= bv.take(j as int));
                            assert(header@ =~= before + decls_text(bv.take(j + 1)));
                        }
                        j = j + 1;
                    }
                    proof {
                        assert(bv.take(body.len() as int) =~= bv);
                        assert(sv[i as int] == StmtView::Six(sv[i as int]->Six_0, bv));
                    }
                },
                _ => {},
            }
            proof {
                assert(sv.take(i + 1).drop_last() =~= sv.take(i as int));
                assert(header@ =~= header_start() + blocks_text(sv.take(i + 1)));
            }
            i = i + 1;
        }
        header.append("\n#endif\n");
        proof {
            assert(sv.take(statements.len() as int) =~= sv);
        }
        header
    }
}

} // verus!

verus! {

/// The texts of `parts` with `sep` between every two neighbours.
pub open spec fn join(parts: Seq<Seq<char>>, sep: Seq<char>) -> Seq<char>
    decreases parts.len(),
{
    if parts.len() == 0 {
        seq![]
    } else if parts.len() == 1 {
        parts[0]
    } else {
        join(parts.drop_last(), sep) + sep + parts.last()
    }
}

/// The declaration of argument number `i`.
pub open spec fn arg_decl(i: nat) -> Seq<char> {
    "BigInt arg"@ + decimal(i)
}

/// The declarations of arguments `0` to `k - 1`.
pub open spec fn arg_decls(k: nat) -> Seq<Seq<char>> {
    Seq::new(k, |i: int| arg_decl(i as nat))
}

proof fn lemma_args_text_join(k: nat, total: nat)
    requires
        k <= total,
    ensures
        k == 0 ==> args_text(k, total) == Seq::<char>::empty(),
        k > 0 ==> args_text(k, total) == join(arg_decls(k), ", "@) + if k < total {
            ", "@
        } else {
            Seq::<char>::empty()
        },
    decreases k,
{
    if k > 0 {
        let i = (k - 1) as nat;
        lemma_args_text_join(i, total);
        let ds = arg_decls(k);
        assert(ds.last() == arg_decl(i));
        if k == 1 {
            assert(args_text(0, total) == Seq::<char>::empty());
            assert(join(ds, ", "@) == ds[0]);
            assert(args_text(k, total) =~= join(ds, ", "@) + if k < total {
                ", "@
            } else {
                Seq::<char>::empty()
            });
        } else {
            assert(ds.drop_last() =~= arg_decls(i));
            let tail: Seq<char> = if k < total {
                ", "@
            } else {
                Seq::<char>::empty()
            };
            assert(args_text(k, total) =~= join(ds, ", "@) + tail);
        }
    }
}

/// Law: a function's declaration line is `void name(` then the declarations
/// `BigInt arg0`, ..., `BigInt arg<k-1>` of its `k` parameters, each two
/// separated by `, `, then `);` and a line break.
pub proof fn law_declaration_line(name: Seq<char>, params: Seq<Seq<char>>, body: Seq<StmtView>)
    ensures
        decl_text(StmtView::FnDecl(name, params, body)) == "void "@ + name + "("@ + join(
            arg_decls(params.len()),
            ", "@,
        ) + ");\n"@,
{
    lemma_args_text_join(params.len(), params.len());
    if params.len() == 0 {
        assert(join(arg_decls(0), ", "@) == Seq::<char>::empty());
        assert(args_text(0, 0) =~= join(arg_decls(0), ", "@));
    } else {
        assert(args_text(params.len(), params.len()) =~= join(arg_decls(params.len()), ", "@));
    }
}

} // verus!
