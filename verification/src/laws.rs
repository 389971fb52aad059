//! Laws of the code generator, proved over the mirror that specifies it:
//! the shape and size of every stack frame, and the relation between each
//! `Break` and its enclosing `While`.
use crate::emit::{alloc_v, emit_args_v, emit_block_v, emit_expr_v, frame_bytes, FCtxV, GCtxV};
use crate::lex::{spec_tokenize, tok_init, tok_run, TokSt};
use crate::parse::{parse_expr_v, parse_op_v};
use crate::txt::{has_prefix_s, is_digit_c, is_space_c, spec_parse_i64, trim_view};
use crate::ExprV;
use vstd::prelude::*;

verus! {

/// Law: every frame size is a multiple of sixteen bytes and holds all of
/// the function's local slots (eight bytes each). The mirror places
/// exactly `frame_bytes` of the final local count after `sub rsp, ` in
/// each function's text, so this is the `K` of every emitted prologue.
pub proof fn lemma_frame_bytes_props(l: nat)
    ensures
        frame_bytes(l) % 16 == 0,
        frame_bytes(l) >= 8 * l,
{
    let b = 8 * l;
    assert(b % 16 == 0 || b % 16 == 8) by (nonlinear_arith)
        requires
            b == 8 * l,
    ;
    if b % 16 != 0 {
        assert((b + 8) % 16 == 0) by (nonlinear_arith)
            requires
                b % 16 == 8,
        ;
    }
}

/// Successful emission leaves the break-label stack exactly as it found
/// it, and never lowers the label counter (so ids allocated later are
/// strictly larger, and every label definition in the unit uses a fresh
/// id).
pub proof fn lemma_emit_structure(e: ExprV, g: GCtxV, f: FCtxV)
    ensures
        emit_expr_v(e, g, f) matches Ok(p) ==> p.2.jmp == f.jmp && p.1.idx >= g.idx,
    decreases e, 1int,
{
    match e {
        ExprV::Integer(_) => {},
        ExprV::Strlit(_) => {},
        ExprV::Undefined => {},
        ExprV::Variable(_) => {},
        ExprV::Pointer(_) => {},
        ExprV::Derefer(x, _) => {
            lemma_emit_structure(*x, g, f);
        },
        ExprV::Call(callee, args) => {
            lemma_emit_args_structure(args, g, f);
            match emit_args_v(args, g, f) {
                Ok(p1) => {
                lemma_emit_structure(*callee, p1.1, p1.2);
                            },
                Err(_) => {},
            }
        },
        ExprV::Block(es) => {
            lemma_emit_block_structure(es, g, f);
        },
        ExprV::Let(l, r) => {
            match *l {
                ExprV::Variable(n) => {
                    let f1 = if f.var.contains(n) {
                        f
                    } else {
                        FCtxV { var: f.var.push(n), ..f }
                    };
                    lemma_emit_structure(*r, g, f1);
                },
                ExprV::Derefer(ptr, _) => {
                    lemma_emit_structure(*r, g, f);
                    match emit_expr_v(*r, g, f) {
                        Ok(p1) => {
                        lemma_emit_structure(*ptr, p1.1, p1.2);
                                            },
                        Err(_) => {},
                    }
                },
                _ => {},
            }
        },
        ExprV::If(c, t, els) => {
            match alloc_v(g) {
                Ok(pa) => {
                lemma_emit_structure(*c, pa.1, f);
                match emit_expr_v(*c, pa.1, f) {
                    Ok(p1) => {
                    lemma_emit_structure(*t, p1.1, p1.2);
                    match els {
                        Some(eb) => {
                            match emit_expr_v(*t, p1.1, p1.2) {
                                Ok(p2) => {
                                lemma_emit_structure(*eb, p2.1, p2.2);
                                                            },
                                Err(_) => {},
                            }
                        },
                        None => {},
                    }
                                    },
                    Err(_) => {},
                }
                            },
                Err(_) => {},
            }
        },
        ExprV::While(c, b) => {
            match alloc_v(g) {
                Ok(pa) => {
                let f1 = FCtxV { jmp: f.jmp.push(pa.0), ..f };
                lemma_emit_structure(*c, pa.1, f1);
                match emit_expr_v(*c, pa.1, f1) {
                    Ok(p1) => {
                    lemma_emit_structure(*b, p1.1, p1.2);
                    match emit_expr_v(*b, p1.1, p1.2) {
                        Ok(p2) => {
                        assert(p2.2.jmp == f.jmp.push(pa.0));
                        assert(p2.2.jmp.drop_last() =~= f.jmp);
                                            },
                        Err(_) => {},
                    }
                                    },
                    Err(_) => {},
                }
                            },
                Err(_) => {},
            }
        },
        ExprV::Break(x) => {
            if f.jmp.len() > 0 {
                lemma_emit_structure(*x, g, f);
            }
        },
        ExprV::Return(x) => {
            lemma_emit_structure(*x, g, f);
        },
        ExprV::Add(l, r) => {
            lemma_emit_structure(*l, g, f);
            match emit_expr_v(*l, g, f) {
                Ok(p1) => {
                lemma_emit_structure(*r, p1.1, p1.2);
                            },
                Err(_) => {},
            }
        },
        ExprV::Sub(l, r) => {
            lemma_emit_structure(*l, g, f);
            match emit_expr_v(*l, g, f) {
                Ok(p1) => {
                lemma_emit_structure(*r, p1.1, p1.2);
                            },
                Err(_) => {},
            }
        },
        ExprV::Mul(l, r) => {
            lemma_emit_structure(*l, g, f);
            match emit_expr_v(*l, g, f) {
                Ok(p1) => {
                lemma_emit_structure(*r, p1.1, p1.2);
                            },
                Err(_) => {},
            }
        },
        ExprV::Div(l, r) => {
            lemma_emit_structure(*l, g, f);
            match emit_expr_v(*l, g, f) {
                Ok(p1) => {
                lemma_emit_structure(*r, p1.1, p1.2);
                            },
                Err(_) => {},
            }
        },
        ExprV::Mod(l, r) => {
            lemma_emit_structure(*l, g, f);
            match emit_expr_v(*l, g, f) {
                Ok(p1) => {
                lemma_emit_structure(*r, p1.1, p1.2);
                            },
                Err(_) => {},
            }
        },
        ExprV::Eql(l, r) => {
            lemma_emit_structure(*l, g, f);
            match emit_expr_v(*l, g, f) {
                Ok(p1) => {
                lemma_emit_structure(*r, p1.1, p1.2);
                            },
                Err(_) => {},
            }
        },
        ExprV::NotEq(l, r) => {
            lemma_emit_structure(*l, g, f);
            match emit_expr_v(*l, g, f) {
                Ok(p1) => {
                lemma_emit_structure(*r, p1.1, p1.2);
                            },
                Err(_) => {},
            }
        },
        ExprV::Gt(l, r) => {
            lemma_emit_structure(*l, g, f);
            match emit_expr_v(*l, g, f) {
                Ok(p1) => {
                lemma_emit_structure(*r, p1.1, p1.2);
                            },
                Err(_) => {},
            }
        },
        ExprV::Lt(l, r) => {
            lemma_emit_structure(*l, g, f);
            match emit_expr_v(*l, g, f) {
                Ok(p1) => {
                lemma_emit_structure(*r, p1.1, p1.2);
                            },
                Err(_) => {},
            }
        },
        ExprV::GtEq(l, r) => {
            lemma_emit_structure(*l, g, f);
            match emit_expr_v(*l, g, f) {
                Ok(p1) => {
                lemma_emit_structure(*r, p1.1, p1.2);
                            },
                Err(_) => {},
            }
        },
        ExprV::LtEq(l, r) => {
            lemma_emit_structure(*l, g, f);
            match emit_expr_v(*l, g, f) {
                Ok(p1) => {
                lemma_emit_structure(*r, p1.1, p1.2);
                            },
                Err(_) => {},
            }
        },
        ExprV::And(l, r) => {
            lemma_emit_structure(*l, g, f);
            match emit_expr_v(*l, g, f) {
                Ok(p1) => {
                lemma_emit_structure(*r, p1.1, p1.2);
                            },
                Err(_) => {},
            }
        },
        ExprV::Or(l, r) => {
            lemma_emit_structure(*l, g, f);
            match emit_expr_v(*l, g, f) {
                Ok(p1) => {
                lemma_emit_structure(*r, p1.1, p1.2);
                            },
                Err(_) => {},
            }
        },
        ExprV::Xor(l, r) => {
            lemma_emit_structure(*l, g, f);
            match emit_expr_v(*l, g, f) {
                Ok(p1) => {
                lemma_emit_structure(*r, p1.1, p1.2);
                            },
                Err(_) => {},
            }
        },
    }
}

proof fn lemma_emit_block_structure(es: Seq<ExprV>, g: GCtxV, f: FCtxV)
    ensures
        emit_block_v(es, g, f) matches Ok(p) ==> p.2.jmp == f.jmp && p.1.idx >= g.idx,
    decreases es, 0int,
{
    if es.len() > 0 {
        lemma_emit_structure(es[0], g, f);
        match emit_expr_v(es[0], g, f) {
            Ok(p1) => {
            lemma_emit_block_structure(es.drop_first(), p1.1, p1.2);
                    },
            Err(_) => {},
        }
    }
}

proof fn lemma_emit_args_structure(args: Seq<ExprV>, g: GCtxV, f: FCtxV)
    ensures
        emit_args_v(args, g, f) matches Ok(p) ==> p.2.jmp == f.jmp && p.1.idx >= g.idx,
    decreases args, 0int,
{
    if args.len() > 0 {
        lemma_emit_structure(args.last(), g, f);
        match emit_expr_v(args.last(), g, f) {
            Ok(p1) => {
            lemma_emit_args_structure(args.drop_last(), p1.1, p1.2);
                    },
            Err(_) => {},
        }
    }
}

/// Every `Break` in `e` sits under an enclosing `While` (or the context
/// itself is a loop, when `in_loop` holds); a `While`'s condition and body
/// both count as inside the loop, as the generator treats them.
pub open spec fn breaks_enclosed(e: ExprV, in_loop: bool) -> bool
    decreases e, 1int,
{
    match e {
        ExprV::Integer(_) => true,
        ExprV::Strlit(_) => true,
        ExprV::Undefined => true,
        ExprV::Variable(_) => true,
        ExprV::Pointer(_) => true,
        ExprV::Derefer(x, _) => breaks_enclosed(*x, in_loop),
        ExprV::Call(callee, args) => breaks_enclosed(*callee, in_loop) && breaks_enclosed_list(
            args,
            in_loop,
        ),
        ExprV::Block(es) => breaks_enclosed_list(es, in_loop),
        ExprV::Let(l, r) => breaks_enclosed(*l, in_loop) && breaks_enclosed(*r, in_loop),
        ExprV::If(c, t, els) => breaks_enclosed(*c, in_loop) && breaks_enclosed(*t, in_loop) && (
        match els {
            Some(eb) => breaks_enclosed(*eb, in_loop),
            None => true,
        }),
        ExprV::While(c, b) => breaks_enclosed(*c, true) && breaks_enclosed(*b, true),
        ExprV::Break(x) => in_loop && breaks_enclosed(*x, in_loop),
        ExprV::Return(x) => breaks_enclosed(*x, in_loop),
        ExprV::Add(l, r) => breaks_enclosed(*l, in_loop) && breaks_enclosed(*r, in_loop),
        ExprV::Sub(l, r) => breaks_enclosed(*l, in_loop) && breaks_enclosed(*r, in_loop),
        ExprV::Mul(l, r) => breaks_enclosed(*l, in_loop) && breaks_enclosed(*r, in_loop),
        ExprV::Div(l, r) => breaks_enclosed(*l, in_loop) && breaks_enclosed(*r, in_loop),
        ExprV::Mod(l, r) => breaks_enclosed(*l, in_loop) && breaks_enclosed(*r, in_loop),
        ExprV::Eql(l, r) => breaks_enclosed(*l, in_loop) && breaks_enclosed(*r, in_loop),
        ExprV::NotEq(l, r) => breaks_enclosed(*l, in_loop) && breaks_enclosed(*r, in_loop),
        ExprV::Gt(l, r) => breaks_enclosed(*l, in_loop) && breaks_enclosed(*r, in_loop),
        ExprV::Lt(l, r) => breaks_enclosed(*l, in_loop) && breaks_enclosed(*r, in_loop),
        ExprV::GtEq(l, r) => breaks_enclosed(*l, in_loop) && breaks_enclosed(*r, in_loop),
        ExprV::LtEq(l, r) => breaks_enclosed(*l, in_loop) && breaks_enclosed(*r, in_loop),
        ExprV::And(l, r) => breaks_enclosed(*l, in_loop) && breaks_enclosed(*r, in_loop),
        ExprV::Or(l, r) => breaks_enclosed(*l, in_loop) && breaks_enclosed(*r, in_loop),
        ExprV::Xor(l, r) => breaks_enclosed(*l, in_loop) && breaks_enclosed(*r, in_loop),
    }
}

pub open spec fn breaks_enclosed_list(es: Seq<ExprV>, in_loop: bool) -> bool
    decreases es, 0int,
{
    if es.len() == 0 {
        true
    } else {
        breaks_enclosed(es[0], in_loop) && breaks_enclosed_list(es.drop_first(), in_loop)
    }
}

/// Law: when emission of `e` succeeds, every `Break` in `e` has a
/// lexically enclosing `While` (counting the surrounding context as a loop
/// exactly when the break-label stack is non-empty). Together with the
/// mirror's `Break` and `While` cases — a `Break` jumps to
/// `end_while.` of the top of the stack, and a `While` emits its condition
/// and body with its own fresh id pushed — this is the targeting rule:
/// each break jumps to the end label of its nearest enclosing loop.
#[verifier::rlimit(100)]
pub proof fn lemma_emit_ok_breaks_enclosed(e: ExprV, g: GCtxV, f: FCtxV)
    requires
        emit_expr_v(e, g, f) is Ok,
    ensures
        breaks_enclosed(e, f.jmp.len() > 0),
    decreases e, 1int,
{
    match e {
        ExprV::Integer(_) => {
            assert(breaks_enclosed(e, f.jmp.len() > 0));
            assert(breaks_enclosed(e, f.jmp.len() > 0));
        },
        ExprV::Strlit(_) => {
            assert(breaks_enclosed(e, f.jmp.len() > 0));
            assert(breaks_enclosed(e, f.jmp.len() > 0));
        },
        ExprV::Undefined => {
            assert(breaks_enclosed(e, f.jmp.len() > 0));
            assert(breaks_enclosed(e, f.jmp.len() > 0));
        },
        ExprV::Variable(_) => {
            assert(breaks_enclosed(e, f.jmp.len() > 0));
            assert(breaks_enclosed(e, f.jmp.len() > 0));
        },
        ExprV::Pointer(_) => {
            assert(breaks_enclosed(e, f.jmp.len() > 0));
            assert(breaks_enclosed(e, f.jmp.len() > 0));
        },
        ExprV::Derefer(x, _) => {
            lemma_emit_ok_breaks_enclosed(*x, g, f);
            assert(breaks_enclosed(e, f.jmp.len() > 0));
        },
        ExprV::Call(callee, args) => {
            lemma_emit_args_ok_breaks_enclosed(args, g, f);
            lemma_emit_args_structure(args, g, f);
            match emit_args_v(args, g, f) {
                Ok(p1) => {
                lemma_emit_ok_breaks_enclosed(*callee, p1.1, p1.2);
                            },
                Err(_) => {},
            }
            assert(breaks_enclosed(e, f.jmp.len() > 0));
        },
        ExprV::Block(es) => {
            lemma_emit_block_ok_breaks_enclosed(es, g, f);
            assert(breaks_enclosed(e, f.jmp.len() > 0));
        },
        ExprV::Let(l, r) => {
            match *l {
                ExprV::Variable(n) => {
                    let f1 = if f.var.contains(n) {
                        f
                    } else {
                        FCtxV { var: f.var.push(n), ..f }
                    };
                    lemma_emit_ok_breaks_enclosed(*r, g, f1);
                    assert(breaks_enclosed(*l, f.jmp.len() > 0));
                },
                ExprV::Derefer(ptr, _) => {
                    lemma_emit_ok_breaks_enclosed(*r, g, f);
                    lemma_emit_structure(*r, g, f);
                    match emit_expr_v(*r, g, f) {
                        Ok(p1) => {
                            lemma_emit_ok_breaks_enclosed(*ptr, p1.1, p1.2);
                            assert(breaks_enclosed(*ptr, f.jmp.len() > 0));
                        },
                        Err(_) => {},
                    }
                    assert(breaks_enclosed(*l, f.jmp.len() > 0));
                },
                _ => {},
            }
            assert(breaks_enclosed(e, f.jmp.len() > 0));
        },
        ExprV::If(c, t, els) => {
            match alloc_v(g) {
                Ok(pa) => {
                lemma_emit_ok_breaks_enclosed(*c, pa.1, f);
                lemma_emit_structure(*c, pa.1, f);
                match emit_expr_v(*c, pa.1, f) {
                    Ok(p1) => {
                    lemma_emit_ok_breaks_enclosed(*t, p1.1, p1.2);
                    lemma_emit_structure(*t, p1.1, p1.2);
                    match els {
                        Some(eb) => {
                            match emit_expr_v(*t, p1.1, p1.2) {
                                Ok(p2) => {
                                lemma_emit_ok_breaks_enclosed(*eb, p2.1, p2.2);
                                                            },
                                Err(_) => {},
                            }
                        },
                        None => {},
                    }
                                    },
                    Err(_) => {},
                }
                            },
                Err(_) => {},
            }
            assert(breaks_enclosed(e, f.jmp.len() > 0));
        },
        ExprV::While(c, b) => {
            match alloc_v(g) {
                Ok(pa) => {
                let f1 = FCtxV { jmp: f.jmp.push(pa.0), ..f };
                lemma_emit_ok_breaks_enclosed(*c, pa.1, f1);
                lemma_emit_structure(*c, pa.1, f1);
                match emit_expr_v(*c, pa.1, f1) {
                    Ok(p1) => {
                    lemma_emit_ok_breaks_enclosed(*b, p1.1, p1.2);
                                    },
                    Err(_) => {},
                }
                            },
                Err(_) => {},
            }
            assert(breaks_enclosed(e, f.jmp.len() > 0));
        },
        ExprV::Break(x) => {
            lemma_emit_ok_breaks_enclosed(*x, g, f);
            assert(breaks_enclosed(e, f.jmp.len() > 0));
        },
        ExprV::Return(x) => {
            lemma_emit_ok_breaks_enclosed(*x, g, f);
            assert(breaks_enclosed(e, f.jmp.len() > 0));
        },
        _ => {
            assert(crate::emit::is_op_node(e));
            lemma_emit_ok_breaks_enclosed_ops(e, g, f);
            assert(breaks_enclosed(e, f.jmp.len() > 0));
        },
    }
}

proof fn lemma_emit_ok_breaks_enclosed_ops(e: ExprV, g: GCtxV, f: FCtxV)
    requires
        emit_expr_v(e, g, f) is Ok,
        crate::emit::is_op_node(e),
    ensures
        breaks_enclosed(e, f.jmp.len() > 0),
    decreases e, 0int,
{
    match e {
        ExprV::Add(l, r) => {
            lemma_emit_ok_breaks_enclosed(*l, g, f);
            lemma_emit_structure(*l, g, f);
            match emit_expr_v(*l, g, f) {
                Ok(p1) => {
                lemma_emit_ok_breaks_enclosed(*r, p1.1, p1.2);
                            },
                Err(_) => {},
            }
        },
        ExprV::Sub(l, r) => {
            lemma_emit_ok_breaks_enclosed(*l, g, f);
            lemma_emit_structure(*l, g, f);
            match emit_expr_v(*l, g, f) {
                Ok(p1) => {
                lemma_emit_ok_breaks_enclosed(*r, p1.1, p1.2);
                            },
                Err(_) => {},
            }
        },
        ExprV::Mul(l, r) => {
            lemma_emit_ok_breaks_enclosed(*l, g, f);
            lemma_emit_structure(*l, g, f);
            match emit_expr_v(*l, g, f) {
                Ok(p1) => {
                lemma_emit_ok_breaks_enclosed(*r, p1.1, p1.2);
                            },
                Err(_) => {},
            }
        },
        ExprV::Div(l, r) => {
            lemma_emit_ok_breaks_enclosed(*l, g, f);
            lemma_emit_structure(*l, g, f);
            match emit_expr_v(*l, g, f) {
                Ok(p1) => {
                lemma_emit_ok_breaks_enclosed(*r, p1.1, p1.2);
                            },
                Err(_) => {},
            }
        },
        ExprV::Mod(l, r) => {
            lemma_emit_ok_breaks_enclosed(*l, g, f);
            lemma_emit_structure(*l, g, f);
            match emit_expr_v(*l, g, f) {
                Ok(p1) => {
                lemma_emit_ok_breaks_enclosed(*r, p1.1, p1.2);
                            },
                Err(_) => {},
            }
        },
        ExprV::Eql(l, r) => {
            lemma_emit_ok_breaks_enclosed(*l, g, f);
            lemma_emit_structure(*l, g, f);
            match emit_expr_v(*l, g, f) {
                Ok(p1) => {
                lemma_emit_ok_breaks_enclosed(*r, p1.1, p1.2);
                            },
                Err(_) => {},
            }
        },
        ExprV::NotEq(l, r) => {
            lemma_emit_ok_breaks_enclosed(*l, g, f);
            lemma_emit_structure(*l, g, f);
            match emit_expr_v(*l, g, f) {
                Ok(p1) => {
                lemma_emit_ok_breaks_enclosed(*r, p1.1, p1.2);
                            },
                Err(_) => {},
            }
        },
        ExprV::Gt(l, r) => {
            lemma_emit_ok_breaks_enclosed(*l, g, f);
            lemma_emit_structure(*l, g, f);
            match emit_expr_v(*l, g, f) {
                Ok(p1) => {
                lemma_emit_ok_breaks_enclosed(*r, p1.1, p1.2);
                            },
                Err(_) => {},
            }
        },
        ExprV::Lt(l, r) => {
            lemma_emit_ok_breaks_enclosed(*l, g, f);
            lemma_emit_structure(*l, g, f);
            match emit_expr_v(*l, g, f) {
                Ok(p1) => {
                lemma_emit_ok_breaks_enclosed(*r, p1.1, p1.2);
                            },
                Err(_) => {},
            }
        },
        ExprV::GtEq(l, r) => {
            lemma_emit_ok_breaks_enclosed(*l, g, f);
            lemma_emit_structure(*l, g, f);
            match emit_expr_v(*l, g, f) {
                Ok(p1) => {
                lemma_emit_ok_breaks_enclosed(*r, p1.1, p1.2);
                            },
                Err(_) => {},
            }
        },
        ExprV::LtEq(l, r) => {
            lemma_emit_ok_breaks_enclosed(*l, g, f);
            lemma_emit_structure(*l, g, f);
            match emit_expr_v(*l, g, f) {
                Ok(p1) => {
                lemma_emit_ok_breaks_enclosed(*r, p1.1, p1.2);
                            },
                Err(_) => {},
            }
        },
        ExprV::And(l, r) => {
            lemma_emit_ok_breaks_enclosed(*l, g, f);
            lemma_emit_structure(*l, g, f);
            match emit_expr_v(*l, g, f) {
                Ok(p1) => {
                lemma_emit_ok_breaks_enclosed(*r, p1.1, p1.2);
                            },
                Err(_) => {},
            }
        },
        ExprV::Or(l, r) => {
            lemma_emit_ok_breaks_enclosed(*l, g, f);
            lemma_emit_structure(*l, g, f);
            match emit_expr_v(*l, g, f) {
                Ok(p1) => {
                lemma_emit_ok_breaks_enclosed(*r, p1.1, p1.2);
                            },
                Err(_) => {},
            }
        },
        ExprV::Xor(l, r) => {
            lemma_emit_ok_breaks_enclosed(*l, g, f);
            lemma_emit_structure(*l, g, f);
            match emit_expr_v(*l, g, f) {
                Ok(p1) => {
                lemma_emit_ok_breaks_enclosed(*r, p1.1, p1.2);
                            },
                Err(_) => {},
            }
        },
        _ => {},
    }
}

proof fn lemma_emit_block_ok_breaks_enclosed(es: Seq<ExprV>, g: GCtxV, f: FCtxV)
    requires
        emit_block_v(es, g, f) is Ok,
    ensures
        breaks_enclosed_list(es, f.jmp.len() > 0),
    decreases es, 0int,
{
    if es.len() > 0 {
        lemma_emit_ok_breaks_enclosed(es[0], g, f);
        lemma_emit_structure(es[0], g, f);
        match emit_expr_v(es[0], g, f) {
            Ok(p1) => {
            lemma_emit_block_ok_breaks_enclosed(es.drop_first(), p1.1, p1.2);
                    },
            Err(_) => {},
        }
    }
}

proof fn lemma_emit_args_ok_breaks_enclosed(args: Seq<ExprV>, g: GCtxV, f: FCtxV)
    requires
        emit_args_v(args, g, f) is Ok,
    ensures
        breaks_enclosed_list(args, f.jmp.len() > 0),
    decreases args, 0int,
{
    if args.len() > 0 {
        lemma_emit_ok_breaks_enclosed(args.last(), g, f);
        lemma_emit_structure(args.last(), g, f);
        match emit_expr_v(args.last(), g, f) {
            Ok(p1) => {
            lemma_emit_args_ok_breaks_enclosed(args.drop_last(), p1.1, p1.2);
                    },
            Err(_) => {},
        }
        lemma_breaks_list_unsnoc(args, f.jmp.len() > 0);
    }
}

proof fn lemma_breaks_list_unsnoc(es: Seq<ExprV>, in_loop: bool)
    requires
        es.len() > 0,
        breaks_enclosed(es.last(), in_loop),
        breaks_enclosed_list(es.drop_last(), in_loop),
    ensures
        breaks_enclosed_list(es, in_loop),
    decreases es.len(),
{
    if es.len() == 1 {
        assert(es[0] == es.last());
        assert(es.drop_first() =~= Seq::<ExprV>::empty());
        assert(breaks_enclosed_list(es.drop_first(), in_loop));
    } else {
        assert(es.drop_last()[0] == es[0]);
        assert(es.drop_first().drop_last() =~= es.drop_last().drop_first());
        assert(es.drop_first().last() == es.last());
        assert(breaks_enclosed_list(es.drop_first().drop_last(), in_loop));
        lemma_breaks_list_unsnoc(es.drop_first(), in_loop);
        assert(breaks_enclosed(es[0], in_loop));
    }
}

/// Running the splitter over characters that are not brackets, quotes,
/// backslashes or delimiter occurrences only appends them to the pending
/// token.
proof fn lemma_tok_run_plain(input: Seq<char>, i: int, st: TokSt)
    requires
        0 <= i <= input.len(),
        !st.esc,
        !st.quote,
        forall|k: int|
            i <= k < input.len() ==> !crate::lex::is_open_c(#[trigger] input[k])
                && !crate::lex::is_close_c(input[k]) && input[k] != '"' && input[k] != '\\'
                && input.subrange(k, k + 1) != " "@,
    ensures
        tok_run(input, " "@, i, st) == (TokSt { cur: st.cur + input.subrange(i, input.len() as int), ..st }),
    decreases input.len() - i,
{
    reveal_strlit(" ");
    if i >= input.len() {
        assert(st.cur + input.subrange(i, input.len() as int) =~= st.cur);
        assert(tok_run(input, " "@, i, st) == st);
    } else {
        let c = input[i];
        assert(input.subrange(i, i + 1) != " "@);
        let st2 = TokSt { cur: st.cur.push(c), ..st };
        lemma_tok_run_plain(input, i + 1, st2);
        assert(st.cur.push(c) + input.subrange(i + 1, input.len() as int) =~= st.cur
            + input.subrange(i, input.len() as int));
    }
}

/// Every character of an integer literal is a sign or a digit.
proof fn lemma_int_literal_chars(s: Seq<char>)
    requires
        spec_parse_i64(s) is Some,
    ensures
        s.len() >= 1,
        forall|k: int| 0 <= k < s.len() ==> s[k] == '+' || s[k] == '-' || is_digit_c(#[trigger] s[k]),
{
    let body = if s[0] == '+' || s[0] == '-' {
        s.drop_first()
    } else {
        s
    };
    assert forall|k: int|
        0 <= k < s.len() implies s[k] == '+' || s[k] == '-' || is_digit_c(#[trigger] s[k]) by {
        if !(s[0] == '+' || s[0] == '-') {
            assert(is_digit_c(body[k]));
        } else if k > 0 {
            assert(body[k - 1] == s[k]);
            assert(is_digit_c(body[k - 1]));
        }
    }
}

/// Law (integer-literal parsing, the ground of the sum-of-literals
/// property): any text that denotes an in-range integer parses to exactly
/// that `Integer` node.
pub proof fn lemma_parse_integer_literal(s: Seq<char>)
    requires
        spec_parse_i64(s) is Some,
    ensures
        parse_expr_v(s) == Ok::<ExprV, Seq<char>>(
            ExprV::Integer(spec_parse_i64(s)->0 as int),
        ),
{
    reveal_strlit(" ");
    reveal_strlit("let ");
    reveal_strlit("if ");
    reveal_strlit("while ");
    reveal_strlit("break ");
    reveal_strlit("return ");
    reveal_strlit("break");
    reveal_strlit("return");
    reveal_strlit("true");
    reveal_strlit("false");
    reveal_with_fuel(crate::parse::parse_expr_v, 2);
    reveal_with_fuel(crate::parse::parse_expr_tail_v, 2);
    lemma_int_literal_chars(s);
    assert(!is_space_c(s[0]));
    assert(!is_space_c(s.last()));
    assert(crate::txt::trim_front(s) == s);
    assert(crate::txt::trim_back(s) == s);
    assert(trim_view(s) == s);
    assert forall|k: int|
        0 <= k < s.len() implies !crate::lex::is_open_c(#[trigger] s[k])
            && !crate::lex::is_close_c(s[k]) && s[k] != '"' && s[k] != '\\' && s.subrange(
            k,
            k + 1,
        ) != " "@ by {
        assert(s.subrange(k, k + 1) =~= seq![s[k]]);
        if s.subrange(k, k + 1) == " "@ {
            assert(seq![s[k]][0] == " "@[0]);
            assert(s[k] == ' ');
        }
    }
    lemma_tok_run_plain(s, 0, tok_init());
    assert(tok_init().cur + s.subrange(0, s.len() as int) =~= s);
    let fin = tok_run(s, " "@, 0, tok_init());
    assert(fin.cur == s && fin.toks == tok_init().toks && !fin.esc && !fin.quote && fin.depth
        == 0);
    assert(spec_tokenize(s, " "@) == Ok::<Seq<Seq<char>>, Seq<char>>(tok_init().toks.push(s)));
    assert(tok_init().toks.push(s).len() == 1);
    assert(parse_op_v(s) is Err);
    assert(!has_prefix_s(s, "let "@)) by {
        if has_prefix_s(s, "let "@) {
            assert(s.subrange(0, "let "@.len() as int)[0] == s[0]);
        }
    }
    assert(!has_prefix_s(s, "if "@)) by {
        if has_prefix_s(s, "if "@) {
            assert(s.subrange(0, "if "@.len() as int)[0] == s[0]);
        }
    }
    assert(!has_prefix_s(s, "while "@)) by {
        if has_prefix_s(s, "while "@) {
            assert(s.subrange(0, "while "@.len() as int)[0] == s[0]);
        }
    }
    assert(!has_prefix_s(s, "break "@)) by {
        if has_prefix_s(s, "break "@) {
            assert(s.subrange(0, "break "@.len() as int)[0] == s[0]);
        }
    }
    assert(!has_prefix_s(s, "return "@)) by {
        if has_prefix_s(s, "return "@) {
            assert(s.subrange(0, "return "@.len() as int)[0] == s[0]);
        }
    }
    assert(s != "break"@) by {
        if s == "break"@ {
            assert(s[0] == 'b');
        }
    }
    assert(s != "return"@) by {
        if s == "return"@ {
            assert(s[0] == 'r');
        }
    }
    assert(!s.contains('(')) by {
        if s.contains('(') {
            let k = choose|k: int| 0 <= k < s.len() && s[k] == '(';
            assert(crate::lex::is_open_c(s[k]));
        }
    }
    assert(!s.contains('[')) by {
        if s.contains('[') {
            let k = choose|k: int| 0 <= k < s.len() && s[k] == '[';
            assert(crate::lex::is_open_c(s[k]));
        }
    }
}

/// Law: wrapping an expression in parentheses never changes its tree:
/// `parse("(E)") == parse(E)`. The precondition says the wrapped text is a
/// single bracket-aware space-token (or fails to split), which holds
/// exactly when `E`'s own brackets and quotes balance; without it the
/// property fails, e.g. for `E` = `a) + (b`, where the outer parentheses
/// do not match each other.
pub proof fn lemma_paren_wrap(e_src: Seq<char>)
    requires
        ({
            let w = seq!['('] + e_src + seq![')'];
            match spec_tokenize(w, " "@) {
                Ok(toks) => toks.len() <= 1,
                Err(_) => true,
            }
        }),
    ensures
        parse_expr_v(seq!['('] + e_src + seq![')']) == parse_expr_v(e_src),
{
    reveal_strlit(" ");
    reveal_strlit("let ");
    reveal_strlit("if ");
    reveal_strlit("while ");
    reveal_strlit("break ");
    reveal_strlit("return ");
    reveal_strlit("break");
    reveal_strlit("return");
    reveal_with_fuel(crate::parse::parse_expr_v, 2);
    reveal_with_fuel(crate::parse::parse_expr_tail_v, 2);
    let w = seq!['('] + e_src + seq![')'];
    assert(w.len() >= 2);
    assert(w[0] == '(');
    assert(w.last() == ')');
    assert(!is_space_c(w[0]));
    assert(!is_space_c(w.last()));
    assert(crate::txt::trim_front(w) == w);
    assert(crate::txt::trim_back(w) == w);
    assert(trim_view(w) == w);
    assert(parse_op_v(w) is Err);
    assert(!has_prefix_s(w, "let "@)) by {
        if has_prefix_s(w, "let "@) {
            assert(w.subrange(0, "let "@.len() as int)[0] == w[0]);
        }
    }
    assert(!has_prefix_s(w, "if "@)) by {
        if has_prefix_s(w, "if "@) {
            assert(w.subrange(0, "if "@.len() as int)[0] == w[0]);
        }
    }
    assert(!has_prefix_s(w, "while "@)) by {
        if has_prefix_s(w, "while "@) {
            assert(w.subrange(0, "while "@.len() as int)[0] == w[0]);
        }
    }
    assert(!has_prefix_s(w, "break "@)) by {
        if has_prefix_s(w, "break "@) {
            assert(w.subrange(0, "break "@.len() as int)[0] == w[0]);
        }
    }
    assert(!has_prefix_s(w, "return "@)) by {
        if has_prefix_s(w, "return "@) {
            assert(w.subrange(0, "return "@.len() as int)[0] == w[0]);
        }
    }
    assert(w != "break"@) by {
        if w == "break"@ {
            assert(w[0] == 'b');
        }
    }
    assert(w != "return"@) by {
        if w == "return"@ {
            assert(w[0] == 'r');
        }
    }
    assert(w.subrange(1, w.len() - 1) =~= e_src);
}

/// A character the splitter treats as ordinary when splitting on a space:
/// not a bracket, not a quote, not an escape, not the delimiter.
pub open spec fn is_plain_c(c: char) -> bool {
    !crate::lex::is_open_c(c) && !crate::lex::is_close_c(c) && c != '"' && c != '\\' && c != ' '
}

proof fn lemma_tok_run_plain_until(input: Seq<char>, i: int, j: int, st: TokSt)
    requires
        0 <= i <= j <= input.len(),
        !st.esc,
        !st.quote,
        forall|k: int| i <= k < j ==> is_plain_c(#[trigger] input[k]),
    ensures
        tok_run(input, " "@, i, st) == tok_run(
            input,
            " "@,
            j,
            TokSt { cur: st.cur + input.subrange(i, j), ..st },
        ),
    decreases j - i,
{
    reveal_strlit(" ");
    if i == j {
        assert(st.cur + input.subrange(i, j) =~= st.cur);
        assert(TokSt { cur: st.cur + input.subrange(i, j), ..st } == st);
    } else {
        let c = input[i];
        assert(is_plain_c(c));
        assert(input.subrange(i, i + 1) != " "@) by {
            if input.subrange(i, i + 1) == " "@ {
                assert(input.subrange(i, i + 1) =~= seq![c]);
                assert(seq![c][0] == " "@[0]);
            }
        }
        let st2 = TokSt { cur: st.cur.push(c), ..st };
        lemma_tok_run_plain_until(input, i + 1, j, st2);
        assert(st.cur.push(c) + input.subrange(i + 1, j) =~= st.cur + input.subrange(i, j));
    }
}

proof fn lemma_tok_step_space(input: Seq<char>, i: int, st: TokSt)
    requires
        0 <= i < input.len(),
        input[i] == ' ',
        !st.esc,
        !st.quote,
        st.depth == 0,
        st.cur.len() > 0,
    ensures
        tok_run(input, " "@, i, st) == tok_run(
            input,
            " "@,
            i + 1,
            TokSt { toks: st.toks.push(st.cur), cur: Seq::empty(), ..st },
        ),
{
    reveal_strlit(" ");
    assert(input.subrange(i, i + 1) =~= " "@);
}

proof fn lemma_tok_step_open(input: Seq<char>, i: int, st: TokSt)
    requires
        0 <= i < input.len(),
        input[i] == '(',
        !st.esc,
        !st.quote,
    ensures
        tok_run(input, " "@, i, st) == tok_run(
            input,
            " "@,
            i + 1,
            TokSt { cur: st.cur.push('('), depth: st.depth + 1, ..st },
        ),
{
}

proof fn lemma_tok_step_close(input: Seq<char>, i: int, st: TokSt)
    requires
        0 <= i < input.len(),
        input[i] == ')',
        !st.esc,
        !st.quote,
        st.depth == 1,
    ensures
        tok_run(input, " "@, i, st) == tok_run(
            input,
            " "@,
            i + 1,
            TokSt { cur: st.cur.push(')'), depth: 0, ..st },
        ),
{
}

/// Any integer literal consists of plain characters only.
proof fn lemma_literal_plain(s: Seq<char>)
    requires
        spec_parse_i64(s) is Some,
    ensures
        forall|k: int| 0 <= k < s.len() ==> is_plain_c(#[trigger] s[k]),
{
    lemma_int_literal_chars(s);
}

/// The splitter turns `( x )` from a clean state into `x`'s characters
/// appended to the pending token, parentheses included, with the depth
/// restored.
proof fn lemma_tok_run_wrapped(input: Seq<char>, i: int, x: Seq<char>, st: TokSt)
    requires
        0 <= i,
        i + x.len() + 2 <= input.len(),
        input[i] == '(',
        input.subrange(i + 1, i + 1 + x.len()) == x,
        input[i + 1 + x.len()] == ')',
        forall|k: int| 0 <= k < x.len() ==> is_plain_c(#[trigger] x[k]),
        !st.esc,
        !st.quote,
        st.depth == 0,
    ensures
        tok_run(input, " "@, i, st) == tok_run(
            input,
            " "@,
            i + x.len() + 2,
            TokSt { cur: st.cur + seq!['('] + x + seq![')'], ..st },
        ),
{
    lemma_tok_step_open(input, i, st);
    let st1 = TokSt { cur: st.cur.push('('), depth: st.depth + 1, ..st };
    assert(forall|k: int|
        i + 1 <= k < i + 1 + x.len() ==> is_plain_c(#[trigger] input[k]) && input[k] == x[k - (i
            + 1)]) by {
        assert(forall|k: int|
            i + 1 <= k < i + 1 + x.len() ==> #[trigger] input[k] == input.subrange(
                i + 1,
                i + 1 + x.len(),
            )[k - (i + 1)]);
    }
    lemma_tok_run_plain_until(input, i + 1, i + 1 + x.len(), st1);
    let st2 = TokSt { cur: st1.cur + input.subrange(i + 1, i + 1 + x.len()), ..st1 };
    assert(st2.depth == st.depth + 1);
    lemma_tok_step_close(input, i + 1 + x.len(), st2);
    let st3 = TokSt { cur: st2.cur.push(')'), depth: 0, ..st2 };
    assert(st3.cur =~= st.cur + seq!['('] + x + seq![')']);
    assert(st3 == TokSt { cur: st.cur + seq!['('] + x + seq![')'], ..st });
}

/// Law (structural identity of sums of literals): for any two in-range
/// integer literals `a` and `b`, the texts `a + b` and `(a) + (b)` parse
/// to the same tree, the sum of the two `Integer` nodes.
pub proof fn lemma_sum_of_literals(la: Seq<char>, lb: Seq<char>)
    requires
        spec_parse_i64(la) is Some,
        spec_parse_i64(lb) is Some,
    ensures
        parse_expr_v(la + " + "@ + lb) == Ok::<ExprV, Seq<char>>(
            ExprV::Add(
                Box::new(ExprV::Integer(spec_parse_i64(la)->0 as int)),
                Box::new(ExprV::Integer(spec_parse_i64(lb)->0 as int)),
            ),
        ),
        parse_expr_v(seq!['('] + la + seq![')'] + " + "@ + seq!['('] + lb + seq![')'])
            == parse_expr_v(la + " + "@ + lb),
{
    reveal_strlit(" ");
    reveal_strlit(" + ");
    reveal_strlit("+");
    lemma_sum_split_plain(la, lb);
    lemma_sum_split_wrapped(la, lb);
}

/// `a + b` space-splits into the three expected tokens, and parses as the
/// sum of the two literals.
#[verifier::rlimit(100)]
#[verifier::spinoff_prover]
proof fn lemma_sum_split_plain(la: Seq<char>, lb: Seq<char>)
    requires
        spec_parse_i64(la) is Some,
        spec_parse_i64(lb) is Some,
    ensures
        spec_tokenize(la + " + "@ + lb, " "@) == Ok::<Seq<Seq<char>>, Seq<char>>(
            seq![la, "+"@, lb],
        ),
        parse_expr_v(la + " + "@ + lb) == Ok::<ExprV, Seq<char>>(
            ExprV::Add(
                Box::new(ExprV::Integer(spec_parse_i64(la)->0 as int)),
                Box::new(ExprV::Integer(spec_parse_i64(lb)->0 as int)),
            ),
        ),
{
    reveal_strlit(" ");
    reveal_strlit(" + ");
    reveal_strlit("+");
    reveal_strlit("let ");
    reveal_strlit("if ");
    reveal_strlit("while ");
    reveal_strlit("break ");
    reveal_strlit("return ");
    reveal_strlit("break");
    reveal_strlit("return");
    reveal_with_fuel(crate::parse::parse_expr_v, 2);
    lemma_int_literal_chars(la);
    lemma_int_literal_chars(lb);
    lemma_literal_plain(la);
    lemma_literal_plain(lb);
    let w = la + " + "@ + lb;
    let n1 = la.len() as int;
    assert(w.len() == n1 + 3 + lb.len());
    assert(w.subrange(0, n1) =~= la);
    assert(w[n1] == ' ');
    assert(w[n1 + 1] == '+');
    assert(w[n1 + 2] == ' ');
    assert(w.subrange(n1 + 3, w.len() as int) =~= lb);
    assert(forall|k: int| 0 <= k < n1 ==> #[trigger] w[k] == la[k]);
    assert(forall|k: int|
        n1 + 3 <= k < w.len() ==> #[trigger] w[k] == lb[k - (n1 + 3)]);
    // run the splitter over the five regions
    lemma_tok_run_plain_until(w, 0, n1, tok_init());
    let st1 = TokSt { cur: tok_init().cur + w.subrange(0, n1), ..tok_init() };
    assert(st1.cur =~= la);
    lemma_tok_step_space(w, n1, st1);
    let st2 = TokSt { toks: st1.toks.push(st1.cur), cur: Seq::empty(), ..st1 };
    lemma_tok_run_plain_until(w, n1 + 1, n1 + 2, st2);
    let st3 = TokSt { cur: st2.cur + w.subrange(n1 + 1, n1 + 2), ..st2 };
    assert(st3.cur =~= seq!['+']);
    lemma_tok_step_space(w, n1 + 2, st3);
    let st4 = TokSt { toks: st3.toks.push(st3.cur), cur: Seq::empty(), ..st3 };
    lemma_tok_run_plain_until(w, n1 + 3, w.len() as int, st4);
    let fin = TokSt { cur: st4.cur + w.subrange(n1 + 3, w.len() as int), ..st4 };
    assert(tok_run(w, " "@, w.len() as int, fin) == fin);
    assert(fin.cur =~= lb);
    assert(fin.toks.push(fin.cur) =~= seq![la, "+"@, lb]) by {
        assert(seq!['+'] =~= "+"@);
    }
    assert(spec_tokenize(w, " "@) == Ok::<Seq<Seq<char>>, Seq<char>>(seq![la, "+"@, lb]));
    // the right-most-operator rule fires on the three tokens
    let toks = seq![la, "+"@, lb];
    assert(toks.len() == 3);
    assert(toks[1] == "+"@);
    assert(crate::parse::spec_op_of(toks[1]) == Some(crate::parse::OpKind::Add));
    assert(crate::txt::join_with(toks.subrange(0, 1), " "@) == la) by {
        assert(toks.subrange(0, 1).len() == 1);
        assert(toks.subrange(0, 1)[0] == la);
    }
    assert(crate::txt::join_with(toks.subrange(2, 3), " "@) == lb) by {
        assert(toks.subrange(2, 3).len() == 1);
        assert(toks.subrange(2, 3)[0] == lb);
    }
    lemma_parse_integer_literal(la);
    lemma_parse_integer_literal(lb);
    assert(parse_op_v(w) == Ok::<ExprV, Seq<char>>(
        ExprV::Add(
            Box::new(ExprV::Integer(spec_parse_i64(la)->0 as int)),
            Box::new(ExprV::Integer(spec_parse_i64(lb)->0 as int)),
        ),
    ));
    // the whole text parses through the operator branch
    assert(!is_space_c(w[0]));
    assert(!is_space_c(w.last()));
    assert(crate::txt::trim_front(w) == w);
    assert(crate::txt::trim_back(w) == w);
    assert(trim_view(w) == w);
    assert(!has_prefix_s(w, "let "@)) by {
        if has_prefix_s(w, "let "@) {
            assert(w.subrange(0, "let "@.len() as int)[0] == w[0]);
        }
    }
    assert(!has_prefix_s(w, "if "@)) by {
        if has_prefix_s(w, "if "@) {
            assert(w.subrange(0, "if "@.len() as int)[0] == w[0]);
        }
    }
    assert(!has_prefix_s(w, "while "@)) by {
        if has_prefix_s(w, "while "@) {
            assert(w.subrange(0, "while "@.len() as int)[0] == w[0]);
        }
    }
    assert(!has_prefix_s(w, "break "@)) by {
        if has_prefix_s(w, "break "@) {
            assert(w.subrange(0, "break "@.len() as int)[0] == w[0]);
        }
    }
    assert(!has_prefix_s(w, "return "@)) by {
        if has_prefix_s(w, "return "@) {
            assert(w.subrange(0, "return "@.len() as int)[0] == w[0]);
        }
    }
    assert(w != "break"@) by {
        if w == "break"@ {
            assert(w[0] == 'b');
        }
    }
    assert(w != "return"@) by {
        if w == "return"@ {
            assert(w[0] == 'r');
        }
    }
}

/// `(a) + (b)` space-splits into the three tokens `(a)`, `+`, `(b)`, and
/// each wrapped operand on its own is a single token.
#[verifier::rlimit(100)]
#[verifier::spinoff_prover]
proof fn lemma_wrapped_tokens(la: Seq<char>, lb: Seq<char>)
    requires
        spec_parse_i64(la) is Some,
        spec_parse_i64(lb) is Some,
    ensures
        spec_tokenize(
            seq!['('] + la + seq![')'] + " + "@ + seq!['('] + lb + seq![')'],
            " "@,
        ) == Ok::<Seq<Seq<char>>, Seq<char>>(
            seq![seq!['('] + la + seq![')'], "+"@, seq!['('] + lb + seq![')']],
        ),
        spec_tokenize(seq!['('] + la + seq![')'], " "@) == Ok::<Seq<Seq<char>>, Seq<char>>(
            seq![seq!['('] + la + seq![')']],
        ),
        spec_tokenize(seq!['('] + lb + seq![')'], " "@) == Ok::<Seq<Seq<char>>, Seq<char>>(
            seq![seq!['('] + lb + seq![')']],
        ),
{
    reveal_strlit(" ");
    reveal_strlit(" + ");
    reveal_strlit("+");
    lemma_int_literal_chars(la);
    lemma_int_literal_chars(lb);
    lemma_literal_plain(la);
    lemma_literal_plain(lb);
    let wa = seq!['('] + la + seq![')'];
    let wb = seq!['('] + lb + seq![')'];
    let w = wa + " + "@ + wb;
    assert(w =~= seq!['('] + la + seq![')'] + " + "@ + seq!['('] + lb + seq![')']);
    let n1 = wa.len() as int;
    assert(w.subrange(0, n1) =~= wa);
    assert(w[0] == '(');
    assert(w.subrange(1, 1 + la.len() as int) =~= la);
    assert(w[1 + la.len() as int] == ')');
    assert(w[n1] == ' ');
    assert(w[n1 + 1] == '+');
    assert(w[n1 + 2] == ' ');
    assert(w[n1 + 3] == '(');
    assert(w.subrange(n1 + 4, n1 + 4 + lb.len() as int) =~= lb);
    assert(w[n1 + 4 + lb.len() as int] == ')');
    assert(w.len() == n1 + 5 + lb.len());
    // run the splitter: wrapped token, space, plus, space, wrapped token
    lemma_tok_run_wrapped(w, 0, la, tok_init());
    let st1 = TokSt { cur: tok_init().cur + seq!['('] + la + seq![')'], ..tok_init() };
    assert(st1.cur =~= wa);
    lemma_tok_step_space(w, n1, st1);
    let st2 = TokSt { toks: st1.toks.push(st1.cur), cur: Seq::empty(), ..st1 };
    lemma_tok_run_plain_until(w, n1 + 1, n1 + 2, st2);
    let st3 = TokSt { cur: st2.cur + w.subrange(n1 + 1, n1 + 2), ..st2 };
    assert(st3.cur =~= seq!['+']);
    lemma_tok_step_space(w, n1 + 2, st3);
    let st4 = TokSt { toks: st3.toks.push(st3.cur), cur: Seq::empty(), ..st3 };
    lemma_tok_run_wrapped(w, n1 + 3, lb, st4);
    let fin = TokSt { cur: st4.cur + seq!['('] + lb + seq![')'], ..st4 };
    assert(tok_run(w, " "@, w.len() as int, fin) == fin);
    assert(fin.cur =~= wb);
    assert(fin.toks.push(fin.cur) =~= seq![wa, "+"@, wb]) by {
        assert(seq!['+'] =~= "+"@);
    }
    assert(spec_tokenize(w, " "@) == Ok::<Seq<Seq<char>>, Seq<char>>(seq![wa, "+"@, wb]));
    assert(wa.len() == la.len() + 2);
    assert(wa[0] == '(');
    assert(wa.subrange(1, 1 + la.len() as int) =~= la);
    assert(wa[1 + la.len() as int] == ')');
    lemma_tok_run_wrapped(wa, 0, la, tok_init());
    assert(tok_init().cur + seq!['('] + la + seq![')'] =~= wa);
    assert(tok_init().toks.push(wa) =~= seq![wa]);
    assert(spec_tokenize(wa, " "@) == Ok::<Seq<Seq<char>>, Seq<char>>(seq![wa]));
    assert(wb.len() == lb.len() + 2);
    assert(wb[0] == '(');
    assert(wb.subrange(1, 1 + lb.len() as int) =~= lb);
    assert(wb[1 + lb.len() as int] == ')');
    lemma_tok_run_wrapped(wb, 0, lb, tok_init());
    assert(tok_init().cur + seq!['('] + lb + seq![')'] =~= wb);
    assert(tok_init().toks.push(wb) =~= seq![wb]);
    assert(spec_tokenize(wb, " "@) == Ok::<Seq<Seq<char>>, Seq<char>>(seq![wb]));
}

/// `(a) + (b)` parses to the same tree as `a + b`.
#[verifier::rlimit(100)]
#[verifier::spinoff_prover]
proof fn lemma_sum_split_wrapped(la: Seq<char>, lb: Seq<char>)
    requires
        spec_parse_i64(la) is Some,
        spec_parse_i64(lb) is Some,
    ensures
        parse_expr_v(seq!['('] + la + seq![')'] + " + "@ + seq!['('] + lb + seq![')'])
            == parse_expr_v(la + " + "@ + lb),
{
    reveal_strlit(" ");
    reveal_strlit(" + ");
    reveal_strlit("+");
    reveal_strlit("let ");
    reveal_strlit("if ");
    reveal_strlit("while ");
    reveal_strlit("break ");
    reveal_strlit("return ");
    reveal_strlit("break");
    reveal_strlit("return");
    reveal_with_fuel(crate::parse::parse_expr_v, 2);
    let wa = seq!['('] + la + seq![')'];
    let wb = seq!['('] + lb + seq![')'];
    let w = wa + " + "@ + wb;
    assert(w =~= seq!['('] + la + seq![')'] + " + "@ + seq!['('] + lb + seq![')']);
    assert(w.len() == wa.len() + 3 + wb.len());
    assert(w[0] == wa[0]);
    assert(wa[0] == '(');
    assert(w[w.len() - 1] == wb[wb.len() - 1]);
    assert(wb[wb.len() - 1] == ')');
    lemma_wrapped_tokens(la, lb);
    lemma_sum_split_plain(la, lb);
    lemma_paren_wrap(la);
    lemma_paren_wrap(lb);
    lemma_parse_integer_literal(la);
    lemma_parse_integer_literal(lb);
    // the right-most-operator rule fires on the three tokens
    let toks = seq![wa, "+"@, wb];
    assert(toks.len() == 3);
    assert(toks[1] == "+"@);
    assert(crate::parse::spec_op_of(toks[1]) == Some(crate::parse::OpKind::Add));
    assert(crate::txt::join_with(toks.subrange(0, 1), " "@) == wa) by {
        assert(toks.subrange(0, 1).len() == 1);
        assert(toks.subrange(0, 1)[0] == wa);
    }
    assert(crate::txt::join_with(toks.subrange(2, 3), " "@) == wb) by {
        assert(toks.subrange(2, 3).len() == 1);
        assert(toks.subrange(2, 3)[0] == wb);
    }
    assert(parse_op_v(w) == Ok::<ExprV, Seq<char>>(
        ExprV::Add(
            Box::new(ExprV::Integer(spec_parse_i64(la)->0 as int)),
            Box::new(ExprV::Integer(spec_parse_i64(lb)->0 as int)),
        ),
    ));
    // the whole text parses through the operator branch
    assert(!is_space_c(w[0]));
    assert(!is_space_c(w.last()));
    assert(crate::txt::trim_front(w) == w);
    assert(crate::txt::trim_back(w) == w);
    assert(trim_view(w) == w);
    assert(!has_prefix_s(w, "let "@)) by {
        if has_prefix_s(w, "let "@) {
            assert(w.subrange(0, "let "@.len() as int)[0] == w[0]);
        }
    }
    assert(!has_prefix_s(w, "if "@)) by {
        if has_prefix_s(w, "if "@) {
            assert(w.subrange(0, "if "@.len() as int)[0] == w[0]);
        }
    }
    assert(!has_prefix_s(w, "while "@)) by {
        if has_prefix_s(w, "while "@) {
            assert(w.subrange(0, "while "@.len() as int)[0] == w[0]);
        }
    }
    assert(!has_prefix_s(w, "break "@)) by {
        if has_prefix_s(w, "break "@) {
            assert(w.subrange(0, "break "@.len() as int)[0] == w[0]);
        }
    }
    assert(!has_prefix_s(w, "return "@)) by {
        if has_prefix_s(w, "return "@) {
            assert(w.subrange(0, "return "@.len() as int)[0] == w[0]);
        }
    }
    assert(w != "break"@) by {
        if w == "break"@ {
            assert(w[0] == 'b');
        }
    }
    assert(w != "return"@) by {
        if w == "return"@ {
            assert(w[0] == 'r');
        }
    }
}

} // verus!
