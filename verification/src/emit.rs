//! Single-pass code generator: [`Define`] trees to one translation unit of
//! x86-64 assembly text in Intel syntax. The emitted text, the label
//! counter, the interned data section and the extern-symbol table are
//! specified exactly by a mirror over `Seq<char>` ([`emit_unit_v`]).
use crate::iset::{
    first_idx, iset_clone, iset_elems, iset_get, iset_get_index_of, iset_insert, iset_len,
    iset_new, iset_shift_remove, lemma_first_idx, lemma_first_idx_unique,
};
use crate::lex::matches_at;
use crate::parse::defines_view;
use crate::txt::{
    chars_of, dec_int, dec_nat, fmt_i64, fmt_u128, fmt_usize, push_lit, push_vec, string_of,
};
use crate::{Define, DefineV, Expr, ExprV, Size};
use vstd::prelude::*;

verus! {

/// Global emission state: the label counter, the data section, and the
/// referenced-global table (in first-reference order).
pub struct GCtxV {
    pub idx: nat,
    pub data: Seq<char>,
    pub func: Seq<Seq<char>>,
}

/// Per-function emission state: the local slots (parameters first, then
/// `let`-introduced names), and the stack of enclosing loop labels.
pub struct FCtxV {
    pub var: Seq<Seq<char>>,
    pub jmp: Seq<nat>,
}

pub open spec fn msg_no_while() -> Seq<char> {
    "while loop not found"@
}

pub open spec fn msg_undefined(v: Seq<char>) -> Seq<char> {
    "undefined variable: "@ + v
}

pub open spec fn msg_invalid_assign() -> Seq<char> {
    "invalid assign to"@
}

pub open spec fn msg_label_overflow() -> Seq<char> {
    "label counter overflow"@
}

/// The register holding the `i`-th integer argument (System V AMD64).
pub open spec fn reg_name(i: int) -> Seq<char> {
    if i == 0 {
        "rdi"@
    } else if i == 1 {
        "rsi"@
    } else if i == 2 {
        "rdx"@
    } else if i == 3 {
        "rcx"@
    } else if i == 4 {
        "r8"@
    } else if i == 5 {
        "r9"@
    } else {
        Seq::empty()
    }
}

/// Allocate a fresh label id; fails only when the counter has exhausted
/// the machine word.
pub open spec fn alloc_v(g: GCtxV) -> Result<(nat, GCtxV), Seq<char>> {
    if g.idx >= usize::MAX as nat {
        Err(msg_label_overflow())
    } else {
        Ok((g.idx, GCtxV { idx: g.idx + 1, ..g }))
    }
}

/// The shared binary-operator template: left operand, push, right operand,
/// then `<mnem> rax, r10`.
pub open spec fn op_text(mnem: Seq<char>, lt: Seq<char>, rt: Seq<char>) -> Seq<char> {
    lt + "\tpush rax\n"@ + rt + "\tmov r10, rax\n\tpop rax\n\t"@ + mnem + " rax, r10\n"@
}

/// A comparison: the `cmp` template followed by `set<cc>` and zero-extension.
pub open spec fn cmp_text(cc: Seq<char>, lt: Seq<char>, rt: Seq<char>) -> Seq<char> {
    op_text("cmp"@, lt, rt) + "\tset"@ + cc + " al\n\tmovzx rax, al\n"@
}

/// Signed division: dividend sign-extended to `rdx:rax`, divisor in `rsi`.
pub open spec fn div_text(lt: Seq<char>, rt: Seq<char>) -> Seq<char> {
    lt + "\tpush rax\n"@ + rt + "\tmov rsi, rax\n\tpop rax\n\tcqo\n\tidiv rsi\n"@
}

pub open spec fn if_text(id: nat, ct: Seq<char>, tt: Seq<char>) -> Seq<char> {
    "if."@ + dec_nat(id) + ":\n"@ + ct + "\tcmp rax, 0\n\tje end_if."@ + dec_nat(id) + "\n"@ + tt
        + "end_if."@ + dec_nat(id) + ":\n"@
}

pub open spec fn if_else_text(id: nat, ct: Seq<char>, tt: Seq<char>, et: Seq<char>) -> Seq<char> {
    "if."@ + dec_nat(id) + ":\n"@ + ct + "\tcmp rax, 0\n\tje else."@ + dec_nat(id) + "\n"@ + tt
        + "\tjmp end_if."@ + dec_nat(id) + "\nelse."@ + dec_nat(id) + ":\n"@ + et + "end_if."@
        + dec_nat(id) + ":\n"@
}

pub open spec fn while_text(id: nat, ct: Seq<char>, bt: Seq<char>) -> Seq<char> {
    "while."@ + dec_nat(id) + ":\n"@ + ct + "\tcmp rax, 0\n\tje end_while."@ + dec_nat(id) + "\n"@
        + bt + "\tjmp while."@ + dec_nat(id) + "\nend_while."@ + dec_nat(id) + ":\n"@
}

/// Load of local slot `i` (zero-based).
pub open spec fn var_local_text(i: int) -> Seq<char> {
    "\tmov rax, [rbp-"@ + dec_nat((8 * (i + 1)) as nat) + "]\n"@
}

pub open spec fn var_global_text(n: Seq<char>) -> Seq<char> {
    "\tlea rax, ["@ + n + "]\n"@
}

pub open spec fn ptr_local_text(i: int) -> Seq<char> {
    "\tlea rax, [rbp-"@ + dec_nat((8 * (i + 1)) as nat) + "]\n"@
}

/// The load through `rax` at the given width, zero-extended into `rax`.
pub open spec fn load_text(sz: Size) -> Seq<char> {
    match sz {
        Size::Byte => "\tmovzx rax, byte [rax]\n"@,
        Size::Word => "\tmovzx rax, word [rax]\n"@,
        Size::Long => "\tmov eax, dword [rax]\n"@,
        Size::Normal => "\tmov rax, [rax]\n"@,
    }
}

/// The store of `r10` through `rax` at the given width.
pub open spec fn store_text(sz: Size) -> Seq<char> {
    match sz {
        Size::Byte => "\tmov byte [rax], r10b\n"@,
        Size::Word => "\tmov word [rax], r10w\n"@,
        Size::Long => "\tmov dword [rax], r10d\n"@,
        Size::Normal => "\tmov qword [rax], r10\n"@,
    }
}

/// Replace every occurrence of `pat` in `s` by `sub`, leftmost first,
/// without rescanning replacements.
pub open spec fn replace_all(s: Seq<char>, pat: Seq<char>, sub: Seq<char>) -> Seq<char>
    decreases s.len(),
{
    if pat.len() == 0 {
        s
    } else if s.len() < pat.len() {
        s
    } else if s.subrange(0, pat.len() as int) == pat {
        sub + replace_all(s.subrange(pat.len() as int, s.len() as int), pat, sub)
    } else {
        seq![s[0]] + replace_all(s.drop_first(), pat, sub)
    }
}

/// The body of a string literal as it stands in the data section: newline
/// and quote escapes rewritten to byte lists.
pub open spec fn strlit_data(v: Seq<char>) -> Seq<char> {
    replace_all(replace_all(v, "\\n"@, "\", 10, \""@), "\\\""@, "\", 34, \""@)
}

/// `\tpop` lines for the first `k` argument registers, in order.
pub open spec fn pops_text(k: int) -> Seq<char>
    decreases k,
{
    if k <= 0 {
        Seq::empty()
    } else {
        pops_text(k - 1) + "\tpop "@ + reg_name(k - 1) + "\n"@
    }
}

/// What emitting expression `e` produces: the text, and the successor
/// global and function states; or the first error met, walking the tree in
/// emission order.
pub open spec fn emit_expr_v(e: ExprV, g: GCtxV, f: FCtxV) -> Result<
    (Seq<char>, GCtxV, FCtxV),
    Seq<char>,
>
    decreases e,
{
    match e {
        ExprV::Integer(v) => Ok(("\tmov rax, "@ + dec_int(v) + "\n"@, g, f)),
        ExprV::Strlit(v) => match alloc_v(g) {
            Err(e1) => Err(e1),
            Ok(p) => {
                let name = "str."@ + dec_nat(p.0);
                let code = "\t"@ + name + " db "@ + strlit_data(v) + ", 0\n"@;
                let g2 = GCtxV { data: p.1.data + code, ..p.1 };
                Ok(("\tmov rax, "@ + name + "\n"@, g2, f))
            },
        },
        ExprV::Undefined => Ok((Seq::empty(), g, f)),
        ExprV::Variable(n) => {
            if f.var.contains(n) {
                Ok((var_local_text(first_idx(f.var, n)), g, f))
            } else {
                let g2 = GCtxV {
                    func: if g.func.contains(n) {
                        g.func
                    } else {
                        g.func.push(n)
                    },
                    ..g
                };
                Ok((var_global_text(n), g2, f))
            }
        },
        ExprV::Pointer(n) => {
            if f.var.contains(n) {
                Ok((ptr_local_text(first_idx(f.var, n)), g, f))
            } else {
                Err(msg_undefined(n))
            }
        },
        ExprV::Derefer(x, sz) => match emit_expr_v(*x, g, f) {
            Err(e1) => Err(e1),
            Ok(p) => Ok((p.0 + load_text(sz), p.1, p.2)),
        },
        ExprV::Call(callee, args) => match emit_args_v(args, g, f) {
            Err(e1) => Err(e1),
            Ok(p1) => match emit_expr_v(*callee, p1.1, p1.2) {
                Err(e1) => Err(e1),
                Ok(p2) => Ok(
                    (
                        p1.0 + pops_text(
                            if args.len() < 6 {
                                args.len() as int
                            } else {
                                6
                            },
                        ) + p2.0 + "\tmov r10, rax\n\txor rax, rax\n\tcall r10\n"@,
                        p2.1,
                        p2.2,
                    ),
                ),
            },
        },
        ExprV::Block(es) => emit_block_v(es, g, f),
        ExprV::Let(l, r) => match *l {
            ExprV::Variable(n) => {
                let known = f.var.contains(n);
                let i = if known {
                    first_idx(f.var, n)
                } else {
                    f.var.len() as int
                };
                let f1 = if known {
                    f
                } else {
                    FCtxV { var: f.var.push(n), ..f }
                };
                match emit_expr_v(*r, g, f1) {
                    Err(e1) => Err(e1),
                    Ok(p) => Ok(
                        (p.0 + "\tmov [rbp-"@ + dec_nat((8 * (i + 1)) as nat) + "], rax\n"@, p.1, p.2),
                    ),
                }
            },
            ExprV::Derefer(ptr, sz) => match emit_expr_v(*r, g, f) {
                Err(e1) => Err(e1),
                Ok(p1) => match emit_expr_v(*ptr, p1.1, p1.2) {
                    Err(e1) => Err(e1),
                    Ok(p2) => Ok(
                        (p1.0 + "\tpush rax\n"@ + p2.0 + "\tpop r10\n"@ + store_text(sz), p2.1, p2.2),
                    ),
                },
            },
            _ => Err(msg_invalid_assign()),
        },
        ExprV::If(c, t, els) => match alloc_v(g) {
            Err(e1) => Err(e1),
            Ok(pa) => match emit_expr_v(*c, pa.1, f) {
                Err(e1) => Err(e1),
                Ok(p1) => match els {
                    Some(eb) => match emit_expr_v(*t, p1.1, p1.2) {
                        Err(e1) => Err(e1),
                        Ok(p2) => match emit_expr_v(*eb, p2.1, p2.2) {
                            Err(e1) => Err(e1),
                            Ok(p3) => Ok((if_else_text(pa.0, p1.0, p2.0, p3.0), p3.1, p3.2)),
                        },
                    },
                    None => match emit_expr_v(*t, p1.1, p1.2) {
                        Err(e1) => Err(e1),
                        Ok(p2) => Ok((if_text(pa.0, p1.0, p2.0), p2.1, p2.2)),
                    },
                },
            },
        },
        ExprV::While(c, b) => match alloc_v(g) {
            Err(e1) => Err(e1),
            Ok(pa) => {
                let f1 = FCtxV { jmp: f.jmp.push(pa.0), ..f };
                match emit_expr_v(*c, pa.1, f1) {
                    Err(e1) => Err(e1),
                    Ok(p1) => match emit_expr_v(*b, p1.1, p1.2) {
                        Err(e1) => Err(e1),
                        Ok(p2) => Ok(
                            (
                                while_text(pa.0, p1.0, p2.0),
                                p2.1,
                                FCtxV {
                                    jmp: if p2.2.jmp.len() > 0 {
                                        p2.2.jmp.drop_last()
                                    } else {
                                        p2.2.jmp
                                    },
                                    ..p2.2
                                },
                            ),
                        ),
                    },
                }
            },
        },
        ExprV::Break(x) => {
            if f.jmp.len() == 0 {
                Err(msg_no_while())
            } else {
                match emit_expr_v(*x, g, f) {
                    Err(e1) => Err(e1),
                    Ok(p) => Ok(
                        (p.0 + "\tjmp end_while."@ + dec_nat(f.jmp.last()) + "\n"@, p.1, p.2),
                    ),
                }
            }
        },
        ExprV::Return(x) => match emit_expr_v(*x, g, f) {
            Err(e1) => Err(e1),
            Ok(p) => Ok((p.0 + "\tleave\n\tret\n"@, p.1, p.2)),
        },
        ExprV::Add(l, r) => match emit_expr_v(*l, g, f) {
            Err(e1) => Err(e1),
            Ok(p1) => match emit_expr_v(*r, p1.1, p1.2) {
                Err(e1) => Err(e1),
                Ok(p2) => Ok((op_text("add"@, p1.0, p2.0), p2.1, p2.2)),
            },
        },
        ExprV::Sub(l, r) => match emit_expr_v(*l, g, f) {
            Err(e1) => Err(e1),
            Ok(p1) => match emit_expr_v(*r, p1.1, p1.2) {
                Err(e1) => Err(e1),
                Ok(p2) => Ok((op_text("sub"@, p1.0, p2.0), p2.1, p2.2)),
            },
        },
        ExprV::Mul(l, r) => match emit_expr_v(*l, g, f) {
            Err(e1) => Err(e1),
            Ok(p1) => match emit_expr_v(*r, p1.1, p1.2) {
                Err(e1) => Err(e1),
                Ok(p2) => Ok((op_text("imul"@, p1.0, p2.0), p2.1, p2.2)),
            },
        },
        ExprV::And(l, r) => match emit_expr_v(*l, g, f) {
            Err(e1) => Err(e1),
            Ok(p1) => match emit_expr_v(*r, p1.1, p1.2) {
                Err(e1) => Err(e1),
                Ok(p2) => Ok((op_text("and"@, p1.0, p2.0), p2.1, p2.2)),
            },
        },
        ExprV::Or(l, r) => match emit_expr_v(*l, g, f) {
            Err(e1) => Err(e1),
            Ok(p1) => match emit_expr_v(*r, p1.1, p1.2) {
                Err(e1) => Err(e1),
                Ok(p2) => Ok((op_text("or"@, p1.0, p2.0), p2.1, p2.2)),
            },
        },
        ExprV::Xor(l, r) => match emit_expr_v(*l, g, f) {
            Err(e1) => Err(e1),
            Ok(p1) => match emit_expr_v(*r, p1.1, p1.2) {
                Err(e1) => Err(e1),
                Ok(p2) => Ok((op_text("xor"@, p1.0, p2.0), p2.1, p2.2)),
            },
        },
        ExprV::Eql(l, r) => match emit_expr_v(*l, g, f) {
            Err(e1) => Err(e1),
            Ok(p1) => match emit_expr_v(*r, p1.1, p1.2) {
                Err(e1) => Err(e1),
                Ok(p2) => Ok((cmp_text("e"@, p1.0, p2.0), p2.1, p2.2)),
            },
        },
        ExprV::NotEq(l, r) => match emit_expr_v(*l, g, f) {
            Err(e1) => Err(e1),
            Ok(p1) => match emit_expr_v(*r, p1.1, p1.2) {
                Err(e1) => Err(e1),
                Ok(p2) => Ok((cmp_text("ne"@, p1.0, p2.0), p2.1, p2.2)),
            },
        },
        ExprV::Gt(l, r) => match emit_expr_v(*l, g, f) {
            Err(e1) => Err(e1),
            Ok(p1) => match emit_expr_v(*r, p1.1, p1.2) {
                Err(e1) => Err(e1),
                Ok(p2) => Ok((cmp_text("g"@, p1.0, p2.0), p2.1, p2.2)),
            },
        },
        ExprV::Lt(l, r) => match emit_expr_v(*l, g, f) {
            Err(e1) => Err(e1),
            Ok(p1) => match emit_expr_v(*r, p1.1, p1.2) {
                Err(e1) => Err(e1),
                Ok(p2) => Ok((cmp_text("l"@, p1.0, p2.0), p2.1, p2.2)),
            },
        },
        ExprV::GtEq(l, r) => match emit_expr_v(*l, g, f) {
            Err(e1) => Err(e1),
            Ok(p1) => match emit_expr_v(*r, p1.1, p1.2) {
                Err(e1) => Err(e1),
                Ok(p2) => Ok((cmp_text("ge"@, p1.0, p2.0), p2.1, p2.2)),
            },
        },
        ExprV::LtEq(l, r) => match emit_expr_v(*l, g, f) {
            Err(e1) => Err(e1),
            Ok(p1) => match emit_expr_v(*r, p1.1, p1.2) {
                Err(e1) => Err(e1),
                Ok(p2) => Ok((cmp_text("le"@, p1.0, p2.0), p2.1, p2.2)),
            },
        },
        ExprV::Div(l, r) => match emit_expr_v(*l, g, f) {
            Err(e1) => Err(e1),
            Ok(p1) => match emit_expr_v(*r, p1.1, p1.2) {
                Err(e1) => Err(e1),
                Ok(p2) => Ok((div_text(p1.0, p2.0), p2.1, p2.2)),
            },
        },
        ExprV::Mod(l, r) => match emit_expr_v(*l, g, f) {
            Err(e1) => Err(e1),
            Ok(p1) => match emit_expr_v(*r, p1.1, p1.2) {
                Err(e1) => Err(e1),
                Ok(p2) => Ok((div_text(p1.0, p2.0) + "\tmov rax, rdx\n"@, p2.1, p2.2)),
            },
        },
    }
}

/// Emit each block line in order, concatenating the texts.
pub open spec fn emit_block_v(es: Seq<ExprV>, g: GCtxV, f: FCtxV) -> Result<
    (Seq<char>, GCtxV, FCtxV),
    Seq<char>,
>
    decreases es,
{
    if es.len() == 0 {
        Ok((Seq::empty(), g, f))
    } else {
        match emit_expr_v(es[0], g, f) {
            Err(e1) => Err(e1),
            Ok(p1) => match emit_block_v(es.drop_first(), p1.1, p1.2) {
                Err(e1) => Err(e1),
                Ok(p2) => Ok((p1.0 + p2.0, p2.1, p2.2)),
            },
        }
    }
}

/// Emit the call arguments right to left, each followed by a push.
pub open spec fn emit_args_v(args: Seq<ExprV>, g: GCtxV, f: FCtxV) -> Result<
    (Seq<char>, GCtxV, FCtxV),
    Seq<char>,
>
    decreases args,
{
    if args.len() == 0 {
        Ok((Seq::empty(), g, f))
    } else {
        match emit_expr_v(args.last(), g, f) {
            Err(e1) => Err(e1),
            Ok(p1) => match emit_args_v(args.drop_last(), p1.1, p1.2) {
                Err(e1) => Err(e1),
                Ok(p2) => Ok((p1.0 + "\tpush rax\n"@ + p2.0, p2.1, p2.2)),
            },
        }
    }
}

/// One prologue line: spill parameter `i` from its register, or fetch it
/// from the caller's stack.
pub open spec fn prologue_line(i: int) -> Seq<char> {
    if i < 6 {
        "\tmov qword [rbp-"@ + dec_nat((8 + 8 * i) as nat) + "], "@ + reg_name(i) + "\n"@
    } else {
        "\tmov rax, [rbp+"@ + dec_nat(((i - 4) * 8) as nat) + "]\n\tmov qword [rbp-"@ + dec_nat(
            (8 + 8 * i) as nat,
        ) + "], rax\n"@
    }
}

/// The prologue lines for `k` parameters.
pub open spec fn prologue_v(k: int) -> Seq<char>
    decreases k,
{
    if k <= 0 {
        Seq::empty()
    } else {
        prologue_v(k - 1) + prologue_line(k - 1)
    }
}

/// The frame size for `l` local slots: `8·l` rounded up to a multiple of 16.
pub open spec fn frame_bytes(l: nat) -> nat {
    if (8 * l) % 16 == 0 {
        8 * l
    } else {
        8 * l + 8
    }
}

/// One function's text: label, standard prologue, spills, body, epilogue.
pub open spec fn func_text(name: Seq<char>, frame: nat, pro: Seq<char>, body: Seq<char>) -> Seq<
    char,
> {
    name + ":\n\tpush rbp\n\tmov rbp, rsp\n\tsub rsp, "@ + dec_nat(frame) + "\n"@ + pro + body
        + "\tleave\n\tret\n\n"@
}

/// Emit every function in order, threading the global state through.
pub open spec fn emit_funcs_v(ds: Seq<DefineV>, g: GCtxV) -> Result<(Seq<char>, GCtxV), Seq<char>>
    decreases ds.len(),
{
    if ds.len() == 0 {
        Ok((Seq::empty(), g))
    } else {
        let d = ds[0];
        let f0 = FCtxV { var: d.params, jmp: Seq::empty() };
        match emit_expr_v(d.body, g, f0) {
            Err(e1) => Err(e1),
            Ok(p1) => match emit_funcs_v(ds.drop_first(), p1.1) {
                Err(e1) => Err(e1),
                Ok(p2) => Ok(
                    (
                        func_text(
                            d.name,
                            frame_bytes(p1.2.var.len()),
                            prologue_v(d.params.len() as int),
                            p1.0,
                        ) + p2.0,
                        p2.1,
                    ),
                ),
            },
        }
    }
}

/// Remove the first element equal to `x`, if any.
pub open spec fn remove_first(es: Seq<Seq<char>>, x: Seq<char>) -> Seq<Seq<char>> {
    if es.contains(x) {
        es.remove(first_idx(es, x))
    } else {
        es
    }
}

/// Remove each name in turn from the referenced-global table.
pub open spec fn remove_names(func: Seq<Seq<char>>, names: Seq<Seq<char>>) -> Seq<Seq<char>>
    decreases names.len(),
{
    if names.len() == 0 {
        func
    } else {
        remove_names(remove_first(func, names[0]), names.drop_first())
    }
}

/// One `extern` directive per remaining symbol, in order.
pub open spec fn extern_lines(es: Seq<Seq<char>>) -> Seq<char>
    decreases es.len(),
{
    if es.len() == 0 {
        Seq::empty()
    } else {
        extern_lines(es.drop_last()) + "\textern "@ + es.last() + "\n"@
    }
}

pub open spec fn names_of(ds: Seq<DefineV>) -> Seq<Seq<char>> {
    ds.map_values(|d: DefineV| d.name)
}

/// What [`Define::emit`] returns: the whole translation unit, or the first
/// error met.
pub open spec fn emit_unit_v(ds: Seq<DefineV>) -> Result<Seq<char>, Seq<char>> {
    let g0 = GCtxV { idx: 0, data: Seq::empty(), func: Seq::empty() };
    match emit_funcs_v(ds, g0) {
        Err(e1) => Err(e1),
        Ok(p) => {
            let ex = extern_lines(remove_names(p.1.func, names_of(ds)));
            Ok(
                "section .data\n"@ + p.1.data + "\nsection .text\n\tglobal main\n"@ + ex + "\n"@
                    + p.0 + "\n"@,
            )
        },
    }
}

struct Global {
    idx: usize,
    data: Vec<char>,
    func: indexmap::IndexSet<String>,
}

struct FnState {
    var: indexmap::IndexSet<String>,
    jmp: Vec<usize>,
}

struct Context {
    global: Global,
    local: FnState,
}

spec fn gvc(c: Context) -> GCtxV {
    GCtxV { idx: c.global.idx as nat, data: c.global.data@, func: iset_elems(c.global.func) }
}

spec fn fvc(c: Context) -> FCtxV {
    FCtxV { var: iset_elems(c.local.var), jmp: c.local.jmp@.map_values(|x: usize| x as nat) }
}

fn op_combine(lt: &Vec<char>, rt: &Vec<char>, mnem: &str) -> (r: Vec<char>)
    ensures
        r@ == op_text(mnem@, lt@, rt@),
{
    let mut out: Vec<char> = Vec::new();
    push_vec(&mut out, lt);
    push_lit(&mut out, "\tpush rax\n");
    push_vec(&mut out, rt);
    push_lit(&mut out, "\tmov r10, rax\n\tpop rax\n\t");
    push_lit(&mut out, mnem);
    push_lit(&mut out, " rax, r10\n");
    proof {
        assert(out@ =~= op_text(mnem@, lt@, rt@));
    }
    out
}

fn cmp_combine(lt: &Vec<char>, rt: &Vec<char>, cc: &str) -> (r: Vec<char>)
    ensures
        r@ == cmp_text(cc@, lt@, rt@),
{
    let mut out = op_combine(lt, rt, "cmp");
    push_lit(&mut out, "\tset");
    push_lit(&mut out, cc);
    push_lit(&mut out, " al\n\tmovzx rax, al\n");
    proof {
        assert(out@ =~= cmp_text(cc@, lt@, rt@));
    }
    out
}

fn div_combine(lt: &Vec<char>, rt: &Vec<char>) -> (r: Vec<char>)
    ensures
        r@ == div_text(lt@, rt@),
{
    let mut out: Vec<char> = Vec::new();
    push_vec(&mut out, lt);
    push_lit(&mut out, "\tpush rax\n");
    push_vec(&mut out, rt);
    push_lit(&mut out, "\tmov rsi, rax\n\tpop rax\n\tcqo\n\tidiv rsi\n");
    proof {
        assert(out@ =~= div_text(lt@, rt@));
    }
    out
}

fn reg_of(i: usize) -> (r: &'static str)
    ensures
        r@ == reg_name(i as int),
{
    proof {
        reveal_strlit("");
        assert(""@ =~= Seq::<char>::empty());
    }
    if i == 0 {
        "rdi"
    } else if i == 1 {
        "rsi"
    } else if i == 2 {
        "rdx"
    } else if i == 3 {
        "rcx"
    } else if i == 4 {
        "r8"
    } else if i == 5 {
        "r9"
    } else {
        ""
    }
}

fn alloc_id(g: &mut Global) -> (r: Result<usize, Vec<char>>)
    ensures
        match r {
            Ok(id) => alloc_v(
                GCtxV {
                    idx: old(g).idx as nat,
                    data: old(g).data@,
                    func: iset_elems(old(g).func),
                },
            ) == Ok::<(nat, GCtxV), Seq<char>>(
                (
                    id as nat,
                    GCtxV {
                        idx: final(g).idx as nat,
                        data: final(g).data@,
                        func: iset_elems(final(g).func),
                    },
                ),
            ),
            Err(m) => alloc_v(
                GCtxV {
                    idx: old(g).idx as nat,
                    data: old(g).data@,
                    func: iset_elems(old(g).func),
                },
            ) == Err::<(nat, GCtxV), Seq<char>>(m@) && *final(g) == *old(g),
        },
{
    if g.idx == usize::MAX {
        Err(chars_of("label counter overflow"))
    } else {
        let id = g.idx;
        g.idx = g.idx + 1;
        Ok(id)
    }
}

/// Replace every occurrence of `pat` in `s` by `sub`, leftmost first.
fn replace_vec(s: &Vec<char>, pat: &Vec<char>, sub: &Vec<char>) -> (r: Vec<char>)
    requires
        pat@.len() >= 1,
    ensures
        r@ == replace_all(s@, pat@, sub@),
{
    let mut out: Vec<char> = Vec::new();
    let mut i: usize = 0;
    let n = s.len();
    let plen = pat.len();
    proof {
        assert(s@.subrange(0, s@.len() as int) =~= s@);
        assert(out@ + replace_all(s@, pat@, sub@) =~= replace_all(s@, pat@, sub@));
    }
    while i < n
        invariant
            0 <= i <= n,
            n == s@.len(),
            plen == pat@.len(),
            plen >= 1,
            replace_all(s@, pat@, sub@) == out@ + replace_all(
                s@.subrange(i as int, s@.len() as int),
                pat@,
                sub@,
            ),
        decreases n - i,
    {
        let ghost rem = s@.subrange(i as int, s@.len() as int);
        let ghost out0 = out@;
        if matches_at(s, i, pat) {
            push_vec(&mut out, sub);
            proof {
                assert(rem.subrange(0, pat@.len() as int) =~= s@.subrange(
                    i as int,
                    i + pat@.len(),
                ));
                let rem2 = s@.subrange(i + pat@.len(), s@.len() as int);
                assert(rem.subrange(pat@.len() as int, rem.len() as int) =~= rem2);
                assert(replace_all(rem, pat@, sub@) == sub@ + replace_all(rem2, pat@, sub@));
                assert(out0 + (sub@ + replace_all(rem2, pat@, sub@)) =~= (out0 + sub@)
                    + replace_all(rem2, pat@, sub@));
            }
            proof {
                assert(replace_all(s@, pat@, sub@) == (out0 + sub@) + replace_all(
                    s@.subrange(i + pat@.len(), s@.len() as int),
                    pat@,
                    sub@,
                ));
            }
            assert(replace_all(s@, pat@, sub@) == out@ + replace_all(
                s@.subrange(i + plen, s@.len() as int),
                pat@,
                sub@,
            ));
            i = i + plen;
        } else {
            out.push(s[i]);
            proof {
                let rem2 = s@.subrange(i + 1, s@.len() as int);
                assert(rem.drop_first() =~= rem2);
                assert(rem[0] == s@[i as int]);
                if rem.len() >= pat@.len() {
                    assert(rem.subrange(0, pat@.len() as int) =~= s@.subrange(
                        i as int,
                        i + pat@.len(),
                    ));
                    assert(replace_all(rem, pat@, sub@) == seq![s@[i as int]] + replace_all(
                        rem2,
                        pat@,
                        sub@,
                    ));
                } else {
                    assert(replace_all(rem, pat@, sub@) == rem);
                    assert(rem2.len() < pat@.len());
                    assert(replace_all(rem2, pat@, sub@) == rem2);
                    assert(rem =~= seq![s@[i as int]] + rem2);
                }
                assert(out@ =~= out0 + seq![s@[i as int]]);
                assert(out0 + (seq![s@[i as int]] + replace_all(rem2, pat@, sub@)) =~= (out0
                    + seq![s@[i as int]]) + replace_all(rem2, pat@, sub@));
            }
            assert(replace_all(s@, pat@, sub@) == out@ + replace_all(
                s@.subrange(i + 1, s@.len() as int),
                pat@,
                sub@,
            ));
            i = i + 1;
        }
    }
    proof {
        assert(s@.subrange(i as int, s@.len() as int).len() == 0);
    }
    out
}

fn load_of(sz: Size) -> (r: &'static str)
    ensures
        r@ == load_text(sz),
{
    match sz {
        Size::Byte => "\tmovzx rax, byte [rax]\n",
        Size::Word => "\tmovzx rax, word [rax]\n",
        Size::Long => "\tmov eax, dword [rax]\n",
        Size::Normal => "\tmov rax, [rax]\n",
    }
}

fn store_of(sz: Size) -> (r: &'static str)
    ensures
        r@ == store_text(sz),
{
    match sz {
        Size::Byte => "\tmov byte [rax], r10b\n",
        Size::Word => "\tmov word [rax], r10w\n",
        Size::Long => "\tmov dword [rax], r10d\n",
        Size::Normal => "\tmov qword [rax], r10\n",
    }
}

/// Text of local-slot offset `8 * (i + 1)`.
fn slot_offset(i: usize) -> (r: Vec<char>)
    ensures
        r@ == dec_nat((8 * (i + 1)) as nat),
{
    proof {
        assert((i as u128) <= 0xffffffffffffffffu128);
    }
    let off: u128 = ((i as u128) + 1) * 8;
    proof {
        assert(off as nat == (8 * (i + 1)) as nat) by (nonlinear_arith)
            requires
                off == ((i as u128) + 1) * 8,
                (i as u128) == i as nat,
        ;
    }
    fmt_u128(off)
}


fn build_label_text(pre: &str, idtxt: &Vec<char>, post: &str) -> (r: Vec<char>)
    ensures
        r@ == pre@ + idtxt@ + post@,
{
    let mut out: Vec<char> = Vec::new();
    push_lit(&mut out, pre);
    push_vec(&mut out, idtxt);
    push_lit(&mut out, post);
    proof {
        assert(out@ =~= pre@ + idtxt@ + post@);
    }
    out
}

fn build_if_text(id: usize, idtxt: &Vec<char>, ct: &Vec<char>, tt: &Vec<char>) -> (r: Vec<char>)
    requires
        idtxt@ == dec_nat(id as nat),
    ensures
        r@ == if_text(id as nat, ct@, tt@),
{
    let mut out: Vec<char> = Vec::new();
    push_lit(&mut out, "if.");
    push_vec(&mut out, idtxt);
    push_lit(&mut out, ":\n");
    push_vec(&mut out, ct);
    push_lit(&mut out, "\tcmp rax, 0\n\tje end_if.");
    push_vec(&mut out, idtxt);
    push_lit(&mut out, "\n");
    push_vec(&mut out, tt);
    push_lit(&mut out, "end_if.");
    push_vec(&mut out, idtxt);
    push_lit(&mut out, ":\n");
    proof {
        assert(out@ =~= if_text(id as nat, ct@, tt@));
    }
    out
}

fn build_if_else_text(
    id: usize,
    idtxt: &Vec<char>,
    ct: &Vec<char>,
    tt: &Vec<char>,
    et: &Vec<char>,
) -> (r: Vec<char>)
    requires
        idtxt@ == dec_nat(id as nat),
    ensures
        r@ == if_else_text(id as nat, ct@, tt@, et@),
{
    let mut out: Vec<char> = Vec::new();
    push_lit(&mut out, "if.");
    push_vec(&mut out, idtxt);
    push_lit(&mut out, ":\n");
    push_vec(&mut out, ct);
    push_lit(&mut out, "\tcmp rax, 0\n\tje else.");
    push_vec(&mut out, idtxt);
    push_lit(&mut out, "\n");
    push_vec(&mut out, tt);
    push_lit(&mut out, "\tjmp end_if.");
    push_vec(&mut out, idtxt);
    push_lit(&mut out, "\nelse.");
    push_vec(&mut out, idtxt);
    push_lit(&mut out, ":\n");
    push_vec(&mut out, et);
    push_lit(&mut out, "end_if.");
    push_vec(&mut out, idtxt);
    push_lit(&mut out, ":\n");
    proof {
        assert(out@ =~= if_else_text(id as nat, ct@, tt@, et@));
    }
    out
}

fn build_while_text(id: usize, idtxt: &Vec<char>, ct: &Vec<char>, bt: &Vec<char>) -> (r: Vec<
    char,
>)
    requires
        idtxt@ == dec_nat(id as nat),
    ensures
        r@ == while_text(id as nat, ct@, bt@),
{
    let mut out: Vec<char> = Vec::new();
    push_lit(&mut out, "while.");
    push_vec(&mut out, idtxt);
    push_lit(&mut out, ":\n");
    push_vec(&mut out, ct);
    push_lit(&mut out, "\tcmp rax, 0\n\tje end_while.");
    push_vec(&mut out, idtxt);
    push_lit(&mut out, "\n");
    push_vec(&mut out, bt);
    push_lit(&mut out, "\tjmp while.");
    push_vec(&mut out, idtxt);
    push_lit(&mut out, "\nend_while.");
    push_vec(&mut out, idtxt);
    push_lit(&mut out, ":\n");
    proof {
        assert(out@ =~= while_text(id as nat, ct@, bt@));
    }
    out
}

/// Intern one string literal: allocate its id, append its data-section
/// line, and return the text that loads its address.
fn emit_strlit(sval: &String, ctx: &mut Context) -> (r: Result<Vec<char>, Vec<char>>)
    ensures
        match r {
            Ok(t) => emit_expr_v(ExprV::Strlit(sval@), gvc(*old(ctx)), fvc(*old(ctx))) == Ok::<
                (Seq<char>, GCtxV, FCtxV),
                Seq<char>,
            >((t@, gvc(*final(ctx)), fvc(*final(ctx)))),
            Err(m) => emit_expr_v(ExprV::Strlit(sval@), gvc(*old(ctx)), fvc(*old(ctx))) == Err::<
                (Seq<char>, GCtxV, FCtxV),
                Seq<char>,
            >(m@),
        },
{
    let id = match alloc_id(&mut ctx.global) {
        Err(e1) => {
            return Err(e1);
        },
        Ok(id) => id,
    };
    let sv = chars_of(sval.as_str());
    let pat1 = chars_of("\\n");
    let sub1 = chars_of("\", 10, \"");
    let pat2 = chars_of("\\\"");
    let sub2 = chars_of("\", 34, \"");
    proof {
        reveal_strlit("\\n");
        reveal_strlit("\\\"");
    }
    let rep1 = replace_vec(&sv, &pat1, &sub1);
    let rep2 = replace_vec(&rep1, &pat2, &sub2);
    let idtxt = fmt_usize(id);
    let mut name: Vec<char> = Vec::new();
    push_lit(&mut name, "str.");
    push_vec(&mut name, &idtxt);
    let mut code: Vec<char> = Vec::new();
    push_lit(&mut code, "\t");
    push_vec(&mut code, &name);
    push_lit(&mut code, " db ");
    push_vec(&mut code, &rep2);
    push_lit(&mut code, ", 0\n");
    let ghost data0 = ctx.global.data@;
    push_vec(&mut ctx.global.data, &code);
    let mut out: Vec<char> = Vec::new();
    push_lit(&mut out, "\tmov rax, ");
    push_vec(&mut out, &name);
    push_lit(&mut out, "\n");
    proof {
        assert(name@ =~= "str."@ + dec_nat(id as nat));
        assert(code@ =~= "\t"@ + name@ + " db "@ + strlit_data(sval@) + ", 0\n"@);
        assert(ctx.global.data@ =~= data0 + code@);
        assert(out@ =~= "\tmov rax, "@ + name@ + "\n"@);
    }
    Ok(out)
}

#[verifier::rlimit(100)]
fn emit_expr(e: &Expr, ctx: &mut Context) -> (r: Result<Vec<char>, Vec<char>>)
    ensures
        match r {
            Ok(t) => emit_expr_v(e@, gvc(*old(ctx)), fvc(*old(ctx))) == Ok::<
                (Seq<char>, GCtxV, FCtxV),
                Seq<char>,
            >((t@, gvc(*final(ctx)), fvc(*final(ctx)))),
            Err(m) => emit_expr_v(e@, gvc(*old(ctx)), fvc(*old(ctx))) == Err::<
                (Seq<char>, GCtxV, FCtxV),
                Seq<char>,
            >(m@),
        },
    decreases *e, 3int,
{
    proof {
        reveal_with_fuel(crate::expr_view, 2);
    }
    match e {
        Expr::Integer(v) => {
            let mut out: Vec<char> = Vec::new();
            push_lit(&mut out, "\tmov rax, ");
            let digits = fmt_i64(*v);
            push_vec(&mut out, &digits);
            push_lit(&mut out, "\n");
            proof {
                assert(out@ =~= "\tmov rax, "@ + dec_int(*v as int) + "\n"@);
            }
            Ok(out)
        },
        Expr::String(sval) => emit_strlit(sval, ctx),
        Expr::Undefined => {
            let out: Vec<char> = Vec::new();
            proof {
                assert(out@ =~= Seq::<char>::empty());
            }
            Ok(out)
        },
        Expr::Variable(n) => {
            match iset_get_index_of(&ctx.local.var, n.as_str()) {
                Some(i) => {
                    proof {
                        lemma_first_idx_unique(iset_elems(ctx.local.var), n@, i as int);
                    }
                    let mut out: Vec<char> = Vec::new();
                    push_lit(&mut out, "\tmov rax, [rbp-");
                    let off = slot_offset(i);
                    push_vec(&mut out, &off);
                    push_lit(&mut out, "]\n");
                    proof {
                        assert(out@ =~= var_local_text(i as int));
                    }
                    Ok(out)
                },
                None => {
                    let owned = String::from_str(n.as_str());
                    iset_insert(&mut ctx.global.func, owned);
                    let mut out: Vec<char> = Vec::new();
                    push_lit(&mut out, "\tlea rax, [");
                    let nv = chars_of(n.as_str());
                    push_vec(&mut out, &nv);
                    push_lit(&mut out, "]\n");
                    proof {
                        assert(out@ =~= var_global_text(n@));
                    }
                    Ok(out)
                },
            }
        },
        Expr::Pointer(n) => {
            match iset_get_index_of(&ctx.local.var, n.as_str()) {
                Some(i) => {
                    proof {
                        lemma_first_idx_unique(iset_elems(ctx.local.var), n@, i as int);
                    }
                    let mut out: Vec<char> = Vec::new();
                    push_lit(&mut out, "\tlea rax, [rbp-");
                    let off = slot_offset(i);
                    push_vec(&mut out, &off);
                    push_lit(&mut out, "]\n");
                    proof {
                        assert(out@ =~= ptr_local_text(i as int));
                    }
                    Ok(out)
                },
                None => {
                    let mut m: Vec<char> = Vec::new();
                    push_lit(&mut m, "undefined variable: ");
                    let nv = chars_of(n.as_str());
                    push_vec(&mut m, &nv);
                    proof {
                        assert(m@ =~= msg_undefined(n@));
                    }
                    Err(m)
                },
            }
        },
        Expr::Derefer(x, sz) => match emit_expr(&**x, ctx) {
            Err(e1) => Err(e1),
            Ok(xt) => {
                let mut out = xt;
                push_lit(&mut out, load_of(*sz));
                Ok(out)
            },
        },
        Expr::Return(x) => match emit_expr(&**x, ctx) {
            Err(e1) => Err(e1),
            Ok(xt) => {
                let mut out = xt;
                push_lit(&mut out, "\tleave\n\tret\n");
                Ok(out)
            },
        },
        Expr::Call(_, _) | Expr::Block(_) | Expr::Let(_, _) | Expr::If(_, _, _)
            | Expr::While(_, _) | Expr::Break(_) => {
            proof {
                assert(is_ctrl_node(e@));
            }
            emit_ctrl_expr(e, ctx)
        },
        _ => {
            proof {
                assert(is_op_node(e@));
            }
            emit_op_expr(e, ctx)
        },
    }
}


/// The control- and assignment-flow nodes.
pub open spec fn is_ctrl_node(e: ExprV) -> bool {
    e is Call || e is Block || e is Let || e is If || e is While || e is Break
}

#[verifier::rlimit(100)]
fn emit_ctrl_expr(e: &Expr, ctx: &mut Context) -> (r: Result<Vec<char>, Vec<char>>)
    requires
        is_ctrl_node(e@),
    ensures
        match r {
            Ok(t) => emit_expr_v(e@, gvc(*old(ctx)), fvc(*old(ctx))) == Ok::<
                (Seq<char>, GCtxV, FCtxV),
                Seq<char>,
            >((t@, gvc(*final(ctx)), fvc(*final(ctx)))),
            Err(m) => emit_expr_v(e@, gvc(*old(ctx)), fvc(*old(ctx))) == Err::<
                (Seq<char>, GCtxV, FCtxV),
                Seq<char>,
            >(m@),
        },
    decreases *e, 2int,
{
    proof {
        reveal_with_fuel(crate::expr_view, 2);
    }
    match e {
        Expr::Call(callee, args) => {
            proof {
                crate::lemma_exprs_view_len(args@);
                assert(crate::exprs_view(args@).subrange(0, args@.len() as int) =~= crate::exprs_view(
                    args@,
                ));
                assert(args@.subrange(0, args@.len() as int) =~= args@);
                assert(decreases_to!(*e => args@));
            }
            match emit_call_args(args, args.len(), ctx) {
                Err(e1) => Err(e1),
                Ok(pusher) => {
                    let kmax: usize = if args.len() < 6 {
                        args.len()
                    } else {
                        6
                    };
                    let mut popper: Vec<char> = Vec::new();
                    let mut i: usize = 0;
                    while i < kmax
                        invariant
                            0 <= i <= kmax <= 6,
                            popper@ == pops_text(i as int),
                        decreases kmax - i,
                    {
                        let ghost pp0 = popper@;
                        push_lit(&mut popper, "\tpop ");
                        push_lit(&mut popper, reg_of(i));
                        push_lit(&mut popper, "\n");
                        proof {
                            assert(popper@ =~= pp0 + "\tpop "@ + reg_name(i as int) + "\n"@);
                        }
                        i = i + 1;
                    }
                    match emit_expr(&**callee, ctx) {
                        Err(e1) => Err(e1),
                        Ok(ct) => {
                            let mut out = pusher;
                            push_vec(&mut out, &popper);
                            push_vec(&mut out, &ct);
                            push_lit(&mut out, "\tmov r10, rax\n\txor rax, rax\n\tcall r10\n");
                            Ok(out)
                        },
                    }
                },
            }
        },
        Expr::Block(es) => {
            proof {
                crate::lemma_exprs_view_len(es@);
                assert(crate::exprs_view(es@).subrange(0, es@.len() as int) =~= crate::exprs_view(
                    es@,
                ));
                assert(es@.subrange(0, es@.len() as int) =~= es@);
                assert(decreases_to!(*e => es@));
            }
            emit_block_items(es, 0, ctx)
        },
        Expr::Let(l, r) => match &**l {
            Expr::Variable(n) => {
                let i: usize = match iset_get_index_of(&ctx.local.var, n.as_str()) {
                    Some(i) => {
                        proof {
                            lemma_first_idx_unique(iset_elems(ctx.local.var), n@, i as int);
                        }
                        i
                    },
                    None => {
                        let owned = String::from_str(n.as_str());
                        let l0 = iset_len(&ctx.local.var);
                        iset_insert(&mut ctx.local.var, owned);
                        l0
                    },
                };
                match emit_expr(&**r, ctx) {
                    Err(e1) => Err(e1),
                    Ok(vt) => {
                        let mut out = vt;
                        push_lit(&mut out, "\tmov [rbp-");
                        let off = slot_offset(i);
                        push_vec(&mut out, &off);
                        push_lit(&mut out, "], rax\n");
                        Ok(out)
                    },
                }
            },
            Expr::Derefer(p, sz) => match emit_expr(&**r, ctx) {
                Err(e1) => Err(e1),
                Ok(vt) => match emit_expr(&**p, ctx) {
                    Err(e1) => Err(e1),
                    Ok(pt) => {
                        let mut out = vt;
                        push_lit(&mut out, "\tpush rax\n");
                        push_vec(&mut out, &pt);
                        push_lit(&mut out, "\tpop r10\n");
                        push_lit(&mut out, store_of(*sz));
                        Ok(out)
                    },
                },
            },
            _ => Err(chars_of("invalid assign to")),
        },
        Expr::If(_, _, _) | Expr::While(_, _) => {
            proof {
                assert(is_loop_node(e@));
            }
            emit_loop_expr(e, ctx)
        },
        Expr::Break(x) => {
            if ctx.local.jmp.len() == 0 {
                proof {
                    assert(fvc(*ctx).jmp.len() == 0);
                }
                Err(chars_of("while loop not found"))
            } else {
                let top = ctx.local.jmp[ctx.local.jmp.len() - 1];
                proof {
                    assert(fvc(*ctx).jmp.last() == top as nat);
                }
                match emit_expr(&**x, ctx) {
                    Err(e1) => Err(e1),
                    Ok(xt) => {
                        let mut out = xt;
                        push_lit(&mut out, "\tjmp end_while.");
                        let toptxt = fmt_usize(top);
                        push_vec(&mut out, &toptxt);
                        push_lit(&mut out, "\n");
                        Ok(out)
                    },
                }
            }
        },
        _ => {
            proof {
                assert(false);
            }
            Err(Vec::new())
        },
    }
}


/// The branching nodes.
pub open spec fn is_loop_node(e: ExprV) -> bool {
    e is If || e is While
}

#[verifier::rlimit(100)]
fn emit_loop_expr(e: &Expr, ctx: &mut Context) -> (r: Result<Vec<char>, Vec<char>>)
    requires
        is_loop_node(e@),
    ensures
        match r {
            Ok(t) => emit_expr_v(e@, gvc(*old(ctx)), fvc(*old(ctx))) == Ok::<
                (Seq<char>, GCtxV, FCtxV),
                Seq<char>,
            >((t@, gvc(*final(ctx)), fvc(*final(ctx)))),
            Err(m) => emit_expr_v(e@, gvc(*old(ctx)), fvc(*old(ctx))) == Err::<
                (Seq<char>, GCtxV, FCtxV),
                Seq<char>,
            >(m@),
        },
    decreases *e, 1int,
{
    proof {
        reveal_with_fuel(crate::expr_view, 2);
    }
    match e {
        Expr::If(c, t, els) => {
            let id = match alloc_id(&mut ctx.global) {
                Err(e1) => {
                    return Err(e1);
                },
                Ok(id) => id,
            };
            let idtxt = fmt_usize(id);
            match emit_expr(&**c, ctx) {
                Err(e1) => Err(e1),
                Ok(ct) => match els {
                    Some(eb) => match emit_expr(&**t, ctx) {
                        Err(e1) => Err(e1),
                        Ok(tt) => match emit_expr(&**eb, ctx) {
                            Err(e1) => Err(e1),
                            Ok(et) => {
                                let out = build_if_else_text(id, &idtxt, &ct, &tt, &et);
                                Ok(out)
                            },
                        },
                    },
                    None => match emit_expr(&**t, ctx) {
                        Err(e1) => Err(e1),
                        Ok(tt) => {
                            let out = build_if_text(id, &idtxt, &ct, &tt);
                            Ok(out)
                        },
                    },
                },
            }
        },
        Expr::While(c, b) => {
            let id = match alloc_id(&mut ctx.global) {
                Err(e1) => {
                    return Err(e1);
                },
                Ok(id) => id,
            };
            let idtxt = fmt_usize(id);
            let ghost jmp0 = ctx.local.jmp@;
            ctx.local.jmp.push(id);
            proof {
                assert(ctx.local.jmp@.map_values(|x: usize| x as nat) =~= jmp0.map_values(
                    |x: usize| x as nat,
                ).push(id as nat));
            }
            match emit_expr(&**c, ctx) {
                Err(e1) => Err(e1),
                Ok(ct) => match emit_expr(&**b, ctx) {
                    Err(e1) => Err(e1),
                    Ok(bt) => {
                        let ghost jmp1 = ctx.local.jmp@;
                        let popped = ctx.local.jmp.pop();
                        proof {
                            if jmp1.len() > 0 {
                                assert(ctx.local.jmp@.map_values(|x: usize| x as nat) =~= jmp1
                                    .map_values(|x: usize| x as nat).drop_last());
                            } else {
                                assert(ctx.local.jmp@.map_values(|x: usize| x as nat) =~= jmp1
                                    .map_values(|x: usize| x as nat));
                            }
                        }
                        let out = build_while_text(id, &idtxt, &ct, &bt);
                        Ok(out)
                    },
                },
            }
        },
        _ => {
            proof {
                assert(false);
            }
            Err(Vec::new())
        },
    }
}

/// Which nodes the binary-operator templates cover.
pub open spec fn is_op_node(e: ExprV) -> bool {
    e is Add || e is Sub || e is Mul || e is Div || e is Mod || e is Eql || e is NotEq || e is Gt
        || e is Lt || e is GtEq || e is LtEq || e is And || e is Or || e is Xor
}

#[verifier::rlimit(100)]
fn emit_op_expr(e: &Expr, ctx: &mut Context) -> (r: Result<Vec<char>, Vec<char>>)
    requires
        is_op_node(e@),
    ensures
        match r {
            Ok(t) => emit_expr_v(e@, gvc(*old(ctx)), fvc(*old(ctx))) == Ok::<
                (Seq<char>, GCtxV, FCtxV),
                Seq<char>,
            >((t@, gvc(*final(ctx)), fvc(*final(ctx)))),
            Err(m) => emit_expr_v(e@, gvc(*old(ctx)), fvc(*old(ctx))) == Err::<
                (Seq<char>, GCtxV, FCtxV),
                Seq<char>,
            >(m@),
        },
    decreases *e, 0int,
{
    proof {
        reveal_with_fuel(crate::expr_view, 3);
    }
    match e {
            Expr::Add(l, r) => match emit_expr(&**l, ctx) {
                Err(e1) => Err(e1),
                Ok(lt) => match emit_expr(&**r, ctx) {
                    Err(e1) => Err(e1),
                    Ok(rt) => Ok(op_combine(&lt, &rt, "add")),
                },
            },
            Expr::Sub(l, r) => match emit_expr(&**l, ctx) {
                Err(e1) => Err(e1),
                Ok(lt) => match emit_expr(&**r, ctx) {
                    Err(e1) => Err(e1),
                    Ok(rt) => Ok(op_combine(&lt, &rt, "sub")),
                },
            },
            Expr::Mul(l, r) => match emit_expr(&**l, ctx) {
                Err(e1) => Err(e1),
                Ok(lt) => match emit_expr(&**r, ctx) {
                    Err(e1) => Err(e1),
                    Ok(rt) => Ok(op_combine(&lt, &rt, "imul")),
                },
            },
            Expr::And(l, r) => match emit_expr(&**l, ctx) {
                Err(e1) => Err(e1),
                Ok(lt) => match emit_expr(&**r, ctx) {
                    Err(e1) => Err(e1),
                    Ok(rt) => Ok(op_combine(&lt, &rt, "and")),
                },
            },
            Expr::Or(l, r) => match emit_expr(&**l, ctx) {
                Err(e1) => Err(e1),
                Ok(lt) => match emit_expr(&**r, ctx) {
                    Err(e1) => Err(e1),
                    Ok(rt) => Ok(op_combine(&lt, &rt, "or")),
                },
            },
            Expr::Xor(l, r) => match emit_expr(&**l, ctx) {
                Err(e1) => Err(e1),
                Ok(lt) => match emit_expr(&**r, ctx) {
                    Err(e1) => Err(e1),
                    Ok(rt) => Ok(op_combine(&lt, &rt, "xor")),
                },
            },
            Expr::Eql(l, r) => match emit_expr(&**l, ctx) {
                Err(e1) => Err(e1),
                Ok(lt) => match emit_expr(&**r, ctx) {
                    Err(e1) => Err(e1),
                    Ok(rt) => Ok(cmp_combine(&lt, &rt, "e")),
                },
            },
            Expr::NotEq(l, r) => match emit_expr(&**l, ctx) {
                Err(e1) => Err(e1),
                Ok(lt) => match emit_expr(&**r, ctx) {
                    Err(e1) => Err(e1),
                    Ok(rt) => Ok(cmp_combine(&lt, &rt, "ne")),
                },
            },
            Expr::Gt(l, r) => match emit_expr(&**l, ctx) {
                Err(e1) => Err(e1),
                Ok(lt) => match emit_expr(&**r, ctx) {
                    Err(e1) => Err(e1),
                    Ok(rt) => Ok(cmp_combine(&lt, &rt, "g")),
                },
            },
            Expr::Lt(l, r) => match emit_expr(&**l, ctx) {
                Err(e1) => Err(e1),
                Ok(lt) => match emit_expr(&**r, ctx) {
                    Err(e1) => Err(e1),
                    Ok(rt) => Ok(cmp_combine(&lt, &rt, "l")),
                },
            },
            Expr::GtEq(l, r) => match emit_expr(&**l, ctx) {
                Err(e1) => Err(e1),
                Ok(lt) => match emit_expr(&**r, ctx) {
                    Err(e1) => Err(e1),
                    Ok(rt) => Ok(cmp_combine(&lt, &rt, "ge")),
                },
            },
            Expr::LtEq(l, r) => match emit_expr(&**l, ctx) {
                Err(e1) => Err(e1),
                Ok(lt) => match emit_expr(&**r, ctx) {
                    Err(e1) => Err(e1),
                    Ok(rt) => Ok(cmp_combine(&lt, &rt, "le")),
                },
            },
            Expr::Div(l, r) => match emit_expr(&**l, ctx) {
                Err(e1) => Err(e1),
                Ok(lt) => match emit_expr(&**r, ctx) {
                    Err(e1) => Err(e1),
                    Ok(rt) => Ok(div_combine(&lt, &rt)),
                },
            },
            Expr::Mod(l, r) => match emit_expr(&**l, ctx) {
                Err(e1) => Err(e1),
                Ok(lt) => match emit_expr(&**r, ctx) {
                    Err(e1) => Err(e1),
                    Ok(rt) => {
                        let mut out = div_combine(&lt, &rt);
                        push_lit(&mut out, "\tmov rax, rdx\n");
                        Ok(out)
                    },
                },
            },
        _ => {
            proof {
                assert(false);
            }
            Err(Vec::new())
        },
    }
}

fn emit_block_items(es: &Vec<Expr>, from: usize, ctx: &mut Context) -> (r: Result<
    Vec<char>,
    Vec<char>,
>)
    requires
        from <= es@.len(),
    ensures
        match r {
            Ok(t) => emit_block_v(
                crate::exprs_view(es@).subrange(from as int, es@.len() as int),
                gvc(*old(ctx)),
                fvc(*old(ctx)),
            ) == Ok::<(Seq<char>, GCtxV, FCtxV), Seq<char>>(
                (t@, gvc(*final(ctx)), fvc(*final(ctx))),
            ),
            Err(m) => emit_block_v(
                crate::exprs_view(es@).subrange(from as int, es@.len() as int),
                gvc(*old(ctx)),
                fvc(*old(ctx)),
            ) == Err::<(Seq<char>, GCtxV, FCtxV), Seq<char>>(m@),
        },
    decreases es@.subrange(from as int, es@.len() as int), 0int,
{
    proof {
        crate::lemma_exprs_view_len(es@);
    }
    let ghost sub = crate::exprs_view(es@).subrange(from as int, es@.len() as int);
    if from >= es.len() {
        let out: Vec<char> = Vec::new();
        proof {
            assert(sub.len() == 0);
            assert(out@ =~= Seq::<char>::empty());
        }
        return Ok(out);
    }
    proof {
        crate::lemma_exprs_view_index(es@, from as int);
        assert(sub[0] == crate::exprs_view(es@)[from as int]);
        assert(sub.drop_first() =~= crate::exprs_view(es@).subrange(from + 1, es@.len() as int));
        assert(es@.subrange(from as int, es@.len() as int)[0] == es@[from as int]);
        assert(es@.subrange(from as int, es@.len() as int).subrange(
            1,
            es@.subrange(from as int, es@.len() as int).len() as int,
        ) =~= es@.subrange(from + 1, es@.len() as int));
    }
    match emit_expr(&es[from], ctx) {
        Err(e1) => Err(e1),
        Ok(t1) => match emit_block_items(es, from + 1, ctx) {
            Err(e1) => Err(e1),
            Ok(t2) => {
                let mut out = t1;
                push_vec(&mut out, &t2);
                Ok(out)
            },
        },
    }
}

fn emit_call_args(args: &Vec<Expr>, upto: usize, ctx: &mut Context) -> (r: Result<
    Vec<char>,
    Vec<char>,
>)
    requires
        upto <= args@.len(),
    ensures
        match r {
            Ok(t) => emit_args_v(
                crate::exprs_view(args@).subrange(0, upto as int),
                gvc(*old(ctx)),
                fvc(*old(ctx)),
            ) == Ok::<(Seq<char>, GCtxV, FCtxV), Seq<char>>(
                (t@, gvc(*final(ctx)), fvc(*final(ctx))),
            ),
            Err(m) => emit_args_v(
                crate::exprs_view(args@).subrange(0, upto as int),
                gvc(*old(ctx)),
                fvc(*old(ctx)),
            ) == Err::<(Seq<char>, GCtxV, FCtxV), Seq<char>>(m@),
        },
    decreases args@.subrange(0, upto as int), 0int,
{
    proof {
        crate::lemma_exprs_view_len(args@);
    }
    let ghost sub = crate::exprs_view(args@).subrange(0, upto as int);
    if upto == 0 {
        let out: Vec<char> = Vec::new();
        proof {
            assert(sub.len() == 0);
            assert(out@ =~= Seq::<char>::empty());
        }
        return Ok(out);
    }
    proof {
        crate::lemma_exprs_view_index(args@, upto - 1);
        assert(sub.last() == crate::exprs_view(args@)[upto - 1]);
        assert(sub.drop_last() =~= crate::exprs_view(args@).subrange(0, upto - 1));
        assert(args@.subrange(0, upto as int)[upto - 1] == args@[upto - 1]);
        assert(args@.subrange(0, upto as int).subrange(0, upto - 1) =~= args@.subrange(
            0,
            upto - 1,
        ));
    }
    match emit_expr(&args[upto - 1], ctx) {
        Err(e1) => Err(e1),
        Ok(t1) => match emit_call_args(args, upto - 1, ctx) {
            Err(e1) => Err(e1),
            Ok(t2) => {
                let mut out = t1;
                push_lit(&mut out, "\tpush rax\n");
                push_vec(&mut out, &t2);
                Ok(out)
            },
        },
    }
}

fn emit_funcs_rec(defines: &Vec<Define>, from: usize, ctx: &mut Context) -> (r: Result<
    Vec<char>,
    Vec<char>,
>)
    requires
        from <= defines@.len(),
    ensures
        match r {
            Ok(t) => emit_funcs_v(
                defines_view(defines@).subrange(from as int, defines@.len() as int),
                gvc(*old(ctx)),
            ) matches Ok(p) && p.0 == t@ && p.1 == gvc(*final(ctx)),
            Err(m) => emit_funcs_v(
                defines_view(defines@).subrange(from as int, defines@.len() as int),
                gvc(*old(ctx)),
            ) == Err::<(Seq<char>, GCtxV), Seq<char>>(m@),
        },
    decreases defines@.len() - from,
{
    let ghost sub = defines_view(defines@).subrange(from as int, defines@.len() as int);
    if from >= defines.len() {
        let out: Vec<char> = Vec::new();
        proof {
            assert(sub.len() == 0);
            assert(out@ =~= Seq::<char>::empty());
        }
        return Ok(out);
    }
    proof {
        assert(sub[0] == defines@[from as int]@);
        assert(sub.drop_first() =~= defines_view(defines@).subrange(
            from + 1,
            defines@.len() as int,
        ));
    }
    let d = &defines[from];
    let nargs = iset_len(&d.1);
    let mut pro: Vec<char> = Vec::new();
    let mut i: usize = 0;
    proof {
        assert(pro@ =~= prologue_v(0));
    }
    while i < nargs
        invariant
            0 <= i <= nargs,
            pro@ == prologue_v(i as int),
        decreases nargs - i,
    {
        let ghost p0 = pro@;
        if i < 6 {
            push_lit(&mut pro, "\tmov qword [rbp-");
            let addr = fmt_u128(8 + 8 * (i as u128));
            push_vec(&mut pro, &addr);
            push_lit(&mut pro, "], ");
            push_lit(&mut pro, reg_of(i));
            push_lit(&mut pro, "\n");
            proof {
                assert((8 + 8 * (i as u128)) as nat == (8 + 8 * (i as int)) as nat);
                assert(pro@ =~= p0 + prologue_line(i as int));
            }
        } else {
            push_lit(&mut pro, "\tmov rax, [rbp+");
            let saddr = fmt_u128(((i as u128) - 4) * 8);
            push_vec(&mut pro, &saddr);
            push_lit(&mut pro, "]\n\tmov qword [rbp-");
            let addr = fmt_u128(8 + 8 * (i as u128));
            push_vec(&mut pro, &addr);
            push_lit(&mut pro, "], rax\n");
            proof {
                assert((((i as u128) - 4) * 8) as nat == (((i as int) - 4) * 8) as nat);
                assert((8 + 8 * (i as u128)) as nat == (8 + 8 * (i as int)) as nat);
                assert(pro@ =~= p0 + prologue_line(i as int));
            }
        }
        i = i + 1;
    }
    let fresh_var = iset_clone(&d.1);
    ctx.local = FnState { var: fresh_var, jmp: Vec::new() };
    proof {
        assert(fvc(*ctx).jmp =~= Seq::<nat>::empty());
        assert(fvc(*ctx) == FCtxV { var: sub[0].params, jmp: Seq::empty() });
    }
    let body = match emit_expr(&d.2, ctx) {
        Err(e1) => {
            return Err(e1);
        },
        Ok(t) => t,
    };
    let lcount = iset_len(&ctx.local.var);
    proof {
        assert((lcount as u128) <= 0xffffffffffffffffu128);
    }
    let bytes: u128 = (lcount as u128) * 8;
    let frame: u128 = if bytes % 16 == 0 {
        bytes
    } else {
        bytes + 8
    };
    proof {
        assert(bytes as nat == 8 * (lcount as nat)) by (nonlinear_arith)
            requires
                bytes == (lcount as u128) * 8,
                (lcount as u128) == lcount as nat,
        ;
        assert(frame as nat == frame_bytes(lcount as nat));
    }
    let mut out: Vec<char> = Vec::new();
    let namev = chars_of(d.0.as_str());
    push_vec(&mut out, &namev);
    push_lit(&mut out, ":\n\tpush rbp\n\tmov rbp, rsp\n\tsub rsp, ");
    let framet = fmt_u128(frame);
    push_vec(&mut out, &framet);
    push_lit(&mut out, "\n");
    push_vec(&mut out, &pro);
    push_vec(&mut out, &body);
    push_lit(&mut out, "\tleave\n\tret\n\n");
    proof {
        assert(out@ =~= func_text(
            sub[0].name,
            frame_bytes(fvc(*ctx).var.len()),
            prologue_v(sub[0].params.len() as int),
            body@,
        ));
    }
    match emit_funcs_rec(defines, from + 1, ctx) {
        Err(e1) => Err(e1),
        Ok(rest) => {
            push_vec(&mut out, &rest);
            Ok(out)
        },
    }
}

impl Define {
    /// Lower every definition to one translation unit of assembly text; the
    /// result is exactly [`emit_unit_v`] of the definitions' views.
    pub fn emit(defines: Vec<Define>) -> (r: Result<String, String>)
        ensures
            match r {
                Ok(s) => emit_unit_v(defines_view(defines@)) == Ok::<Seq<char>, Seq<char>>(s@),
                Err(e) => emit_unit_v(defines_view(defines@)) == Err::<Seq<char>, Seq<char>>(e@),
            },
    {
        let mut ctx = Context {
            global: Global { idx: 0, data: Vec::new(), func: iset_new() },
            local: FnState { var: iset_new(), jmp: Vec::new() },
        };
        proof {
            assert(gvc(ctx).data =~= Seq::<char>::empty());
            assert(gvc(ctx).func =~= Seq::<Seq<char>>::empty());
            assert(gvc(ctx) == GCtxV { idx: 0, data: Seq::empty(), func: Seq::empty() });
            assert(defines_view(defines@).subrange(0, defines@.len() as int) =~= defines_view(
                defines@,
            ));
        }
        let out = match emit_funcs_rec(&defines, 0, &mut ctx) {
            Err(e1) => {
                return Err(string_of(&e1));
            },
            Ok(t) => t,
        };
        let ghost felems0 = iset_elems(ctx.global.func);
        let ghost data1 = ctx.global.data@;
        let ghost idx1 = ctx.global.idx;
        let ghost names = names_of(defines_view(defines@));
        let mut i: usize = 0;
        proof {
            assert(names.subrange(0, names.len() as int) =~= names);
        }
        while i < defines.len()
            invariant
                0 <= i <= defines@.len(),
                names == names_of(defines_view(defines@)),
                names.len() == defines@.len(),
                ctx.global.data@ == data1,
                ctx.global.idx == idx1,
                remove_names(felems0, names) == remove_names(
                    iset_elems(ctx.global.func),
                    names.subrange(i as int, names.len() as int),
                ),
            decreases defines@.len() - i,
        {
            let ghost pre = names.subrange(i as int, names.len() as int);
            proof {
                assert(pre[0] == names[i as int]);
                assert(names[i as int] == defines@[i as int]@.name);
                assert(pre.drop_first() =~= names.subrange(i + 1, names.len() as int));
            }
            iset_shift_remove(&mut ctx.global.func, defines[i].0.as_str());
            i = i + 1;
        }
        proof {
            assert(names.subrange(names.len() as int, names.len() as int)
                =~= Seq::<Seq<char>>::empty());
            assert(remove_names(felems0, names) == iset_elems(ctx.global.func));
        }
        let mut ex: Vec<char> = Vec::new();
        let n = iset_len(&ctx.global.func);
        let mut j: usize = 0;
        proof {
            assert(iset_elems(ctx.global.func).subrange(0, 0) =~= Seq::<Seq<char>>::empty());
        }
        while j < n
            invariant
                0 <= j <= n,
                n == iset_elems(ctx.global.func).len(),
                ex@ == extern_lines(iset_elems(ctx.global.func).subrange(0, j as int)),
            decreases n - j,
        {
            match iset_get(&ctx.global.func, j) {
                Some(sym) => {
                    let symv = chars_of(sym.as_str());
                    push_lit(&mut ex, "\textern ");
                    push_vec(&mut ex, &symv);
                    push_lit(&mut ex, "\n");
                    proof {
                        let es = iset_elems(ctx.global.func);
                        assert(es.subrange(0, j + 1).drop_last() =~= es.subrange(0, j as int));
                        assert(es.subrange(0, j + 1).last() == es[j as int]);
                        assert(ex@ =~= extern_lines(es.subrange(0, j + 1)));
                    }
                },
                None => {
                    proof {
                        assert(false);
                    }
                },
            }
            j = j + 1;
        }
        proof {
            let es = iset_elems(ctx.global.func);
            assert(es.subrange(0, es.len() as int) =~= es);
        }
        let mut res: Vec<char> = Vec::new();
        push_lit(&mut res, "section .data\n");
        push_vec(&mut res, &ctx.global.data);
        push_lit(&mut res, "\nsection .text\n\tglobal main\n");
        push_vec(&mut res, &ex);
        push_lit(&mut res, "\n");
        push_vec(&mut res, &out);
        push_lit(&mut res, "\n");
        proof {
            assert(res@ =~= "section .data\n"@ + ctx.global.data@
                + "\nsection .text\n\tglobal main\n"@ + ex@ + "\n"@ + out@ + "\n"@);
        }
        Ok(string_of(&res))
    }
}

} // verus!
