//! Recursive-descent parser: source text to [`Define`] and [`Expr`] trees.
//! Every function's result is specified exactly by a mirror over `Seq<char>`
//! ([`parse_expr_v`], [`parse_defines_v`]).
use crate::iset::{iset_elems, iset_insert, iset_new};
use crate::lex::{
    lemma_tokenize_bound, spec_name_new, spec_tokenize, tokenize_vecs, Name,
};
use crate::txt::{
    chars_of, eq_lit, find_c, find_char, has_prefix, has_prefix_s, join_from, join_with,
    lemma_join_len, lemma_sum_lens_each, lemma_sum_lens_split, lemma_trim_len, parse_i64_vec,
    push_lit, push_vec, rfind_c, rfind_char, spec_parse_i64, string_of, subvec, sum_lens,
    trim_vec, trim_view, vv,
};
use crate::{Define, DefineV, Expr, ExprV, Size};
use vstd::prelude::*;

verus! {

pub open spec fn msg_invalid_token() -> Seq<char> {
    "invalid token"@
}

pub open spec fn msg_expected(d: Seq<char>) -> Seq<char> {
    "expected `"@ + d + "` but not found"@
}

pub open spec fn msg_no_then() -> Seq<char> {
    "invalid `if` statement, `then` section not found"@
}

pub open spec fn msg_no_do() -> Seq<char> {
    "invalid `while` statement, `do` section not found"@
}

pub open spec fn msg_invalid_ref() -> Seq<char> {
    "invalid reference"@
}

pub open spec fn msg_unknown_op(op: Seq<char>) -> Seq<char> {
    "unknown operator: "@ + op
}

/// Split `s` once on `d`: the first token, and the rest joined back with `d`.
/// Fails when the split yields fewer than two tokens.
pub open spec fn spec_once(s: Seq<char>, d: Seq<char>) -> Result<
    (Seq<char>, Seq<char>),
    Seq<char>,
> {
    match spec_tokenize(s, d) {
        Err(e) => Err(e),
        Ok(v) => if v.len() >= 2 {
            Ok((v[0], join_with(v.subrange(1, v.len() as int), d)))
        } else {
            Err(msg_expected(d))
        },
    }
}

pub proof fn lemma_once_bound(s: Seq<char>, d: Seq<char>)
    requires
        d.len() >= 1,
    ensures
        match spec_once(s, d) {
            Ok(p) => p.0.len() + p.1.len() + d.len() <= s.len(),
            Err(_) => true,
        },
{
    match spec_tokenize(s, d) {
        Err(_) => {},
        Ok(v) => {
            if v.len() >= 2 {
                let k = v.len() as int;
                lemma_tokenize_bound(s, d);
                let tail = v.subrange(1, k);
                lemma_join_len(tail, d);
                lemma_sum_lens_split(v, 1);
                assert(sum_lens(v.subrange(0, 1)) == v[0].len()) by {
                    assert(v.subrange(0, 1)[0] == v[0]);
                    assert(v.subrange(0, 1).drop_first() =~= Seq::<Seq<char>>::empty());
                }
                assert((k - 1) * d.len() == (k - 2) * d.len() + d.len()) by (nonlinear_arith)
                    requires
                        k >= 2,
                ;
            }
        },
    }
}

/// The binary operators of the surface syntax.
#[derive(Clone, Copy)]
pub enum OpKind {
    Add,
    Sub,
    Mul,
    Div,
    Mod,
    Eql,
    NotEq,
    Gt,
    Lt,
    GtEq,
    LtEq,
    And,
    Or,
    Xor,
}

/// The operator denoted by the token `op`, if any.
pub open spec fn spec_op_of(op: Seq<char>) -> Option<OpKind> {
    if op == "+"@ {
        Some(OpKind::Add)
    } else if op == "-"@ {
        Some(OpKind::Sub)
    } else if op == "*"@ {
        Some(OpKind::Mul)
    } else if op == "/"@ {
        Some(OpKind::Div)
    } else if op == "%"@ {
        Some(OpKind::Mod)
    } else if op == "=="@ {
        Some(OpKind::Eql)
    } else if op == "!="@ {
        Some(OpKind::NotEq)
    } else if op == ">"@ {
        Some(OpKind::Gt)
    } else if op == "<"@ {
        Some(OpKind::Lt)
    } else if op == ">="@ {
        Some(OpKind::GtEq)
    } else if op == "<="@ {
        Some(OpKind::LtEq)
    } else if op == "&"@ {
        Some(OpKind::And)
    } else if op == "|"@ {
        Some(OpKind::Or)
    } else if op == "^"@ {
        Some(OpKind::Xor)
    } else {
        None
    }
}

pub open spec fn bin_v(k: OpKind, a: ExprV, b: ExprV) -> ExprV {
    match k {
        OpKind::Add => ExprV::Add(Box::new(a), Box::new(b)),
        OpKind::Sub => ExprV::Sub(Box::new(a), Box::new(b)),
        OpKind::Mul => ExprV::Mul(Box::new(a), Box::new(b)),
        OpKind::Div => ExprV::Div(Box::new(a), Box::new(b)),
        OpKind::Mod => ExprV::Mod(Box::new(a), Box::new(b)),
        OpKind::Eql => ExprV::Eql(Box::new(a), Box::new(b)),
        OpKind::NotEq => ExprV::NotEq(Box::new(a), Box::new(b)),
        OpKind::Gt => ExprV::Gt(Box::new(a), Box::new(b)),
        OpKind::Lt => ExprV::Lt(Box::new(a), Box::new(b)),
        OpKind::GtEq => ExprV::GtEq(Box::new(a), Box::new(b)),
        OpKind::LtEq => ExprV::LtEq(Box::new(a), Box::new(b)),
        OpKind::And => ExprV::And(Box::new(a), Box::new(b)),
        OpKind::Or => ExprV::Or(Box::new(a), Box::new(b)),
        OpKind::Xor => ExprV::Xor(Box::new(a), Box::new(b)),
    }
}

/// The right-most binary-operator rule: space-split `s`; the second-to-last
/// token must be an operator; everything before it is the left operand,
/// everything after it the right.
pub open spec fn parse_op_v(s: Seq<char>) -> Result<ExprV, Seq<char>>
    decreases s.len(), 1int,
{
    match spec_tokenize(s, " "@) {
        Err(e) => Err(e),
        Ok(toks) => {
            if toks.len() < 2 {
                Err(msg_invalid_token())
            } else {
                let k = toks.len() as int;
                let n = k - 2;
                let op = toks[n];
                let lhs = join_with(toks.subrange(0, n), " "@);
                let rhs = join_with(toks.subrange(n + 1, k), " "@);
                match spec_op_of(op) {
                    None => Err(msg_unknown_op(op)),
                    Some(kind) => {
                        proof {
                            lemma_parse_op_operand_bounds(s, toks);
                        }
                        match parse_expr_v(lhs) {
                            Err(e) => Err(e),
                            Ok(a) => match parse_expr_v(rhs) {
                                Err(e) => Err(e),
                                Ok(b) => Ok(bin_v(kind, a, b)),
                            },
                        }
                    },
                }
            }
        },
    }
}

pub proof fn lemma_parse_op_operand_bounds(s: Seq<char>, toks: Seq<Seq<char>>)
    requires
        spec_tokenize(s, " "@) == Ok::<Seq<Seq<char>>, Seq<char>>(toks),
        toks.len() >= 2,
    ensures
        join_with(toks.subrange(0, toks.len() - 2), " "@).len() < s.len(),
        join_with(toks.subrange(toks.len() - 1, toks.len() as int), " "@).len() < s.len(),
{
    reveal_strlit(" ");
    let k = toks.len() as int;
    let n = k - 2;
    lemma_tokenize_bound(s, " "@);
    lemma_sum_lens_each(toks);
    lemma_sum_lens_split(toks, n);
    let a = toks.subrange(0, n);
    let b = toks.subrange(n + 1, k);
    let mid = toks.subrange(n, k);
    assert(sum_lens(mid) == toks[n].len() + sum_lens(b)) by {
        assert(mid[0] == toks[n]);
        assert(mid.drop_first() =~= b);
    }
    lemma_join_len(a, " "@);
    lemma_join_len(b, " "@);
    assert(b[0] == toks[k - 1]);
    assert((k - 1) * " "@.len() == k - 1) by (nonlinear_arith)
        requires
            " "@.len() == 1,
    ;
    if n >= 1 {
        assert((n - 1) * " "@.len() == n - 1) by (nonlinear_arith)
            requires
                " "@.len() == 1,
        ;
    }
}

/// Parse each argument token in order.
pub open spec fn parse_args_v(toks: Seq<Seq<char>>) -> Result<Seq<ExprV>, Seq<char>>
    decreases sum_lens(toks) + toks.len(), 3int,
{
    if toks.len() == 0 {
        Ok(Seq::empty())
    } else {
        proof {
            lemma_sum_lens_each(toks);
        }
        match parse_expr_v(toks[0]) {
            Err(e) => Err(e),
            Ok(a) => match parse_args_v(toks.drop_first()) {
                Err(e) => Err(e),
                Ok(rest) => Ok(seq![a] + rest),
            },
        }
    }
}

/// Parse the lines of a block: each line loses a trailing `;`-suffix, blank
/// lines are skipped.
pub open spec fn parse_lines_v(lines: Seq<Seq<char>>) -> Result<Seq<ExprV>, Seq<char>>
    decreases sum_lens(lines) + lines.len(), 3int,
{
    if lines.len() == 0 {
        Ok(Seq::empty())
    } else {
        let line = lines[0];
        let h = match spec_once(line, ";"@) {
            Ok(p) => p.0,
            Err(_) => line,
        };
        proof {
            reveal_strlit(";");
            lemma_once_bound(line, ";"@);
            lemma_sum_lens_each(lines);
        }
        if trim_view(h).len() == 0 {
            parse_lines_v(lines.drop_first())
        } else {
            match parse_expr_v(h) {
                Err(e) => Err(e),
                Ok(x) => match parse_lines_v(lines.drop_first()) {
                    Err(e) => Err(e),
                    Ok(rest) => Ok(seq![x] + rest),
                },
            }
        }
    }
}

/// What [`Expr::parse`] returns on source text `s`: the branches of the
/// expression grammar, tried in order on the trimmed text.
pub open spec fn parse_expr_v(s: Seq<char>) -> Result<ExprV, Seq<char>>
    decreases s.len(), 2int,
{
    let t = trim_view(s);
    proof {
        lemma_trim_len(s);
        reveal_strlit("let ");
        reveal_strlit("if ");
        reveal_strlit("while ");
        reveal_strlit("break ");
        reveal_strlit("return ");
        reveal_strlit("=");
        reveal_strlit("then");
        reveal_strlit("else");
        reveal_strlit("do");
        reveal_strlit("\n");
    }
    if has_prefix_s(t, "let "@) {
        let t4 = t.subrange(4, t.len() as int);
        proof {
            lemma_once_bound(t4, "="@);
        }
        match spec_once(t4, "="@) {
            Ok(p) => match parse_expr_v(p.0) {
                Err(e) => Err(e),
                Ok(l) => match parse_expr_v(p.1) {
                    Err(e) => Err(e),
                    Ok(r) => Ok(ExprV::Let(Box::new(l), Box::new(r))),
                },
            },
            Err(_) => match parse_expr_v(t4) {
                Err(e) => Err(e),
                Ok(l) => Ok(ExprV::Let(Box::new(l), Box::new(ExprV::Undefined))),
            },
        }
    } else if has_prefix_s(t, "if "@) {
        let t3 = t.subrange(3, t.len() as int);
        proof {
            lemma_once_bound(t3, "then"@);
        }
        match spec_once(t3, "then"@) {
            Err(_) => Err(msg_no_then()),
            Ok(p) => {
                let cond = p.0;
                let body = p.1;
                proof {
                    lemma_once_bound(body, "else"@);
                }
                match spec_once(body, "else"@) {
                    Ok(q) => match parse_expr_v(cond) {
                        Err(e) => Err(e),
                        Ok(c) => match parse_expr_v(q.0) {
                            Err(e) => Err(e),
                            Ok(th) => match parse_expr_v(q.1) {
                                Err(e) => Err(e),
                                Ok(el) => Ok(
                                    ExprV::If(
                                        Box::new(c),
                                        Box::new(th),
                                        Some(Box::new(el)),
                                    ),
                                ),
                            },
                        },
                    },
                    Err(_) => match parse_expr_v(cond) {
                        Err(e) => Err(e),
                        Ok(c) => match parse_expr_v(body) {
                            Err(e) => Err(e),
                            Ok(th) => Ok(ExprV::If(Box::new(c), Box::new(th), None)),
                        },
                    },
                }
            },
        }
    } else if has_prefix_s(t, "while "@) {
        let t6 = t.subrange(6, t.len() as int);
        proof {
            lemma_once_bound(t6, "do"@);
        }
        match spec_once(t6, "do"@) {
            Err(_) => Err(msg_no_do()),
            Ok(p) => match parse_expr_v(p.0) {
                Err(e) => Err(e),
                Ok(c) => match parse_expr_v(p.1) {
                    Err(e) => Err(e),
                    Ok(b) => Ok(ExprV::While(Box::new(c), Box::new(b))),
                },
            },
        }
    } else if t.len() >= 2 && t[0] == '{' && t.last() == '}' {
        let inner = t.subrange(1, t.len() - 1);
        match spec_tokenize(inner, "\n"@) {
            Err(e) => Err(e),
            Ok(lines) => {
                proof {
                    lemma_tokenize_bound(inner, "\n"@);
                }
                match parse_lines_v(lines) {
                    Err(e) => Err(e),
                    Ok(es) => Ok(ExprV::Block(es)),
                }
            },
        }
    } else if has_prefix_s(t, "break "@) {
        match parse_expr_v(t.subrange(6, t.len() as int)) {
            Err(e) => Err(e),
            Ok(x) => Ok(ExprV::Break(Box::new(x))),
        }
    } else if has_prefix_s(t, "return "@) {
        match parse_expr_v(t.subrange(7, t.len() as int)) {
            Err(e) => Err(e),
            Ok(x) => Ok(ExprV::Return(Box::new(x))),
        }
    } else if t == "break"@ {
        Ok(ExprV::Break(Box::new(ExprV::Undefined)))
    } else if t == "return"@ {
        Ok(ExprV::Return(Box::new(ExprV::Undefined)))
    } else if parse_op_v(t) is Ok {
        parse_op_v(t)
    } else {
        parse_expr_tail_v(t)
    }
}

/// The branches of the grammar tried after the binary-operator rule, on
/// the already-trimmed token `t`.
pub open spec fn parse_expr_tail_v(t: Seq<char>) -> Result<ExprV, Seq<char>>
    decreases t.len(), 0int,
{
    if t.len() >= 1 && t[0] == '*' {
        match parse_expr_v(t.subrange(1, t.len() as int)) {
            Err(e) => Err(e),
            Ok(x) => Ok(ExprV::Derefer(Box::new(x), Size::Normal)),
        }
    } else if t.len() >= 1 && t[0] == '&' {
        let rest = t.subrange(1, t.len() as int);
        match spec_name_new(rest) {
            Ok(nm) => Ok(ExprV::Pointer(nm)),
            Err(_) => match parse_expr_v(rest) {
                Ok(ExprV::Derefer(inner, _)) => Ok(*inner),
                _ => Err(msg_invalid_ref()),
            },
        }
    } else if t.len() >= 1 && t[0] == '"' && t.last() == '"' {
        Ok(ExprV::Strlit(t))
    } else if t.len() >= 2 && t[0] == '(' && t.last() == ')' {
        parse_expr_v(t.subrange(1, t.len() - 1))
    } else if t.len() >= 1 && t.contains('(') && t.last() == ')' {
        let expr = t.subrange(0, t.len() - 1);
        match find_c(expr, '(') {
            None => Err(msg_invalid_token()),
            Some(p) => {
                let callee_src = expr.subrange(0, p);
                let args_src = expr.subrange(p + 1, expr.len() as int);
                proof {
                    crate::txt::lemma_find_c_pub(expr, '(');
                }
                match parse_expr_v(callee_src) {
                    Err(e) => Err(e),
                    Ok(callee) => {
                        proof {
                            reveal_strlit(",");
                        }
                        match spec_tokenize(args_src, ","@) {
                            Err(e) => Err(e),
                            Ok(atoks) => {
                                proof {
                                    lemma_tokenize_bound(args_src, ","@);
                                    assert(","@.len() == 1);
                                    if atoks.len() >= 1 {
                                        assert((atoks.len() - 1) * ","@.len() == (atoks.len()
                                            - 1) * 1) by (nonlinear_arith)
                                            requires
                                                ","@.len() == 1,
                                        ;
                                        assert(sum_lens(atoks) + atoks.len() <= args_src.len()
                                            + 1);
                                    }
                                    assert(args_src.len() + 1 <= t.len() - 1);
                                }
                                match parse_args_v(atoks) {
                                    Err(e) => Err(e),
                                    Ok(args) => Ok(ExprV::Call(Box::new(callee), args)),
                                }
                            },
                        }
                    },
                }
            },
        }
    } else if t.len() >= 1 && t.contains('[') && t.last() == ']' {
        let expr = t.subrange(0, t.len() - 1);
        match rfind_c(expr, '[') {
            None => Err(msg_invalid_token()),
            Some(p) => {
                let arr = expr.subrange(0, p);
                let idx = expr.subrange(p + 1, expr.len() as int);
                proof {
                    crate::txt::lemma_rfind_c_pub(expr, '[');
                }
                match parse_expr_v(arr) {
                    Err(e) => Err(e),
                    Ok(a) => match parse_expr_v(idx) {
                        Err(e) => Err(e),
                        Ok(ix) => Ok(
                            ExprV::Derefer(
                                Box::new(
                                    ExprV::Add(
                                        Box::new(a),
                                        Box::new(
                                            ExprV::Mul(
                                                Box::new(ix),
                                                Box::new(ExprV::Integer(8)),
                                            ),
                                        ),
                                    ),
                                ),
                                Size::Normal,
                            ),
                        ),
                    },
                }
            },
        }
    } else if spec_parse_i64(t) is Some {
        Ok(ExprV::Integer(spec_parse_i64(t)->0 as int))
    } else if t == "true"@ {
        Ok(ExprV::Integer(1))
    } else if t == "false"@ {
        Ok(ExprV::Integer(0))
    } else {
        match spec_name_new(t) {
            Ok(nm) => Ok(ExprV::Variable(nm)),
            Err(e) => Err(e),
        }
    }
}

/// Fold the parameter tokens into an ordered set of validated names,
/// discarding duplicates.
pub open spec fn parse_params_v(toks: Seq<Seq<char>>, acc: Seq<Seq<char>>) -> Result<
    Seq<Seq<char>>,
    Seq<char>,
>
    decreases toks.len(),
{
    if toks.len() == 0 {
        Ok(acc)
    } else {
        match spec_name_new(toks[0]) {
            Err(e) => Err(e),
            Ok(nm) => parse_params_v(
                toks.drop_first(),
                if acc.contains(nm) {
                    acc
                } else {
                    acc.push(nm)
                },
            ),
        }
    }
}

/// Parse the definitions among `lines`: a line starting with `fn ` is split
/// at the first `)` into header and body, the header at the first `(` into
/// name and parameters; other lines are skipped.
pub open spec fn parse_defs_lines_v(lines: Seq<Seq<char>>) -> Result<Seq<DefineV>, Seq<char>>
    decreases lines.len(),
{
    if lines.len() == 0 {
        Ok(Seq::empty())
    } else {
        let line = lines[0];
        proof {
            reveal_strlit("fn ");
            reveal_strlit(",");
        }
        if has_prefix_s(line, "fn "@) {
            let func = line.subrange(3, line.len() as int);
            match find_c(func, ')') {
                None => Err(msg_invalid_token()),
                Some(p) => {
                    let head = func.subrange(0, p);
                    let body_src = func.subrange(p + 1, func.len() as int);
                    match find_c(head, '(') {
                        None => Err(msg_invalid_token()),
                        Some(q) => {
                            let name_src = head.subrange(0, q);
                            let args_src = head.subrange(q + 1, head.len() as int);
                            match spec_tokenize(args_src, ","@) {
                                Err(e) => Err(e),
                                Ok(atoks) => match parse_params_v(atoks, Seq::empty()) {
                                    Err(e) => Err(e),
                                    Ok(params) => match parse_expr_v(body_src) {
                                        Err(e) => Err(e),
                                        Ok(body) => match spec_name_new(name_src) {
                                            Err(e) => Err(e),
                                            Ok(nm) => match parse_defs_lines_v(
                                                lines.drop_first(),
                                            ) {
                                                Err(e) => Err(e),
                                                Ok(rest) => Ok(
                                                    seq![
                                                        DefineV {
                                                            name: nm,
                                                            params: params,
                                                            body: body,
                                                        },
                                                    ] + rest,
                                                ),
                                            },
                                        },
                                    },
                                },
                            }
                        },
                    }
                },
            }
        } else {
            parse_defs_lines_v(lines.drop_first())
        }
    }
}

/// What [`Define::parse`] returns on source text `src`.
pub open spec fn parse_defines_v(src: Seq<char>) -> Result<Seq<DefineV>, Seq<char>> {
    match spec_tokenize(src, "\n"@) {
        Err(e) => Err(e),
        Ok(lines) => parse_defs_lines_v(lines),
    }
}

pub open spec fn defines_view(ds: Seq<Define>) -> Seq<DefineV> {
    ds.map_values(|d: Define| d@)
}

fn msg_invalid_token_vec() -> (r: Vec<char>)
    ensures
        r@ == msg_invalid_token(),
{
    chars_of("invalid token")
}

fn msg_expected_vec(d: &Vec<char>) -> (r: Vec<char>)
    ensures
        r@ == msg_expected(d@),
{
    let mut r: Vec<char> = Vec::new();
    push_lit(&mut r, "expected `");
    push_vec(&mut r, d);
    push_lit(&mut r, "` but not found");
    proof {
        assert(r@ =~= msg_expected(d@));
    }
    r
}

/// Split once on `d`, as [`spec_once`] describes.
fn once_split(v: &Vec<char>, d: &Vec<char>) -> (r: Result<(Vec<char>, Vec<char>), Vec<char>>)
    requires
        d@.len() >= 1,
    ensures
        match r {
            Ok(p) => spec_once(v@, d@) == Ok::<(Seq<char>, Seq<char>), Seq<char>>((p.0@, p.1@)),
            Err(e) => spec_once(v@, d@) == Err::<(Seq<char>, Seq<char>), Seq<char>>(e@),
        },
{
    match tokenize_vecs(v, d) {
        Err(e) => Err(e),
        Ok(toks) => {
            if toks.len() >= 2 {
                let a = subvec(&toks[0], 0, toks[0].len());
                let b = join_from(&toks, 1, d);
                proof {
                    assert(a@ == vv(toks@)[0]);
                }
                Ok((a, b))
            } else {
                Err(msg_expected_vec(d))
            }
        },
    }
}

fn op_of_tok(t: &Vec<char>) -> (r: Option<OpKind>)
    ensures
        r == spec_op_of(t@),
{
    if eq_lit(t, "+") {
        Some(OpKind::Add)
    } else if eq_lit(t, "-") {
        Some(OpKind::Sub)
    } else if eq_lit(t, "*") {
        Some(OpKind::Mul)
    } else if eq_lit(t, "/") {
        Some(OpKind::Div)
    } else if eq_lit(t, "%") {
        Some(OpKind::Mod)
    } else if eq_lit(t, "==") {
        Some(OpKind::Eql)
    } else if eq_lit(t, "!=") {
        Some(OpKind::NotEq)
    } else if eq_lit(t, ">") {
        Some(OpKind::Gt)
    } else if eq_lit(t, "<") {
        Some(OpKind::Lt)
    } else if eq_lit(t, ">=") {
        Some(OpKind::GtEq)
    } else if eq_lit(t, "<=") {
        Some(OpKind::LtEq)
    } else if eq_lit(t, "&") {
        Some(OpKind::And)
    } else if eq_lit(t, "|") {
        Some(OpKind::Or)
    } else if eq_lit(t, "^") {
        Some(OpKind::Xor)
    } else {
        None
    }
}

fn bin_expr(k: OpKind, a: Expr, b: Expr) -> (r: Expr)
    ensures
        r@ == bin_v(k, a@, b@),
{
    match k {
        OpKind::Add => Expr::Add(Box::new(a), Box::new(b)),
        OpKind::Sub => Expr::Sub(Box::new(a), Box::new(b)),
        OpKind::Mul => Expr::Mul(Box::new(a), Box::new(b)),
        OpKind::Div => Expr::Div(Box::new(a), Box::new(b)),
        OpKind::Mod => Expr::Mod(Box::new(a), Box::new(b)),
        OpKind::Eql => Expr::Eql(Box::new(a), Box::new(b)),
        OpKind::NotEq => Expr::NotEq(Box::new(a), Box::new(b)),
        OpKind::Gt => Expr::Gt(Box::new(a), Box::new(b)),
        OpKind::Lt => Expr::Lt(Box::new(a), Box::new(b)),
        OpKind::GtEq => Expr::GtEq(Box::new(a), Box::new(b)),
        OpKind::LtEq => Expr::LtEq(Box::new(a), Box::new(b)),
        OpKind::And => Expr::And(Box::new(a), Box::new(b)),
        OpKind::Or => Expr::Or(Box::new(a), Box::new(b)),
        OpKind::Xor => Expr::Xor(Box::new(a), Box::new(b)),
    }
}

fn parse_op_vecs(src: &Vec<char>) -> (r: Result<Expr, Vec<char>>)
    ensures
        match r {
            Ok(e) => parse_op_v(src@) == Ok::<ExprV, Seq<char>>(e@),
            Err(m) => parse_op_v(src@) == Err::<ExprV, Seq<char>>(m@),
        },
    decreases src@.len(), 1int,
{
    let sp = chars_of(" ");
    proof {
        reveal_strlit(" ");
    }
    match tokenize_vecs(src, &sp) {
        Err(e) => Err(e),
        Ok(toks) => {
            if toks.len() < 2 {
                Err(msg_invalid_token_vec())
            } else {
                let n = toks.len() - 2;
                let op = &toks[n];
                match op_of_tok(op) {
                    None => {
                        let mut m: Vec<char> = Vec::new();
                        push_lit(&mut m, "unknown operator: ");
                        push_vec(&mut m, op);
                        proof {
                            assert(m@ =~= msg_unknown_op(vv(toks@)[n as int]));
                        }
                        Err(m)
                    },
                    Some(kind) => {
                        let lhs = crate::txt::join_range(&toks, 0, n, &sp);
                        let rhs = join_from(&toks, n + 1, &sp);
                        proof {
                            lemma_parse_op_operand_bounds(src@, vv(toks@));
                        }
                        match parse_expr_vecs(&lhs) {
                            Err(e) => Err(e),
                            Ok(a) => match parse_expr_vecs(&rhs) {
                                Err(e) => Err(e),
                                Ok(b) => Ok(bin_expr(kind, a, b)),
                            },
                        }
                    },
                }
            }
        },
    }
}

fn parse_args_vecs(toks: &Vec<Vec<char>>, from: usize) -> (r: Result<Vec<Expr>, Vec<char>>)
    requires
        from <= toks@.len(),
    ensures
        match r {
            Ok(es) => parse_args_v(vv(toks@).subrange(from as int, toks@.len() as int))
                == Ok::<Seq<ExprV>, Seq<char>>(crate::exprs_view(es@)),
            Err(m) => parse_args_v(vv(toks@).subrange(from as int, toks@.len() as int))
                == Err::<Seq<ExprV>, Seq<char>>(m@),
        },
    decreases sum_lens(vv(toks@).subrange(from as int, toks@.len() as int)) + (toks@.len()
        - from), 3int,
{
    let ghost sub = vv(toks@).subrange(from as int, toks@.len() as int);
    if from >= toks.len() {
        let es: Vec<Expr> = Vec::new();
        proof {
            assert(crate::exprs_view(es@) =~= Seq::<ExprV>::empty());
        }
        return Ok(es);
    }
    let first = subvec(&toks[from], 0, toks[from].len());
    proof {
        assert(sub[0] == vv(toks@)[from as int]);
        assert(first@ =~= vv(toks@)[from as int]);
        assert(sub.drop_first() =~= vv(toks@).subrange(from + 1, toks@.len() as int));
        lemma_sum_lens_each(sub);
    }
    match parse_expr_vecs(&first) {
        Err(e) => Err(e),
        Ok(a) => match parse_args_vecs(toks, from + 1) {
            Err(e) => Err(e),
            Ok(mut rest) => {
                let ghost r0 = rest@;
                let ghost av = a@;
                rest.insert(0, a);
                proof {
                    assert(rest@.drop_first() =~= r0);
                    assert(rest@[0]@ == av);
                    lemma_exprs_view_cons(rest@);
                    assert(crate::exprs_view(rest@) =~= seq![av] + crate::exprs_view(r0));
                }
                Ok(rest)
            },
        },
    }
}

proof fn lemma_exprs_view_cons(es: Seq<Expr>)
    requires
        es.len() >= 1,
    ensures
        crate::exprs_view(es) == seq![crate::expr_view(es[0])] + crate::exprs_view(
            es.drop_first(),
        ),
{
}

fn parse_lines_vecs(lines: &Vec<Vec<char>>, from: usize) -> (r: Result<Vec<Expr>, Vec<char>>)
    requires
        from <= lines@.len(),
    ensures
        match r {
            Ok(es) => parse_lines_v(vv(lines@).subrange(from as int, lines@.len() as int))
                == Ok::<Seq<ExprV>, Seq<char>>(crate::exprs_view(es@)),
            Err(m) => parse_lines_v(vv(lines@).subrange(from as int, lines@.len() as int))
                == Err::<Seq<ExprV>, Seq<char>>(m@),
        },
    decreases sum_lens(vv(lines@).subrange(from as int, lines@.len() as int)) + (lines@.len()
        - from), 3int,
{
    let ghost sub = vv(lines@).subrange(from as int, lines@.len() as int);
    if from >= lines.len() {
        let es: Vec<Expr> = Vec::new();
        proof {
            assert(crate::exprs_view(es@) =~= Seq::<ExprV>::empty());
        }
        return Ok(es);
    }
    let line = subvec(&lines[from], 0, lines[from].len());
    let semi = chars_of(";");
    proof {
        reveal_strlit(";");
        assert(sub[0] == vv(lines@)[from as int]);
        assert(line@ =~= vv(lines@)[from as int]);
        assert(sub.drop_first() =~= vv(lines@).subrange(from + 1, lines@.len() as int));
        lemma_once_bound(line@, ";"@);
        lemma_sum_lens_each(sub);
    }
    let h = match once_split(&line, &semi) {
        Ok(p) => p.0,
        Err(_) => line,
    };
    let ht = trim_vec(&h);
    if ht.len() == 0 {
        parse_lines_vecs(lines, from + 1)
    } else {
        match parse_expr_vecs(&h) {
            Err(e) => Err(e),
            Ok(x) => match parse_lines_vecs(lines, from + 1) {
                Err(e) => Err(e),
                Ok(mut rest) => {
                    let ghost r0 = rest@;
                    let ghost xv = x@;
                    rest.insert(0, x);
                    proof {
                        assert(rest@.drop_first() =~= r0);
                        assert(rest@[0]@ == xv);
                        lemma_exprs_view_cons(rest@);
                        assert(crate::exprs_view(rest@) =~= seq![xv] + crate::exprs_view(r0));
                    }
                    Ok(rest)
                },
            },
        }
    }
}

#[verifier::rlimit(100)]
pub(crate) fn parse_expr_vecs(src: &Vec<char>) -> (r: Result<Expr, Vec<char>>)
    ensures
        match r {
            Ok(e) => parse_expr_v(src@) == Ok::<ExprV, Seq<char>>(e@),
            Err(m) => parse_expr_v(src@) == Err::<ExprV, Seq<char>>(m@),
        },
    decreases src@.len(), 2int,
{
    let t = trim_vec(src);
    proof {
        reveal_with_fuel(crate::expr_view, 3);
        lemma_trim_len(src@);
        reveal_strlit("let ");
        reveal_strlit("if ");
        reveal_strlit("while ");
        reveal_strlit("break ");
        reveal_strlit("return ");
        reveal_strlit("=");
        reveal_strlit("then");
        reveal_strlit("else");
        reveal_strlit("do");
        reveal_strlit("\n");
    }
    if has_prefix(&t, "let ") {
        let t4 = subvec(&t, 4, t.len());
        let eq = chars_of("=");
        proof {
            lemma_once_bound(t4@, "="@);
        }
        match once_split(&t4, &eq) {
            Ok(p) => match parse_expr_vecs(&p.0) {
                Err(e) => Err(e),
                Ok(l) => match parse_expr_vecs(&p.1) {
                    Err(e) => Err(e),
                    Ok(r) => Ok(Expr::Let(Box::new(l), Box::new(r))),
                },
            },
            Err(_) => match parse_expr_vecs(&t4) {
                Err(e) => Err(e),
                Ok(l) => Ok(Expr::Let(Box::new(l), Box::new(Expr::Undefined))),
            },
        }
    } else if has_prefix(&t, "if ") {
        let t3 = subvec(&t, 3, t.len());
        let then_d = chars_of("then");
        proof {
            lemma_once_bound(t3@, "then"@);
        }
        match once_split(&t3, &then_d) {
            Err(_) => Err(chars_of("invalid `if` statement, `then` section not found")),
            Ok(p) => {
                let cond = p.0;
                let body = p.1;
                let else_d = chars_of("else");
                proof {
                    lemma_once_bound(body@, "else"@);
                }
                match once_split(&body, &else_d) {
                    Ok(q) => match parse_expr_vecs(&cond) {
                        Err(e) => Err(e),
                        Ok(c) => match parse_expr_vecs(&q.0) {
                            Err(e) => Err(e),
                            Ok(th) => match parse_expr_vecs(&q.1) {
                                Err(e) => Err(e),
                                Ok(el) => Ok(
                                    Expr::If(
                                        Box::new(c),
                                        Box::new(th),
                                        Some(Box::new(el)),
                                    ),
                                ),
                            },
                        },
                    },
                    Err(_) => match parse_expr_vecs(&cond) {
                        Err(e) => Err(e),
                        Ok(c) => match parse_expr_vecs(&body) {
                            Err(e) => Err(e),
                            Ok(th) => Ok(Expr::If(Box::new(c), Box::new(th), None)),
                        },
                    },
                }
            },
        }
    } else if has_prefix(&t, "while ") {
        let t6 = subvec(&t, 6, t.len());
        let do_d = chars_of("do");
        proof {
            lemma_once_bound(t6@, "do"@);
        }
        match once_split(&t6, &do_d) {
            Err(_) => Err(chars_of("invalid `while` statement, `do` section not found")),
            Ok(p) => match parse_expr_vecs(&p.0) {
                Err(e) => Err(e),
                Ok(c) => match parse_expr_vecs(&p.1) {
                    Err(e) => Err(e),
                    Ok(b) => Ok(Expr::While(Box::new(c), Box::new(b))),
                },
            },
        }
    } else if t.len() >= 2 && t[0] == '{' && t[t.len() - 1] == '}' {
        let inner = subvec(&t, 1, t.len() - 1);
        let nl = chars_of("\n");
        match tokenize_vecs(&inner, &nl) {
            Err(e) => Err(e),
            Ok(lines) => {
                proof {
                    lemma_tokenize_bound(inner@, "\n"@);
                    assert(vv(lines@).subrange(0, lines@.len() as int) =~= vv(lines@));
                }
                match parse_lines_vecs(&lines, 0) {
                    Err(e) => Err(e),
                    Ok(es) => Ok(Expr::Block(es)),
                }
            },
        }
    } else if has_prefix(&t, "break ") {
        let rest = subvec(&t, 6, t.len());
        match parse_expr_vecs(&rest) {
            Err(e) => Err(e),
            Ok(x) => Ok(Expr::Break(Box::new(x))),
        }
    } else if has_prefix(&t, "return ") {
        let rest = subvec(&t, 7, t.len());
        match parse_expr_vecs(&rest) {
            Err(e) => Err(e),
            Ok(x) => Ok(Expr::Return(Box::new(x))),
        }
    } else if eq_lit(&t, "break") {
        Ok(Expr::Break(Box::new(Expr::Undefined)))
    } else if eq_lit(&t, "return") {
        Ok(Expr::Return(Box::new(Expr::Undefined)))
    } else {
        let op_try = parse_op_vecs(&t);
        if let Ok(e) = op_try {
            return Ok(e);
        }
        assert(parse_op_v(t@) is Err);
        parse_tail_vecs(&t)
    }
}

fn parse_tail_vecs(t: &Vec<char>) -> (r: Result<Expr, Vec<char>>)
    ensures
        match r {
            Ok(e) => parse_expr_tail_v(t@) == Ok::<ExprV, Seq<char>>(e@),
            Err(m) => parse_expr_tail_v(t@) == Err::<ExprV, Seq<char>>(m@),
        },
    decreases t@.len(), 0int,
{
    if t.len() >= 1 && t[0] == '*' {
            let rest = subvec(t, 1, t.len());
            match parse_expr_vecs(&rest) {
                Err(e) => Err(e),
                Ok(x) => {
                    let r = Expr::Derefer(Box::new(x), Size::Normal);
                    assert(parse_expr_tail_v(t@) == Ok::<ExprV, Seq<char>>(r@));
                    Ok(r)
                },
            }
        } else if t.len() >= 1 && t[0] == '&' {
            let rest = subvec(t, 1, t.len());
            let rest_str = string_of(&rest);
            match Name::new(rest_str.as_str()) {
                Ok(nm) => Ok(Expr::Pointer(nm)),
                Err(_) => match parse_expr_vecs(&rest) {
                    Ok(e) => match e {
                        Expr::Derefer(inner, _) => {
                            let r = *inner;
                            assert(parse_expr_tail_v(t@) == Ok::<ExprV, Seq<char>>(r@));
                            Ok(r)
                        },
                        _ => Err(chars_of("invalid reference")),
                    },
                    Err(_) => Err(chars_of("invalid reference")),
                },
            }
        } else if t.len() >= 1 && t[0] == '"' && t[t.len() - 1] == '"' {
            Ok(Expr::String(string_of(t)))
        } else if t.len() >= 2 && t[0] == '(' && t[t.len() - 1] == ')' {
            let inner = subvec(t, 1, t.len() - 1);
            parse_expr_vecs(&inner)
        } else {
            let paren = find_char(t, '(');
            proof {
                crate::txt::lemma_find_c_pub(t@, '(');
            }
            if paren.is_some() && t.len() >= 1 && t[t.len() - 1] == ')' {
                let expr = subvec(t, 0, t.len() - 1);
                match find_char(&expr, '(') {
                    None => Err(msg_invalid_token_vec()),
                    Some(p) => {
                        proof {
                            crate::txt::lemma_find_c_pub(expr@, '(');
                        }
                        let callee_src = subvec(&expr, 0, p);
                        let args_src = subvec(&expr, p + 1, expr.len());
                        match parse_expr_vecs(&callee_src) {
                            Err(e) => Err(e),
                            Ok(callee) => {
                                let comma = chars_of(",");
                                proof {
                                    reveal_strlit(",");
                                }
                                match tokenize_vecs(&args_src, &comma) {
                                    Err(e) => Err(e),
                                    Ok(atoks) => {
                                        proof {
                                            lemma_tokenize_bound(args_src@, ","@);
                                            assert(vv(atoks@).subrange(
                                                0,
                                                atoks@.len() as int,
                                            ) =~= vv(atoks@));
                                        }
                                        match parse_args_vecs(&atoks, 0) {
                                            Err(e) => Err(e),
                                            Ok(args) => Ok(
                                                Expr::Call(Box::new(callee), args),
                                            ),
                                        }
                                    },
                                }
                            },
                        }
                    },
                }
            } else {
                let brack = find_char(t, '[');
                proof {
                    crate::txt::lemma_find_c_pub(t@, '[');
                }
                if brack.is_some() && t.len() >= 1 && t[t.len() - 1] == ']' {
                    let expr = subvec(t, 0, t.len() - 1);
                    match rfind_char(&expr, '[') {
                        None => Err(msg_invalid_token_vec()),
                        Some(p) => {
                            proof {
                                crate::txt::lemma_rfind_c_pub(expr@, '[');
                            }
                            let arr = subvec(&expr, 0, p);
                            let idx = subvec(&expr, p + 1, expr.len());
                            match parse_expr_vecs(&arr) {
                                Err(e) => Err(e),
                                Ok(a) => match parse_expr_vecs(&idx) {
                                    Err(e) => Err(e),
                                    Ok(ix) => {
                                        let r = Expr::Derefer(
                                            Box::new(
                                                Expr::Add(
                                                    Box::new(a),
                                                    Box::new(
                                                        Expr::Mul(
                                                            Box::new(ix),
                                                            Box::new(Expr::Integer(8)),
                                                        ),
                                                    ),
                                                ),
                                            ),
                                            Size::Normal,
                                        );
                                        proof {
                                            reveal_with_fuel(crate::expr_view, 5);
                                        }
                                        assert(parse_expr_tail_v(t@) == Ok::<ExprV, Seq<char>>(
                                            r@,
                                        ));
                                        Ok(r)
                                    },
                                },
                            }
                        },
                    }
                } else {
                    match parse_i64_vec(t) {
                        Some(v) => Ok(Expr::Integer(v)),
                        None => {
                            if eq_lit(t, "true") {
                                Ok(Expr::Integer(1))
                            } else if eq_lit(t, "false") {
                                Ok(Expr::Integer(0))
                            } else {
                                let t_str = string_of(t);
                                match Name::new(t_str.as_str()) {
                                    Ok(nm) => Ok(Expr::Variable(nm)),
                                    Err(e) => Err(chars_of_string(&e)),
                                }
                            }
                        },
                    }
                }
            }
        }
}

/// The characters of an owned string.
fn chars_of_string(s: &String) -> (r: Vec<char>)
    ensures
        r@ == s@,
{
    chars_of(s.as_str())
}

impl Expr {
    /// Parse one expression from source text; the result is exactly
    /// [`parse_expr_v`] of the text.
    pub fn parse(source: &str) -> (r: Result<Expr, String>)
        ensures
            match r {
                Ok(e) => parse_expr_v(source@) == Ok::<ExprV, Seq<char>>(e@),
                Err(m) => parse_expr_v(source@) == Err::<ExprV, Seq<char>>(m@),
            },
    {
        let v = chars_of(source);
        match parse_expr_vecs(&v) {
            Ok(e) => Ok(e),
            Err(m) => Err(string_of(&m)),
        }
    }
}

fn parse_params_vecs(atoks: &Vec<Vec<char>>) -> (r: Result<indexmap::IndexSet<String>, Vec<char>>)
    ensures
        match r {
            Ok(s) => parse_params_v(vv(atoks@), Seq::empty()) == Ok::<Seq<Seq<char>>, Seq<char>>(
                iset_elems(s),
            ),
            Err(m) => parse_params_v(vv(atoks@), Seq::empty()) == Err::<Seq<Seq<char>>, Seq<char>>(
                m@,
            ),
        },
{
    let mut set = iset_new();
    let mut i: usize = 0;
    proof {
        assert(vv(atoks@).subrange(0, atoks@.len() as int) =~= vv(atoks@));
    }
    while i < atoks.len()
        invariant
            0 <= i <= atoks@.len(),
            parse_params_v(vv(atoks@), Seq::empty()) == parse_params_v(
                vv(atoks@).subrange(i as int, atoks@.len() as int),
                iset_elems(set),
            ),
        decreases atoks@.len() - i,
    {
        let ghost pre = vv(atoks@).subrange(i as int, atoks@.len() as int);
        let tok_str = string_of(&atoks[i]);
        proof {
            assert(pre[0] == vv(atoks@)[i as int]);
            assert(pre.drop_first() =~= vv(atoks@).subrange(i + 1, atoks@.len() as int));
        }
        match Name::new(tok_str.as_str()) {
            Err(e) => {
                return Err(chars_of_string(&e));
            },
            Ok(nm) => {
                let owned = String::from_str(nm.as_str());
                iset_insert(&mut set, owned);
            },
        }
        i = i + 1;
    }
    proof {
        assert(vv(atoks@).subrange(atoks@.len() as int, atoks@.len() as int)
            =~= Seq::<Seq<char>>::empty());
    }
    Ok(set)
}

fn parse_defs_vecs(lines: &Vec<Vec<char>>, from: usize) -> (r: Result<Vec<Define>, Vec<char>>)
    requires
        from <= lines@.len(),
    ensures
        match r {
            Ok(ds) => parse_defs_lines_v(vv(lines@).subrange(from as int, lines@.len() as int))
                == Ok::<Seq<DefineV>, Seq<char>>(defines_view(ds@)),
            Err(m) => parse_defs_lines_v(vv(lines@).subrange(from as int, lines@.len() as int))
                == Err::<Seq<DefineV>, Seq<char>>(m@),
        },
    decreases lines@.len() - from,
{
    let ghost sub = vv(lines@).subrange(from as int, lines@.len() as int);
    if from >= lines.len() {
        let ds: Vec<Define> = Vec::new();
        proof {
            assert(defines_view(ds@) =~= Seq::<DefineV>::empty());
        }
        return Ok(ds);
    }
    let line = subvec(&lines[from], 0, lines[from].len());
    proof {
        reveal_strlit("fn ");
        reveal_strlit(",");
        assert(sub[0] == vv(lines@)[from as int]);
        assert(line@ =~= vv(lines@)[from as int]);
        assert(sub.drop_first() =~= vv(lines@).subrange(from + 1, lines@.len() as int));
    }
    if !has_prefix(&line, "fn ") {
        return parse_defs_vecs(lines, from + 1);
    }
    let func = subvec(&line, 3, line.len());
    proof {
        crate::txt::lemma_find_c_pub(func@, ')');
    }
    let p = match find_char(&func, ')') {
        None => {
            return Err(msg_invalid_token_vec());
        },
        Some(p) => p,
    };
    let head = subvec(&func, 0, p);
    let body_src = subvec(&func, p + 1, func.len());
    proof {
        crate::txt::lemma_find_c_pub(head@, '(');
    }
    let q = match find_char(&head, '(') {
        None => {
            return Err(msg_invalid_token_vec());
        },
        Some(q) => q,
    };
    let name_src = subvec(&head, 0, q);
    let args_src = subvec(&head, q + 1, head.len());
    let comma = chars_of(",");
    let atoks = match tokenize_vecs(&args_src, &comma) {
        Err(e) => {
            return Err(e);
        },
        Ok(atoks) => atoks,
    };
    let params = match parse_params_vecs(&atoks) {
        Err(e) => {
            return Err(e);
        },
        Ok(s) => s,
    };
    let body = match parse_expr_vecs(&body_src) {
        Err(e) => {
            return Err(e);
        },
        Ok(b) => b,
    };
    let name_str = string_of(&name_src);
    let nm = match Name::new(name_str.as_str()) {
        Err(e) => {
            return Err(chars_of_string(&e));
        },
        Ok(nm) => nm,
    };
    match parse_defs_vecs(lines, from + 1) {
        Err(e) => Err(e),
        Ok(mut rest) => {
            let d = Define(nm, params, body);
            let ghost r0 = rest@;
            let ghost dv = d@;
            rest.insert(0, d);
            proof {
                assert(rest@.drop_first() =~= r0);
                assert(rest@[0]@ == dv);
                assert forall|j: int| 0 <= j < rest@.len() implies defines_view(rest@)[j] == (
                seq![dv] + defines_view(r0))[j] by {
                    if j > 0 {
                        assert(rest@[j] == r0[j - 1]);
                    }
                }
                assert(defines_view(rest@) =~= seq![dv] + defines_view(r0));
            }
            Ok(rest)
        },
    }
}

impl Define {
    /// Parse every function definition in the program text; the result is
    /// exactly [`parse_defines_v`] of the text.
    pub fn parse(source: &str) -> (r: Result<Vec<Define>, String>)
        ensures
            match r {
                Ok(ds) => parse_defines_v(source@) == Ok::<Seq<DefineV>, Seq<char>>(
                    defines_view(ds@),
                ),
                Err(m) => parse_defines_v(source@) == Err::<Seq<DefineV>, Seq<char>>(m@),
            },
    {
        let v = chars_of(source);
        let nl = chars_of("\n");
        proof {
            reveal_strlit("\n");
        }
        match tokenize_vecs(&v, &nl) {
            Err(e) => Err(string_of(&e)),
            Ok(lines) => {
                proof {
                    assert(vv(lines@).subrange(0, lines@.len() as int) =~= vv(lines@));
                }
                match parse_defs_vecs(&lines, 0) {
                    Err(e) => Err(string_of(&e)),
                    Ok(ds) => Ok(ds),
                }
            },
        }
    }
}

} // verus!
