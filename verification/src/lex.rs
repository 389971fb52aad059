//! Lexical layer: identifier validation ([`Name`]) and the bracket- and
//! quote-aware splitter ([`tokenize`]).
use crate::txt::{
    chars_of, eq_lit, lemma_sum_lens_each, lemma_sum_lens_push, string_of, sum_lens, sv, trim_vec,
    trim_view, vv,
};
use vstd::prelude::*;

verus! {

/// A character allowed in an identifier: ASCII letters, digits, underscore.
pub open spec fn is_name_char(c: char) -> bool {
    c == '_' || (97 <= c as u32 <= 122) || (65 <= c as u32 <= 90) || (48 <= c as u32 <= 57)
}

/// The reserved words, which no identifier may equal.
pub open spec fn is_reserved(s: Seq<char>) -> bool {
    s == "let"@ || s == "if"@ || s == "then"@ || s == "else"@ || s == "while"@ || s == "do"@ || s
        == "break"@ || s == "return"@
}

/// Every character of `s` is a name character.
pub open spec fn all_name_chars(s: Seq<char>) -> bool {
    forall|i: int| 0 <= i < s.len() ==> is_name_char(s[i])
}

/// A well-formed identifier: non-empty, made of name characters, not reserved.
pub open spec fn valid_name(s: Seq<char>) -> bool {
    s.len() > 0 && all_name_chars(s) && !is_reserved(s)
}

/// What [`Name::new`] returns on `s`: the trimmed text when it is a valid
/// identifier, otherwise the diagnostic for the first failing rule.
pub open spec fn spec_name_new(s: Seq<char>) -> Result<Seq<char>, Seq<char>> {
    let t = trim_view(s);
    if t.len() == 0 {
        Err("empty name"@)
    } else if !all_name_chars(t) {
        Err("invalid name: "@ + t)
    } else if is_reserved(t) {
        Err("reserved name: "@ + t)
    } else {
        Ok(t)
    }
}

/// A validated identifier.
#[derive(Clone, PartialEq, Eq, Debug)]
pub struct Name(String);

impl View for Name {
    type V = Seq<char>;

    closed spec fn view(&self) -> Seq<char> {
        self.0@
    }
}

impl Name {
    /// Validate `name` (after trimming whitespace) as an identifier.
    pub fn new(name: &str) -> (r: Result<Name, String>)
        ensures
            match r {
                Ok(n) => spec_name_new(name@) == Ok::<Seq<char>, Seq<char>>(n@) && valid_name(n@),
                Err(e) => spec_name_new(name@) == Err::<Seq<char>, Seq<char>>(e@),
            },
    {
        let v = chars_of(name);
        let t = trim_vec(&v);
        if t.len() == 0 {
            return Err(String::from_str("empty name"));
        }
        let mut i: usize = 0;
        while i < t.len()
            invariant
                0 <= i <= t@.len(),
                t@ == trim_view(name@),
                t@.len() > 0,
                forall|j: int| 0 <= j < i ==> is_name_char(t@[j]),
            decreases t@.len() - i,
        {
            let c = t[i];
            let cu = c as u32;
            if !(c == '_' || (97 <= cu && cu <= 122) || (65 <= cu && cu <= 90) || (48 <= cu && cu
                <= 57)) {
                assert(!is_name_char(t@[i as int]));
                assert(!all_name_chars(t@));
                let mut e = String::from_str("invalid name: ");
                let tail = string_of(&t);
                e.append(tail.as_str());
                return Err(e);
            }
            i = i + 1;
        }
        if eq_lit(&t, "let") || eq_lit(&t, "if") || eq_lit(&t, "then") || eq_lit(&t, "else")
            || eq_lit(&t, "while") || eq_lit(&t, "do") || eq_lit(&t, "break") || eq_lit(
            &t,
            "return",
        ) {
            let mut e = String::from_str("reserved name: ");
            let tail = string_of(&t);
            e.append(tail.as_str());
            return Err(e);
        }
        Ok(Name(string_of(&t)))
    }

    /// The identifier's text.
    pub fn as_str(&self) -> (r: &str)
        ensures
            r@ == self@,
    {
        self.0.as_str()
    }
}

/// State of the splitter: finished tokens, the token being built, bracket
/// depth, whether inside a quoted region, whether the next character is
/// escaped.
pub struct TokSt {
    pub toks: Seq<Seq<char>>,
    pub cur: Seq<char>,
    pub depth: nat,
    pub quote: bool,
    pub esc: bool,
}

pub open spec fn tok_init() -> TokSt {
    TokSt { toks: Seq::empty(), cur: Seq::empty(), depth: 0, quote: false, esc: false }
}

pub open spec fn is_open_c(c: char) -> bool {
    c == '(' || c == '{' || c == '['
}

pub open spec fn is_close_c(c: char) -> bool {
    c == ')' || c == '}' || c == ']'
}

/// Run the splitter over `input[i..]` starting from state `st`: one step per
/// character, except that a delimiter occurrence outside any nested region
/// is consumed whole.
pub open spec fn tok_run(input: Seq<char>, d: Seq<char>, i: int, st: TokSt) -> TokSt
    decreases input.len() - i,
{
    if i < 0 || i >= input.len() {
        st
    } else {
        let c = input[i];
        if st.esc {
            tok_run(input, d, i + 1, TokSt { cur: st.cur.push(c), esc: false, ..st })
        } else if !st.quote && is_open_c(c) {
            tok_run(input, d, i + 1, TokSt { cur: st.cur.push(c), depth: st.depth + 1, ..st })
        } else if !st.quote && is_close_c(c) {
            tok_run(
                input,
                d,
                i + 1,
                TokSt {
                    cur: st.cur.push(c),
                    depth: if st.depth > 0 {
                        (st.depth - 1) as nat
                    } else {
                        0
                    },
                    ..st
                },
            )
        } else if c == '"' {
            tok_run(input, d, i + 1, TokSt { cur: st.cur.push(c), quote: !st.quote, ..st })
        } else if st.quote && c == '\\' {
            tok_run(input, d, i + 1, TokSt { cur: st.cur.push(c), esc: true, ..st })
        } else if d.len() >= 1 && i + d.len() <= input.len() && input.subrange(i, i + d.len()) == d {
            if st.depth != 0 || st.quote {
                tok_run(input, d, i + d.len(), TokSt { cur: st.cur + d, ..st })
            } else if st.cur.len() > 0 {
                tok_run(
                    input,
                    d,
                    i + d.len(),
                    TokSt { toks: st.toks.push(st.cur), cur: Seq::empty(), ..st },
                )
            } else {
                tok_run(input, d, i + d.len(), st)
            }
        } else {
            tok_run(input, d, i + 1, TokSt { cur: st.cur.push(c), ..st })
        }
    }
}

pub open spec fn msg_unclosed() -> Seq<char> {
    "nested syntax but not closed"@
}

/// What [`tokenize`] returns: the maximal non-empty substrings of `input`
/// separated by `d` outside brackets and quotes, or the unclosed-region
/// diagnostic when the input ends inside a bracket, quote or escape.
pub open spec fn spec_tokenize(input: Seq<char>, d: Seq<char>) -> Result<Seq<Seq<char>>, Seq<char>> {
    let st = tok_run(input, d, 0, tok_init());
    if st.esc || st.quote || st.depth != 0 {
        Err(msg_unclosed())
    } else if st.cur.len() > 0 {
        Ok(st.toks.push(st.cur))
    } else {
        Ok(st.toks)
    }
}

/// The splitter's output, weighed: token text, pending text, and one
/// delimiter for each finished token.
pub open spec fn tok_measure(st: TokSt, d: Seq<char>) -> nat {
    sum_lens(st.toks) + st.cur.len() + st.toks.len() * d.len()
}

proof fn lemma_tok_run_measure(input: Seq<char>, d: Seq<char>, i: int, st: TokSt)
    requires
        0 <= i <= input.len(),
    ensures
        tok_measure(tok_run(input, d, i, st), d) <= tok_measure(st, d) + (input.len() - i),
    decreases input.len() - i,
{
    if i < input.len() {
        let c = input[i];
        if st.esc {
            lemma_tok_run_measure(input, d, i + 1, TokSt { cur: st.cur.push(c), esc: false, ..st });
        } else if !st.quote && is_open_c(c) {
            lemma_tok_run_measure(
                input,
                d,
                i + 1,
                TokSt { cur: st.cur.push(c), depth: st.depth + 1, ..st },
            );
        } else if !st.quote && is_close_c(c) {
            lemma_tok_run_measure(
                input,
                d,
                i + 1,
                TokSt {
                    cur: st.cur.push(c),
                    depth: if st.depth > 0 {
                        (st.depth - 1) as nat
                    } else {
                        0
                    },
                    ..st
                },
            );
        } else if c == '"' {
            lemma_tok_run_measure(
                input,
                d,
                i + 1,
                TokSt { cur: st.cur.push(c), quote: !st.quote, ..st },
            );
        } else if st.quote && c == '\\' {
            lemma_tok_run_measure(input, d, i + 1, TokSt { cur: st.cur.push(c), esc: true, ..st });
        } else if d.len() >= 1 && i + d.len() <= input.len() && input.subrange(i, i + d.len())
            == d {
            if st.depth != 0 || st.quote {
                lemma_tok_run_measure(input, d, i + d.len(), TokSt { cur: st.cur + d, ..st });
            } else if st.cur.len() > 0 {
                let st2 = TokSt { toks: st.toks.push(st.cur), cur: Seq::empty(), ..st };
                lemma_sum_lens_push(st.toks, st.cur);
                assert((st.toks.len() + 1) * d.len() == st.toks.len() * d.len() + d.len())
                    by (nonlinear_arith);
                lemma_tok_run_measure(input, d, i + d.len(), st2);
            } else {
                lemma_tok_run_measure(input, d, i + d.len(), st);
            }
        } else {
            lemma_tok_run_measure(input, d, i + 1, TokSt { cur: st.cur.push(c), ..st });
        }
    }
}

/// When splitting succeeds, the tokens together with one delimiter between
/// each pair fit inside the input; in particular each token fits.
pub proof fn lemma_tokenize_bound(input: Seq<char>, d: Seq<char>)
    ensures
        match spec_tokenize(input, d) {
            Ok(toks) => (toks.len() >= 1 ==> sum_lens(toks) + (toks.len() - 1) * d.len()
                <= input.len()) && (forall|i: int|
                0 <= i < toks.len() ==> (#[trigger] toks[i]).len() <= sum_lens(toks)),
            Err(_) => true,
        },
{
    lemma_tok_run_measure(input, d, 0, tok_init());
    let st = tok_run(input, d, 0, tok_init());
    assert(tok_measure(tok_init(), d) == 0);
    match spec_tokenize(input, d) {
        Ok(toks) => {
            lemma_sum_lens_each(toks);
            if st.cur.len() > 0 {
                lemma_sum_lens_push(st.toks, st.cur);
                assert(toks == st.toks.push(st.cur));
                assert(toks.len() == st.toks.len() + 1);
                if toks.len() >= 1 {
                    assert((toks.len() - 1) * d.len() == st.toks.len() * d.len());
                }
            } else {
                assert(toks == st.toks);
                if toks.len() >= 1 {
                    assert((toks.len() - 1) * d.len() <= toks.len() * d.len())
                        by (nonlinear_arith)
                        requires
                            toks.len() >= 1,
                    ;
                }
            }
        },
        Err(_) => {},
    }
}

/// Does `d` occur in `v` at position `i`?
pub(crate) fn matches_at(v: &Vec<char>, i: usize, d: &Vec<char>) -> (r: bool)
    requires
        i <= v@.len(),
    ensures
        r == (i + d@.len() <= v@.len() && v@.subrange(i as int, i + d@.len()) == d@),
{
    let n = v.len();
    let m = d.len();
    if m > n - i {
        return false;
    }
    let mut k: usize = 0;
    while k < d.len()
        invariant
            0 <= k <= m,
            n == v@.len(),
            m == d@.len(),
            i + m <= n,
            forall|j: int| 0 <= j < k ==> v@[i + j] == d@[j],
        decreases d@.len() - k,
    {
        if v[i + k] != d[k] {
            assert(v@.subrange(i as int, i + d@.len())[k as int] != d@[k as int]);
            return false;
        }
        k = k + 1;
    }
    proof {
        assert(v@.subrange(i as int, i + d@.len()) =~= d@);
    }
    true
}

/// Split `input` on `d`, with the result described by [`spec_tokenize`].
pub(crate) fn tokenize_vecs(input: &Vec<char>, d: &Vec<char>) -> (r: Result<
    Vec<Vec<char>>,
    Vec<char>,
>)
    requires
        d@.len() >= 1,
    ensures
        match r {
            Ok(toks) => spec_tokenize(input@, d@) == Ok::<Seq<Seq<char>>, Seq<char>>(vv(toks@)),
            Err(e) => spec_tokenize(input@, d@) == Err::<Seq<Seq<char>>, Seq<char>>(e@),
        },
{
    let ghost init = tok_init();
    let mut toks: Vec<Vec<char>> = Vec::new();
    let mut cur: Vec<char> = Vec::new();
    let mut depth: usize = 0;
    let mut quote: bool = false;
    let mut esc: bool = false;
    let mut i: usize = 0;
    proof {
        assert(vv(toks@) =~= init.toks);
    }
    while i < input.len()
        invariant
            d@.len() >= 1,
            0 <= i <= input@.len(),
            depth <= i,
            tok_run(input@, d@, 0, tok_init()) == tok_run(
                input@,
                d@,
                i as int,
                TokSt { toks: vv(toks@), cur: cur@, depth: depth as nat, quote, esc },
            ),
        decreases input@.len() - i,
    {
        let ghost pre = TokSt { toks: vv(toks@), cur: cur@, depth: depth as nat, quote, esc };
        let c = input[i];
        if esc {
            cur.push(c);
            esc = false;
            i = i + 1;
        } else if !quote && (c == '(' || c == '{' || c == '[') {
            cur.push(c);
            depth = depth + 1;
            i = i + 1;
        } else if !quote && (c == ')' || c == '}' || c == ']') {
            cur.push(c);
            if depth > 0 {
                depth = depth - 1;
            }
            i = i + 1;
        } else if c == '"' {
            quote = !quote;
            cur.push(c);
            i = i + 1;
        } else if quote && c == '\\' {
            cur.push(c);
            esc = true;
            i = i + 1;
        } else if matches_at(input, i, d) {
            if depth != 0 || quote {
                let mut k: usize = 0;
                while k < d.len()
                    invariant
                        0 <= k <= d@.len(),
                        cur@ == pre.cur + d@.subrange(0, k as int),
                    decreases d@.len() - k,
                {
                    cur.push(d[k]);
                    assert(cur@ =~= pre.cur + d@.subrange(0, k + 1));
                    k = k + 1;
                }
                assert(cur@ =~= pre.cur + d@);
            } else if cur.len() > 0 {
                let done = cur;
                cur = Vec::new();
                toks.push(done);
                proof {
                    assert(vv(toks@) =~= pre.toks.push(pre.cur));
                }
            }
            i = i + d.len();
        } else {
            cur.push(c);
            i = i + 1;
        }
        proof {
            let post = TokSt { toks: vv(toks@), cur: cur@, depth: depth as nat, quote, esc };
            assert(tok_run(input@, d@, (i - 1) as int, pre) == tok_run(input@, d@, i as int, post)
                || tok_run(input@, d@, i - d@.len(), pre) == tok_run(input@, d@, i as int, post));
        }
    }
    let ghost fin = TokSt { toks: vv(toks@), cur: cur@, depth: depth as nat, quote, esc };
    proof {
        assert(tok_run(input@, d@, i as int, fin) == fin);
    }
    if esc || quote || depth != 0 {
        return Err(chars_of("nested syntax but not closed"));
    }
    if cur.len() > 0 {
        let done = cur;
        toks.push(done);
        proof {
            assert(vv(toks@) =~= fin.toks.push(fin.cur));
        }
    }
    Ok(toks)
}

/// Split `input` into the maximal non-empty substrings separated by
/// `delimiter`, treating bracketed and quoted regions as atomic. The result
/// is exactly [`spec_tokenize`] of the two texts.
pub fn tokenize(input: &str, delimiter: &str) -> (r: Result<Vec<String>, String>)
    requires
        delimiter@.len() >= 1,
    ensures
        match r {
            Ok(toks) => spec_tokenize(input@, delimiter@) == Ok::<Seq<Seq<char>>, Seq<char>>(
                sv(toks@),
            ),
            Err(e) => spec_tokenize(input@, delimiter@) == Err::<Seq<Seq<char>>, Seq<char>>(e@),
        },
{
    let iv = chars_of(input);
    let dv = chars_of(delimiter);
    match tokenize_vecs(&iv, &dv) {
        Err(e) => Err(string_of(&e)),
        Ok(toks) => {
            let mut out: Vec<String> = Vec::new();
            let mut i: usize = 0;
            while i < toks.len()
                invariant
                    0 <= i <= toks@.len(),
                    sv(out@) == vv(toks@).subrange(0, i as int),
                decreases toks@.len() - i,
            {
                let s = string_of(&toks[i]);
                let ghost out0 = out@;
                let ghost svw = s@;
                out.push(s);
                proof {
                    assert(out@.len() == out0.len() + 1);
                    assert forall|j: int| 0 <= j < out@.len() implies sv(out@)[j] == sv(
                        out0,
                    ).push(svw)[j] by {
                        if j < out0.len() {
                            assert(out@[j] == out0[j]);
                        } else {
                            assert(out@[j]@ == svw);
                        }
                    }
                    assert(sv(out@) =~= sv(out0).push(svw));
                    assert(sv(out0).push(svw) =~= vv(toks@).subrange(0, i + 1));
                }
                i = i + 1;
            }
            proof {
                assert(vv(toks@).subrange(0, toks@.len() as int) =~= vv(toks@));
            }
            Ok(out)
        },
    }
}

} // verus!
