use minic::lex::{tokenize, Name};
use minic::{Define, Expr, Size};

fn toks(input: &str, d: &str) -> Vec<String> {
    tokenize(input, d).unwrap()
}

fn var(n: &str) -> Expr {
    Expr::Variable(Name::new(n).unwrap())
}

#[test]
fn tokenize_plain_split() {
    assert_eq!(toks("a b", " "), vec!["a".to_string(), "b".to_string()]);
}

#[test]
fn tokenize_skips_empty_tokens() {
    assert_eq!(toks("a  b ", " "), vec!["a".to_string(), "b".to_string()]);
}

#[test]
fn tokenize_keeps_bracketed_regions_atomic() {
    assert_eq!(
        toks("f(a, b),c", ","),
        vec!["f(a, b)".to_string(), "c".to_string()]
    );
}

#[test]
fn tokenize_keeps_quoted_regions_atomic() {
    assert_eq!(
        toks("\"a b\" c", " "),
        vec!["\"a b\"".to_string(), "c".to_string()]
    );
}

#[test]
fn tokenize_escape_keeps_quote_open() {
    assert_eq!(toks("\"a\\\" b\" c", " ").len(), 2);
}

#[test]
fn tokenize_unclosed_bracket_is_error() {
    assert!(tokenize("(a b", " ").is_err());
}

#[test]
fn tokenize_unclosed_quote_is_error() {
    assert!(tokenize("\"ab", " ").is_err());
}

#[test]
fn tokenize_extra_closer_is_clamped() {
    // more closers than openers do not raise by themselves
    assert_eq!(toks("a) b", " "), vec!["a)".to_string(), "b".to_string()]);
}

#[test]
fn tokenize_join_round_trip() {
    // joining the tokens with the delimiter recovers the input up to
    // elided empties
    let input = "one two  three";
    let t = toks(input, " ");
    assert_eq!(t.join(" "), "one two three");
}

#[test]
fn name_accepts_identifiers() {
    assert!(Name::new("abc_123").is_ok());
    assert!(Name::new("  spaced  ").is_ok());
}

#[test]
fn name_rejects_reserved_and_invalid() {
    assert!(Name::new("while").is_err());
    assert!(Name::new("a-b").is_err());
    assert!(Name::new("").is_err());
    assert!(Name::new("   ").is_err());
}

#[test]
fn parse_integer_and_bool_literals() {
    assert_eq!(Expr::parse("42").unwrap(), Expr::Integer(42));
    assert_eq!(Expr::parse("-7").unwrap(), Expr::Integer(-7));
    assert_eq!(Expr::parse("true").unwrap(), Expr::Integer(1));
    assert_eq!(Expr::parse("false").unwrap(), Expr::Integer(0));
    assert_eq!(
        Expr::parse("9223372036854775807").unwrap(),
        Expr::Integer(i64::MAX)
    );
    assert_eq!(
        Expr::parse("-9223372036854775808").unwrap(),
        Expr::Integer(i64::MIN)
    );
    // an out-of-range literal is all name characters, so it parses as a name
    assert_eq!(
        Expr::parse("9223372036854775808").unwrap(),
        var("9223372036854775808")
    );
}

#[test]
fn parse_binary_operator_right_most_wins() {
    assert_eq!(
        Expr::parse("a + b").unwrap(),
        Expr::Add(Box::new(var("a")), Box::new(var("b")))
    );
    // no precedence: the right-most operator splits last
    assert_eq!(
        Expr::parse("1 + 2 * 3").unwrap(),
        Expr::Mul(
            Box::new(Expr::Add(
                Box::new(Expr::Integer(1)),
                Box::new(Expr::Integer(2))
            )),
            Box::new(Expr::Integer(3))
        )
    );
}

#[test]
fn parse_parenthesized_equals_plain() {
    // (E) parses to the same tree as E
    assert_eq!(
        Expr::parse("(x + 1)").unwrap(),
        Expr::parse("x + 1").unwrap()
    );
    assert_eq!(Expr::parse("(y)").unwrap(), Expr::parse("y").unwrap());
}

#[test]
fn parse_parenthesized_operands_equal_plain() {
    assert_eq!(
        Expr::parse("(a) + (b)").unwrap(),
        Expr::parse("a + b").unwrap()
    );
    assert_eq!(
        Expr::parse("(2) + (3)").unwrap(),
        Expr::parse("2 + 3").unwrap()
    );
}

#[test]
fn parse_unknown_operator_is_not_a_split() {
    // `a ? b` has no operator in second-to-last position that is known,
    // so the whole token falls through to name validation and fails
    assert!(Expr::parse("a ? b").is_err());
}

#[test]
fn parse_let_forms() {
    assert_eq!(
        Expr::parse("let x = 1").unwrap(),
        Expr::Let(Box::new(var("x")), Box::new(Expr::Integer(1)))
    );
    assert_eq!(
        Expr::parse("let x").unwrap(),
        Expr::Let(Box::new(var("x")), Box::new(Expr::Undefined))
    );
}

#[test]
fn parse_if_while_break_return() {
    assert_eq!(
        Expr::parse("if 1 then 2 else 3").unwrap(),
        Expr::If(
            Box::new(Expr::Integer(1)),
            Box::new(Expr::Integer(2)),
            Some(Box::new(Expr::Integer(3)))
        )
    );
    assert_eq!(
        Expr::parse("if 1 then 2").unwrap(),
        Expr::If(Box::new(Expr::Integer(1)), Box::new(Expr::Integer(2)), None)
    );
    assert!(Expr::parse("if 1 2").is_err());
    assert_eq!(
        Expr::parse("while 1 do 2").unwrap(),
        Expr::While(Box::new(Expr::Integer(1)), Box::new(Expr::Integer(2)))
    );
    assert!(Expr::parse("while 1 2").is_err());
    assert_eq!(
        Expr::parse("break").unwrap(),
        Expr::Break(Box::new(Expr::Undefined))
    );
    assert_eq!(
        Expr::parse("return 42").unwrap(),
        Expr::Return(Box::new(Expr::Integer(42)))
    );
}

#[test]
fn parse_block_skips_blank_lines_and_semicolon_suffix() {
    let e = Expr::parse("{\n let x = 1; trailing\n\n return x\n}").unwrap();
    assert_eq!(
        e,
        Expr::Block(vec![
            Expr::Let(Box::new(var("x")), Box::new(Expr::Integer(1))),
            Expr::Return(Box::new(var("x"))),
        ])
    );
}

#[test]
fn parse_call_and_arguments() {
    assert_eq!(
        Expr::parse("f(1, g(2))").unwrap(),
        Expr::Call(
            Box::new(var("f")),
            vec![
                Expr::Integer(1),
                Expr::Call(Box::new(var("g")), vec![Expr::Integer(2)]),
            ]
        )
    );
}

#[test]
fn parse_pointer_and_deref() {
    assert_eq!(
        Expr::parse("&x").unwrap(),
        Expr::Pointer(Name::new("x").unwrap())
    );
    assert_eq!(
        Expr::parse("*p").unwrap(),
        Expr::Derefer(Box::new(var("p")), Size::Normal)
    );
    // &*E collapses to E
    assert_eq!(Expr::parse("&*p").unwrap(), var("p"));
    // digits make a valid name, so &1 is the address of the name `1`;
    // a non-name, non-deref operand is rejected
    assert_eq!(
        Expr::parse("&1").unwrap(),
        Expr::Pointer(Name::new("1").unwrap())
    );
    assert!(Expr::parse("&-").is_err());
}

#[test]
fn parse_index_sugar_is_word_stride_deref() {
    assert_eq!(
        Expr::parse("a[i]").unwrap(),
        Expr::Derefer(
            Box::new(Expr::Add(
                Box::new(var("a")),
                Box::new(Expr::Mul(Box::new(var("i")), Box::new(Expr::Integer(8))))
            )),
            Size::Normal
        )
    );
}

#[test]
fn parse_string_literal_keeps_quotes() {
    assert_eq!(
        Expr::parse("\"hi\\n\"").unwrap(),
        Expr::String("\"hi\\n\"".to_string())
    );
}

#[test]
fn parse_program_empty_input_has_no_definitions() {
    assert_eq!(Define::parse("").unwrap().len(), 0);
}

#[test]
fn parse_program_skips_lines_without_fn_prefix() {
    let ds = Define::parse("#!shebang\nfn main(){ return 42 }").unwrap();
    assert_eq!(ds.len(), 1);
    assert_eq!(ds[0].0.as_str(), "main");
    assert_eq!(ds[0].1.len(), 0);
}

#[test]
fn parse_program_parameters_keep_order_and_dedup() {
    let ds = Define::parse("fn add3(a, b, c, b){ return a }").unwrap();
    assert_eq!(ds.len(), 1);
    let params: Vec<&String> = ds[0].1.iter().collect();
    assert_eq!(params, vec!["a", "b", "c"]);
}

#[test]
fn parse_program_two_definitions() {
    let ds = Define::parse("fn add(a,b){ return a + b }\nfn main(){ return add(2,3) }").unwrap();
    assert_eq!(ds.len(), 2);
    assert_eq!(ds[0].0.as_str(), "add");
    assert_eq!(ds[1].0.as_str(), "main");
    assert_eq!(
        ds[1].2,
        Expr::Block(vec![Expr::Return(Box::new(Expr::Call(
            Box::new(var("add")),
            vec![Expr::Integer(2), Expr::Integer(3)]
        )))])
    );
}

#[test]
fn parse_program_bad_name_is_error() {
    assert!(Define::parse("fn 1bad-name(){ return 0 }").is_err());
}
