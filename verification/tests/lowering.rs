use firework_lang::ast::build_ast;
use firework_lang::ast::parse;
use firework_lang::ast::AstNode;
use firework_lang::ast::LowerError;
use firework_lang::parse_tree::ParseNode;
use firework_lang::parse_tree::Rule;

fn leaf(rule: Rule, text: &str) -> ParseNode {
    ParseNode { rule, text: text.to_string(), children: Vec::new() }
}

fn node(rule: Rule, text: &str, children: Vec<ParseNode>) -> ParseNode {
    ParseNode { rule, text: text.to_string(), children }
}

#[test]
fn int_literal_lowers() {
    let r = build_ast(&leaf(Rule::Int, "123"));
    assert_eq!(r, Ok(AstNode::Int(123)));
}

#[test]
fn int_literal_conversion_fails() {
    let r = build_ast(&leaf(Rule::Int, "abc"));
    assert_eq!(r, Err(LowerError::BadIntLiteral));
}

#[test]
fn int_literal_signs_and_bounds() {
    assert_eq!(build_ast(&leaf(Rule::Int, "+42")), Ok(AstNode::Int(42)));
    assert_eq!(build_ast(&leaf(Rule::Int, "-7")), Ok(AstNode::Int(-7)));
    assert_eq!(
        build_ast(&leaf(Rule::Int, "170141183460469231731687303715884105727")),
        Ok(AstNode::Int(i128::MAX))
    );
    assert_eq!(
        build_ast(&leaf(Rule::Int, "-170141183460469231731687303715884105728")),
        Ok(AstNode::Int(i128::MIN))
    );
    assert_eq!(
        build_ast(&leaf(Rule::Int, "170141183460469231731687303715884105728")),
        Err(LowerError::BadIntLiteral)
    );
    assert_eq!(build_ast(&leaf(Rule::Int, "")), Err(LowerError::BadIntLiteral));
    assert_eq!(build_ast(&leaf(Rule::Int, "+")), Err(LowerError::BadIntLiteral));
    assert_eq!(build_ast(&leaf(Rule::Int, "12a")), Err(LowerError::BadIntLiteral));
}

#[test]
fn char_literal_lowers() {
    let r = build_ast(&leaf(Rule::Char, "'a'"));
    assert_eq!(r, Ok(AstNode::Char('a')));
}

#[test]
fn char_literal_too_short() {
    let r = build_ast(&leaf(Rule::Char, "x"));
    assert_eq!(r, Err(LowerError::ShortCharLiteral));
}

#[test]
fn string_literal_strips_every_quote() {
    // The raw text holds an escaped quote; every quote character goes, not
    // only the delimiting pair.
    let r = build_ast(&leaf(Rule::Str, "\"a\\\"b\""));
    assert_eq!(r, Ok(AstNode::Str("a\\b".to_string())));
}

#[test]
fn boolean_literal_lowers() {
    assert_eq!(build_ast(&leaf(Rule::Boolean, "true")), Ok(AstNode::Boolean(true)));
    assert_eq!(build_ast(&leaf(Rule::Boolean, "false")), Ok(AstNode::Boolean(false)));
    assert_eq!(build_ast(&leaf(Rule::Boolean, "tru")), Err(LowerError::BadBoolLiteral));
}

#[test]
fn names_lower_to_identifiers() {
    assert_eq!(
        build_ast(&leaf(Rule::Name, "x")),
        Ok(AstNode::Identifier("x".to_string()))
    );
    assert_eq!(
        build_ast(&leaf(Rule::FnName, "main")),
        Ok(AstNode::Identifier("main".to_string()))
    );
    assert_eq!(
        build_ast(&leaf(Rule::Identifier, "putStrLn")),
        Ok(AstNode::Identifier("putStrLn".to_string()))
    );
    assert_eq!(
        build_ast(&leaf(Rule::FireworkType, "Int")),
        Ok(AstNode::Type("Int".to_string()))
    );
}

#[test]
fn wrapper_rules_delegate_to_single_child() {
    let ts = node(Rule::TypeSignature, "Int", vec![leaf(Rule::FireworkType, "Int")]);
    assert_eq!(build_ast(&ts), Ok(AstNode::Type("Int".to_string())));

    let lit = node(Rule::Literal, "5", vec![leaf(Rule::Int, "5")]);
    assert_eq!(build_ast(&lit), Ok(AstNode::Int(5)));

    let expr = node(Rule::Expr, "5", vec![node(Rule::Literal, "5", vec![leaf(Rule::Int, "5")])]);
    assert_eq!(build_ast(&expr), Ok(AstNode::Int(5)));
}

#[test]
fn wrapper_without_child_is_missing_child() {
    assert_eq!(
        build_ast(&leaf(Rule::TypeSignature, "Int")),
        Err(LowerError::MissingChild)
    );
}

#[test]
fn program_rule_is_unexpected() {
    assert_eq!(build_ast(&leaf(Rule::Program, "")), Err(LowerError::UnexpectedRule));
}

#[test]
fn anon_fn_always_lowers_to_placeholder() {
    let expected = AstNode::AnonFn {
        args: Box::new(AstNode::FnArgs(Vec::new())),
        return_type: Box::new(AstNode::Type(String::new())),
        value: Box::new(AstNode::Boolean(false)),
    };
    let bare = build_ast(&leaf(Rule::AnonFn, ""));
    assert_eq!(bare, Ok(expected));

    // Children and text make no difference.
    let expected_again = AstNode::AnonFn {
        args: Box::new(AstNode::FnArgs(Vec::new())),
        return_type: Box::new(AstNode::Type(String::new())),
        value: Box::new(AstNode::Boolean(false)),
    };
    let stuffed = node(
        Rule::AnonFn,
        "\\x -> x",
        vec![leaf(Rule::Name, "x"), leaf(Rule::Int, "1")],
    );
    assert_eq!(build_ast(&stuffed), Ok(expected_again));
}

fn zero_arg_decl() -> ParseNode {
    node(
        Rule::Declaration,
        "let main: IO() = putStrLn \"Hello, World!\"",
        vec![
            leaf(Rule::FnName, "main"),
            node(Rule::ReturnType, "IO()", vec![leaf(Rule::FireworkType, "IO()")]),
            node(
                Rule::Expr,
                "\"Hello, World!\"",
                vec![node(
                    Rule::Literal,
                    "\"Hello, World!\"",
                    vec![leaf(Rule::Str, "\"Hello, World!\"")],
                )],
            ),
        ],
    )
}

#[test]
fn zero_arg_declaration_has_empty_argument_list() {
    let r = build_ast(&zero_arg_decl());
    let expected = AstNode::Fn {
        name: "main".to_string(),
        return_type: Box::new(AstNode::Type("IO()".to_string())),
        args: Box::new(AstNode::FnArgs(Vec::new())),
        value: Box::new(AstNode::Str("Hello, World!".to_string())),
    };
    assert_eq!(r, Ok(expected));
}

fn two_arg_list() -> ParseNode {
    node(
        Rule::FnArgs,
        "(x: Int) (y: Bool)",
        vec![
            leaf(Rule::Name, "x"),
            node(Rule::TypeSignature, "Int", vec![leaf(Rule::FireworkType, "Int")]),
            leaf(Rule::Name, "y"),
            node(Rule::TypeSignature, "Bool", vec![leaf(Rule::FireworkType, "Bool")]),
        ],
    )
}

#[test]
fn argument_list_pairs_names_with_types_in_order() {
    let r = build_ast(&two_arg_list());
    let expected = AstNode::FnArgs(vec![
        (
            AstNode::Identifier("x".to_string()),
            AstNode::Type("Int".to_string()),
        ),
        (
            AstNode::Identifier("y".to_string()),
            AstNode::Type("Bool".to_string()),
        ),
    ]);
    assert_eq!(r, Ok(expected));
}

#[test]
fn argument_list_truncates_to_shorter_side() {
    let lopsided = node(
        Rule::FnArgs,
        "",
        vec![
            leaf(Rule::Name, "x"),
            leaf(Rule::Name, "y"),
            node(Rule::TypeSignature, "Int", vec![leaf(Rule::FireworkType, "Int")]),
        ],
    );
    let expected = AstNode::FnArgs(vec![(
        AstNode::Identifier("x".to_string()),
        AstNode::Type("Int".to_string()),
    )]);
    assert_eq!(build_ast(&lopsided), Ok(expected));
}

#[test]
fn argument_list_rejects_other_children() {
    let bad = node(Rule::FnArgs, "", vec![leaf(Rule::Int, "1")]);
    assert_eq!(build_ast(&bad), Err(LowerError::UnexpectedRule));
}

#[test]
fn declaration_with_arguments() {
    let decl = node(
        Rule::Declaration,
        "let f (x: Int) (y: Bool): Int = x",
        vec![
            leaf(Rule::FnName, "f"),
            two_arg_list(),
            node(Rule::ReturnType, "Int", vec![leaf(Rule::FireworkType, "Int")]),
            node(Rule::Expr, "x", vec![leaf(Rule::Identifier, "x")]),
        ],
    );
    let expected = AstNode::Fn {
        name: "f".to_string(),
        return_type: Box::new(AstNode::Type("Int".to_string())),
        args: Box::new(AstNode::FnArgs(vec![
            (
                AstNode::Identifier("x".to_string()),
                AstNode::Type("Int".to_string()),
            ),
            (
                AstNode::Identifier("y".to_string()),
                AstNode::Type("Bool".to_string()),
            ),
        ])),
        value: Box::new(AstNode::Identifier("x".to_string())),
    };
    assert_eq!(build_ast(&decl), Ok(expected));
}

#[test]
fn program_ends_with_exactly_one_end_of_input() {
    let program = vec![zero_arg_decl(), leaf(Rule::Eoi, "")];
    let r = parse(&program).unwrap();
    assert_eq!(r.len(), 2);
    assert_eq!(*r.last().unwrap(), AstNode::Eoi);
    let eoi_count = r.iter().filter(|a| matches!(a, AstNode::Eoi)).count();
    assert_eq!(eoi_count, 1);
    assert!(matches!(r[0], AstNode::Fn { .. }));
}

#[test]
fn parse_propagates_first_failure() {
    let program = vec![leaf(Rule::Int, "abc"), leaf(Rule::Eoi, "")];
    assert_eq!(parse(&program), Err(LowerError::BadIntLiteral));
}
