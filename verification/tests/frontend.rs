//! Tests of the front end (tokens and parser), the value model and the
//! rendering rules.
use patternlang::ast::Node;
use patternlang::canon::sort_fields;
use patternlang::interp::{
    at_most_one_spread_arg, get_spread_arg_name, interpret, match_arg_list,
    spread_arg_is_id_lookup_if_exists, try_eval_property_lookup,
};
use patternlang::lexer::Token;
use patternlang::parser::Parser;
use patternlang::render::usize_to_string;
use patternlang::state::{Env, Registry};
use patternlang::value::{clone_obj, obj_eq, Object};

#[test]
fn token_accessors_accept_their_kind() {
    assert_eq!(Token::Dot(0).as_dot(), Some(()));
    assert_eq!(Token::Arrow(0).as_arrow(), Some(()));
    assert_eq!(Token::EndToken(0).as_end_token(), Some(()));
    assert_eq!(Token::Keyword("k".to_string(), 0).as_keyword(), Some("k".to_string()));
    assert_eq!(Token::Class(0).as_class(), Some(()));
    assert_eq!(Token::Def(0).as_def(), Some(()));
    assert_eq!(Token::Id("x".to_string(), 0).as_id(), Some("x".to_string()));
    assert_eq!(Token::OpenSqBrace(0).as_open_sq_brace(), Some(()));
    assert_eq!(Token::CloseSqBrace(0).as_close_sq_brace(), Some(()));
    assert_eq!(Token::OpenBrace(0).as_open_brace(), Some(()));
    assert_eq!(Token::CloseBrace(0).as_close_brace(), Some(()));
    assert_eq!(Token::ColonEq(0).as_colon_eq(), Some(()));
    assert_eq!(Token::Comment("c".to_string(), 0).as_comment(), Some("c".to_string()));
    assert_eq!(Token::Colon(0).as_colon(), Some(()));
    assert_eq!(Token::Operator("+".to_string(), 0).as_operator(), Some("+".to_string()));
    assert_eq!(Token::Int(7, 0).as_int(), Some(7));
    assert_eq!(Token::Str("s".to_string(), 0).as_str(), Some("s".to_string()));
    assert_eq!(Token::Caret(0).as_caret(), Some(()));
    assert_eq!(Token::OpenParen(0).as_open_paren(), Some(()));
    assert_eq!(Token::CloseParen(0).as_close_paren(), Some(()));
    assert_eq!(Token::Spread(0).as_spread(), Some(()));
    assert_eq!(Token::Object(0).as_object(), Some(()));
}

#[test]
fn token_accessors_reject_other_kinds() {
    assert_eq!(Token::Dot(0).as_arrow(), None);
    assert_eq!(Token::Arrow(0).as_dot(), None);
    assert_eq!(Token::Int(7, 0).as_id(), None);
    assert_eq!(Token::Id("x".to_string(), 0).as_int(), None);
    assert_eq!(Token::Keyword("k".to_string(), 0).as_str(), None);
    assert_eq!(Token::Colon(0).as_colon_eq(), None);
}

#[test]
fn parse_assignment() {
    let tokens = vec![
        Token::Id("x".to_string(), 0),
        Token::ColonEq(2),
        Token::Int(1, 5),
        Token::EndToken(6),
    ];
    let mut parser = Parser { idx: 0, tokens };
    let ast = parser.parse().expect("parse");
    assert_eq!(ast.len(), 1);
    match &ast[0] {
        Node::Assign(name, rhs) => {
            assert_eq!(name, "x");
            assert!(matches!(**rhs, Node::Int(1)));
        },
        other => panic!("expected an assignment, got {:?}", other),
    }
}

#[test]
fn parse_method_call_chain() {
    // 2 + 3. parses to a call of 2 with [`+`, 3].
    let tokens = vec![
        Token::Int(2, 0),
        Token::Operator("+".to_string(), 2),
        Token::Int(3, 4),
        Token::Dot(5),
        Token::EndToken(6),
    ];
    let mut parser = Parser { idx: 0, tokens };
    let ast = parser.parse().expect("parse");
    assert_eq!(ast.len(), 1);
    match &ast[0] {
        Node::MethodCall(lhs, args) => {
            assert!(matches!(**lhs, Node::Int(2)));
            assert_eq!(args.len(), 2);
            assert!(matches!(args[0], Node::Operator(_)));
            assert!(matches!(args[1], Node::Int(3)));
        },
        other => panic!("expected a call, got {:?}", other),
    }
}

#[test]
fn parse_record_literal_sorts_fields() {
    // {y: 2; x: 1;} comes out with x before y.
    let tokens = vec![
        Token::OpenBrace(0),
        Token::Id("y".to_string(), 1),
        Token::Colon(2),
        Token::Int(2, 4),
        Token::EndToken(5),
        Token::Id("x".to_string(), 7),
        Token::Colon(8),
        Token::Int(1, 10),
        Token::EndToken(11),
        Token::CloseBrace(12),
        Token::EndToken(13),
    ];
    let mut parser = Parser { idx: 0, tokens };
    let ast = parser.parse().expect("parse");
    match &ast[0] {
        Node::RecordLiteral(props) => {
            assert_eq!(props.len(), 2);
            assert_eq!(props[0].0, "x");
            assert_eq!(props[1].0, "y");
        },
        other => panic!("expected a record literal, got {:?}", other),
    }
}

#[test]
fn parse_class_with_method() {
    // class Point def :moved -> 7; end.
    let tokens = vec![
        Token::Class(0),
        Token::Id("Point".to_string(), 6),
        Token::Def(12),
        Token::Keyword("moved".to_string(), 16),
        Token::Arrow(23),
        Token::Int(7, 26),
        Token::EndToken(27),
        Token::EndToken(29),
    ];
    let mut parser = Parser { idx: 0, tokens };
    let ast = parser.parse().expect("parse");
    match &ast[0] {
        Node::Class(name, methods) => {
            assert_eq!(name, "Point");
            assert_eq!(methods.len(), 1);
            match &methods[0] {
                Node::Def(args, body) => {
                    assert_eq!(args.len(), 1);
                    assert!(matches!(args[0], Node::Keyword(_)));
                    assert!(matches!(**body, Node::Int(7)));
                },
                other => panic!("expected a def clause, got {:?}", other),
            }
        },
        other => panic!("expected a class declaration, got {:?}", other),
    }
}

#[test]
fn parse_rejects_truncated_input() {
    let tokens = vec![Token::Id("x".to_string(), 0), Token::ColonEq(2)];
    let mut parser = Parser { idx: 0, tokens };
    assert!(parser.parse().is_none());
}

#[test]
fn parsed_program_runs() {
    // x := 2 + 3; x. evaluates to 5 through the parser and the engine.
    let tokens = vec![
        Token::Id("x".to_string(), 0),
        Token::ColonEq(2),
        Token::Int(2, 5),
        Token::Operator("+".to_string(), 7),
        Token::Int(3, 9),
        Token::EndToken(10),
        Token::Id("x".to_string(), 12),
        Token::EndToken(13),
    ];
    let mut parser = Parser { idx: 0, tokens };
    let ast = parser.parse().expect("parse");
    let (r, _) = interpret(ast);
    match r {
        Ok(Object::Int(n)) => assert_eq!(n, 5),
        other => panic!("expected Int(5), got {:?}", other),
    }
}

#[test]
fn rendering_of_every_value_kind() {
    let reg = Registry::new();
    assert_eq!(Object::Nil.to_s(&reg), "nil");
    assert_eq!(Object::Keyword("k".to_string()).to_s(&reg), ":k");
    assert_eq!(Object::Str("s".to_string()).to_s(&reg), "\"s\"");
    assert_eq!(Object::Int(42).to_s(&reg), "42");
    assert_eq!(Object::Operator("+".to_string()).to_s(&reg), "`+`");
    let list = Object::List(vec![Object::Int(1), Object::Int(2), Object::Int(3)]);
    assert_eq!(list.to_s(&reg), "[1; 2; 3;]");
    let empty = Object::List(vec![]);
    assert_eq!(empty.to_s(&reg), "[]");
}

#[test]
fn rendering_uses_class_names() {
    // Run a program that logs a class reference and instances.
    let ast = vec![
        Node::Class("Point".to_string(), vec![]),
        Node::MethodCall(Box::new(Node::IdLookup("Point".to_string())), vec![Node::Keyword(
            "log".to_string(),
        )]),
        Node::MethodCall(
            Box::new(Node::RecordLiteral(vec![("x".to_string(), Node::Int(1))])),
            vec![Node::Keyword("log".to_string())],
        ),
    ];
    let (_, out) = interpret(ast);
    assert_eq!(out[0], "[Point]");
    // Instances of the root Object class render without a name prefix.
    assert_eq!(out[1], "{x: 1;}");
}

#[test]
fn decimal_rendering_is_exact() {
    assert_eq!(usize_to_string(0), "0");
    assert_eq!(usize_to_string(7), "7");
    assert_eq!(usize_to_string(10), "10");
    assert_eq!(usize_to_string(90105), "90105");
}

#[test]
fn structural_equality_is_deep() {
    let a = Object::List(vec![Object::Int(1), Object::Keyword("k".to_string())]);
    let b = Object::List(vec![Object::Int(1), Object::Keyword("k".to_string())]);
    let c = Object::List(vec![Object::Int(1), Object::Keyword("j".to_string())]);
    assert!(obj_eq(&a, &b));
    assert!(!obj_eq(&a, &c));
    let copy = clone_obj(&a);
    assert!(obj_eq(&a, &copy));
}

#[test]
fn canonical_sort_orders_by_name() {
    let fields = vec![
        ("y".to_string(), Object::Int(2)),
        ("x".to_string(), Object::Int(1)),
        ("z".to_string(), Object::Int(3)),
    ];
    let sorted = sort_fields(&fields);
    assert_eq!(sorted[0].0, "x");
    assert_eq!(sorted[1].0, "y");
    assert_eq!(sorted[2].0, "z");
    assert!(obj_eq(&sorted[0].1, &Object::Int(1)));
}

#[test]
fn spread_helpers_inspect_parameter_lists() {
    let pats = vec![
        Node::IdLookup("a".to_string()),
        Node::Spread(Box::new(Node::IdLookup("rest".to_string()))),
        Node::IdLookup("b".to_string()),
    ];
    assert!(at_most_one_spread_arg(&pats));
    assert!(spread_arg_is_id_lookup_if_exists(&pats));
    assert_eq!(get_spread_arg_name(&pats), "rest");
    let two = vec![
        Node::Spread(Box::new(Node::IdLookup("a".to_string()))),
        Node::Spread(Box::new(Node::IdLookup("b".to_string()))),
    ];
    assert!(!at_most_one_spread_arg(&two));
    let bad = vec![Node::Spread(Box::new(Node::Int(1)))];
    assert!(!spread_arg_is_id_lookup_if_exists(&bad));
}

#[test]
fn match_arg_list_binds_parameters() {
    let env = Env::new();
    let reg = Registry::new();
    let mut out: Vec<String> = Vec::new();
    let pats = vec![
        Node::IdLookup("a".to_string()),
        Node::Spread(Box::new(Node::IdLookup("rest".to_string()))),
        Node::IdLookup("b".to_string()),
    ];
    let args = vec![
        Object::Int(1),
        Object::Int(2),
        Object::Int(3),
        Object::Int(4),
        Object::Int(5),
    ];
    let r = match_arg_list(&pats, &args, &env, &reg, &mut out, 100).expect("no fatal error");
    let locals = r.expect("a match");
    let a = locals.get(&"a".to_string()).expect("a bound");
    assert!(obj_eq(a, &Object::Int(1)));
    let b = locals.get(&"b".to_string()).expect("b bound");
    assert!(obj_eq(b, &Object::Int(5)));
    let rest = locals.get(&"rest".to_string()).expect("rest bound");
    assert!(obj_eq(
        rest,
        &Object::List(vec![Object::Int(2), Object::Int(3), Object::Int(4)]),
    ));
}

#[test]
fn property_lookup_reads_a_field() {
    let props = vec![
        ("x".to_string(), Object::Int(1)),
        ("y".to_string(), Object::Int(2)),
    ];
    let args = vec![Object::Keyword("y".to_string())];
    let r = try_eval_property_lookup(&props, &args).expect("a field");
    assert!(obj_eq(&r, &Object::Int(2)));
    let miss = vec![Object::Keyword("z".to_string())];
    assert!(try_eval_property_lookup(&props, &miss).is_none());
}

#[test]
fn tokenize_assignment_with_positions() {
    let tokens = patternlang::lexer::tokenize("x := 1;".to_string()).expect("tokens");
    assert_eq!(tokens.len(), 4);
    assert_eq!(tokens[0], Token::Id("x".to_string(), 0));
    assert_eq!(tokens[1], Token::ColonEq(2));
    assert_eq!(tokens[2], Token::Int(1, 5));
    assert_eq!(tokens[3], Token::EndToken(6));
}

#[test]
fn tokenize_keyword_string_and_comment() {
    let tokens = patternlang::lexer::tokenize(":log \"hi\" --note".to_string()).expect("tokens");
    assert_eq!(tokens.len(), 3);
    assert_eq!(tokens[0], Token::Keyword("log".to_string(), 0));
    assert_eq!(tokens[1], Token::Str("hi".to_string(), 5));
    assert_eq!(tokens[2], Token::Comment("note".to_string(), 10));
}

#[test]
fn tokenize_operators_one_character_first() {
    // Each of `=` `=` is scanned alone: one-character operators come
    // first, so `==` is two tokens; `..` has no one-character prefix and
    // stays one token.
    let tokens = patternlang::lexer::tokenize("= = .. ...r".to_string()).expect("tokens");
    assert_eq!(tokens[0], Token::Operator("=".to_string(), 0));
    assert_eq!(tokens[1], Token::Operator("=".to_string(), 2));
    assert_eq!(tokens[2], Token::Operator("..".to_string(), 4));
    assert_eq!(tokens[3], Token::Spread(7));
    assert_eq!(tokens[4], Token::Id("r".to_string(), 10));
}

#[test]
fn tokenize_structural_tokens() {
    let tokens = patternlang::lexer::tokenize("class def end object ^(){}[].".to_string())
        .expect("tokens");
    assert_eq!(tokens[0], Token::Class(0));
    assert_eq!(tokens[1], Token::Def(6));
    assert_eq!(tokens[2], Token::EndToken(10));
    assert_eq!(tokens[3], Token::Object(14));
    assert_eq!(tokens[4], Token::Caret(21));
    assert_eq!(tokens[5], Token::OpenParen(22));
    assert_eq!(tokens[6], Token::CloseParen(23));
    assert_eq!(tokens[7], Token::OpenBrace(24));
    assert_eq!(tokens[8], Token::CloseBrace(25));
    assert_eq!(tokens[9], Token::OpenSqBrace(26));
    assert_eq!(tokens[10], Token::CloseSqBrace(27));
    assert_eq!(tokens[11], Token::Dot(28));
}

#[test]
fn tokenize_rejects_tabs() {
    assert!(patternlang::lexer::tokenize("a\tb".to_string()).is_none());
}

#[test]
fn source_text_runs_end_to_end() {
    // A class declaration, a construction and a field read, from text.
    let text = "class P; y := P{a: 1; b: 2;}; y :b;";
    let tokens = patternlang::lexer::tokenize(text.to_string()).expect("tokens");
    let mut parser = Parser { idx: 0, tokens };
    let ast = parser.parse().expect("parse");
    let (r, _) = interpret(ast);
    match r {
        Ok(Object::Int(n)) => assert_eq!(n, 2),
        other => panic!("expected Int(2), got {:?}", other),
    }
}

#[test]
fn source_text_logs_a_list() {
    let text = "[1; 2; 3;] :log;";
    let tokens = patternlang::lexer::tokenize(text.to_string()).expect("tokens");
    let mut parser = Parser { idx: 0, tokens };
    let ast = parser.parse().expect("parse");
    let (r, out) = interpret(ast);
    assert!(matches!(r, Ok(Object::Nil)));
    assert_eq!(out, vec!["[1; 2; 3;]".to_string()]);
}

#[test]
fn wrapper_class_renders_its_inner_value() {
    // An instance of a class named Int renders as its single field alone.
    let ast = vec![
        Node::Class("Int".to_string(), vec![]),
        Node::MethodCall(
            Box::new(Node::VectorConstructor("Int".to_string(), vec![Node::Int(5)])),
            vec![Node::Keyword("log".to_string())],
        ),
    ];
    let (r, out) = interpret(ast);
    assert!(matches!(r, Ok(Object::Nil)));
    assert_eq!(out, vec!["5".to_string()]);
}

#[test]
fn vector_constructor_pattern_accepts_bare_primitives() {
    // A pattern Int[n] matches a bare integer and binds n to it.
    let ast = vec![
        Node::Class(
            "C".to_string(),
            vec![Node::Def(
                vec![Node::VectorConstructor(
                    "Int".to_string(),
                    vec![Node::IdLookup("n".to_string())],
                )],
                Box::new(Node::IdLookup("n".to_string())),
            )],
        ),
        Node::MethodCall(
            Box::new(Node::RecordConstructor("C".to_string(), vec![])),
            vec![Node::Int(3)],
        ),
    ];
    let (r, _) = interpret(ast);
    match r {
        Ok(Object::Int(n)) => assert_eq!(n, 3),
        other => panic!("expected Int(3), got {:?}", other),
    }
}
