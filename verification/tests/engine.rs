//! End-to-end tests of the evaluation engine: programs are built as syntax
//! trees and run through `interpret`.
use patternlang::ast::Node;
use patternlang::interp::{eval_node, interpret};
use patternlang::sem::Error;
use patternlang::state::{Env, Registry};
use patternlang::value::{obj_eq, Object};

fn kw(name: &str) -> Node {
    Node::Keyword(name.to_string())
}

fn id(name: &str) -> Node {
    Node::IdLookup(name.to_string())
}

fn call(lhs: Node, args: Vec<Node>) -> Node {
    Node::MethodCall(Box::new(lhs), args)
}

#[test]
fn empty_program_yields_nil() {
    let (r, out) = interpret(vec![]);
    assert!(matches!(r, Ok(Object::Nil)));
    assert!(out.is_empty());
}

#[test]
fn int_addition_native() {
    let ast = vec![call(Node::Int(2), vec![Node::Operator("+".to_string()), Node::Int(3)])];
    let (r, out) = interpret(ast);
    match r {
        Ok(Object::Int(n)) => assert_eq!(n, 5),
        other => panic!("expected Int(5), got {:?}", other),
    }
    assert!(out.is_empty());
}

#[test]
fn int_addition_overflow_is_an_error() {
    let ast = vec![call(
        Node::Int(usize::MAX),
        vec![Node::Operator("+".to_string()), Node::Int(1)],
    )];
    let (r, _) = interpret(ast);
    assert_eq!(r.unwrap_err(), Error::Overflow);
}

#[test]
fn record_field_order_is_canonical() {
    // The same field set in either source order renders identically.
    let ast = vec![
        Node::Class("Point".to_string(), vec![]),
        call(
            Node::RecordConstructor(
                "Point".to_string(),
                vec![("x".to_string(), Node::Int(1)), ("y".to_string(), Node::Int(2))],
            ),
            vec![kw("log")],
        ),
        call(
            Node::RecordConstructor(
                "Point".to_string(),
                vec![("y".to_string(), Node::Int(2)), ("x".to_string(), Node::Int(1))],
            ),
            vec![kw("log")],
        ),
    ];
    let (r, out) = interpret(ast);
    assert!(matches!(r, Ok(Object::Nil)));
    assert_eq!(out.len(), 2);
    assert_eq!(out[0], "Point{x: 1; y: 2;}");
    assert_eq!(out[1], "Point{x: 1; y: 2;}");
}

#[test]
fn arguments_log_before_receiver() {
    // The argument's log line appears before the receiver's.
    let arg = Node::ParenExpr(Box::new(call(Node::Int(1), vec![kw("log")])));
    let lhs = Node::ParenExpr(Box::new(call(Node::Int(2), vec![kw("log")])));
    let ast = vec![call(lhs, vec![arg])];
    let (_, out) = interpret(ast);
    assert_eq!(out, vec!["1".to_string(), "2".to_string()]);
}

#[test]
fn first_matching_clause_wins() {
    let ast = vec![
        Node::Class(
            "A".to_string(),
            vec![
                Node::Def(vec![Node::Int(1)], Box::new(Node::Int(10))),
                Node::Def(vec![Node::Int(1)], Box::new(Node::Int(20))),
            ],
        ),
        call(Node::RecordConstructor("A".to_string(), vec![]), vec![Node::Int(1)]),
    ];
    let (r, _) = interpret(ast);
    match r {
        Ok(Object::Int(n)) => assert_eq!(n, 10),
        other => panic!("expected Int(10), got {:?}", other),
    }
}

fn spread_class() -> Node {
    // class S. def a ...rest b -> rest.
    Node::Class(
        "S".to_string(),
        vec![Node::Def(
            vec![id("a"), Node::Spread(Box::new(id("rest"))), id("b")],
            Box::new(id("rest")),
        )],
    )
}

#[test]
fn spread_binds_middle_arguments() {
    let ast = vec![
        spread_class(),
        call(
            Node::RecordConstructor("S".to_string(), vec![]),
            vec![Node::Int(1), Node::Int(2), Node::Int(3), Node::Int(4), Node::Int(5)],
        ),
    ];
    let (r, _) = interpret(ast);
    match r {
        Ok(Object::List(items)) => {
            assert_eq!(items.len(), 3);
            assert!(obj_eq(&items[0], &Object::Int(2)));
            assert!(obj_eq(&items[1], &Object::Int(3)));
            assert!(obj_eq(&items[2], &Object::Int(4)));
        },
        other => panic!("expected List([2,3,4]), got {:?}", other),
    }
}

#[test]
fn spread_matches_exactly_two_arguments() {
    let ast = vec![
        spread_class(),
        call(
            Node::RecordConstructor("S".to_string(), vec![]),
            vec![Node::Int(1), Node::Int(2)],
        ),
    ];
    let (r, _) = interpret(ast);
    match r {
        Ok(Object::List(items)) => assert!(items.is_empty()),
        other => panic!("expected List([]), got {:?}", other),
    }
}

#[test]
fn spread_needs_enough_arguments() {
    let ast = vec![
        spread_class(),
        call(Node::RecordConstructor("S".to_string(), vec![]), vec![Node::Int(1)]),
    ];
    let (r, _) = interpret(ast);
    assert_eq!(r.unwrap_err(), Error::NoMatchingMethod);
}

#[test]
fn field_read_beats_method_clause() {
    // A clause for :x cannot override reading the field x.
    let ast = vec![
        Node::Class(
            "Point".to_string(),
            vec![Node::Def(vec![kw("x")], Box::new(Node::Int(99)))],
        ),
        call(
            Node::RecordConstructor(
                "Point".to_string(),
                vec![("x".to_string(), Node::Int(1)), ("y".to_string(), Node::Int(2))],
            ),
            vec![kw("x")],
        ),
    ];
    let (r, _) = interpret(ast);
    match r {
        Ok(Object::Int(n)) => assert_eq!(n, 1),
        other => panic!("expected the field value Int(1), got {:?}", other),
    }
}

#[test]
fn field_access_on_fresh_instance() {
    // class Point. Point{x: 1, y: 2} :y. evaluates to Int(2).
    let ast = vec![
        Node::Class("Point".to_string(), vec![]),
        call(
            Node::RecordConstructor(
                "Point".to_string(),
                vec![("x".to_string(), Node::Int(1)), ("y".to_string(), Node::Int(2))],
            ),
            vec![kw("y")],
        ),
    ];
    let (r, _) = interpret(ast);
    match r {
        Ok(Object::Int(n)) => assert_eq!(n, 2),
        other => panic!("expected Int(2), got {:?}", other),
    }
}

#[test]
fn list_log_prints_and_returns_nil() {
    let ast = vec![call(
        Node::List(vec![Node::Int(1), Node::Int(2), Node::Int(3)]),
        vec![kw("log")],
    )];
    let (r, out) = interpret(ast);
    assert!(matches!(r, Ok(Object::Nil)));
    assert_eq!(out, vec!["[1; 2; 3;]".to_string()]);
}

#[test]
fn reopening_a_class_keeps_its_identity() {
    // An instance made before the reopening sees the method added after.
    let ast = vec![
        Node::Class("Point".to_string(), vec![]),
        Node::Assign(
            "p".to_string(),
            Box::new(Node::RecordConstructor("Point".to_string(), vec![])),
        ),
        Node::Class(
            "Point".to_string(),
            vec![Node::Def(vec![kw("moved")], Box::new(Node::Int(7)))],
        ),
        call(id("p"), vec![kw("moved")]),
    ];
    let (r, _) = interpret(ast);
    match r {
        Ok(Object::Int(n)) => assert_eq!(n, 7),
        other => panic!("expected Int(7), got {:?}", other),
    }
}

#[test]
fn unbound_variable_is_an_error() {
    let (r, _) = interpret(vec![id("missing")]);
    assert_eq!(r.unwrap_err(), Error::UnboundVariable);
}

#[test]
fn unknown_class_is_an_error() {
    let ast = vec![Node::RecordConstructor("Ghostly".to_string(), vec![])];
    let (r, _) = interpret(ast);
    assert_eq!(r.unwrap_err(), Error::UnknownClass);
}

#[test]
fn no_matching_method_is_an_error() {
    let ast = vec![
        Node::Class("A".to_string(), vec![]),
        call(Node::RecordConstructor("A".to_string(), vec![]), vec![kw("nothing")]),
    ];
    let (r, _) = interpret(ast);
    assert_eq!(r.unwrap_err(), Error::NoMatchingMethod);
}

#[test]
fn two_spreads_are_malformed() {
    let ast = vec![
        Node::Class(
            "S".to_string(),
            vec![Node::Def(
                vec![
                    Node::Spread(Box::new(id("a"))),
                    Node::Spread(Box::new(id("b"))),
                ],
                Box::new(Node::Int(1)),
            )],
        ),
        call(Node::RecordConstructor("S".to_string(), vec![]), vec![Node::Int(1)]),
    ];
    let (r, _) = interpret(ast);
    assert_eq!(r.unwrap_err(), Error::MalformedPattern);
}

#[test]
fn self_is_not_a_pattern() {
    let ast = vec![
        Node::Class(
            "S".to_string(),
            vec![Node::Def(vec![id("self")], Box::new(Node::Int(1)))],
        ),
        call(Node::RecordConstructor("S".to_string(), vec![]), vec![Node::Int(1)]),
    ];
    let (r, _) = interpret(ast);
    assert_eq!(r.unwrap_err(), Error::InvalidSelfReference);
}

#[test]
fn def_at_top_level_attaches_to_main() {
    // At the top level `self` is the Main instance, so a def attaches to
    // the Main class and is callable on `self`.
    let ast = vec![
        Node::Assign("x".to_string(), Box::new(Node::Int(1))),
        Node::Def(vec![kw("zap")], Box::new(Node::Int(1))),
        call(id("self"), vec![kw("zap")]),
    ];
    let (r, _) = interpret(ast);
    match r {
        Ok(Object::Int(n)) => assert_eq!(n, 1),
        other => panic!("expected Int(1), got {:?}", other),
    }
}

#[test]
fn vector_constructor_needs_one_expression() {
    let ast = vec![
        Node::Class("W".to_string(), vec![]),
        Node::VectorConstructor("W".to_string(), vec![Node::Int(1), Node::Int(2)]),
    ];
    let (r, _) = interpret(ast);
    assert_eq!(r.unwrap_err(), Error::TypeMismatch);
}

#[test]
fn out_of_fuel_reports_itself() {
    let mut env = Env::new();
    let mut classes = Registry::new();
    let mut out: Vec<String> = Vec::new();
    let r = eval_node(&Node::Int(1), &mut env, &mut classes, &mut out, 0);
    assert_eq!(r.unwrap_err(), Error::OutOfFuel);
}

#[test]
fn assignment_is_local_to_its_right_hand_side() {
    // An assignment inside the right-hand side is invisible afterwards.
    let inner = Node::Assign("hidden".to_string(), Box::new(Node::Int(5)));
    let ast = vec![
        Node::Assign(
            "x".to_string(),
            Box::new(Node::ParenExpr(Box::new(inner))),
        ),
        id("hidden"),
    ];
    let (r, _) = interpret(ast);
    assert_eq!(r.unwrap_err(), Error::UnboundVariable);
}

#[test]
fn list_indexing_and_out_of_bounds() {
    let ast = vec![call(
        Node::List(vec![Node::Int(7), Node::Int(8)]),
        vec![Node::Int(1)],
    )];
    let (r, _) = interpret(ast);
    match r {
        Ok(Object::Int(n)) => assert_eq!(n, 8),
        other => panic!("expected Int(8), got {:?}", other),
    }
    let ast2 = vec![call(Node::List(vec![Node::Int(7)]), vec![Node::Int(5)])];
    let (r2, _) = interpret(ast2);
    assert!(matches!(r2, Ok(Object::Nil)));
}

#[test]
fn anonymous_object_dispatches_like_a_callable() {
    // [1; 2; 3] :map (object def n -> n + 10; end) squares away to adds.
    let callee = Node::Object(vec![Node::Def(
        vec![id("n")],
        Box::new(call(id("n"), vec![Node::Operator("+".to_string()), Node::Int(10)])),
    )]);
    let ast = vec![call(
        Node::List(vec![Node::Int(1), Node::Int(2)]),
        vec![kw("map"), callee],
    )];
    let (r, _) = interpret(ast);
    match r {
        Ok(Object::List(items)) => {
            assert_eq!(items.len(), 2);
            assert!(obj_eq(&items[0], &Object::Int(11)));
            assert!(obj_eq(&items[1], &Object::Int(12)));
        },
        other => panic!("expected List([11,12]), got {:?}", other),
    }
}

#[test]
fn linear_patterns_require_equal_values() {
    // def x x -> x matches (1, 1) but not (1, 2).
    let ast = vec![
        Node::Class(
            "L".to_string(),
            vec![Node::Def(vec![id("x"), id("x")], Box::new(id("x")))],
        ),
        call(
            Node::RecordConstructor("L".to_string(), vec![]),
            vec![Node::Int(1), Node::Int(1)],
        ),
    ];
    let (r, _) = interpret(ast);
    match r {
        Ok(Object::Int(n)) => assert_eq!(n, 1),
        other => panic!("expected Int(1), got {:?}", other),
    }
    let ast2 = vec![
        Node::Class(
            "L".to_string(),
            vec![Node::Def(vec![id("x"), id("x")], Box::new(id("x")))],
        ),
        call(
            Node::RecordConstructor("L".to_string(), vec![]),
            vec![Node::Int(1), Node::Int(2)],
        ),
    ];
    let (r2, _) = interpret(ast2);
    assert_eq!(r2.unwrap_err(), Error::NoMatchingMethod);
}

#[test]
fn superclass_chain_is_searched() {
    // Methods of the root Object class serve every instance.
    let ast = vec![
        Node::Class("Base".to_string(), vec![]),
        Node::Class(
            "Object".to_string(),
            vec![Node::Def(vec![kw("tag")], Box::new(Node::Int(42)))],
        ),
        call(Node::RecordConstructor("Base".to_string(), vec![]), vec![kw("tag")]),
    ];
    let (r, _) = interpret(ast);
    match r {
        Ok(Object::Int(n)) => assert_eq!(n, 42),
        other => panic!("expected Int(42), got {:?}", other),
    }
}

#[test]
fn unquote_pattern_compares_a_computed_value() {
    // def ^(1 + 1;) -> 9 matches the argument 2.
    let pattern = Node::Unquote(Box::new(Node::ParenExpr(Box::new(call(
        Node::Int(1),
        vec![Node::Operator("+".to_string()), Node::Int(1)],
    )))));
    let ast = vec![
        Node::Class(
            "U".to_string(),
            vec![Node::Def(vec![pattern], Box::new(Node::Int(9)))],
        ),
        call(Node::RecordConstructor("U".to_string(), vec![]), vec![Node::Int(2)]),
    ];
    let (r, _) = interpret(ast);
    match r {
        Ok(Object::Int(n)) => assert_eq!(n, 9),
        other => panic!("expected Int(9), got {:?}", other),
    }
}

#[test]
fn error_messages_name_the_failure() {
    assert_eq!(Error::UnboundVariable.message(), "unbound variable");
    assert_eq!(Error::UnknownClass.message(), "unknown class");
    assert_eq!(Error::NoMatchingMethod.message(), "no method found");
    assert_eq!(Error::MalformedPattern.message(), "malformed pattern");
    assert_eq!(Error::InvalidSelfReference.message(), "invalid use of self");
    assert_eq!(Error::TypeMismatch.message(), "type mismatch");
    assert_eq!(Error::Overflow.message(), "integer overflow");
    assert_eq!(Error::OutOfFuel.message(), "evaluation too deep");
}

#[test]
fn string_log_prints_its_rendering() {
    let ast = vec![call(Node::Str("hi".to_string()), vec![kw("log")])];
    let (r, out) = interpret(ast);
    assert!(matches!(r, Ok(Object::Nil)));
    assert_eq!(out, vec!["\"hi\"".to_string()]);
}

fn boolean_prelude() -> Vec<Node> {
    vec![
        Node::Class("TrueClass".to_string(), vec![]),
        Node::Class("FalseClass".to_string(), vec![]),
        Node::Assign(
            "true".to_string(),
            Box::new(Node::RecordConstructor("TrueClass".to_string(), vec![])),
        ),
        Node::Assign(
            "false".to_string(),
            Box::new(Node::RecordConstructor("FalseClass".to_string(), vec![])),
        ),
    ]
}

fn is_two_predicate() -> Node {
    Node::Object(vec![
        Node::Def(vec![Node::Int(2)], Box::new(id("true"))),
        Node::Def(vec![id("n")], Box::new(id("false"))),
    ])
}

#[test]
fn filter_keeps_truthy_elements() {
    let mut ast = boolean_prelude();
    ast.push(call(
        Node::List(vec![Node::Int(1), Node::Int(2), Node::Int(3)]),
        vec![kw("filter"), is_two_predicate()],
    ));
    let (r, _) = interpret(ast);
    match r {
        Ok(Object::List(items)) => {
            assert_eq!(items.len(), 1);
            assert!(obj_eq(&items[0], &Object::Int(2)));
        },
        other => panic!("expected List([2]), got {:?}", other),
    }
}

#[test]
fn any_finds_a_truthy_element() {
    let mut ast = boolean_prelude();
    ast.push(call(
        Node::List(vec![Node::Int(1), Node::Int(2)]),
        vec![kw("any?"), is_two_predicate()],
    ));
    let (r, _) = interpret(ast);
    match r {
        Ok(Object::Instance(id, _)) => {
            // TrueClass was the third class registered (after Main, Object).
            assert_eq!(id, 2);
        },
        other => panic!("expected the true instance, got {:?}", other),
    }
}

#[test]
fn argument_list_evaluates_left_to_right() {
    // Both argument logs come before the receiver's, in source order.
    let log_of = |n: usize| Node::ParenExpr(Box::new(call(Node::Int(n), vec![kw("log")])));
    let ast = vec![call(log_of(3), vec![log_of(1), log_of(2)])];
    let (_, out) = interpret(ast);
    assert_eq!(out, vec!["1".to_string(), "2".to_string(), "3".to_string()]);
}

#[test]
fn record_pattern_matches_by_class_name_and_fields() {
    // A record-constructor pattern needs the class name and each named
    // field to match; extra instance fields are ignored.
    let ast = vec![
        Node::Class("Point".to_string(), vec![]),
        Node::Class(
            "M".to_string(),
            vec![Node::Def(
                vec![Node::RecordConstructor(
                    "Point".to_string(),
                    vec![("x".to_string(), Node::IdLookup("v".to_string()))],
                )],
                Box::new(Node::IdLookup("v".to_string())),
            )],
        ),
        call(
            Node::RecordConstructor("M".to_string(), vec![]),
            vec![Node::RecordConstructor(
                "Point".to_string(),
                vec![("x".to_string(), Node::Int(8)), ("y".to_string(), Node::Int(9))],
            )],
        ),
    ];
    let (r, _) = interpret(ast);
    match r {
        Ok(Object::Int(n)) => assert_eq!(n, 8),
        other => panic!("expected Int(8), got {:?}", other),
    }
}

#[test]
fn sole_spread_in_a_list_pattern_binds_the_whole_list() {
    // The pattern [...all] matches any list and binds all to it.
    let ast = vec![
        Node::Class(
            "C".to_string(),
            vec![Node::Def(
                vec![Node::List(vec![Node::Spread(Box::new(id("all")))])],
                Box::new(id("all")),
            )],
        ),
        call(
            Node::RecordConstructor("C".to_string(), vec![]),
            vec![Node::List(vec![Node::Int(4), Node::Int(5)])],
        ),
    ];
    let (r, _) = interpret(ast);
    match r {
        Ok(Object::List(items)) => {
            assert_eq!(items.len(), 2);
            assert!(obj_eq(&items[0], &Object::Int(4)));
            assert!(obj_eq(&items[1], &Object::Int(5)));
        },
        other => panic!("expected List([4,5]), got {:?}", other),
    }
}
