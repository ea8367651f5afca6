//! Cross-cutting laws of the engine, stated over the semantics in
//! [`crate::sem`] and proved once and for all.
use vstd::prelude::*;

use crate::ast::NodeV;
use crate::canon::{canon, distinct_keys, lemma_canon_permutation};
use crate::render::render;
use crate::sem::{
    class_of_val, dispatch_spec, eval_list_spec, eval_spec, eval_stmts_spec, field_lookup,
    find_method_spec, match_arg_list_spec, props_of, try_native_spec, Error,
};
use crate::state::{ClassV, StateV};
use crate::value::Val;

verus! {

/// Adding two integers natively yields their sum: for any receiver
/// `Int(n)` and arguments `[Operator("+"), Int(m)]`, the native table
/// answers `Int(n + m)`, with no other effect.  The one family of inputs
/// left out is a sum beyond the machine word, which answers the overflow
/// error instead.
pub proof fn lemma_int_addition(n: nat, m: nat, st: StateV, fuel: nat)
    requires
        fuel >= 1,
    ensures
        n + m <= usize::MAX as nat ==> try_native_spec(
            Val::Int(n),
            seq![Val::Operator("+"@), Val::Int(m)],
            st,
            fuel,
        ) == Some((Ok::<Val, Error>(Val::Int((n + m) as nat)), st.out)),
        n + m > usize::MAX as nat ==> try_native_spec(
            Val::Int(n),
            seq![Val::Operator("+"@), Val::Int(m)],
            st,
            fuel,
        ) == Some((Err::<Val, Error>(Error::Overflow), st.out)),
{
    let args = seq![Val::Operator("+"@), Val::Int(m)];
    assert(args.len() == 2);
    assert(args[0] == Val::Operator("+"@));
    assert(args[1] == Val::Int(m));
}

/// Two instances built from the same field set canonicalize to the same
/// field order, whatever order the fields were given in, and therefore
/// render identically.
pub proof fn lemma_same_field_set_same_rendering(
    id: nat,
    s1: Seq<(Seq<char>, Val)>,
    s2: Seq<(Seq<char>, Val)>,
    classes: Seq<ClassV>,
)
    requires
        s1.to_multiset() == s2.to_multiset(),
        distinct_keys(s1),
        distinct_keys(s2),
    ensures
        Val::Instance(id, canon(s1)) == Val::Instance(id, canon(s2)),
        render(Val::Instance(id, canon(s1)), classes) == render(
            Val::Instance(id, canon(s2)),
            classes,
        ),
{
    lemma_canon_permutation(s1, s2);
}

/// Argument evaluation precedes receiver evaluation: a call first
/// evaluates its argument list from the caller's state, and the receiver
/// is then evaluated in the state the arguments produced — so any line the
/// arguments log stands in the output before any line the receiver logs.
pub proof fn lemma_args_before_receiver(lhs: NodeV, args: Seq<NodeV>, st: StateV, fuel: nat)
    requires
        fuel >= 1,
    ensures
        ({
            let f = (fuel - 1) as nat;
            let (ar, st1) = eval_list_spec(args, st, f);
            match ar {
                Err(e) => eval_spec(NodeV::MethodCall(Box::new(lhs), args), st, fuel) == (
                    Err::<Val, Error>(e),
                    st1,
                ),
                Ok(argv) => ({
                    let (lr, st2) = eval_spec(lhs, st1, f);
                    match lr {
                        Err(e) => eval_spec(NodeV::MethodCall(Box::new(lhs), args), st, fuel)
                            == (Err::<Val, Error>(e), st2),
                        Ok(recv) => eval_spec(NodeV::MethodCall(Box::new(lhs), args), st, fuel)
                            == (match try_native_spec(recv, argv, st2, f) {
                            Some((r, out2)) => (r, StateV { out: out2, ..st2 }),
                            None => match class_of_val(recv, st2.env) {
                                Ok(cid) => {
                                    let (r, out2) = dispatch_spec(
                                        cid,
                                        props_of(recv),
                                        argv,
                                        st2,
                                        f,
                                    );
                                    (r, StateV { out: out2, ..st2 })
                                },
                                Err(e) => (Err(e), st2),
                            },
                        }),
                    }
                }),
            }
        }),
        ({
            let f = (fuel - 1) as nat;
            let (ar, st1) = eval_list_spec(args, st, f);
            &&& st.out.is_prefix_of(st1.out)
            &&& st1.out.is_prefix_of(
                eval_spec(NodeV::MethodCall(Box::new(lhs), args), st, fuel).1.out,
            )
        }),
{
    let f = (fuel - 1) as nat;
    list_out(args, st, f);
    let (ar, st1) = eval_list_spec(args, st, f);
    prefix_refl(st1.out);
    match ar {
        Err(_) => {},
        Ok(argv) => {
            lemma_output_only_grows(lhs, st1, f);
            let (lr, st2) = eval_spec(lhs, st1, f);
            match lr {
                Err(_) => {},
                Ok(recv) => {
                    native_out(recv, argv, st2, f);
                    match try_native_spec(recv, argv, st2, f) {
                        Some((_, o2)) => prefix_trans(st1.out, st2.out, o2),
                        None => match class_of_val(recv, st2.env) {
                            Ok(cid) => {
                                dispatch_out(cid, props_of(recv), argv, st2, f);
                                let (_, o2) = dispatch_spec(cid, props_of(recv), argv, st2, f);
                                prefix_trans(st1.out, st2.out, o2);
                            },
                            Err(_) => {},
                        },
                    }
                },
            }
        },
    }
}

/// Method clause selection is first match in declaration order: when the
/// first of two clauses matches the arguments, it is chosen, and the later
/// clause is never consulted — whatever it is.
pub proof fn lemma_first_clause_wins(
    p1: Seq<NodeV>,
    b1: NodeV,
    other: NodeV,
    args: Seq<Val>,
    st: StateV,
    fuel: nat,
    locals: Map<Seq<char>, Val>,
    out1: Seq<Seq<char>>,
)
    requires
        fuel >= 1,
        match_arg_list_spec(p1, args, st, (fuel - 1) as nat) == (
            Ok::<Option<Map<Seq<char>, Val>>, Error>(Some(locals)),
            out1,
        ),
    ensures
        find_method_spec(seq![NodeV::Def(p1, Box::new(b1)), other], args, st, fuel) == (
            Ok::<Option<(NodeV, Map<Seq<char>, Val>)>, Error>(Some((b1, locals))),
            out1,
        ),
{
    let methods = seq![NodeV::Def(p1, Box::new(b1)), other];
    assert(methods[0] == NodeV::Def(p1, Box::new(b1)));
}

/// Spread binding: the parameter pattern `[a, ...rest, b]` matched against
/// `n` arguments binds `a` to the first, `b` to the last, and `rest` to
/// the list of the `n - 2` arguments in between (possibly empty); with
/// fewer than two arguments the match fails.
pub proof fn lemma_spread_binding(
    a: Seq<char>,
    r: Seq<char>,
    b: Seq<char>,
    args: Seq<Val>,
    st: StateV,
    fuel: nat,
)
    requires
        fuel >= 4,
        a != "self"@,
        b != "self"@,
        a != b,
    ensures
        ({
            let pats = seq![
                NodeV::IdLookup(a),
                NodeV::Spread(Box::new(NodeV::IdLookup(r))),
                NodeV::IdLookup(b),
            ];
            &&& args.len() >= 2 ==> match_arg_list_spec(pats, args, st, fuel) == (
                Ok::<Option<Map<Seq<char>, Val>>, Error>(
                    Some(
                        Map::<Seq<char>, Val>::empty().insert(a, args[0]).insert(
                            b,
                            args.last(),
                        ).insert(r, Val::List(args.subrange(1, args.len() - 1))),
                    ),
                ),
                st.out,
            )
            &&& args.len() < 2 ==> match_arg_list_spec(pats, args, st, fuel) == (
                Ok::<Option<Map<Seq<char>, Val>>, Error>(None),
                st.out,
            )
        }),
{
    let pats = seq![
        NodeV::IdLookup(a),
        NodeV::Spread(Box::new(NodeV::IdLookup(r))),
        NodeV::IdLookup(b),
    ];
    let p1 = pats.drop_first();
    let p2 = p1.drop_first();
    let p3 = p2.drop_first();
    assert(pats[0] == NodeV::IdLookup(a));
    assert(p1[0] == NodeV::Spread(Box::new(NodeV::IdLookup(r))));
    assert(p2[0] == NodeV::IdLookup(b));
    assert(p1.len() == 2 && p2.len() == 1 && p3.len() == 0);
    assert(crate::sem::count_spread(p3) == 0);
    assert(crate::sem::count_spread(p2) == 0);
    assert(crate::sem::count_spread(p1) == 1);
    assert(crate::sem::count_spread(pats) == 1);
    assert(crate::sem::spread_index(p1) == 0);
    assert(crate::sem::spread_index(pats) == 1);
    assert(crate::sem::spread_name(pats[1]) == Some(r));
    let before = pats.subrange(0, 1);
    let after = pats.subrange(2, 3);
    assert(before.len() == 1 && after.len() == 1);
    assert(before[0] == NodeV::IdLookup(a));
    assert(after[0] == NodeV::IdLookup(b));
    if args.len() >= 2 {
        let f = (fuel - 1) as nat;
        let bvals = args.subrange(0, 1);
        assert(bvals.len() == 1 && bvals[0] == args[0]);
        let e0 = Map::<Seq<char>, Val>::empty();
        assert(!e0.contains_key(a));
        let (rp1, op1) = crate::sem::match_pattern_spec(before[0], bvals[0], st, e0, (f - 1) as nat);
        assert(rp1 == Ok::<Option<Map<Seq<char>, Val>>, Error>(Some(e0.insert(a, args[0]))));
        assert(op1 == st.out);
        assert(before.drop_first().len() == 0);
        assert(crate::sem::match_elems_spec(
            before.drop_first(),
            bvals.drop_first(),
            StateV { out: op1, ..st },
            e0.insert(a, args[0]),
            (f - 1) as nat,
        ) == (
            Ok::<Option<Map<Seq<char>, Val>>, Error>(Some(e0.insert(a, args[0]))),
            st.out,
        ));
        let (r1, o1) = crate::sem::match_elems_spec(before, bvals, st, e0, f);
        assert(r1 == Ok::<Option<Map<Seq<char>, Val>>, Error>(Some(e0.insert(a, args[0]))));
        assert(o1 == st.out);
        let avals = args.subrange(args.len() - 1, args.len() as int);
        assert(avals.len() == 1 && avals[0] == args.last());
        let e1 = e0.insert(a, args[0]);
        assert(!e1.contains_key(b));
        let st1 = StateV { out: o1, ..st };
        let (rp2, op2) = crate::sem::match_pattern_spec(after[0], avals[0], st1, e1, (f - 1) as nat);
        assert(rp2 == Ok::<Option<Map<Seq<char>, Val>>, Error>(Some(e1.insert(b, args.last()))));
        assert(op2 == st.out);
        assert(after.drop_first().len() == 0);
        assert(crate::sem::match_elems_spec(
            after.drop_first(),
            avals.drop_first(),
            StateV { out: op2, ..st1 },
            e1.insert(b, args.last()),
            (f - 1) as nat,
        ) == (
            Ok::<Option<Map<Seq<char>, Val>>, Error>(Some(e1.insert(b, args.last()))),
            st.out,
        ));
        let (r2, o2) = crate::sem::match_elems_spec(after, avals, st1, e1, f);
        assert(r2 == Ok::<Option<Map<Seq<char>, Val>>, Error>(Some(e1.insert(b, args.last()))));
        assert(o2 == st.out);
    }
}

/// Field-shortcut precedence: a single keyword argument that names a field
/// of the receiver reads that field, whatever method clauses the class
/// holds — a user method can never override reading an existing field.
pub proof fn lemma_field_shortcut_precedence(
    cid: nat,
    props: Seq<(Seq<char>, Val)>,
    k: Seq<char>,
    v: Val,
    st: StateV,
    fuel: nat,
)
    requires
        fuel >= 1,
        field_lookup(props, k) == Some(v),
    ensures
        dispatch_spec(cid, props, seq![Val::Keyword(k)], st, fuel) == (
            Ok::<Val, Error>(v),
            st.out,
        ),
{
    let args = seq![Val::Keyword(k)];
    assert(args.len() == 1 && args[0] == Val::Keyword(k));
}

/// Reopening a class reuses its identity: when the name is already bound
/// to a class, declaring it again mints no new class, keeps every binding,
/// and evaluates the body against the same class id.  With an empty body
/// the state is unchanged and the declaration's value is the same class.
pub proof fn lemma_reopen_keeps_identity(
    name: Seq<char>,
    defs: Seq<NodeV>,
    st: StateV,
    fuel: nat,
    id: nat,
)
    requires
        fuel >= 3,
        st.env.contains_key(name),
        st.env[name] == Val::Class(id),
    ensures
        ({
            let child = StateV {
                env: st.env.insert("self"@, Val::Instance(id, Seq::empty())),
                ..st
            };
            let (r, st2) = eval_stmts_spec(defs, child, (fuel - 2) as nat);
            let after = StateV { env: st.env, classes: st2.classes, out: st2.out };
            eval_spec(NodeV::Class(name, defs), st, fuel) == match r {
                Err(e) => (Err::<Val, Error>(e), after),
                Ok(_) => (Ok::<Val, Error>(Val::Class(id)), after),
            }
        }),
        defs == Seq::<NodeV>::empty() ==> eval_spec(NodeV::Class(name, defs), st, fuel) == (
            Ok::<Val, Error>(Val::Class(id)),
            st,
        ),
{
    let f1 = (fuel - 1) as nat;
    let f2 = (f1 - 1) as nat;
    assert(f2 == (fuel - 2) as nat);
    assert(eval_spec(NodeV::Class(name, defs), st, fuel) == crate::sem::eval_class_spec(
        name,
        defs,
        st,
        f1,
    ));
    assert(st.env.contains_key(name) && st.env[name] is Class);
    let child = StateV { env: st.env.insert("self"@, Val::Instance(id, Seq::empty())), ..st };
    let (r, st2) = eval_stmts_spec(defs, child, f2);
    let after = StateV { env: st.env, classes: st2.classes, out: st2.out };
    assert(crate::sem::eval_class_spec(name, defs, st, f1) == match r {
        Err(e) => (Err::<Val, Error>(e), after),
        Ok(_) => (Ok::<Val, Error>(Val::Class(id)), after),
    });
    if defs == Seq::<NodeV>::empty() {
        assert(eval_stmts_spec(defs, child, f2) == (Ok::<Val, Error>(Val::Nil), child));
        assert(StateV { env: st.env, classes: child.classes, out: child.out } =~= st);
    }
}


/// A sequence is a prefix of itself.
proof fn prefix_refl(a: Seq<Seq<char>>)
    ensures
        a.is_prefix_of(a),
{
    assert(a =~= a.subrange(0, a.len() as int));
}

/// Prefixes compose.
proof fn prefix_trans(a: Seq<Seq<char>>, b: Seq<Seq<char>>, c: Seq<Seq<char>>)
    requires
        a.is_prefix_of(b),
        b.is_prefix_of(c),
    ensures
        a.is_prefix_of(c),
{
    assert(a =~= c.subrange(0, a.len() as int));
}

/// Appending a line keeps the old lines as a prefix.
proof fn prefix_push(a: Seq<Seq<char>>, x: Seq<char>)
    ensures
        a.is_prefix_of(a.push(x)),
{
    assert(a =~= a.push(x).subrange(0, a.len() as int));
}

/// Evaluation only appends to the output: whatever a node does, every
/// line logged before it stands unchanged in front of whatever it logs.
/// With the composition law above, this is why the argument list's lines
/// always precede the receiver's and the dispatched method's.
pub proof fn lemma_output_only_grows(n: NodeV, st: StateV, fuel: nat)
    ensures
        st.out.is_prefix_of(eval_spec(n, st, fuel).1.out),
    decreases fuel,
{
    prefix_refl(st.out);
    if fuel != 0 {
        let f = (fuel - 1) as nat;
        match n {
            NodeV::ParenExpr(inner) => lemma_output_only_grows(*inner, st, f),
            NodeV::Unquote(inner) => lemma_output_only_grows(*inner, st, f),
            NodeV::Assign(name, rhs) => lemma_output_only_grows(*rhs, st, f),
            NodeV::List(items) => list_out(items, st, f),
            NodeV::RecordLiteral(props) => record_out(
                crate::sem::class_ref(st.env, "Object"@),
                props,
                st,
                f,
            ),
            NodeV::RecordConstructor(name, props) => record_out(
                crate::sem::class_ref(st.env, name),
                props,
                st,
                f,
            ),
            NodeV::VectorConstructor(name, exprs) => if exprs.len() == 1 {
                lemma_output_only_grows(exprs[0], st, f);
            },
            NodeV::Class(name, defs) => class_out(name, defs, st, f),
            NodeV::MethodCall(lhs, args) => {
                list_out(args, st, f);
                let (ar, st1) = eval_list_spec(args, st, f);
                match ar {
                    Err(_) => {},
                    Ok(argv) => {
                        lemma_output_only_grows(*lhs, st1, f);
                        let (lr, st2) = eval_spec(*lhs, st1, f);
                        prefix_trans(st.out, st1.out, st2.out);
                        match lr {
                            Err(_) => {},
                            Ok(recv) => {
                                native_out(recv, argv, st2, f);
                                match try_native_spec(recv, argv, st2, f) {
                                    Some((_, o2)) => prefix_trans(st.out, st2.out, o2),
                                    None => match class_of_val(recv, st2.env) {
                                        Ok(cid) => {
                                            dispatch_out(cid, props_of(recv), argv, st2, f);
                                            let (_, o2) = dispatch_spec(
                                                cid,
                                                props_of(recv),
                                                argv,
                                                st2,
                                                f,
                                            );
                                            prefix_trans(st.out, st2.out, o2);
                                        },
                                        Err(_) => {},
                                    },
                                }
                            },
                        }
                    },
                }
            },
            _ => {},
        }
    }
}

/// As `lemma_output_only_grows`, for an expression list.
proof fn list_out(ns: Seq<NodeV>, st: StateV, fuel: nat)
    ensures
        st.out.is_prefix_of(eval_list_spec(ns, st, fuel).1.out),
    decreases fuel,
{
    prefix_refl(st.out);
    if fuel != 0 && ns.len() != 0 {
        let f = (fuel - 1) as nat;
        lemma_output_only_grows(ns[0], st, f);
        let (r, st1) = eval_spec(ns[0], st, f);
        match r {
            Err(_) => {},
            Ok(_) => {
                list_out(ns.drop_first(), st1, f);
                prefix_trans(st.out, st1.out, eval_list_spec(ns.drop_first(), st1, f).1.out);
            },
        }
    }
}

/// As `lemma_output_only_grows`, for record fields.
proof fn props_out(props: Seq<(Seq<char>, NodeV)>, st: StateV, fuel: nat)
    ensures
        st.out.is_prefix_of(crate::sem::eval_props_spec(props, st, fuel).1.out),
    decreases fuel,
{
    prefix_refl(st.out);
    if fuel != 0 && props.len() != 0 {
        let f = (fuel - 1) as nat;
        lemma_output_only_grows(props[0].1, st, f);
        let (r, st1) = eval_spec(props[0].1, st, f);
        match r {
            Err(_) => {},
            Ok(_) => {
                props_out(props.drop_first(), st1, f);
                prefix_trans(
                    st.out,
                    st1.out,
                    crate::sem::eval_props_spec(props.drop_first(), st1, f).1.out,
                );
            },
        }
    }
}

/// As `lemma_output_only_grows`, for a record construction.
proof fn record_out(
    idr: Result<nat, Error>,
    props: Seq<(Seq<char>, NodeV)>,
    st: StateV,
    fuel: nat,
)
    ensures
        st.out.is_prefix_of(crate::sem::eval_record_spec(idr, props, st, fuel).1.out),
    decreases fuel,
{
    prefix_refl(st.out);
    if fuel != 0 && idr is Ok {
        props_out(props, st, (fuel - 1) as nat);
    }
}

/// As `lemma_output_only_grows`, for a statement sequence.
proof fn stmts_out(ns: Seq<NodeV>, st: StateV, fuel: nat)
    ensures
        st.out.is_prefix_of(eval_stmts_spec(ns, st, fuel).1.out),
    decreases fuel,
{
    prefix_refl(st.out);
    if fuel != 0 && ns.len() != 0 {
        let f = (fuel - 1) as nat;
        if ns.len() == 1 {
            lemma_output_only_grows(ns[0], st, f);
        } else {
            lemma_output_only_grows(ns[0], st, f);
            let (r, st1) = eval_spec(ns[0], st, f);
            match r {
                Err(_) => {},
                Ok(_) => {
                    stmts_out(ns.drop_first(), st1, f);
                    prefix_trans(st.out, st1.out, eval_stmts_spec(ns.drop_first(), st1, f).1.out);
                },
            }
        }
    }
}

/// As `lemma_output_only_grows`, for a class declaration.
proof fn class_out(name: Seq<char>, defs: Seq<NodeV>, st: StateV, fuel: nat)
    ensures
        st.out.is_prefix_of(crate::sem::eval_class_spec(name, defs, st, fuel).1.out),
    decreases fuel,
{
    prefix_refl(st.out);
    if fuel != 0 {
        let f = (fuel - 1) as nat;
        if st.env.contains_key(name) && st.env[name] is Class {
            match st.env[name] {
                Val::Class(id) => {
                    let child = StateV {
                        env: st.env.insert("self"@, Val::Instance(id, Seq::empty())),
                        ..st
                    };
                    stmts_out(defs, child, f);
                },
                _ => {},
            }
        } else {
            match crate::sem::class_ref(st.env, "Object"@) {
                Ok(oid) => {
                    let id = st.classes.len();
                    let st1 = StateV {
                        env: st.env.insert(name, Val::Class(id)),
                        classes: st.classes.push(
                            crate::state::ClassV {
                                name: name,
                                methods: Seq::empty(),
                                superclass: Some(oid),
                            },
                        ),
                        ..st
                    };
                    let child = StateV {
                        env: st1.env.insert("self"@, Val::Instance(id, Seq::empty())),
                        ..st1
                    };
                    stmts_out(defs, child, f);
                },
                Err(_) => {},
            }
        }
    }
}

/// As `lemma_output_only_grows`, for the native operation table.
proof fn native_out(recv: Val, args: Seq<Val>, st: StateV, fuel: nat)
    ensures
        match try_native_spec(recv, args, st, fuel) {
            Some((_, o)) => st.out.is_prefix_of(o),
            None => true,
        },
    decreases fuel,
{
    prefix_refl(st.out);
    if fuel != 0 {
        let f = (fuel - 1) as nat;
        if crate::sem::is_log(args) {
            prefix_push(st.out, crate::render::render(recv, st.classes));
        } else {
            match recv {
                Val::List(items) => nlist_out(items, args, st, f),
                _ => {},
            }
        }
    }
}

/// As `lemma_output_only_grows`, for the native list operations.
proof fn nlist_out(items: Seq<Val>, args: Seq<Val>, st: StateV, fuel: nat)
    ensures
        match crate::sem::native_list_spec(items, args, st, fuel) {
            Some((_, o)) => st.out.is_prefix_of(o),
            None => true,
        },
    decreases fuel,
{
    prefix_refl(st.out);
    if fuel != 0 {
        let f = (fuel - 1) as nat;
        if args.len() == 2 && (args[0] matches Val::Keyword(k) && k == "map"@) {
            match class_of_val(args[1], st.env) {
                Ok(cid) => map_out(items, cid, props_of(args[1]), st, f),
                Err(_) => {},
            }
        } else if args.len() == 2 && (args[0] matches Val::Keyword(k) && k == "filter"@) {
            match crate::sem::class_ref(st.env, "TrueClass"@) {
                Ok(tid) => match class_of_val(args[1], st.env) {
                    Ok(cid) => filter_out(items, cid, props_of(args[1]), tid, st, f),
                    Err(_) => {},
                },
                Err(_) => {},
            }
        } else if args.len() == 2 && (args[0] matches Val::Keyword(k) && k == "any?"@) {
            match crate::sem::class_ref(st.env, "TrueClass"@) {
                Ok(tid) => match class_of_val(args[1], st.env) {
                    Ok(cid) => any_out(items, cid, props_of(args[1]), tid, st, f),
                    Err(_) => {},
                },
                Err(_) => {},
            }
        }
    }
}

/// As `lemma_output_only_grows`, for mapping over a list.
proof fn map_out(items: Seq<Val>, cid: nat, cprops: Seq<(Seq<char>, Val)>, st: StateV, fuel: nat)
    ensures
        st.out.is_prefix_of(crate::sem::map_items_spec(items, cid, cprops, st, fuel).1),
    decreases fuel,
{
    prefix_refl(st.out);
    if fuel != 0 && items.len() != 0 {
        let f = (fuel - 1) as nat;
        dispatch_out(cid, cprops, seq![items[0]], st, f);
        let (r, out1) = dispatch_spec(cid, cprops, seq![items[0]], st, f);
        match r {
            Err(_) => {},
            Ok(_) => {
                let st1 = StateV { out: out1, ..st };
                map_out(items.drop_first(), cid, cprops, st1, f);
                prefix_trans(
                    st.out,
                    out1,
                    crate::sem::map_items_spec(items.drop_first(), cid, cprops, st1, f).1,
                );
            },
        }
    }
}

/// As `lemma_output_only_grows`, for filtering a list.
proof fn filter_out(
    items: Seq<Val>,
    cid: nat,
    cprops: Seq<(Seq<char>, Val)>,
    tid: nat,
    st: StateV,
    fuel: nat,
)
    ensures
        st.out.is_prefix_of(crate::sem::filter_items_spec(items, cid, cprops, tid, st, fuel).1),
    decreases fuel,
{
    prefix_refl(st.out);
    if fuel != 0 && items.len() != 0 {
        let f = (fuel - 1) as nat;
        dispatch_out(cid, cprops, seq![items[0]], st, f);
        let (r, out1) = dispatch_spec(cid, cprops, seq![items[0]], st, f);
        match r {
            Err(_) => {},
            Ok(_) => {
                let st1 = StateV { out: out1, ..st };
                filter_out(items.drop_first(), cid, cprops, tid, st1, f);
                prefix_trans(
                    st.out,
                    out1,
                    crate::sem::filter_items_spec(items.drop_first(), cid, cprops, tid, st1, f).1,
                );
            },
        }
    }
}

/// As `lemma_output_only_grows`, for the any? search.
proof fn any_out(
    items: Seq<Val>,
    cid: nat,
    cprops: Seq<(Seq<char>, Val)>,
    tid: nat,
    st: StateV,
    fuel: nat,
)
    ensures
        st.out.is_prefix_of(crate::sem::any_items_spec(items, cid, cprops, tid, st, fuel).1),
    decreases fuel,
{
    prefix_refl(st.out);
    if fuel != 0 && items.len() != 0 {
        let f = (fuel - 1) as nat;
        dispatch_out(cid, cprops, seq![items[0]], st, f);
        let (r, out1) = dispatch_spec(cid, cprops, seq![items[0]], st, f);
        match r {
            Err(_) => {},
            Ok(v) => {
                if !crate::sem::is_truthy(v, tid) {
                    let st1 = StateV { out: out1, ..st };
                    any_out(items.drop_first(), cid, cprops, tid, st1, f);
                    prefix_trans(
                        st.out,
                        out1,
                        crate::sem::any_items_spec(items.drop_first(), cid, cprops, tid, st1, f).1,
                    );
                }
            },
        }
    }
}

/// As `lemma_output_only_grows`, for dispatch.
proof fn dispatch_out(
    cid: nat,
    props: Seq<(Seq<char>, Val)>,
    args: Seq<Val>,
    st: StateV,
    fuel: nat,
)
    ensures
        st.out.is_prefix_of(dispatch_spec(cid, props, args, st, fuel).1),
    decreases fuel,
{
    prefix_refl(st.out);
    if fuel != 0 {
        let f = (fuel - 1) as nat;
        if crate::sem::shortcut(props, args) is None && cid < st.classes.len() {
            findm_out(st.classes[cid as int].methods, args, st, f);
            let (fr, out1) = find_method_spec(st.classes[cid as int].methods, args, st, f);
            match fr {
                Err(_) => {},
                Ok(Some((body, locals))) => {
                    let scope = st.env.union_prefer_right(
                        locals.insert("self"@, Val::Instance(cid, props)),
                    );
                    let inner = StateV { env: scope, classes: st.classes, out: out1 };
                    lemma_output_only_grows(body, inner, f);
                    prefix_trans(st.out, out1, eval_spec(body, inner, f).1.out);
                },
                Ok(None) => match st.classes[cid as int].superclass {
                    Some(sid) => {
                        let st1 = StateV { out: out1, ..st };
                        dispatch_out(sid, props, args, st1, f);
                        prefix_trans(st.out, out1, dispatch_spec(sid, props, args, st1, f).1);
                    },
                    None => {},
                },
            }
        }
    }
}

/// As `lemma_output_only_grows`, for the clause search.
proof fn findm_out(methods: Seq<NodeV>, args: Seq<Val>, st: StateV, fuel: nat)
    ensures
        st.out.is_prefix_of(find_method_spec(methods, args, st, fuel).1),
    decreases fuel,
{
    prefix_refl(st.out);
    if fuel != 0 && methods.len() != 0 {
        let f = (fuel - 1) as nat;
        match methods[0] {
            NodeV::Def(pats, body) => {
                mal_out(pats, args, st, f);
                let (mr, out1) = match_arg_list_spec(pats, args, st, f);
                match mr {
                    Err(_) => {},
                    Ok(Some(_)) => {},
                    Ok(None) => {
                        let st1 = StateV { out: out1, ..st };
                        findm_out(methods.drop_first(), args, st1, f);
                        prefix_trans(
                            st.out,
                            out1,
                            find_method_spec(methods.drop_first(), args, st1, f).1,
                        );
                    },
                }
            },
            _ => findm_out(methods.drop_first(), args, st, f),
        }
    }
}

/// As `lemma_output_only_grows`, for matching a parameter list.
proof fn mal_out(pats: Seq<NodeV>, args: Seq<Val>, st: StateV, fuel: nat)
    ensures
        st.out.is_prefix_of(match_arg_list_spec(pats, args, st, fuel).1),
    decreases fuel,
{
    prefix_refl(st.out);
    if fuel != 0 {
        let f = (fuel - 1) as nat;
        let nspread = crate::sem::count_spread(pats);
        if nspread > 1 {
        } else if nspread == 1 {
            let k = crate::sem::spread_index(pats);
            match crate::sem::spread_name(pats[k]) {
                None => {},
                Some(_) => {
                    let before = pats.subrange(0, k);
                    let after = pats.subrange(k + 1, pats.len() as int);
                    if args.len() >= before.len() + after.len() {
                        melems_out(
                            before,
                            args.subrange(0, before.len() as int),
                            st,
                            Map::<Seq<char>, Val>::empty(),
                            f,
                        );
                        let (r1, out1) = crate::sem::match_elems_spec(
                            before,
                            args.subrange(0, before.len() as int),
                            st,
                            Map::<Seq<char>, Val>::empty(),
                            f,
                        );
                        match r1 {
                            Err(_) => {},
                            Ok(None) => {},
                            Ok(Some(loc1)) => {
                                let st1 = StateV { out: out1, ..st };
                                let avals = args.subrange(
                                    args.len() - after.len(),
                                    args.len() as int,
                                );
                                melems_out(after, avals, st1, loc1, f);
                                prefix_trans(
                                    st.out,
                                    out1,
                                    crate::sem::match_elems_spec(after, avals, st1, loc1, f).1,
                                );
                            },
                        }
                    }
                },
            }
        } else {
            mvec_out(pats, args, st, Map::<Seq<char>, Val>::empty(), f);
        }
    }
}

/// As `lemma_output_only_grows`, for matching a list pattern.
proof fn mvec_out(
    pats: Seq<NodeV>,
    vals: Seq<Val>,
    st: StateV,
    locals: Map<Seq<char>, Val>,
    fuel: nat,
)
    ensures
        st.out.is_prefix_of(crate::sem::match_vec_spec(pats, vals, st, locals, fuel).1),
    decreases fuel,
{
    prefix_refl(st.out);
    if fuel != 0 {
        let f = (fuel - 1) as nat;
        if !(pats.len() == 1 && pats[0] is Spread) && pats.len() == vals.len() {
            melems_out(pats, vals, st, locals, f);
        }
    }
}

/// As `lemma_output_only_grows`, for elementwise matching.
proof fn melems_out(
    pats: Seq<NodeV>,
    vals: Seq<Val>,
    st: StateV,
    locals: Map<Seq<char>, Val>,
    fuel: nat,
)
    ensures
        st.out.is_prefix_of(crate::sem::match_elems_spec(pats, vals, st, locals, fuel).1),
    decreases fuel,
{
    prefix_refl(st.out);
    if fuel != 0 && pats.len() != 0 {
        let f = (fuel - 1) as nat;
        mpat_out(pats[0], vals[0], st, locals, f);
        let (r, out1) = crate::sem::match_pattern_spec(pats[0], vals[0], st, locals, f);
        match r {
            Err(_) => {},
            Ok(None) => {},
            Ok(Some(loc1)) => {
                let st1 = StateV { out: out1, ..st };
                melems_out(pats.drop_first(), vals.drop_first(), st1, loc1, f);
                prefix_trans(
                    st.out,
                    out1,
                    crate::sem::match_elems_spec(
                        pats.drop_first(),
                        vals.drop_first(),
                        st1,
                        loc1,
                        f,
                    ).1,
                );
            },
        }
    }
}

/// As `lemma_output_only_grows`, for record-constructor field matching.
proof fn mrec_out(
    rprops: Seq<(Seq<char>, NodeV)>,
    props: Seq<(Seq<char>, Val)>,
    st: StateV,
    locals: Map<Seq<char>, Val>,
    fuel: nat,
)
    ensures
        st.out.is_prefix_of(
            crate::sem::match_rec_fields_spec(rprops, props, st, locals, fuel).1,
        ),
    decreases fuel,
{
    prefix_refl(st.out);
    if fuel != 0 && rprops.len() != 0 {
        let f = (fuel - 1) as nat;
        match field_lookup(props, rprops[0].0) {
            None => {},
            Some(v) => {
                mpat_out(rprops[0].1, v, st, locals, f);
                let (r, out1) = crate::sem::match_pattern_spec(rprops[0].1, v, st, locals, f);
                match r {
                    Err(_) => {},
                    Ok(None) => {},
                    Ok(Some(loc1)) => {
                        let st1 = StateV { out: out1, ..st };
                        mrec_out(rprops.drop_first(), props, st1, loc1, f);
                        prefix_trans(
                            st.out,
                            out1,
                            crate::sem::match_rec_fields_spec(
                                rprops.drop_first(),
                                props,
                                st1,
                                loc1,
                                f,
                            ).1,
                        );
                    },
                }
            },
        }
    }
}

/// As `lemma_output_only_grows`, for record-literal field matching.
proof fn mlit_out(
    lprops: Seq<(Seq<char>, NodeV)>,
    props: Seq<(Seq<char>, Val)>,
    st: StateV,
    locals: Map<Seq<char>, Val>,
    fuel: nat,
)
    ensures
        st.out.is_prefix_of(
            crate::sem::match_lit_fields_spec(lprops, props, st, locals, fuel).1,
        ),
    decreases fuel,
{
    prefix_refl(st.out);
    if fuel != 0 && lprops.len() != 0 && lprops[0].0 == props[0].0 {
        let f = (fuel - 1) as nat;
        mpat_out(lprops[0].1, props[0].1, st, locals, f);
        let (r, out1) = crate::sem::match_pattern_spec(lprops[0].1, props[0].1, st, locals, f);
        match r {
            Err(_) => {},
            Ok(None) => {},
            Ok(Some(loc1)) => {
                let st1 = StateV { out: out1, ..st };
                mlit_out(lprops.drop_first(), props.drop_first(), st1, loc1, f);
                prefix_trans(
                    st.out,
                    out1,
                    crate::sem::match_lit_fields_spec(
                        lprops.drop_first(),
                        props.drop_first(),
                        st1,
                        loc1,
                        f,
                    ).1,
                );
            },
        }
    }
}

/// As `lemma_output_only_grows`, for matching one pattern.
proof fn mpat_out(p: NodeV, v: Val, st: StateV, locals: Map<Seq<char>, Val>, fuel: nat)
    ensures
        st.out.is_prefix_of(crate::sem::match_pattern_spec(p, v, st, locals, fuel).1),
    decreases fuel,
{
    prefix_refl(st.out);
    if fuel != 0 {
        let f = (fuel - 1) as nat;
        match p {
            NodeV::RecordConstructor(name, rprops) => match v {
                Val::Instance(id, props) => if id < st.classes.len() && st.classes[id as int].name
                    == name {
                    mrec_out(rprops, props, st, locals, f);
                },
                _ => {},
            },
            NodeV::VectorConstructor(name, ps) => if ps.len() == 1 {
                match v {
                    Val::Instance(id, props) => if id < st.classes.len()
                        && st.classes[id as int].name == name && props.len() == 1 && props[0].0
                        == "value"@ {
                        mpat_out(ps[0], props[0].1, st, locals, f);
                    },
                    Val::Keyword(_) => if name == "Keyword"@ {
                        mpat_out(ps[0], v, st, locals, f);
                    },
                    Val::Str(_) => if name == "Str"@ {
                        mpat_out(ps[0], v, st, locals, f);
                    },
                    Val::Int(_) => if name == "Int"@ {
                        mpat_out(ps[0], v, st, locals, f);
                    },
                    _ => {},
                }
            },
            NodeV::List(ps) => match v {
                Val::List(vs) => mvec_out(ps, vs, st, locals, f),
                _ => {},
            },
            NodeV::RecordLiteral(lprops) => match v {
                Val::Instance(_, props) => if lprops.len() == props.len() {
                    mlit_out(lprops, props, st, locals, f);
                },
                _ => {},
            },
            NodeV::Unquote(inner) => lemma_output_only_grows(*inner, st, f),
            NodeV::ParenExpr(inner) => mpat_out(*inner, v, st, locals, f),
            _ => {},
        }
    }
}

} // verus!
