//! The semantics of the engine, as specification functions.
//!
//! Every function here is a mathematical definition over the deep views:
//! [`NodeV`] for syntax, [`Val`] for values, [`StateV`] for the state.  The
//! executable matcher, dispatcher and evaluator in [`crate::interp`] are
//! proved to return exactly what these functions say.
//!
//! Evaluation is fuel-limited: every recursive step spends one unit of fuel,
//! and a computation whose depth exhausts the fuel ends in
//! [`Error::OutOfFuel`].  This is the one machine limit added to the
//! language's own failure taxonomy, alongside [`Error::Overflow`] for an
//! integer sum that exceeds the machine word.
//!
//! Scoping rules (deliberate, see the module's callers):
//! - assignment evaluates its right-hand side in a copy of the environment,
//!   so bindings made inside it are invisible afterwards;
//! - a method body runs in a scope seeded from the caller's bindings, the
//!   matched parameters and `self`; its bindings and its class-registry
//!   changes are invisible to the caller, but its output persists;
//! - an unquote pattern evaluates its expression with the caller's
//!   environment; only its output persists.
use vstd::prelude::*;

use crate::ast::NodeV;
use crate::canon::canon;
use crate::render::render;
use crate::state::{ClassV, StateV};
use crate::value::Val;

verus! {

/// The failure taxonomy.  Every failure is fatal: evaluation stops and
/// reports one of these kinds.
#[derive(Debug, Clone, Copy, PartialEq, Eq, Structural)]
pub enum Error {
    /// An identifier was looked up with no binding in scope.
    UnboundVariable,
    /// A constructor or class reference names an identifier not bound to a
    /// class value.
    UnknownClass,
    /// Dispatch exhausted the receiver's class and its superclass chain.
    NoMatchingMethod,
    /// More than one spread in a parameter list, a spread whose target is
    /// not a plain identifier, or a spread used outside its legal position.
    MalformedPattern,
    /// The reserved self-identifier used as a pattern, or a method
    /// definition evaluated while `self` is not bound to an instance.
    InvalidSelfReference,
    /// A native operation applied to an argument shape outside its table,
    /// or a pattern/value combination that is not supported.
    TypeMismatch,
    /// An integer sum exceeded the machine word.
    Overflow,
    /// Evaluation spent the fuel given to it.
    OutOfFuel,
}

/// The environment maps names to values.
pub type EnvV = Map<Seq<char>, Val>;

/// The lines printed so far.
pub type OutV = Seq<Seq<char>>;

/// Resolves a name to a class id: the name must be bound to a class value.
pub open spec fn class_ref(env: EnvV, name: Seq<char>) -> Result<nat, Error> {
    if env.contains_key(name) {
        match env[name] {
            Val::Class(id) => Ok(id),
            _ => Err(Error::UnknownClass),
        }
    } else {
        Err(Error::UnknownClass)
    }
}

/// The class of a value: an instance's own class; a primitive's wrapper
/// class, resolved by its conventional name in the environment.  A class
/// value has no class to dispatch on.
pub open spec fn class_of_val(v: Val, env: EnvV) -> Result<nat, Error> {
    match v {
        Val::Instance(id, _) => Ok(id),
        Val::Class(_) => Err(Error::TypeMismatch),
        Val::Nil => class_ref(env, "Nil"@),
        Val::Keyword(_) => class_ref(env, "Keyword"@),
        Val::Str(_) => class_ref(env, "Str"@),
        Val::Int(_) => class_ref(env, "Int"@),
        Val::Operator(_) => class_ref(env, "Operator"@),
        Val::List(_) => class_ref(env, "List"@),
    }
}

/// The fields of a value: an instance's fields; otherwise none.
pub open spec fn props_of(v: Val) -> Seq<(Seq<char>, Val)> {
    match v {
        Val::Instance(_, fields) => fields,
        _ => Seq::empty(),
    }
}

/// The first field with the given name, if any.
pub open spec fn field_lookup(props: Seq<(Seq<char>, Val)>, name: Seq<char>) -> Option<Val>
    decreases props.len(),
{
    if props.len() == 0 {
        None
    } else if props[0].0 == name {
        Some(props[0].1)
    } else {
        field_lookup(props.drop_first(), name)
    }
}

/// The field-access shortcut: a single keyword argument naming a field of
/// the receiver reads that field, ahead of any user method.
pub open spec fn shortcut(props: Seq<(Seq<char>, Val)>, args: Seq<Val>) -> Option<Val> {
    if args.len() == 1 {
        match args[0] {
            Val::Keyword(k) => field_lookup(props, k),
            _ => None,
        }
    } else {
        None
    }
}

/// Whether the argument list is exactly `[Keyword("log")]`.
pub open spec fn is_log(args: Seq<Val>) -> bool {
    args.len() == 1 && (args[0] matches Val::Keyword(k) && k == "log"@)
}

/// How many spread patterns a parameter list holds.
pub open spec fn count_spread(pats: Seq<NodeV>) -> nat
    decreases pats.len(),
{
    if pats.len() == 0 {
        0
    } else {
        (if pats[0] is Spread {
            1nat
        } else {
            0nat
        }) + count_spread(pats.drop_first())
    }
}

/// The index of the first spread pattern.
pub open spec fn spread_index(pats: Seq<NodeV>) -> int
    decreases pats.len(),
{
    if pats.len() == 0 {
        0
    } else if pats[0] is Spread {
        0
    } else {
        1 + spread_index(pats.drop_first())
    }
}

/// The name under a spread pattern, when its target is a plain identifier.
pub open spec fn spread_name(p: NodeV) -> Option<Seq<char>> {
    match p {
        NodeV::Spread(inner) => match *inner {
            NodeV::IdLookup(name) => Some(name),
            _ => None,
        },
        _ => None,
    }
}

/// The state in which every program starts: a registry holding the `Main`
/// and root `Object` classes, `self` bound to an empty `Main` instance and
/// `Object` bound to the root class.
pub open spec fn init_state() -> StateV {
    StateV {
        env: Map::<Seq<char>, Val>::empty().insert("self"@, Val::Instance(0, Seq::empty())).insert(
            "Object"@,
            Val::Class(1),
        ),
        classes: Seq::empty().push(
            ClassV { name: "Main"@, methods: Seq::empty(), superclass: None },
        ).push(ClassV { name: "Object"@, methods: Seq::empty(), superclass: None }),
        out: Seq::empty(),
    }
}

/// Evaluates one node.
pub open spec fn eval_spec(n: NodeV, st: StateV, fuel: nat) -> (Result<Val, Error>, StateV)
    decreases fuel,
{
    if fuel == 0 {
        (Err(Error::OutOfFuel), st)
    } else {
        let f = (fuel - 1) as nat;
        match n {
            NodeV::Keyword(s) => (Ok(Val::Keyword(s)), st),
            NodeV::Int(v) => (Ok(Val::Int(v)), st),
            NodeV::Str(s) => (Ok(Val::Str(s)), st),
            NodeV::Operator(s) => (Ok(Val::Operator(s)), st),
            NodeV::IdLookup(name) => if st.env.contains_key(name) {
                (Ok(st.env[name]), st)
            } else {
                (Err(Error::UnboundVariable), st)
            },
            NodeV::ParenExpr(inner) => eval_spec(*inner, st, f),
            NodeV::Unquote(inner) => eval_spec(*inner, st, f),
            NodeV::Spread(_) => (Err(Error::MalformedPattern), st),
            NodeV::Assign(name, rhs) => {
                let (r, st1) = eval_spec(*rhs, st, f);
                match r {
                    Ok(v) => (
                        Ok(Val::Nil),
                        StateV { env: st.env.insert(name, v), classes: st1.classes, out: st1.out },
                    ),
                    Err(e) => (Err(e), StateV { env: st.env, classes: st1.classes, out: st1.out }),
                }
            },
            NodeV::List(items) => {
                let (r, st1) = eval_list_spec(items, st, f);
                match r {
                    Ok(vs) => (Ok(Val::List(vs)), st1),
                    Err(e) => (Err(e), st1),
                }
            },
            NodeV::RecordLiteral(props) => eval_record_spec(
                class_ref(st.env, "Object"@),
                props,
                st,
                f,
            ),
            NodeV::RecordConstructor(name, props) => eval_record_spec(
                class_ref(st.env, name),
                props,
                st,
                f,
            ),
            NodeV::VectorConstructor(name, exprs) => if exprs.len() != 1 {
                (Err(Error::TypeMismatch), st)
            } else {
                let (r, st1) = eval_spec(exprs[0], st, f);
                match r {
                    Ok(v) => match class_ref(st1.env, name) {
                        Ok(id) => (Ok(Val::Instance(id, seq![("value"@, v)])), st1),
                        Err(e) => (Err(e), st1),
                    },
                    Err(e) => (Err(e), st1),
                }
            },
            NodeV::Class(name, defs) => eval_class_spec(name, defs, st, f),
            NodeV::Def(args, body) => if st.env.contains_key("self"@) && st.env["self"@] is Instance {
                match st.env["self"@] {
                    Val::Instance(id, _) => if id < st.classes.len() {
                        (
                            Ok(Val::Nil),
                            StateV {
                                classes: st.classes.update(
                                    id as int,
                                    ClassV {
                                        methods: st.classes[id as int].methods.push(n),
                                        ..st.classes[id as int]
                                    },
                                ),
                                ..st
                            },
                        )
                    } else {
                        (Err(Error::UnknownClass), st)
                    },
                    _ => (Err(Error::InvalidSelfReference), st),
                }
            } else {
                (Err(Error::InvalidSelfReference), st)
            },
            NodeV::Object(methods) => match class_ref(st.env, "Object"@) {
                Ok(oid) => (
                    Ok(Val::Instance(st.classes.len(), Seq::empty())),
                    StateV {
                        classes: st.classes.push(
                            ClassV {
                                name: "<anon class>"@,
                                methods: methods,
                                superclass: Some(oid),
                            },
                        ),
                        ..st
                    },
                ),
                Err(e) => (Err(e), st),
            },
            NodeV::MethodCall(lhs, args) => {
                let (ar, st1) = eval_list_spec(args, st, f);
                match ar {
                    Err(e) => (Err(e), st1),
                    Ok(argv) => {
                        let (lr, st2) = eval_spec(*lhs, st1, f);
                        match lr {
                            Err(e) => (Err(e), st2),
                            Ok(recv) => match try_native_spec(recv, argv, st2, f) {
                                Some((r, out2)) => (r, StateV { out: out2, ..st2 }),
                                None => match class_of_val(recv, st2.env) {
                                    Ok(cid) => {
                                        let (r, out2) = dispatch_spec(
                                            cid,
                                            props_of(recv),
                                            argv,
                                            st2,
                                            f,
                                        );
                                        (r, StateV { out: out2, ..st2 })
                                    },
                                    Err(e) => (Err(e), st2),
                                },
                            },
                        }
                    },
                }
            },
        }
    }
}

/// Evaluates a sequence of expressions left to right, threading the state.
pub open spec fn eval_list_spec(ns: Seq<NodeV>, st: StateV, fuel: nat) -> (
    Result<Seq<Val>, Error>,
    StateV,
)
    decreases fuel,
{
    if fuel == 0 {
        (Err(Error::OutOfFuel), st)
    } else {
        let f = (fuel - 1) as nat;
        if ns.len() == 0 {
            (Ok(Seq::empty()), st)
        } else {
            let (r, st1) = eval_spec(ns[0], st, f);
            match r {
                Err(e) => (Err(e), st1),
                Ok(v) => {
                    let (rr, st2) = eval_list_spec(ns.drop_first(), st1, f);
                    match rr {
                        Err(e) => (Err(e), st2),
                        Ok(vs) => (Ok(Seq::empty().push(v) + vs), st2),
                    }
                },
            }
        }
    }
}

/// Evaluates record fields left to right, threading the state.
pub open spec fn eval_props_spec(props: Seq<(Seq<char>, NodeV)>, st: StateV, fuel: nat) -> (
    Result<Seq<(Seq<char>, Val)>, Error>,
    StateV,
)
    decreases fuel,
{
    if fuel == 0 {
        (Err(Error::OutOfFuel), st)
    } else {
        let f = (fuel - 1) as nat;
        if props.len() == 0 {
            (Ok(Seq::empty()), st)
        } else {
            let (r, st1) = eval_spec(props[0].1, st, f);
            match r {
                Err(e) => (Err(e), st1),
                Ok(v) => {
                    let (rr, st2) = eval_props_spec(props.drop_first(), st1, f);
                    match rr {
                        Err(e) => (Err(e), st2),
                        Ok(fs) => (Ok(Seq::empty().push((props[0].0, v)) + fs), st2),
                    }
                },
            }
        }
    }
}

/// Builds an instance of the resolved class from evaluated fields, in
/// canonical (name-sorted) field order.
pub open spec fn eval_record_spec(
    idr: Result<nat, Error>,
    props: Seq<(Seq<char>, NodeV)>,
    st: StateV,
    fuel: nat,
) -> (Result<Val, Error>, StateV)
    decreases fuel,
{
    if fuel == 0 {
        (Err(Error::OutOfFuel), st)
    } else {
        let f = (fuel - 1) as nat;
        match idr {
            Err(e) => (Err(e), st),
            Ok(id) => {
                let (r, st1) = eval_props_spec(props, st, f);
                match r {
                    Err(e) => (Err(e), st1),
                    Ok(fields) => (Ok(Val::Instance(id, canon(fields))), st1),
                }
            },
        }
    }
}

/// Evaluates statements in order; the value is the last statement's value,
/// `nil` when there are none.
pub open spec fn eval_stmts_spec(ns: Seq<NodeV>, st: StateV, fuel: nat) -> (
    Result<Val, Error>,
    StateV,
)
    decreases fuel,
{
    if fuel == 0 {
        (Err(Error::OutOfFuel), st)
    } else {
        let f = (fuel - 1) as nat;
        if ns.len() == 0 {
            (Ok(Val::Nil), st)
        } else if ns.len() == 1 {
            eval_spec(ns[0], st, f)
        } else {
            let (r, st1) = eval_spec(ns[0], st, f);
            match r {
                Err(e) => (Err(e), st1),
                Ok(_) => eval_stmts_spec(ns.drop_first(), st1, f),
            }
        }
    }
}

/// Declares (or reopens) a class.  An existing binding of the name to a
/// class value is reused, so reopening appends to the same class; otherwise
/// a fresh id is minted, with the root `Object` class as superclass.  The
/// body's statements run in a child scope whose `self` is an empty instance
/// of the class; the child scope's bindings are dropped afterwards.
pub open spec fn eval_class_spec(name: Seq<char>, defs: Seq<NodeV>, st: StateV, fuel: nat) -> (
    Result<Val, Error>,
    StateV,
)
    decreases fuel,
{
    if fuel == 0 {
        (Err(Error::OutOfFuel), st)
    } else {
        let f = (fuel - 1) as nat;
        let idr: Result<(nat, StateV), Error> = if st.env.contains_key(name) && st.env[name]
            is Class {
            match st.env[name] {
                Val::Class(id) => Ok((id, st)),
                _ => Err(Error::UnknownClass),
            }
        } else {
            match class_ref(st.env, "Object"@) {
                Ok(oid) => Ok(
                    (
                        st.classes.len(),
                        StateV {
                            env: st.env.insert(name, Val::Class(st.classes.len())),
                            classes: st.classes.push(
                                ClassV {
                                    name: name,
                                    methods: Seq::empty(),
                                    superclass: Some(oid),
                                },
                            ),
                            ..st
                        },
                    ),
                ),
                Err(e) => Err(e),
            }
        };
        match idr {
            Err(e) => (Err(e), st),
            Ok((id, st1)) => {
                let child = StateV {
                    env: st1.env.insert("self"@, Val::Instance(id, Seq::empty())),
                    ..st1
                };
                let (r, st2) = eval_stmts_spec(defs, child, f);
                let after = StateV { env: st1.env, classes: st2.classes, out: st2.out };
                match r {
                    Err(e) => (Err(e), after),
                    Ok(_) => (Ok(Val::Class(id)), after),
                }
            },
        }
    }
}

/// The native operations (the built-in table): `log` on any receiver;
/// `+` on integers; indexing, `map`, `filter` and `any?` on lists.
/// `None` means no native operation applies and user methods are tried.
pub open spec fn try_native_spec(recv: Val, args: Seq<Val>, st: StateV, fuel: nat) -> Option<
    (Result<Val, Error>, OutV),
>
    decreases fuel,
{
    if fuel == 0 {
        Some((Err(Error::OutOfFuel), st.out))
    } else {
        let f = (fuel - 1) as nat;
        if is_log(args) {
            Some((Ok(Val::Nil), st.out.push(render(recv, st.classes))))
        } else {
            match recv {
                Val::Int(n) => if args.len() == 2 && (args[0] matches Val::Operator(op) && op
                    == "+"@) && args[1] is Int {
                    match args[1] {
                        Val::Int(m) => if n + m > usize::MAX as nat {
                            Some((Err(Error::Overflow), st.out))
                        } else {
                            Some((Ok(Val::Int(n + m)), st.out))
                        },
                        _ => None,
                    }
                } else {
                    None
                },
                Val::List(items) => native_list_spec(items, args, st, f),
                _ => None,
            }
        }
    }
}

/// The native operations on a list receiver (other than `log`).
pub open spec fn native_list_spec(items: Seq<Val>, args: Seq<Val>, st: StateV, fuel: nat) -> Option<
    (Result<Val, Error>, OutV),
>
    decreases fuel,
{
    if fuel == 0 {
        Some((Err(Error::OutOfFuel), st.out))
    } else {
        let f = (fuel - 1) as nat;
        if args.len() == 1 && args[0] is Int {
            match args[0] {
                Val::Int(i) => Some(
                    (
                        Ok(
                            if i < items.len() {
                                items[i as int]
                            } else {
                                Val::Nil
                            },
                        ),
                        st.out,
                    ),
                ),
                _ => None,
            }
        } else if args.len() == 2 && (args[0] matches Val::Keyword(k) && k == "map"@) {
            match class_of_val(args[1], st.env) {
                Ok(cid) => {
                    let (r, out1) = map_items_spec(items, cid, props_of(args[1]), st, f);
                    match r {
                        Ok(vs) => Some((Ok(Val::List(vs)), out1)),
                        Err(e) => Some((Err(e), out1)),
                    }
                },
                Err(e) => Some((Err(e), st.out)),
            }
        } else if args.len() == 2 && (args[0] matches Val::Keyword(k) && k == "filter"@) {
            match class_ref(st.env, "TrueClass"@) {
                Ok(tid) => match class_of_val(args[1], st.env) {
                    Ok(cid) => {
                        let (r, out1) = filter_items_spec(
                            items,
                            cid,
                            props_of(args[1]),
                            tid,
                            st,
                            f,
                        );
                        match r {
                            Ok(vs) => Some((Ok(Val::List(vs)), out1)),
                            Err(e) => Some((Err(e), out1)),
                        }
                    },
                    Err(e) => Some((Err(e), st.out)),
                },
                Err(e) => Some((Err(e), st.out)),
            }
        } else if args.len() == 2 && (args[0] matches Val::Keyword(k) && k == "any?"@) {
            match class_ref(st.env, "TrueClass"@) {
                Ok(tid) => match class_of_val(args[1], st.env) {
                    Ok(cid) => {
                        let (r, out1) = any_items_spec(items, cid, props_of(args[1]), tid, st, f);
                        match r {
                            Ok(b) => {
                                let name: Seq<char> = if b {
                                    "true"@
                                } else {
                                    "false"@
                                };
                                if st.env.contains_key(name) {
                                    Some((Ok(st.env[name]), out1))
                                } else {
                                    Some((Err(Error::UnboundVariable), out1))
                                }
                            },
                            Err(e) => Some((Err(e), out1)),
                        }
                    },
                    Err(e) => Some((Err(e), st.out)),
                },
                Err(e) => Some((Err(e), st.out)),
            }
        } else {
            None
        }
    }
}

/// Dispatches the callee once per element, collecting the results.
pub open spec fn map_items_spec(
    items: Seq<Val>,
    cid: nat,
    cprops: Seq<(Seq<char>, Val)>,
    st: StateV,
    fuel: nat,
) -> (Result<Seq<Val>, Error>, OutV)
    decreases fuel,
{
    if fuel == 0 {
        (Err(Error::OutOfFuel), st.out)
    } else {
        let f = (fuel - 1) as nat;
        if items.len() == 0 {
            (Ok(Seq::empty()), st.out)
        } else {
            let (r, out1) = dispatch_spec(cid, cprops, seq![items[0]], st, f);
            match r {
                Err(e) => (Err(e), out1),
                Ok(v) => {
                    let (rr, out2) = map_items_spec(
                        items.drop_first(),
                        cid,
                        cprops,
                        StateV { out: out1, ..st },
                        f,
                    );
                    match rr {
                        Err(e) => (Err(e), out2),
                        Ok(vs) => (Ok(Seq::empty().push(v) + vs), out2),
                    }
                },
            }
        }
    }
}

/// Whether a dispatch result counts as true: an instance of the registry's
/// boolean-true class.
pub open spec fn is_truthy(v: Val, tid: nat) -> bool {
    v matches Val::Instance(cid, _) && cid == tid
}

/// Dispatches the predicate once per element, keeping the elements whose
/// result is an instance of the boolean-true class.
pub open spec fn filter_items_spec(
    items: Seq<Val>,
    cid: nat,
    cprops: Seq<(Seq<char>, Val)>,
    tid: nat,
    st: StateV,
    fuel: nat,
) -> (Result<Seq<Val>, Error>, OutV)
    decreases fuel,
{
    if fuel == 0 {
        (Err(Error::OutOfFuel), st.out)
    } else {
        let f = (fuel - 1) as nat;
        if items.len() == 0 {
            (Ok(Seq::empty()), st.out)
        } else {
            let (r, out1) = dispatch_spec(cid, cprops, seq![items[0]], st, f);
            match r {
                Err(e) => (Err(e), out1),
                Ok(v) => {
                    let (rr, out2) = filter_items_spec(
                        items.drop_first(),
                        cid,
                        cprops,
                        tid,
                        StateV { out: out1, ..st },
                        f,
                    );
                    match rr {
                        Err(e) => (Err(e), out2),
                        Ok(vs) => if is_truthy(v, tid) {
                            (Ok(Seq::empty().push(items[0]) + vs), out2)
                        } else {
                            (Ok(vs), out2)
                        },
                    }
                },
            }
        }
    }
}

/// Dispatches the predicate per element, stopping at the first element
/// whose result is an instance of the boolean-true class.
pub open spec fn any_items_spec(
    items: Seq<Val>,
    cid: nat,
    cprops: Seq<(Seq<char>, Val)>,
    tid: nat,
    st: StateV,
    fuel: nat,
) -> (Result<bool, Error>, OutV)
    decreases fuel,
{
    if fuel == 0 {
        (Err(Error::OutOfFuel), st.out)
    } else {
        let f = (fuel - 1) as nat;
        if items.len() == 0 {
            (Ok(false), st.out)
        } else {
            let (r, out1) = dispatch_spec(cid, cprops, seq![items[0]], st, f);
            match r {
                Err(e) => (Err(e), out1),
                Ok(v) => if is_truthy(v, tid) {
                    (Ok(true), out1)
                } else {
                    any_items_spec(items.drop_first(), cid, cprops, tid, StateV { out: out1, ..st }, f)
                },
            }
        }
    }
}

/// Dispatches a call: the field-access shortcut first, then the receiver
/// class's method clauses in declaration order, then the superclass chain.
/// Only the output can change; the caller's bindings and the registry are
/// untouched.
pub open spec fn dispatch_spec(
    cid: nat,
    props: Seq<(Seq<char>, Val)>,
    args: Seq<Val>,
    st: StateV,
    fuel: nat,
) -> (Result<Val, Error>, OutV)
    decreases fuel,
{
    if fuel == 0 {
        (Err(Error::OutOfFuel), st.out)
    } else {
        let f = (fuel - 1) as nat;
        match shortcut(props, args) {
            Some(v) => (Ok(v), st.out),
            None => if cid >= st.classes.len() {
                (Err(Error::NoMatchingMethod), st.out)
            } else {
                let (fr, out1) = find_method_spec(st.classes[cid as int].methods, args, st, f);
                match fr {
                    Err(e) => (Err(e), out1),
                    Ok(Some((body, locals))) => {
                        let scope = st.env.union_prefer_right(
                            locals.insert("self"@, Val::Instance(cid, props)),
                        );
                        let (r, st2) = eval_spec(
                            body,
                            StateV { env: scope, classes: st.classes, out: out1 },
                            f,
                        );
                        (r, st2.out)
                    },
                    Ok(None) => match st.classes[cid as int].superclass {
                        Some(sid) => dispatch_spec(sid, props, args, StateV { out: out1, ..st }, f),
                        None => (Err(Error::NoMatchingMethod), out1),
                    },
                }
            },
        }
    }
}

/// Finds the first method clause whose parameter patterns match the
/// arguments; entries that are not `def` clauses are skipped.  Returns the
/// clause's body and the bindings its patterns made.
pub open spec fn find_method_spec(methods: Seq<NodeV>, args: Seq<Val>, st: StateV, fuel: nat) -> (
    Result<Option<(NodeV, EnvV)>, Error>,
    OutV,
)
    decreases fuel,
{
    if fuel == 0 {
        (Err(Error::OutOfFuel), st.out)
    } else {
        let f = (fuel - 1) as nat;
        if methods.len() == 0 {
            (Ok(None), st.out)
        } else {
            match methods[0] {
                NodeV::Def(pats, body) => {
                    let (mr, out1) = match_arg_list_spec(pats, args, st, f);
                    match mr {
                        Err(e) => (Err(e), out1),
                        Ok(Some(locals)) => (Ok(Some((*body, locals))), out1),
                        Ok(None) => find_method_spec(
                            methods.drop_first(),
                            args,
                            StateV { out: out1, ..st },
                            f,
                        ),
                    }
                },
                _ => find_method_spec(methods.drop_first(), args, st, f),
            }
        }
    }
}

/// Matches a parameter list against an argument list.
///
/// At most one spread may appear, and its target must be a plain
/// identifier.  With a spread at position `k`, the patterns before it match
/// the first arguments, the patterns after it match the last arguments, and
/// the spread's name binds to the list of arguments in between, which may
/// be empty; too few arguments is no match.  Without a spread, the arity
/// must be exactly equal and every pattern must match its argument.
pub open spec fn match_arg_list_spec(pats: Seq<NodeV>, args: Seq<Val>, st: StateV, fuel: nat) -> (
    Result<Option<EnvV>, Error>,
    OutV,
)
    decreases fuel,
{
    if fuel == 0 {
        (Err(Error::OutOfFuel), st.out)
    } else {
        let f = (fuel - 1) as nat;
        let nspread = count_spread(pats);
        if nspread > 1 {
            (Err(Error::MalformedPattern), st.out)
        } else if nspread == 1 {
            let k = spread_index(pats);
            match spread_name(pats[k]) {
                None => (Err(Error::MalformedPattern), st.out),
                Some(nm) => {
                    let before = pats.subrange(0, k);
                    let after = pats.subrange(k + 1, pats.len() as int);
                    if args.len() < before.len() + after.len() {
                        (Ok(None), st.out)
                    } else {
                        let (r1, out1) = match_elems_spec(
                            before,
                            args.subrange(0, before.len() as int),
                            st,
                            Map::<Seq<char>, Val>::empty(),
                            f,
                        );
                        match r1 {
                            Err(e) => (Err(e), out1),
                            Ok(None) => (Ok(None), out1),
                            Ok(Some(loc1)) => {
                                let (r2, out2) = match_elems_spec(
                                    after,
                                    args.subrange(
                                        args.len() - after.len(),
                                        args.len() as int,
                                    ),
                                    StateV { out: out1, ..st },
                                    loc1,
                                    f,
                                );
                                match r2 {
                                    Err(e) => (Err(e), out2),
                                    Ok(None) => (Ok(None), out2),
                                    Ok(Some(loc2)) => {
                                        let mid = args.subrange(
                                            before.len() as int,
                                            args.len() - after.len(),
                                        );
                                        (Ok(Some(loc2.insert(nm, Val::List(mid)))), out2)
                                    },
                                }
                            },
                        }
                    }
                },
            }
        } else {
            match_vec_spec(pats, args, st, Map::<Seq<char>, Val>::empty(), f)
        }
    }
}

/// Matches a pattern list against a value list, as a list pattern does:
/// a sole spread pattern matches any list and binds its name to the whole
/// list; otherwise the lengths must be equal and every pattern must match.
pub open spec fn match_vec_spec(
    pats: Seq<NodeV>,
    vals: Seq<Val>,
    st: StateV,
    locals: EnvV,
    fuel: nat,
) -> (Result<Option<EnvV>, Error>, OutV)
    decreases fuel,
{
    if fuel == 0 {
        (Err(Error::OutOfFuel), st.out)
    } else {
        let f = (fuel - 1) as nat;
        if pats.len() == 1 && pats[0] is Spread {
            match spread_name(pats[0]) {
                Some(nm) => (Ok(Some(locals.insert(nm, Val::List(vals)))), st.out),
                None => (Err(Error::MalformedPattern), st.out),
            }
        } else if pats.len() != vals.len() {
            (Ok(None), st.out)
        } else {
            match_elems_spec(pats, vals, st, locals, f)
        }
    }
}

/// Matches patterns against values elementwise, threading the local
/// binding map; the lists have equal length.
pub open spec fn match_elems_spec(
    pats: Seq<NodeV>,
    vals: Seq<Val>,
    st: StateV,
    locals: EnvV,
    fuel: nat,
) -> (Result<Option<EnvV>, Error>, OutV)
    decreases fuel,
{
    if fuel == 0 {
        (Err(Error::OutOfFuel), st.out)
    } else {
        let f = (fuel - 1) as nat;
        if pats.len() == 0 {
            (Ok(Some(locals)), st.out)
        } else {
            let (r, out1) = match_pattern_spec(pats[0], vals[0], st, locals, f);
            match r {
                Err(e) => (Err(e), out1),
                Ok(None) => (Ok(None), out1),
                Ok(Some(loc1)) => match_elems_spec(
                    pats.drop_first(),
                    vals.drop_first(),
                    StateV { out: out1, ..st },
                    loc1,
                    f,
                ),
            }
        }
    }
}

/// Matches the named sub-patterns of a record-constructor pattern against
/// an instance's fields: every named sub-pattern needs a field of that
/// name whose value matches; extra fields are ignored.
pub open spec fn match_rec_fields_spec(
    rprops: Seq<(Seq<char>, NodeV)>,
    props: Seq<(Seq<char>, Val)>,
    st: StateV,
    locals: EnvV,
    fuel: nat,
) -> (Result<Option<EnvV>, Error>, OutV)
    decreases fuel,
{
    if fuel == 0 {
        (Err(Error::OutOfFuel), st.out)
    } else {
        let f = (fuel - 1) as nat;
        if rprops.len() == 0 {
            (Ok(Some(locals)), st.out)
        } else {
            match field_lookup(props, rprops[0].0) {
                None => (Ok(None), st.out),
                Some(v) => {
                    let (r, out1) = match_pattern_spec(rprops[0].1, v, st, locals, f);
                    match r {
                        Err(e) => (Err(e), out1),
                        Ok(None) => (Ok(None), out1),
                        Ok(Some(loc1)) => match_rec_fields_spec(
                            rprops.drop_first(),
                            props,
                            StateV { out: out1, ..st },
                            loc1,
                            f,
                        ),
                    }
                },
            }
        }
    }
}

/// Matches a record-literal pattern's fields against an instance's fields,
/// pairwise in order: names and values must line up one for one.
pub open spec fn match_lit_fields_spec(
    lprops: Seq<(Seq<char>, NodeV)>,
    props: Seq<(Seq<char>, Val)>,
    st: StateV,
    locals: EnvV,
    fuel: nat,
) -> (Result<Option<EnvV>, Error>, OutV)
    decreases fuel,
{
    if fuel == 0 {
        (Err(Error::OutOfFuel), st.out)
    } else {
        let f = (fuel - 1) as nat;
        if lprops.len() == 0 {
            (Ok(Some(locals)), st.out)
        } else if lprops[0].0 != props[0].0 {
            (Ok(None), st.out)
        } else {
            let (r, out1) = match_pattern_spec(lprops[0].1, props[0].1, st, locals, f);
            match r {
                Err(e) => (Err(e), out1),
                Ok(None) => (Ok(None), out1),
                Ok(Some(loc1)) => match_lit_fields_spec(
                    lprops.drop_first(),
                    props.drop_first(),
                    StateV { out: out1, ..st },
                    loc1,
                    f,
                ),
            }
        }
    }
}

/// Matches one pattern against one value.
///
/// `Ok(Some(locals))` is a match with the accumulated bindings,
/// `Ok(None)` no match; errors are fatal.  Literal patterns need an
/// identical value of the same kind.  An identifier binds on first use and
/// must equal its binding on later uses; `self` is not a legal pattern.
/// Record and vector constructor patterns check the instance's class by
/// name; a vector constructor also accepts a bare keyword, string or
/// integer when it names that built-in wrapper class, matching its inner
/// pattern against the bare value itself.  An unquote pattern
/// evaluates its expression with the caller's environment and compares
/// structurally.
pub open spec fn match_pattern_spec(p: NodeV, v: Val, st: StateV, locals: EnvV, fuel: nat) -> (
    Result<Option<EnvV>, Error>,
    OutV,
)
    decreases fuel,
{
    if fuel == 0 {
        (Err(Error::OutOfFuel), st.out)
    } else {
        let f = (fuel - 1) as nat;
        match p {
            NodeV::Keyword(a) => (
                Ok(
                    if v matches Val::Keyword(b) && a == b {
                        Some(locals)
                    } else {
                        None
                    },
                ),
                st.out,
            ),
            NodeV::Int(a) => (
                Ok(
                    if v matches Val::Int(b) && a == b {
                        Some(locals)
                    } else {
                        None
                    },
                ),
                st.out,
            ),
            NodeV::Str(a) => (
                Ok(
                    if v matches Val::Str(b) && a == b {
                        Some(locals)
                    } else {
                        None
                    },
                ),
                st.out,
            ),
            NodeV::Operator(a) => (
                Ok(
                    if v matches Val::Operator(b) && a == b {
                        Some(locals)
                    } else {
                        None
                    },
                ),
                st.out,
            ),
            NodeV::IdLookup(name) => if name == "self"@ {
                (Err(Error::InvalidSelfReference), st.out)
            } else if locals.contains_key(name) {
                (
                    Ok(
                        if locals[name] == v {
                            Some(locals)
                        } else {
                            None
                        },
                    ),
                    st.out,
                )
            } else {
                (Ok(Some(locals.insert(name, v))), st.out)
            },
            NodeV::RecordConstructor(name, rprops) => match v {
                Val::Instance(id, props) => if id < st.classes.len() && st.classes[id as int].name
                    == name {
                    match_rec_fields_spec(rprops, props, st, locals, f)
                } else {
                    (Ok(None), st.out)
                },
                _ => (Ok(None), st.out),
            },
            NodeV::VectorConstructor(name, ps) => if ps.len() != 1 {
                (Err(Error::MalformedPattern), st.out)
            } else {
                match v {
                    Val::Instance(id, props) => if id < st.classes.len()
                        && st.classes[id as int].name == name {
                        if props.len() == 1 && props[0].0 == "value"@ {
                            match_pattern_spec(ps[0], props[0].1, st, locals, f)
                        } else {
                            (Ok(None), st.out)
                        }
                    } else {
                        (Ok(None), st.out)
                    },
                    Val::Keyword(_) => if name == "Keyword"@ {
                        match_pattern_spec(ps[0], v, st, locals, f)
                    } else {
                        (Ok(None), st.out)
                    },
                    Val::Str(_) => if name == "Str"@ {
                        match_pattern_spec(ps[0], v, st, locals, f)
                    } else {
                        (Ok(None), st.out)
                    },
                    Val::Int(_) => if name == "Int"@ {
                        match_pattern_spec(ps[0], v, st, locals, f)
                    } else {
                        (Ok(None), st.out)
                    },
                    _ => (Ok(None), st.out),
                }
            },
            NodeV::List(ps) => match v {
                Val::List(vs) => match_vec_spec(ps, vs, st, locals, f),
                _ => (Ok(None), st.out),
            },
            NodeV::RecordLiteral(lprops) => match v {
                Val::Instance(_, props) => if lprops.len() != props.len() {
                    (Ok(None), st.out)
                } else {
                    match_lit_fields_spec(lprops, props, st, locals, f)
                },
                Val::Nil | Val::Keyword(_) | Val::Str(_) | Val::Int(_) => (
                    Err(Error::TypeMismatch),
                    st.out,
                ),
                _ => (Ok(None), st.out),
            },
            NodeV::Unquote(inner) => {
                let (r, st1) = eval_spec(*inner, st, f);
                match r {
                    Err(e) => (Err(e), st1.out),
                    Ok(uv) => (
                        Ok(
                            if uv == v {
                                Some(locals)
                            } else {
                                None
                            },
                        ),
                        st1.out,
                    ),
                }
            },
            NodeV::ParenExpr(inner) => match_pattern_spec(*inner, v, st, locals, f),
            NodeV::Spread(_) => (Err(Error::MalformedPattern), st.out),
            NodeV::Class(_, _) | NodeV::MethodCall(_, _) | NodeV::Def(_, _) | NodeV::Object(_)
                | NodeV::Assign(_, _) => (Err(Error::TypeMismatch), st.out),
        }
    }
}

/// Runs a program: folds evaluation over the nodes from the initial state;
/// the value is the last top-level expression's, `nil` for an empty
/// program.
pub open spec fn interpret_spec(ns: Seq<NodeV>, fuel: nat) -> (Result<Val, Error>, StateV) {
    eval_stmts_spec(ns, init_state(), fuel)
}

} // verus!
