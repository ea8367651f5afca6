//! The executable matcher, dispatcher and evaluator, each proved to return
//! exactly what the semantics in [`crate::sem`] says.
//!
//! Every function takes the state in three parts — the environment, the
//! class registry and the output buffer — and a fuel bound; the contracts
//! relate the parts before and after the call to one step of the
//! specification.  Printing is not done here: the `log` native operation
//! appends its line to the output buffer, and the host decides what to do
//! with it.
use vstd::prelude::*;
use vstd::string::*;

use crate::ast::{clone_node, clone_nodes, node_view, nodes_view, props_view, Node, NodeV};
use crate::canon::sort_fields;
use crate::sem::{
    class_of_val, class_ref, count_spread, eval_class_spec, eval_list_spec, eval_props_spec,
    eval_record_spec, eval_spec, eval_stmts_spec, field_lookup, find_method_spec, interpret_spec,
    match_arg_list_spec, match_elems_spec, match_lit_fields_spec, match_pattern_spec,
    match_rec_fields_spec, match_vec_spec, native_list_spec, any_items_spec, dispatch_spec,
    filter_items_spec, map_items_spec, props_of, shortcut, spread_index, spread_name,
    try_native_spec, Error,
};
use crate::state::{out_view, st_of, Env, Registry, StateV};
use crate::value::{
    clone_fields, clone_obj, clone_objs, fields_view, lemma_fields_view, lemma_vals_view,
    obj_eq, str_eq, val_view, vals_view, ClassId, Object, Val,
};

verus! {

/// The view of an evaluation result.
pub open spec fn res_view(r: Result<Object, Error>) -> Result<Val, Error> {
    match r {
        Ok(o) => Ok(o@),
        Err(e) => Err(e),
    }
}

/// The view of an id result.
pub open spec fn id_res_view(r: Result<ClassId, Error>) -> Result<nat, Error> {
    match r {
        Ok(id) => Ok(id as nat),
        Err(e) => Err(e),
    }
}

impl Error {
    /// A human-readable description of the failure.
    pub fn message(&self) -> (r: String)
        ensures
            r@ == self.message_spec(),
    {
        match self {
            Error::UnboundVariable => String::from_str("unbound variable"),
            Error::UnknownClass => String::from_str("unknown class"),
            Error::NoMatchingMethod => String::from_str("no method found"),
            Error::MalformedPattern => String::from_str("malformed pattern"),
            Error::InvalidSelfReference => String::from_str("invalid use of self"),
            Error::TypeMismatch => String::from_str("type mismatch"),
            Error::Overflow => String::from_str("integer overflow"),
            Error::OutOfFuel => String::from_str("evaluation too deep"),
        }
    }

    /// What `message` returns, as a sequence of characters.
    pub open spec fn message_spec(&self) -> Seq<char> {
        match self {
            Error::UnboundVariable => "unbound variable"@,
            Error::UnknownClass => "unknown class"@,
            Error::NoMatchingMethod => "no method found"@,
            Error::MalformedPattern => "malformed pattern"@,
            Error::InvalidSelfReference => "invalid use of self"@,
            Error::TypeMismatch => "type mismatch"@,
            Error::Overflow => "integer overflow"@,
            Error::OutOfFuel => "evaluation too deep"@,
        }
    }
}

/// A node's view has the same top-level variant as the node.
proof fn lemma_non_id_view(n: Node)
    ensures
        node_view(n) is IdLookup <==> n is IdLookup,
        node_view(n) is Spread <==> n is Spread,
        node_view(n) is Def <==> n is Def,
{
}

/// The first field of `props` named `name`, if any.
fn field_find<'a>(props: &'a Vec<(String, Object)>, name: &String) -> (r: Option<&'a Object>)
    ensures
        match r {
            Some(o) => field_lookup(fields_view(props@), name@) == Some(o@),
            None => field_lookup(fields_view(props@), name@) is None,
        },
{
    proof {
        lemma_fields_view(props@);
    }
    let ghost whole = fields_view(props@);
    proof {
        assert(whole.subrange(0, whole.len() as int) =~= whole);
    }
    let mut i: usize = 0;
    while i < props.len()
        invariant
            i <= props@.len(),
            whole == fields_view(props@),
            whole.len() == props@.len(),
            forall|k: int|
                0 <= k < whole.len() ==> whole[k] == (props@[k].0@, val_view(props@[k].1)),
            field_lookup(whole, name@) == field_lookup(
                whole.subrange(i as int, whole.len() as int),
                name@,
            ),
        decreases props@.len() - i,
    {
        let ghost tail = whole.subrange(i as int, whole.len() as int);
        let (n, o) = &props[i];
        proof {
            assert(tail[0] == (props@[i as int].0@, val_view(props@[i as int].1)));
            assert(tail.drop_first() =~= whole.subrange(i + 1, whole.len() as int));
        }
        if str_eq(n, name) {
            return Some(o);
        }
        i += 1;
    }
    proof {
        assert(whole.subrange(i as int, whole.len() as int).len() == 0);
    }
    None
}

/// The field-access shortcut (§ dispatch step one): a single keyword
/// argument naming a field of the receiver reads that field.
pub fn try_eval_property_lookup(
    object_properties: &Vec<(String, Object)>,
    args: &Vec<Object>,
) -> (r: Option<Object>)
    ensures
        match r {
            Some(o) => shortcut(fields_view(object_properties@), vals_view(args@)) == Some(o@),
            None => shortcut(fields_view(object_properties@), vals_view(args@)) is None,
        },
{
    proof {
        lemma_vals_view(args@);
    }
    if args.len() == 1 {
        match &args[0] {
            Object::Keyword(name) => match field_find(object_properties, name) {
                Some(o) => Some(clone_obj(o)),
                None => None,
            },
            _ => None,
        }
    } else {
        None
    }
}

/// Resolves a name to a class id in the environment.
fn class_ref_exec(env: &Env, name: &String) -> (r: Result<ClassId, Error>)
    ensures
        id_res_view(r) == class_ref(env@, name@),
{
    match env.get(name) {
        Some(o) => match o {
            Object::Class(id) => Ok(*id),
            _ => Err(Error::UnknownClass),
        },
        None => Err(Error::UnknownClass),
    }
}

/// The id of the root `Object` class, from the environment.
pub fn get_object_class_id(env: &Env) -> (r: Result<ClassId, Error>)
    ensures
        id_res_view(r) == class_ref(env@, "Object"@),
{
    let name = String::from_str("Object");
    class_ref_exec(env, &name)
}

/// The class a value dispatches on: an instance's own class; a primitive's
/// wrapper class by its conventional name.
pub fn get_class_id(object: &Object, env: &Env) -> (r: Result<ClassId, Error>)
    ensures
        id_res_view(r) == class_of_val(object@, env@),
{
    match object {
        Object::Instance(class_id, _) => Ok(*class_id),
        Object::Class(_) => Err(Error::TypeMismatch),
        Object::Nil => {
            let name = String::from_str("Nil");
            class_ref_exec(env, &name)
        },
        Object::Keyword(_) => {
            let name = String::from_str("Keyword");
            class_ref_exec(env, &name)
        },
        Object::Str(_) => {
            let name = String::from_str("Str");
            class_ref_exec(env, &name)
        },
        Object::Int(_) => {
            let name = String::from_str("Int");
            class_ref_exec(env, &name)
        },
        Object::Operator(_) => {
            let name = String::from_str("Operator");
            class_ref_exec(env, &name)
        },
        Object::List(_) => {
            let name = String::from_str("List");
            class_ref_exec(env, &name)
        },
    }
}

/// The fields a value carries into dispatch: an instance's fields,
/// otherwise none.
pub fn get_object_properties(object: &Object) -> (r: Vec<(String, Object)>)
    ensures
        fields_view(r@) == props_of(object@),
{
    match object {
        Object::Instance(_, props) => clone_fields(props),
        _ => {
            let r: Vec<(String, Object)> = Vec::new();
            proof {
                lemma_fields_view(r@);
                assert(fields_view(r@) =~= props_of(object@));
            }
            r
        },
    }
}

/// Whether at most one spread pattern appears in a parameter list.
pub fn at_most_one_spread_arg(args: &Vec<Node>) -> (r: bool)
    ensures
        r == (count_spread(nodes_view(args@)) <= 1),
{
    let (n, _) = count_spreads_exec(args);
    n <= 1
}

/// Counts the spread patterns in a parameter list and finds the first.
fn count_spreads_exec(args: &Vec<Node>) -> (r: (usize, usize))
    ensures
        r.0 == count_spread(nodes_view(args@)),
        count_spread(nodes_view(args@)) >= 1 ==> r.1 == spread_index(nodes_view(args@))
            && r.1 < args@.len() && nodes_view(args@)[r.1 as int] is Spread,
{
    proof {
        crate::ast::lemma_nodes_view(args@);
    }
    let ghost whole = nodes_view(args@);
    proof {
        assert(whole.subrange(0, whole.len() as int) =~= whole);
    }
    let mut n: usize = 0;
    let mut first: usize = 0;
    let mut i: usize = 0;
    while i < args.len()
        invariant
            i <= args@.len(),
            whole == nodes_view(args@),
            whole.len() == args@.len(),
            forall|k: int| 0 <= k < whole.len() ==> whole[k] == node_view(args@[k]),
            n + count_spread(whole.subrange(i as int, whole.len() as int)) == count_spread(whole),
            n <= i,
            n >= 1 ==> first < i && whole[first as int] is Spread && first == spread_index(whole),
            n == 0 ==> spread_index(whole) == i + spread_index(
                whole.subrange(i as int, whole.len() as int),
            ),
            n == 0 ==> forall|k: int| 0 <= k < i ==> !(whole[k] is Spread),
        decreases args@.len() - i,
    {
        let ghost tail = whole.subrange(i as int, whole.len() as int);
        proof {
            assert(tail[0] == node_view(args@[i as int]));
            assert(tail.drop_first() =~= whole.subrange(i + 1, whole.len() as int));
        }
        let is_spread = match &args[i] {
            Node::Spread(_) => true,
            _ => false,
        };
        if is_spread {
            if n == 0 {
                first = i;
            }
            n += 1;
        }
        i += 1;
    }
    proof {
        assert(whole.subrange(i as int, whole.len() as int).len() == 0);
    }
    (n, first)
}

/// Whether the spread pattern's target, if a spread is present, is a plain
/// identifier.
pub fn spread_arg_is_id_lookup_if_exists(args: &Vec<Node>) -> (r: bool)
    ensures
        r == (count_spread(nodes_view(args@)) == 0 || spread_name(
            nodes_view(args@)[spread_index(nodes_view(args@))],
        ) is Some),
{
    proof {
        crate::ast::lemma_nodes_view(args@);
    }
    let (n, first) = count_spreads_exec(args);
    if n == 0 {
        true
    } else {
        proof {
            assert(nodes_view(args@)[first as int] == node_view(args@[first as int]));
        }
        match &args[first] {
            Node::Spread(inner) => match &**inner {
                Node::IdLookup(_) => true,
                _ => {
                    proof {
                        lemma_non_id_view(**inner);
                        assert(args@[first as int] == Node::Spread(*inner));
                        assert(node_view(args@[first as int]) == NodeV::Spread(
                            Box::new(node_view(**inner)),
                        ));
                        assert(spread_name(node_view(args@[first as int])) is None);
                    }
                    false
                },
            },
            _ => false,
        }
    }
}

/// The name the spread pattern binds.
pub fn get_spread_arg_name(args: &Vec<Node>) -> (r: String)
    requires
        count_spread(nodes_view(args@)) >= 1,
        spread_name(nodes_view(args@)[spread_index(nodes_view(args@))]) is Some,
    ensures
        spread_name(nodes_view(args@)[spread_index(nodes_view(args@))]) == Some(r@),
{
    proof {
        crate::ast::lemma_nodes_view(args@);
    }
    let (n, first) = count_spreads_exec(args);
    proof {
        assert(nodes_view(args@)[first as int] == node_view(args@[first as int]));
    }
    match &args[first] {
        Node::Spread(inner) => match &**inner {
            Node::IdLookup(name) => name.clone(),
            _ => {
                proof {
                    lemma_non_id_view(**inner);
                    assert(args@[first as int] == Node::Spread(*inner));
                    assert(node_view(args@[first as int]) == NodeV::Spread(
                        Box::new(node_view(**inner)),
                    ));
                    assert(spread_name(node_view(args@[first as int])) is None);
                    assert(false);
                }
                String::new()
            },
        },
        _ => {
            proof {
                assert(false);
            }
            String::new()
        },
    }
}

/// The view of a match result.
pub open spec fn match_res_view(r: Result<Option<Env>, Error>) -> Result<
    Option<Map<Seq<char>, Val>>,
    Error,
> {
    match r {
        Ok(Some(locals)) => Ok(Some(locals@)),
        Ok(None) => Ok(None),
        Err(e) => Err(e),
    }
}

/// Matches one pattern against one value, per `match_pattern_spec`.
/// The local binding map is threaded through; the environment and registry
/// are read only, and only the output buffer can grow (by unquote
/// evaluation).
#[verifier::rlimit(100)]
pub fn match_pattern(
    a: &Node,
    b: &Object,
    env: &Env,
    class_env: &Registry,
    out: &mut Vec<String>,
    local_env: Env,
    fuel: u64,
) -> (r: Result<Option<Env>, Error>)
    ensures
        ({
            let (sr, so) = match_pattern_spec(
                a@,
                b@,
                st_of(*env, *class_env, *old(out)),
                local_env@,
                fuel as nat,
            );
            &&& match_res_view(r) == sr
            &&& out_view(final(out)@) == so
        }),
    decreases fuel,
{
    if fuel == 0 {
        return Err(Error::OutOfFuel);
    }
    let f = fuel - 1;
    match a {
        Node::Keyword(x) => match b {
            Object::Keyword(y) => if str_eq(x, y) {
                Ok(Some(local_env))
            } else {
                Ok(None)
            },
            _ => Ok(None),
        },
        Node::Int(x) => match b {
            Object::Int(y) => if x == y {
                Ok(Some(local_env))
            } else {
                Ok(None)
            },
            _ => Ok(None),
        },
        Node::Str(x) => match b {
            Object::Str(y) => if str_eq(x, y) {
                Ok(Some(local_env))
            } else {
                Ok(None)
            },
            _ => Ok(None),
        },
        Node::Operator(x) => match b {
            Object::Operator(y) => if str_eq(x, y) {
                Ok(Some(local_env))
            } else {
                Ok(None)
            },
            _ => Ok(None),
        },
        Node::IdLookup(name) => {
            let self_name = String::from_str("self");
            if str_eq(name, &self_name) {
                Err(Error::InvalidSelfReference)
            } else {
                let bound: Option<bool> = match local_env.get(name) {
                    Some(existing) => Some(obj_eq(existing, b)),
                    None => None,
                };
                match bound {
                    Some(true) => Ok(Some(local_env)),
                    Some(false) => Ok(None),
                    None => {
                        let mut le = local_env;
                        le.insert(name.clone(), clone_obj(b));
                        Ok(Some(le))
                    },
                }
            }
        },
        Node::RecordConstructor(name, rprops) => match b {
            Object::Instance(id, props) => {
                let name_ok = match class_env.get(*id) {
                    Some(c) => str_eq(&c.name, name),
                    None => false,
                };
                if name_ok {
                    proof {
                        crate::ast::lemma_props_view(rprops@);
                        assert(props_view(rprops@).subrange(0, rprops@.len() as int)
                            =~= props_view(rprops@));
                    }
                    match_rec_fields(rprops, 0, props, env, class_env, out, local_env, f)
                } else {
                    Ok(None)
                }
            },
            _ => Ok(None),
        },
        Node::VectorConstructor(name, ps) => {
            proof {
                crate::ast::lemma_nodes_view(ps@);
            }
            if ps.len() != 1 {
                return Err(Error::MalformedPattern);
            }
            match b {
                Object::Instance(id, props) => {
                    proof {
                        lemma_fields_view(props@);
                    }
                    let name_ok = match class_env.get(*id) {
                        Some(c) => str_eq(&c.name, name),
                        None => false,
                    };
                    if !name_ok {
                        Ok(None)
                    } else if props.len() == 1 {
                        let value_name = String::from_str("value");
                        if str_eq(&props[0].0, &value_name) {
                            match_pattern(&ps[0], &props[0].1, env, class_env, out, local_env, f)
                        } else {
                            Ok(None)
                        }
                    } else {
                        Ok(None)
                    }
                },
                Object::Keyword(_) => {
                    let wrapper = String::from_str("Keyword");
                    if str_eq(name, &wrapper) {
                        match_pattern(&ps[0], b, env, class_env, out, local_env, f)
                    } else {
                        Ok(None)
                    }
                },
                Object::Str(_) => {
                    let wrapper = String::from_str("Str");
                    if str_eq(name, &wrapper) {
                        match_pattern(&ps[0], b, env, class_env, out, local_env, f)
                    } else {
                        Ok(None)
                    }
                },
                Object::Int(_) => {
                    let wrapper = String::from_str("Int");
                    if str_eq(name, &wrapper) {
                        match_pattern(&ps[0], b, env, class_env, out, local_env, f)
                    } else {
                        Ok(None)
                    }
                },
                _ => Ok(None),
            }
        },
        Node::List(ps) => match b {
            Object::List(vs) => match_vec(ps, vs, env, class_env, out, local_env, f),
            _ => Ok(None),
        },
        Node::RecordLiteral(lprops) => match b {
            Object::Instance(_, props) => {
                proof {
                    crate::ast::lemma_props_view(lprops@);
                    lemma_fields_view(props@);
                }
                if lprops.len() != props.len() {
                    Ok(None)
                } else {
                    proof {
                        assert(props_view(lprops@).subrange(0, lprops@.len() as int)
                            =~= props_view(lprops@));
                        assert(fields_view(props@).subrange(0, props@.len() as int)
                            =~= fields_view(props@));
                    }
                    match_lit_fields(lprops, props, 0, env, class_env, out, local_env, f)
                }
            },
            Object::Nil | Object::Keyword(_) | Object::Str(_) | Object::Int(_) => Err(
                Error::TypeMismatch,
            ),
            _ => Ok(None),
        },
        Node::Unquote(inner) => {
            let mut env2 = env.duplicate();
            let mut classes2 = class_env.duplicate();
            let r = eval_node(inner, &mut env2, &mut classes2, out, f);
            match r {
                Err(e) => Err(e),
                Ok(uv) => if obj_eq(&uv, b) {
                    Ok(Some(local_env))
                } else {
                    Ok(None)
                },
            }
        },
        Node::ParenExpr(inner) => match_pattern(inner, b, env, class_env, out, local_env, f),
        Node::Spread(_) => Err(Error::MalformedPattern),
        Node::Class(_, _) | Node::MethodCall(_, _) | Node::Def(_, _) | Node::Object(_)
            | Node::Assign(_, _) => Err(Error::TypeMismatch),
    }
}

/// Matches the named sub-patterns of a record-constructor pattern, from
/// index `ri` on, against an instance's fields.
fn match_rec_fields(
    rprops: &Vec<(String, Node)>,
    ri: usize,
    props: &Vec<(String, Object)>,
    env: &Env,
    class_env: &Registry,
    out: &mut Vec<String>,
    local_env: Env,
    fuel: u64,
) -> (r: Result<Option<Env>, Error>)
    requires
        ri <= rprops@.len(),
    ensures
        ({
            let (sr, so) = match_rec_fields_spec(
                props_view(rprops@).subrange(ri as int, rprops@.len() as int),
                fields_view(props@),
                st_of(*env, *class_env, *old(out)),
                local_env@,
                fuel as nat,
            );
            &&& match_res_view(r) == sr
            &&& out_view(final(out)@) == so
        }),
    decreases fuel,
{
    proof {
        crate::ast::lemma_props_view(rprops@);
    }
    let ghost whole = props_view(rprops@);
    if fuel == 0 {
        return Err(Error::OutOfFuel);
    }
    let f = fuel - 1;
    if ri == rprops.len() {
        proof {
            assert(whole.subrange(ri as int, rprops@.len() as int).len() == 0);
        }
        return Ok(Some(local_env));
    }
    let ghost tail = whole.subrange(ri as int, rprops@.len() as int);
    proof {
        assert(tail[0] == (rprops@[ri as int].0@, node_view(rprops@[ri as int].1)));
        assert(tail.drop_first() =~= whole.subrange(ri + 1, rprops@.len() as int));
    }
    let (key, pat) = &rprops[ri];
    match field_find(props, key) {
        None => Ok(None),
        Some(v) => {
            let mr = match_pattern(pat, v, env, class_env, out, local_env, f);
            match mr {
                Err(e) => Err(e),
                Ok(None) => Ok(None),
                Ok(Some(loc1)) => match_rec_fields(
                    rprops,
                    ri + 1,
                    props,
                    env,
                    class_env,
                    out,
                    loc1,
                    f,
                ),
            }
        },
    }
}

/// Matches a record-literal pattern's fields, from index `i` on, pairwise
/// in order against an instance's fields.
fn match_lit_fields(
    lprops: &Vec<(String, Node)>,
    props: &Vec<(String, Object)>,
    i: usize,
    env: &Env,
    class_env: &Registry,
    out: &mut Vec<String>,
    local_env: Env,
    fuel: u64,
) -> (r: Result<Option<Env>, Error>)
    requires
        i <= lprops@.len(),
        lprops@.len() == props@.len(),
    ensures
        ({
            let (sr, so) = match_lit_fields_spec(
                props_view(lprops@).subrange(i as int, lprops@.len() as int),
                fields_view(props@).subrange(i as int, props@.len() as int),
                st_of(*env, *class_env, *old(out)),
                local_env@,
                fuel as nat,
            );
            &&& match_res_view(r) == sr
            &&& out_view(final(out)@) == so
        }),
    decreases fuel,
{
    proof {
        crate::ast::lemma_props_view(lprops@);
        lemma_fields_view(props@);
    }
    let ghost pwhole = props_view(lprops@);
    let ghost vwhole = fields_view(props@);
    if fuel == 0 {
        return Err(Error::OutOfFuel);
    }
    let f = fuel - 1;
    if i == lprops.len() {
        proof {
            assert(pwhole.subrange(i as int, lprops@.len() as int).len() == 0);
        }
        return Ok(Some(local_env));
    }
    let ghost ptail = pwhole.subrange(i as int, lprops@.len() as int);
    let ghost vtail = vwhole.subrange(i as int, props@.len() as int);
    proof {
        assert(ptail[0] == (lprops@[i as int].0@, node_view(lprops@[i as int].1)));
        assert(vtail[0] == (props@[i as int].0@, val_view(props@[i as int].1)));
        assert(ptail.drop_first() =~= pwhole.subrange(i + 1, lprops@.len() as int));
        assert(vtail.drop_first() =~= vwhole.subrange(i + 1, props@.len() as int));
    }
    let (lname, lpat) = &lprops[i];
    let (vname, vval) = &props[i];
    if !str_eq(lname, vname) {
        return Ok(None);
    }
    let mr = match_pattern(lpat, vval, env, class_env, out, local_env, f);
    match mr {
        Err(e) => Err(e),
        Ok(None) => Ok(None),
        Ok(Some(loc1)) => match_lit_fields(lprops, props, i + 1, env, class_env, out, loc1, f),
    }
}

/// Matches patterns against values elementwise: `count` patterns from
/// `p_start` against `count` values from `v_start`.
fn match_elems(
    pats: &Vec<Node>,
    p_start: usize,
    vals: &Vec<Object>,
    v_start: usize,
    count: usize,
    env: &Env,
    class_env: &Registry,
    out: &mut Vec<String>,
    local_env: Env,
    fuel: u64,
) -> (r: Result<Option<Env>, Error>)
    requires
        p_start + count <= pats@.len(),
        v_start + count <= vals@.len(),
    ensures
        ({
            let (sr, so) = match_elems_spec(
                nodes_view(pats@).subrange(p_start as int, p_start + count),
                vals_view(vals@).subrange(v_start as int, v_start + count),
                st_of(*env, *class_env, *old(out)),
                local_env@,
                fuel as nat,
            );
            &&& match_res_view(r) == sr
            &&& out_view(final(out)@) == so
        }),
    decreases fuel,
{
    proof {
        crate::ast::lemma_nodes_view(pats@);
        lemma_vals_view(vals@);
    }
    if fuel == 0 {
        return Err(Error::OutOfFuel);
    }
    let f = fuel - 1;
    if count == 0 {
        proof {
            assert(nodes_view(pats@).subrange(p_start as int, p_start as int).len() == 0);
        }
        return Ok(Some(local_env));
    }
    let ghost ptail = nodes_view(pats@).subrange(p_start as int, p_start + count);
    let ghost vtail = vals_view(vals@).subrange(v_start as int, v_start + count);
    proof {
        assert(ptail[0] == node_view(pats@[p_start as int]));
        assert(vtail[0] == val_view(vals@[v_start as int]));
        assert(ptail.drop_first() =~= nodes_view(pats@).subrange(
            p_start + 1,
            p_start + count,
        ));
        assert(vtail.drop_first() =~= vals_view(vals@).subrange(v_start + 1, v_start + count));
    }
    let n = pats.len();
    let m = vals.len();
    proof {
        assert(p_start + count <= n && v_start + count <= m);
    }
    let mr = match_pattern(&pats[p_start], &vals[v_start], env, class_env, out, local_env, f);
    match mr {
        Err(e) => Err(e),
        Ok(None) => Ok(None),
        Ok(Some(loc1)) => match_elems(
            pats,
            p_start + 1,
            vals,
            v_start + 1,
            count - 1,
            env,
            class_env,
            out,
            loc1,
            f,
        ),
    }
}

/// Matches a pattern list against a value list as a list pattern: a sole
/// spread matches any list and binds its name to the whole list; otherwise
/// the lengths must agree and the elements must match pairwise.
pub fn match_vec(
    method_args: &Vec<Node>,
    args: &Vec<Object>,
    env: &Env,
    class_env: &Registry,
    out: &mut Vec<String>,
    local_env: Env,
    fuel: u64,
) -> (r: Result<Option<Env>, Error>)
    ensures
        ({
            let (sr, so) = match_vec_spec(
                nodes_view(method_args@),
                vals_view(args@),
                st_of(*env, *class_env, *old(out)),
                local_env@,
                fuel as nat,
            );
            &&& match_res_view(r) == sr
            &&& out_view(final(out)@) == so
        }),
    decreases fuel,
{
    proof {
        crate::ast::lemma_nodes_view(method_args@);
        lemma_vals_view(args@);
    }
    if fuel == 0 {
        return Err(Error::OutOfFuel);
    }
    let f = fuel - 1;
    let sole_spread = method_args.len() == 1 && match &method_args[0] {
        Node::Spread(_) => true,
        _ => false,
    };
    if sole_spread {
        proof {
            assert(nodes_view(method_args@)[0] == node_view(method_args@[0]));
        }
        match &method_args[0] {
            Node::Spread(inner) => match &**inner {
                Node::IdLookup(name) => {
                    let mut le = local_env;
                    le.insert(name.clone(), Object::List(clone_objs(args)));
                    Ok(Some(le))
                },
                _ => {
                    proof {
                        lemma_non_id_view(**inner);
                        assert(node_view(method_args@[0]) == NodeV::Spread(
                            Box::new(node_view(**inner)),
                        ));
                    }
                    Err(Error::MalformedPattern)
                },
            },
            _ => {
                proof {
                    assert(false);
                }
                Err(Error::MalformedPattern)
            },
        }
    } else if method_args.len() != args.len() {
        Ok(None)
    } else {
        let n = method_args.len();
        let r = match_elems(method_args, 0, args, 0, n, env, class_env, out, local_env, f);
        proof {
            assert(nodes_view(method_args@).subrange(0, n as int) =~= nodes_view(method_args@));
            assert(vals_view(args@).subrange(0, n as int) =~= vals_view(args@));
        }
        r
    }
}

/// Matches a parameter list against an argument list, handling the one
/// allowed spread as `match_arg_list_spec` does.
#[verifier::rlimit(100)]
pub fn match_arg_list(
    method_args: &Vec<Node>,
    args: &Vec<Object>,
    env: &Env,
    class_env: &Registry,
    out: &mut Vec<String>,
    fuel: u64,
) -> (r: Result<Option<Env>, Error>)
    ensures
        ({
            let (sr, so) = match_arg_list_spec(
                nodes_view(method_args@),
                vals_view(args@),
                st_of(*env, *class_env, *old(out)),
                fuel as nat,
            );
            &&& match_res_view(r) == sr
            &&& out_view(final(out)@) == so
        }),
    decreases fuel,
{
    proof {
        crate::ast::lemma_nodes_view(method_args@);
        lemma_vals_view(args@);
    }
    if fuel == 0 {
        return Err(Error::OutOfFuel);
    }
    let f = fuel - 1;
    let ghost pats = nodes_view(method_args@);
    let (nspread, k) = count_spreads_exec(method_args);
    if nspread > 1 {
        Err(Error::MalformedPattern)
    } else if nspread == 1 {
        proof {
            assert(pats[k as int] == node_view(method_args@[k as int]));
        }
        match &method_args[k] {
            Node::Spread(inner) => match &**inner {
                Node::IdLookup(name) => {
                    let before_len = k;
                    let after_len = method_args.len() - k - 1;
                    proof {
                        assert(pats.subrange(0, k as int).len() == k as int);
                        assert(pats.subrange(k + 1, pats.len() as int).len() == after_len as int);
                    }
                    if args.len() < before_len + after_len {
                        Ok(None)
                    } else {
                        let r1 = match_elems(
                            method_args,
                            0,
                            args,
                            0,
                            before_len,
                            env,
                            class_env,
                            out,
                            Env::new(),
                            f,
                        );
                        proof {
                            assert(nodes_view(method_args@).subrange(0, before_len as int)
                                =~= pats.subrange(0, k as int));
                            assert(vals_view(args@).subrange(0, before_len as int)
                                =~= vals_view(args@).subrange(0, pats.subrange(0, k as int).len() as int));
                        }
                        match r1 {
                            Err(e) => Err(e),
                            Ok(None) => Ok(None),
                            Ok(Some(loc1)) => {
                                let v_start = args.len() - after_len;
                                let r2 = match_elems(
                                    method_args,
                                    k + 1,
                                    args,
                                    v_start,
                                    after_len,
                                    env,
                                    class_env,
                                    out,
                                    loc1,
                                    f,
                                );
                                proof {
                                    assert(nodes_view(method_args@).subrange(
                                        k + 1,
                                        k + 1 + after_len,
                                    ) =~= pats.subrange(k + 1, pats.len() as int));
                                    assert(vals_view(args@).subrange(
                                        v_start as int,
                                        v_start + after_len,
                                    ) =~= vals_view(args@).subrange(
                                        args@.len() - after_len,
                                        args@.len() as int,
                                    ));
                                }
                                match r2 {
                                    Err(e) => Err(e),
                                    Ok(None) => Ok(None),
                                    Ok(Some(loc2)) => {
                                        let mut mid: Vec<Object> = Vec::new();
                                        let mut i: usize = before_len;
                                        while i < v_start
                                            invariant
                                                before_len <= i <= v_start,
                                                v_start <= args@.len(),
                                                mid@.len() == i - before_len,
                                                forall|j: int|
                                                    0 <= j < mid@.len() ==> val_view(mid@[j])
                                                        == val_view(
                                                        args@[before_len + j],
                                                    ),
                                            decreases v_start - i,
                                        {
                                            mid.push(clone_obj(&args[i]));
                                            i += 1;
                                        }
                                        proof {
                                            lemma_vals_view(mid@);
                                            assert(vals_view(mid@) =~= vals_view(args@).subrange(
                                                before_len as int,
                                                args@.len() - after_len,
                                            ));
                                        }
                                        let mut le = loc2;
                                        le.insert(name.clone(), Object::List(mid));
                                        Ok(Some(le))
                                    },
                                }
                            },
                        }
                    }
                },
                _ => {
                    proof {
                        lemma_non_id_view(**inner);
                        assert(node_view(method_args@[k as int]) == NodeV::Spread(
                            Box::new(node_view(**inner)),
                        ));
                    }
                    Err(Error::MalformedPattern)
                },
            },
            _ => {
                proof {
                    lemma_non_id_view(method_args@[k as int]);
                    assert(false);
                }
                Err(Error::MalformedPattern)
            },
        }
    } else {
        match_vec(method_args, args, env, class_env, out, Env::new(), f)
    }
}

/// The view of a list-evaluation result.
pub open spec fn objs_res_view(r: Result<Vec<Object>, Error>) -> Result<Seq<Val>, Error> {
    match r {
        Ok(v) => Ok(vals_view(v@)),
        Err(e) => Err(e),
    }
}

/// Finds the first method clause, from index `mi` on, whose parameter
/// patterns match the arguments; returns the clause's body and the
/// bindings the patterns made.
pub fn find_method_for(
    methods: &Vec<Node>,
    mi: usize,
    args: &Vec<Object>,
    env: &Env,
    class_env: &Registry,
    out: &mut Vec<String>,
    fuel: u64,
) -> (r: Result<Option<(Node, Env)>, Error>)
    requires
        mi <= methods@.len(),
    ensures
        ({
            let (sr, so) = find_method_spec(
                nodes_view(methods@).subrange(mi as int, methods@.len() as int),
                vals_view(args@),
                st_of(*env, *class_env, *old(out)),
                fuel as nat,
            );
            &&& match (r, sr) {
                (Ok(Some((body, locals))), Ok(Some(sm))) => sm == (body@, locals@),
                (Ok(None), Ok(None)) => true,
                (Err(e), Err(se)) => e == se,
                _ => false,
            }
            &&& out_view(final(out)@) == so
        }),
    decreases fuel,
{
    proof {
        crate::ast::lemma_nodes_view(methods@);
    }
    if fuel == 0 {
        return Err(Error::OutOfFuel);
    }
    let f = fuel - 1;
    if mi == methods.len() {
        proof {
            assert(nodes_view(methods@).subrange(mi as int, methods@.len() as int).len() == 0);
        }
        return Ok(None);
    }
    let ghost tail = nodes_view(methods@).subrange(mi as int, methods@.len() as int);
    proof {
        assert(tail[0] == node_view(methods@[mi as int]));
        assert(tail.drop_first() =~= nodes_view(methods@).subrange(
            mi + 1,
            methods@.len() as int,
        ));
    }
    match &methods[mi] {
        Node::Def(pats, body) => {
            let mr = match_arg_list(pats, args, env, class_env, out, f);
            match mr {
                Err(e) => Err(e),
                Ok(Some(locals)) => Ok(Some((clone_node(body), locals))),
                Ok(None) => find_method_for(methods, mi + 1, args, env, class_env, out, f),
            }
        },
        _ => find_method_for(methods, mi + 1, args, env, class_env, out, f),
    }
}

/// Dispatches a call against the class with the given id: the field-access
/// shortcut, the class's method clauses in order, then the superclass
/// chain.  Reads the environment and registry; only the output can grow.
pub fn method_call(
    class_id: ClassId,
    object_properties: &Vec<(String, Object)>,
    args: &Vec<Object>,
    env: &Env,
    class_env: &Registry,
    out: &mut Vec<String>,
    fuel: u64,
) -> (r: Result<Object, Error>)
    ensures
        ({
            let (sr, so) = dispatch_spec(
                class_id as nat,
                fields_view(object_properties@),
                vals_view(args@),
                st_of(*env, *class_env, *old(out)),
                fuel as nat,
            );
            &&& res_view(r) == sr
            &&& out_view(final(out)@) == so
        }),
    decreases fuel,
{
    if fuel == 0 {
        return Err(Error::OutOfFuel);
    }
    let f = fuel - 1;
    match try_eval_property_lookup(object_properties, args) {
        Some(val) => Ok(val),
        None => match class_env.get(class_id) {
            None => Err(Error::NoMatchingMethod),
            Some(c) => {
                proof {
                    crate::ast::lemma_nodes_view(c.methods@);
                }
                let fr = find_method_for(&c.methods, 0, args, env, class_env, out, f);
                proof {
                    assert(nodes_view(c.methods@).subrange(0, c.methods@.len() as int)
                        =~= nodes_view(c.methods@));
                }
                match fr {
                    Err(e) => Err(e),
                    Ok(Some((body, locals))) => {
                        let mut loc = locals;
                        loc.insert(
                            String::from_str("self"),
                            Object::Instance(class_id, clone_fields(object_properties)),
                        );
                        let mut scope = env.duplicate();
                        scope.apply(&loc);
                        let mut classes2 = class_env.duplicate();
                        eval_node(&body, &mut scope, &mut classes2, out, f)
                    },
                    Ok(None) => match c.superclass {
                        Some(sid) => method_call(
                            sid,
                            object_properties,
                            args,
                            env,
                            class_env,
                            out,
                            f,
                        ),
                        None => Err(Error::NoMatchingMethod),
                    },
                }
            },
        },
    }
}

/// The native operations on a list receiver other than `log`: indexing,
/// `map`, `filter` and `any?`.
#[verifier::rlimit(100)]
pub fn try_eval_native_list_fn(
    items: &Vec<Object>,
    args: &Vec<Object>,
    env: &Env,
    class_env: &Registry,
    out: &mut Vec<String>,
    fuel: u64,
) -> (r: Option<Result<Object, Error>>)
    ensures
        ({
            let sn = native_list_spec(
                vals_view(items@),
                vals_view(args@),
                st_of(*env, *class_env, *old(out)),
                fuel as nat,
            );
            match sn {
                Some((sr, so)) => {
                    &&& r matches Some(rr) && res_view(rr) == sr
                    &&& out_view(final(out)@) == so
                },
                None => r is None && final(out)@ == old(out)@,
            }
        }),
    decreases fuel,
{
    proof {
        lemma_vals_view(items@);
        lemma_vals_view(args@);
    }
    if fuel == 0 {
        return Some(Err(Error::OutOfFuel));
    }
    let f = fuel - 1;
    if args.len() == 1 {
        match &args[0] {
            Object::Int(i) => {
                if *i < items.len() {
                    Some(Ok(clone_obj(&items[*i])))
                } else {
                    Some(Ok(Object::Nil))
                }
            },
            _ => None,
        }
    } else if args.len() == 2 {
        proof {
            assert(vals_view(items@).subrange(0, items@.len() as int) =~= vals_view(items@));
        }
        let kind: usize = match &args[0] {
            Object::Keyword(k) => {
                let map_name = String::from_str("map");
                let filter_name = String::from_str("filter");
                let any_name = String::from_str("any?");
                if str_eq(k, &map_name) {
                    1
                } else if str_eq(k, &filter_name) {
                    2
                } else if str_eq(k, &any_name) {
                    3
                } else {
                    0
                }
            },
            _ => 0,
        };
        if kind == 1 {
            match get_class_id(&args[1], env) {
                Err(e) => Some(Err(e)),
                Ok(cid) => {
                    let cprops = get_object_properties(&args[1]);
                    match map_items(items, 0, cid, &cprops, env, class_env, out, f) {
                        Ok(vs) => Some(Ok(Object::List(vs))),
                        Err(e) => Some(Err(e)),
                    }
                },
            }
        } else if kind == 2 {
            let true_class = String::from_str("TrueClass");
            match class_ref_exec(env, &true_class) {
                Err(e) => Some(Err(e)),
                Ok(tid) => match get_class_id(&args[1], env) {
                    Err(e) => Some(Err(e)),
                    Ok(cid) => {
                        let cprops = get_object_properties(&args[1]);
                        match filter_items(items, 0, cid, &cprops, tid, env, class_env, out, f) {
                            Ok(vs) => Some(Ok(Object::List(vs))),
                            Err(e) => Some(Err(e)),
                        }
                    },
                },
            }
        } else if kind == 3 {
            let true_class = String::from_str("TrueClass");
            match class_ref_exec(env, &true_class) {
                Err(e) => Some(Err(e)),
                Ok(tid) => match get_class_id(&args[1], env) {
                    Err(e) => Some(Err(e)),
                    Ok(cid) => {
                        let cprops = get_object_properties(&args[1]);
                        match any_items(items, 0, cid, &cprops, tid, env, class_env, out, f) {
                            Err(e) => Some(Err(e)),
                            Ok(b) => {
                                let name = if b {
                                    String::from_str("true")
                                } else {
                                    String::from_str("false")
                                };
                                match env.get(&name) {
                                    Some(o) => Some(Ok(clone_obj(o))),
                                    None => Some(Err(Error::UnboundVariable)),
                                }
                            },
                        }
                    },
                },
            }
        } else {
            None
        }
    } else {
        None
    }
}

/// Dispatches the callee once per element of `items` from index `i` on,
/// collecting the results.
fn map_items(
    items: &Vec<Object>,
    i: usize,
    cid: ClassId,
    cprops: &Vec<(String, Object)>,
    env: &Env,
    class_env: &Registry,
    out: &mut Vec<String>,
    fuel: u64,
) -> (r: Result<Vec<Object>, Error>)
    requires
        i <= items@.len(),
    ensures
        ({
            let (sr, so) = map_items_spec(
                vals_view(items@).subrange(i as int, items@.len() as int),
                cid as nat,
                fields_view(cprops@),
                st_of(*env, *class_env, *old(out)),
                fuel as nat,
            );
            &&& objs_res_view(r) == sr
            &&& out_view(final(out)@) == so
        }),
    decreases fuel,
{
    proof {
        lemma_vals_view(items@);
    }
    if fuel == 0 {
        return Err(Error::OutOfFuel);
    }
    let f = fuel - 1;
    if i == items.len() {
        let r: Vec<Object> = Vec::new();
        proof {
            lemma_vals_view(r@);
            assert(vals_view(items@).subrange(i as int, items@.len() as int).len() == 0);
            assert(vals_view(r@) =~= Seq::<Val>::empty());
        }
        return Ok(r);
    }
    let ghost tail = vals_view(items@).subrange(i as int, items@.len() as int);
    proof {
        assert(tail[0] == val_view(items@[i as int]));
        assert(tail.drop_first() =~= vals_view(items@).subrange(i + 1, items@.len() as int));
    }
    let mut one: Vec<Object> = Vec::new();
    one.push(clone_obj(&items[i]));
    proof {
        lemma_vals_view(one@);
        assert(vals_view(one@) =~= seq![val_view(items@[i as int])]);
    }
    match method_call(cid, cprops, &one, env, class_env, out, f) {
        Err(e) => Err(e),
        Ok(v) => match map_items(items, i + 1, cid, cprops, env, class_env, out, f) {
            Err(e) => Err(e),
            Ok(mut rest) => {
                let ghost old_rest = rest@;
                rest.insert(0, v);
                proof {
                    assert(rest@.drop_first() =~= old_rest);
                    lemma_vals_view(rest@);
                    lemma_vals_view(old_rest);
                    assert(vals_view(rest@) =~= Seq::<Val>::empty().push(val_view(rest@[0]))
                        + vals_view(old_rest));
                }
                Ok(rest)
            },
        },
    }
}

/// Whether a dispatch result counts as true: an instance of the
/// boolean-true class.
fn truthy(v: &Object, tid: ClassId) -> (r: bool)
    ensures
        r == crate::sem::is_truthy(v@, tid as nat),
{
    match v {
        Object::Instance(cid, _) => *cid == tid,
        _ => false,
    }
}

/// Dispatches the predicate once per element from index `i` on, keeping
/// the elements whose result is an instance of the boolean-true class.
fn filter_items(
    items: &Vec<Object>,
    i: usize,
    cid: ClassId,
    cprops: &Vec<(String, Object)>,
    tid: ClassId,
    env: &Env,
    class_env: &Registry,
    out: &mut Vec<String>,
    fuel: u64,
) -> (r: Result<Vec<Object>, Error>)
    requires
        i <= items@.len(),
    ensures
        ({
            let (sr, so) = filter_items_spec(
                vals_view(items@).subrange(i as int, items@.len() as int),
                cid as nat,
                fields_view(cprops@),
                tid as nat,
                st_of(*env, *class_env, *old(out)),
                fuel as nat,
            );
            &&& objs_res_view(r) == sr
            &&& out_view(final(out)@) == so
        }),
    decreases fuel,
{
    proof {
        lemma_vals_view(items@);
    }
    if fuel == 0 {
        return Err(Error::OutOfFuel);
    }
    let f = fuel - 1;
    if i == items.len() {
        let r: Vec<Object> = Vec::new();
        proof {
            lemma_vals_view(r@);
            assert(vals_view(items@).subrange(i as int, items@.len() as int).len() == 0);
            assert(vals_view(r@) =~= Seq::<Val>::empty());
        }
        return Ok(r);
    }
    let ghost tail = vals_view(items@).subrange(i as int, items@.len() as int);
    proof {
        assert(tail[0] == val_view(items@[i as int]));
        assert(tail.drop_first() =~= vals_view(items@).subrange(i + 1, items@.len() as int));
    }
    let mut one: Vec<Object> = Vec::new();
    one.push(clone_obj(&items[i]));
    proof {
        lemma_vals_view(one@);
        assert(vals_view(one@) =~= seq![val_view(items@[i as int])]);
    }
    match method_call(cid, cprops, &one, env, class_env, out, f) {
        Err(e) => Err(e),
        Ok(v) => match filter_items(items, i + 1, cid, cprops, tid, env, class_env, out, f) {
            Err(e) => Err(e),
            Ok(mut rest) => {
                if truthy(&v, tid) {
                    let ghost old_rest = rest@;
                    rest.insert(0, clone_obj(&items[i]));
                    proof {
                        assert(rest@.drop_first() =~= old_rest);
                        lemma_vals_view(rest@);
                        lemma_vals_view(old_rest);
                        assert(vals_view(rest@) =~= Seq::<Val>::empty().push(val_view(rest@[0]))
                            + vals_view(old_rest));
                    }
                    Ok(rest)
                } else {
                    Ok(rest)
                }
            },
        },
    }
}

/// Dispatches the predicate per element from index `i` on, stopping at the
/// first element whose result is an instance of the boolean-true class.
fn any_items(
    items: &Vec<Object>,
    i: usize,
    cid: ClassId,
    cprops: &Vec<(String, Object)>,
    tid: ClassId,
    env: &Env,
    class_env: &Registry,
    out: &mut Vec<String>,
    fuel: u64,
) -> (r: Result<bool, Error>)
    requires
        i <= items@.len(),
    ensures
        ({
            let (sr, so) = any_items_spec(
                vals_view(items@).subrange(i as int, items@.len() as int),
                cid as nat,
                fields_view(cprops@),
                tid as nat,
                st_of(*env, *class_env, *old(out)),
                fuel as nat,
            );
            &&& match (r, sr) {
                (Ok(b), Ok(sb)) => b == sb,
                (Err(e), Err(se)) => e == se,
                _ => false,
            }
            &&& out_view(final(out)@) == so
        }),
    decreases fuel,
{
    proof {
        lemma_vals_view(items@);
    }
    if fuel == 0 {
        return Err(Error::OutOfFuel);
    }
    let f = fuel - 1;
    if i == items.len() {
        proof {
            assert(vals_view(items@).subrange(i as int, items@.len() as int).len() == 0);
        }
        return Ok(false);
    }
    let ghost tail = vals_view(items@).subrange(i as int, items@.len() as int);
    proof {
        assert(tail[0] == val_view(items@[i as int]));
        assert(tail.drop_first() =~= vals_view(items@).subrange(i + 1, items@.len() as int));
    }
    let mut one: Vec<Object> = Vec::new();
    one.push(clone_obj(&items[i]));
    proof {
        lemma_vals_view(one@);
        assert(vals_view(one@) =~= seq![val_view(items@[i as int])]);
    }
    match method_call(cid, cprops, &one, env, class_env, out, f) {
        Err(e) => Err(e),
        Ok(v) => if truthy(&v, tid) {
            Ok(true)
        } else {
            any_items(items, i + 1, cid, cprops, tid, env, class_env, out, f)
        },
    }
}

/// The native operation table: `log` on any receiver; `+` on an integer
/// receiver; indexing, `map`, `filter` and `any?` on a list receiver.
/// `None` means no native operation applies.
pub fn try_eval_native_fn(
    lhs: &Object,
    args: &Vec<Object>,
    env: &Env,
    class_env: &Registry,
    out: &mut Vec<String>,
    fuel: u64,
) -> (r: Option<Result<Object, Error>>)
    ensures
        ({
            let sn = try_native_spec(
                lhs@,
                vals_view(args@),
                st_of(*env, *class_env, *old(out)),
                fuel as nat,
            );
            match sn {
                Some((sr, so)) => {
                    &&& r matches Some(rr) && res_view(rr) == sr
                    &&& out_view(final(out)@) == so
                },
                None => r is None && final(out)@ == old(out)@,
            }
        }),
    decreases fuel,
{
    proof {
        lemma_vals_view(args@);
    }
    if fuel == 0 {
        return Some(Err(Error::OutOfFuel));
    }
    let f = fuel - 1;
    let log_call = if args.len() == 1 {
        match &args[0] {
            Object::Keyword(k) => {
                let log_name = String::from_str("log");
                str_eq(k, &log_name)
            },
            _ => false,
        }
    } else {
        false
    };
    if log_call {
        let line = lhs.to_s(class_env);
        let ghost old_out = out@;
        out.push(line);
        proof {
            assert(out_view(out@) =~= out_view(old_out).push(
                crate::render::render(lhs@, class_env@),
            ));
        }
        return Some(Ok(Object::Nil));
    }
    match lhs {
        Object::Int(n) => {
            if args.len() == 2 {
                let plus = match &args[0] {
                    Object::Operator(op) => {
                        let plus_name = String::from_str("+");
                        str_eq(op, &plus_name)
                    },
                    _ => false,
                };
                if plus {
                    match &args[1] {
                        Object::Int(m) => match n.checked_add(*m) {
                            Some(s) => Some(Ok(Object::Int(s))),
                            None => Some(Err(Error::Overflow)),
                        },
                        _ => None,
                    }
                } else {
                    None
                }
            } else {
                None
            }
        },
        Object::List(items) => try_eval_native_list_fn(items, args, env, class_env, out, f),
        _ => None,
    }
}

/// Evaluates the expressions of `items` from index `i` on, left to right,
/// threading the state.
pub fn eval_list(
    items: &Vec<Node>,
    i: usize,
    env: &mut Env,
    class_env: &mut Registry,
    out: &mut Vec<String>,
    fuel: u64,
) -> (r: Result<Vec<Object>, Error>)
    requires
        i <= items@.len(),
    ensures
        ({
            let (sr, sst) = eval_list_spec(
                nodes_view(items@).subrange(i as int, items@.len() as int),
                st_of(*old(env), *old(class_env), *old(out)),
                fuel as nat,
            );
            &&& objs_res_view(r) == sr
            &&& st_of(*final(env), *final(class_env), *final(out)) == sst
        }),
    decreases fuel,
{
    proof {
        crate::ast::lemma_nodes_view(items@);
    }
    if fuel == 0 {
        return Err(Error::OutOfFuel);
    }
    let f = fuel - 1;
    if i == items.len() {
        let r: Vec<Object> = Vec::new();
        proof {
            lemma_vals_view(r@);
            assert(nodes_view(items@).subrange(i as int, items@.len() as int).len() == 0);
            assert(vals_view(r@) =~= Seq::<Val>::empty());
        }
        return Ok(r);
    }
    let ghost tail = nodes_view(items@).subrange(i as int, items@.len() as int);
    proof {
        assert(tail[0] == node_view(items@[i as int]));
        assert(tail.drop_first() =~= nodes_view(items@).subrange(i + 1, items@.len() as int));
    }
    match eval_node(&items[i], env, class_env, out, f) {
        Err(e) => Err(e),
        Ok(v) => match eval_list(items, i + 1, env, class_env, out, f) {
            Err(e) => Err(e),
            Ok(mut rest) => {
                let ghost old_rest = rest@;
                rest.insert(0, v);
                proof {
                    assert(rest@.drop_first() =~= old_rest);
                    lemma_vals_view(rest@);
                    lemma_vals_view(old_rest);
                    assert(vals_view(rest@) =~= Seq::<Val>::empty().push(val_view(rest@[0]))
                        + vals_view(old_rest));
                }
                Ok(rest)
            },
        },
    }
}

/// Evaluates record fields from index `i` on, left to right, threading the
/// state.
fn eval_props(
    props: &Vec<(String, Node)>,
    i: usize,
    env: &mut Env,
    class_env: &mut Registry,
    out: &mut Vec<String>,
    fuel: u64,
) -> (r: Result<Vec<(String, Object)>, Error>)
    requires
        i <= props@.len(),
    ensures
        ({
            let (sr, sst) = eval_props_spec(
                props_view(props@).subrange(i as int, props@.len() as int),
                st_of(*old(env), *old(class_env), *old(out)),
                fuel as nat,
            );
            &&& match (r, sr) {
                (Ok(fs), Ok(sfs)) => fields_view(fs@) == sfs,
                (Err(e), Err(se)) => e == se,
                _ => false,
            }
            &&& st_of(*final(env), *final(class_env), *final(out)) == sst
        }),
    decreases fuel,
{
    proof {
        crate::ast::lemma_props_view(props@);
    }
    if fuel == 0 {
        return Err(Error::OutOfFuel);
    }
    let f = fuel - 1;
    if i == props.len() {
        let r: Vec<(String, Object)> = Vec::new();
        proof {
            lemma_fields_view(r@);
            assert(props_view(props@).subrange(i as int, props@.len() as int).len() == 0);
            assert(fields_view(r@) =~= Seq::<(Seq<char>, Val)>::empty());
        }
        return Ok(r);
    }
    let ghost tail = props_view(props@).subrange(i as int, props@.len() as int);
    proof {
        assert(tail[0] == (props@[i as int].0@, node_view(props@[i as int].1)));
        assert(tail.drop_first() =~= props_view(props@).subrange(i + 1, props@.len() as int));
    }
    let (name, expr) = &props[i];
    let name = name.clone();
    match eval_node(expr, env, class_env, out, f) {
        Err(e) => Err(e),
        Ok(v) => match eval_props(props, i + 1, env, class_env, out, f) {
            Err(e) => Err(e),
            Ok(mut rest) => {
                let ghost old_rest = rest@;
                rest.insert(0, (name, v));
                proof {
                    assert(rest@.drop_first() =~= old_rest);
                    lemma_fields_view(rest@);
                    lemma_fields_view(old_rest);
                    assert(fields_view(rest@) =~= Seq::<(Seq<char>, Val)>::empty().push(
                        (rest@[0].0@, val_view(rest@[0].1)),
                    ) + fields_view(old_rest));
                }
                Ok(rest)
            },
        },
    }
}

/// Builds an instance of the resolved class from evaluated fields, in
/// canonical field order.
fn eval_record(
    idr: Result<ClassId, Error>,
    props: &Vec<(String, Node)>,
    env: &mut Env,
    class_env: &mut Registry,
    out: &mut Vec<String>,
    fuel: u64,
) -> (r: Result<Object, Error>)
    ensures
        ({
            let (sr, sst) = eval_record_spec(
                id_res_view(idr),
                props_view(props@),
                st_of(*old(env), *old(class_env), *old(out)),
                fuel as nat,
            );
            &&& res_view(r) == sr
            &&& st_of(*final(env), *final(class_env), *final(out)) == sst
        }),
    decreases fuel,
{
    if fuel == 0 {
        return Err(Error::OutOfFuel);
    }
    let f = fuel - 1;
    match idr {
        Err(e) => Err(e),
        Ok(id) => {
            let fr = eval_props(props, 0, env, class_env, out, f);
            proof {
                crate::ast::lemma_props_view(props@);
                assert(props_view(props@).subrange(0, props@.len() as int)
                    =~= props_view(props@));
            }
            match fr {
                Err(e) => Err(e),
                Ok(fs) => {
                    let sorted = sort_fields(&fs);
                    Ok(Object::Instance(id, sorted))
                },
            }
        },
    }
}

/// Evaluates statements from index `i` on; the value is the last
/// statement's value, `nil` when there are none.
pub fn eval_stmts(
    ns: &Vec<Node>,
    i: usize,
    env: &mut Env,
    class_env: &mut Registry,
    out: &mut Vec<String>,
    fuel: u64,
) -> (r: Result<Object, Error>)
    requires
        i <= ns@.len(),
    ensures
        ({
            let (sr, sst) = eval_stmts_spec(
                nodes_view(ns@).subrange(i as int, ns@.len() as int),
                st_of(*old(env), *old(class_env), *old(out)),
                fuel as nat,
            );
            &&& res_view(r) == sr
            &&& st_of(*final(env), *final(class_env), *final(out)) == sst
        }),
    decreases fuel,
{
    proof {
        crate::ast::lemma_nodes_view(ns@);
    }
    if fuel == 0 {
        return Err(Error::OutOfFuel);
    }
    let f = fuel - 1;
    if i == ns.len() {
        proof {
            assert(nodes_view(ns@).subrange(i as int, ns@.len() as int).len() == 0);
        }
        return Ok(Object::Nil);
    }
    let ghost tail = nodes_view(ns@).subrange(i as int, ns@.len() as int);
    proof {
        assert(tail[0] == node_view(ns@[i as int]));
        assert(tail.drop_first() =~= nodes_view(ns@).subrange(i + 1, ns@.len() as int));
    }
    if i + 1 == ns.len() {
        eval_node(&ns[i], env, class_env, out, f)
    } else {
        match eval_node(&ns[i], env, class_env, out, f) {
            Err(e) => Err(e),
            Ok(_) => eval_stmts(ns, i + 1, env, class_env, out, f),
        }
    }
}

/// Declares (or reopens) a class, per `eval_class_spec`.
fn eval_class(
    name: &String,
    defs: &Vec<Node>,
    env: &mut Env,
    class_env: &mut Registry,
    out: &mut Vec<String>,
    fuel: u64,
) -> (r: Result<Object, Error>)
    ensures
        ({
            let (sr, sst) = eval_class_spec(
                name@,
                nodes_view(defs@),
                st_of(*old(env), *old(class_env), *old(out)),
                fuel as nat,
            );
            &&& res_view(r) == sr
            &&& st_of(*final(env), *final(class_env), *final(out)) == sst
        }),
    decreases fuel,
{
    if fuel == 0 {
        return Err(Error::OutOfFuel);
    }
    let f = fuel - 1;
    let existing: Option<ClassId> = match env.get(name) {
        Some(o) => match o {
            Object::Class(id) => Some(*id),
            _ => None,
        },
        None => None,
    };
    let id: ClassId = match existing {
        Some(id) => id,
        None => match get_object_class_id(env) {
            Err(e) => {
                return Err(e);
            },
            Ok(oid) => {
                let fresh = class_env.push_class(
                    crate::state::Class {
                        name: name.clone(),
                        methods: Vec::new(),
                        superclass: Some(oid),
                    },
                );
                proof {
                    crate::ast::lemma_nodes_view(Seq::<Node>::empty());
                    assert(nodes_view(Seq::<Node>::empty()) =~= Seq::<NodeV>::empty());
                }
                env.insert(name.clone(), Object::Class(fresh));
                fresh
            },
        },
    };
    let mut child = env.duplicate();
    child.insert(String::from_str("self"), Object::Instance(id, Vec::new()));
    proof {
        lemma_fields_view(Seq::<(String, Object)>::empty());
        assert(fields_view(Seq::<(String, Object)>::empty()) =~= Seq::<(Seq<char>, Val)>::empty());
        crate::ast::lemma_nodes_view(defs@);
        assert(nodes_view(defs@).subrange(0, defs@.len() as int) =~= nodes_view(defs@));
    }
    let r = eval_stmts(defs, 0, &mut child, class_env, out, f);
    match r {
        Err(e) => Err(e),
        Ok(_) => Ok(Object::Class(id)),
    }
}

/// Evaluates one node, per `eval_spec`.
#[verifier::rlimit(100)]
pub fn eval_node(
    node: &Node,
    env: &mut Env,
    class_env: &mut Registry,
    out: &mut Vec<String>,
    fuel: u64,
) -> (r: Result<Object, Error>)
    ensures
        ({
            let (sr, sst) = eval_spec(
                node@,
                st_of(*old(env), *old(class_env), *old(out)),
                fuel as nat,
            );
            &&& res_view(r) == sr
            &&& st_of(*final(env), *final(class_env), *final(out)) == sst
        }),
    decreases fuel,
{
    if fuel == 0 {
        return Err(Error::OutOfFuel);
    }
    let f = fuel - 1;
    match node {
        Node::Keyword(s) => Ok(Object::Keyword(s.clone())),
        Node::Int(v) => Ok(Object::Int(*v)),
        Node::Str(s) => Ok(Object::Str(s.clone())),
        Node::Operator(s) => Ok(Object::Operator(s.clone())),
        Node::IdLookup(name) => match env.get(name) {
            Some(o) => Ok(clone_obj(o)),
            None => Err(Error::UnboundVariable),
        },
        Node::ParenExpr(inner) => eval_node(inner, env, class_env, out, f),
        Node::Unquote(inner) => eval_node(inner, env, class_env, out, f),
        Node::Spread(_) => Err(Error::MalformedPattern),
        Node::Assign(name, rhs) => {
            let mut env2 = env.duplicate();
            let r = eval_node(rhs, &mut env2, class_env, out, f);
            match r {
                Err(e) => Err(e),
                Ok(v) => {
                    env.insert(name.clone(), v);
                    Ok(Object::Nil)
                },
            }
        },
        Node::List(items) => {
            proof {
                crate::ast::lemma_nodes_view(items@);
                assert(nodes_view(items@).subrange(0, items@.len() as int)
                    =~= nodes_view(items@));
            }
            match eval_list(items, 0, env, class_env, out, f) {
                Err(e) => Err(e),
                Ok(vs) => Ok(Object::List(vs)),
            }
        },
        Node::RecordLiteral(props) => {
            let idr = get_object_class_id(env);
            eval_record(idr, props, env, class_env, out, f)
        },
        Node::RecordConstructor(name, props) => {
            let idr = class_ref_exec(env, name);
            eval_record(idr, props, env, class_env, out, f)
        },
        Node::VectorConstructor(name, exprs) => {
            proof {
                crate::ast::lemma_nodes_view(exprs@);
            }
            if exprs.len() != 1 {
                return Err(Error::TypeMismatch);
            }
            match eval_node(&exprs[0], env, class_env, out, f) {
                Err(e) => Err(e),
                Ok(v) => match class_ref_exec(env, name) {
                    Err(e) => Err(e),
                    Ok(id) => {
                        let mut fields: Vec<(String, Object)> = Vec::new();
                        fields.push((String::from_str("value"), v));
                        proof {
                            lemma_fields_view(fields@);
                            assert(fields_view(fields@) =~= seq![
                                ("value"@, val_view(fields@[0].1)),
                            ]);
                        }
                        Ok(Object::Instance(id, fields))
                    },
                },
            }
        },
        Node::Class(name, defs) => eval_class(name, defs, env, class_env, out, f),
        Node::Def(_, _) => {
            let self_name = String::from_str("self");
            let self_id: Option<ClassId> = match env.get(&self_name) {
                Some(o) => match o {
                    Object::Instance(id, _) => Some(*id),
                    _ => None,
                },
                None => None,
            };
            match self_id {
                None => Err(Error::InvalidSelfReference),
                Some(id) => {
                    if id < class_env.len() {
                        class_env.add_method(id, clone_node(node));
                        proof {
                            assert(st_of(*env, *class_env, *out) =~= (eval_spec(
                                node@,
                                st_of(*old(env), *old(class_env), *old(out)),
                                fuel as nat,
                            )).1);
                        }
                        Ok(Object::Nil)
                    } else {
                        Err(Error::UnknownClass)
                    }
                },
            }
        },
        Node::Object(methods) => match get_object_class_id(env) {
            Err(e) => Err(e),
            Ok(oid) => {
                let id = class_env.len();
                class_env.push_class(
                    crate::state::Class {
                        name: String::from_str("<anon class>"),
                        methods: clone_nodes(methods),
                        superclass: Some(oid),
                    },
                );
                proof {
                    lemma_fields_view(Seq::<(String, Object)>::empty());
                    assert(fields_view(Seq::<(String, Object)>::empty())
                        =~= Seq::<(Seq<char>, Val)>::empty());
                }
                Ok(Object::Instance(id, Vec::new()))
            },
        },
        Node::MethodCall(lhs, args) => {
            proof {
                crate::ast::lemma_nodes_view(args@);
                assert(nodes_view(args@).subrange(0, args@.len() as int) =~= nodes_view(args@));
            }
            match eval_list(args, 0, env, class_env, out, f) {
                Err(e) => Err(e),
                Ok(argv) => match eval_node(lhs, env, class_env, out, f) {
                    Err(e) => Err(e),
                    Ok(recv) => match try_eval_native_fn(&recv, &argv, env, class_env, out, f) {
                        Some(rr) => rr,
                        None => match get_class_id(&recv, env) {
                            Err(e) => Err(e),
                            Ok(cid) => {
                                let props = get_object_properties(&recv);
                                method_call(cid, &props, &argv, env, class_env, out, f)
                            },
                        },
                    },
                },
            }
        },
    }
}

/// The fuel every program run gets: ample for any program whose evaluation
/// depth is sane, and a hard stop for one that recurses without end.
pub const DEFAULT_FUEL: u64 = 1000000;

/// Runs a program: evaluates the nodes in order from the initial state and
/// returns the last top-level expression's value together with every line
/// the `log` native operation printed, in order.
pub fn interpret(ast: Vec<Node>) -> (r: (Result<Object, Error>, Vec<String>))
    ensures
        ({
            let (sr, sst) = interpret_spec(nodes_view(ast@), DEFAULT_FUEL as nat);
            &&& res_view(r.0) == sr
            &&& out_view(r.1@) == sst.out
        }),
{
    let mut env = Env::new();
    env.insert(String::from_str("self"), Object::Instance(0, Vec::new()));
    env.insert(String::from_str("Object"), Object::Class(1));
    let mut classes = Registry::new();
    classes.push_class(
        crate::state::Class { name: String::from_str("Main"), methods: Vec::new(), superclass: None },
    );
    classes.push_class(
        crate::state::Class {
            name: String::from_str("Object"),
            methods: Vec::new(),
            superclass: None,
        },
    );
    let mut out: Vec<String> = Vec::new();
    proof {
        lemma_fields_view(Seq::<(String, Object)>::empty());
        assert(fields_view(Seq::<(String, Object)>::empty()) =~= Seq::<(Seq<char>, Val)>::empty());
        crate::ast::lemma_nodes_view(Seq::<Node>::empty());
        assert(nodes_view(Seq::<Node>::empty()) =~= Seq::<NodeV>::empty());
        assert(st_of(env, classes, out) =~= crate::sem::init_state());
        crate::ast::lemma_nodes_view(ast@);
        assert(nodes_view(ast@).subrange(0, ast@.len() as int) =~= nodes_view(ast@));
    }
    let r = eval_stmts(&ast, 0, &mut env, &mut classes, &mut out, DEFAULT_FUEL);
    (r, out)
}

} // verus!
