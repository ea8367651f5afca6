//! The runtime value model: a closed, tagged union of the values the engine
//! evaluates to, together with its mathematical view.
//!
//! A class is identified by a [`ClassId`], an index into the class registry;
//! ids are minted in registration order and never reused.  An `Instance`
//! carries its class id and an ordered sequence of named fields.
//!
//! Contracts speak of [`Val`], the deep view of an [`Object`], in which every
//! string is a `Seq<char>` and every vector a `Seq`; two values that print
//! the same and compare equal have the same view.
use vstd::prelude::*;

verus! {

/// Identity of a class: its index in the registry's arena.
pub type ClassId = usize;

/// One runtime value.
#[derive(Debug)]
pub enum Object {
    Nil,
    Keyword(String),
    Str(String),
    Int(usize),
    Instance(ClassId, Vec<(String, Object)>),
    Class(ClassId),
    Operator(String),
    List(Vec<Object>),
}

/// The deep view of an [`Object`].
#[verifier::ext_equal]
pub enum Val {
    Nil,
    Keyword(Seq<char>),
    Str(Seq<char>),
    Int(nat),
    Instance(nat, Seq<(Seq<char>, Val)>),
    Class(nat),
    Operator(Seq<char>),
    List(Seq<Val>),
}

/// The deep view of one value.
pub open spec fn val_view(o: Object) -> Val
    decreases o, 1int,
{
    match o {
        Object::Nil => Val::Nil,
        Object::Keyword(s) => Val::Keyword(s@),
        Object::Str(s) => Val::Str(s@),
        Object::Int(v) => Val::Int(v as nat),
        Object::Instance(id, fields) => {
            proof {
                assert(decreases_to!(o => fields));
                assert(decreases_to!(fields => fields@));
            }
            Val::Instance(id as nat, fields_view(fields@))
        },
        Object::Class(id) => Val::Class(id as nat),
        Object::Operator(s) => Val::Operator(s@),
        Object::List(items) => {
            proof {
                assert(decreases_to!(o => items));
                assert(decreases_to!(items => items@));
            }
            Val::List(vals_view(items@))
        },
    }
}

/// The deep view of a sequence of values.
pub open spec fn vals_view(s: Seq<Object>) -> Seq<Val>
    decreases s, 0int,
{
    if s.len() == 0 {
        Seq::empty()
    } else {
        Seq::empty().push(val_view(s[0])) + vals_view(s.subrange(1, s.len() as int))
    }
}

/// The deep view of a sequence of named fields.
pub open spec fn fields_view(s: Seq<(String, Object)>) -> Seq<(Seq<char>, Val)>
    decreases s, 0int,
{
    if s.len() == 0 {
        Seq::empty()
    } else {
        Seq::empty().push((s[0].0@, val_view(s[0].1))) + fields_view(
            s.subrange(1, s.len() as int),
        )
    }
}

impl View for Object {
    type V = Val;

    open spec fn view(&self) -> Val {
        val_view(*self)
    }
}

/// `vals_view` maps the sequence pointwise.
pub proof fn lemma_vals_view(s: Seq<Object>)
    ensures
        vals_view(s).len() == s.len(),
        forall|i: int| 0 <= i < s.len() ==> vals_view(s)[i] == val_view(s[i]),
    decreases s.len(),
{
    if s.len() > 0 {
        lemma_vals_view(s.subrange(1, s.len() as int));
    }
}

/// `fields_view` maps the sequence pointwise.
pub proof fn lemma_fields_view(s: Seq<(String, Object)>)
    ensures
        fields_view(s).len() == s.len(),
        forall|i: int|
            0 <= i < s.len() ==> fields_view(s)[i] == (s[i].0@, val_view(s[i].1)),
    decreases s.len(),
{
    if s.len() > 0 {
        lemma_fields_view(s.subrange(1, s.len() as int));
    }
}

/// Copies a value; the copy has the same view as the original.
pub fn clone_obj(o: &Object) -> (r: Object)
    ensures
        r@ == o@,
    decreases *o, 1int,
{
    match o {
        Object::Nil => Object::Nil,
        Object::Keyword(s) => Object::Keyword(s.clone()),
        Object::Str(s) => Object::Str(s.clone()),
        Object::Int(v) => Object::Int(*v),
        Object::Instance(id, fields) => {
            proof {
                assert(decreases_to!(*o => *fields));
            }
            let r = Object::Instance(*id, clone_fields(fields));
            assert(r@ =~= o@);
            r
        },
        Object::Class(id) => Object::Class(*id),
        Object::Operator(s) => Object::Operator(s.clone()),
        Object::List(items) => {
            proof {
                assert(decreases_to!(*o => *items));
            }
            let r = Object::List(clone_objs(items));
            assert(r@ =~= o@);
            r
        },
    }
}

/// Copies a vector of values, element for element.
pub fn clone_objs(os: &Vec<Object>) -> (r: Vec<Object>)
    ensures
        vals_view(r@) == vals_view(os@),
        r@.len() == os@.len(),
    decreases *os, 0int,
{
    let mut r: Vec<Object> = Vec::new();
    let mut i: usize = 0;
    while i < os.len()
        invariant
            i <= os@.len(),
            r@.len() == i,
            forall|j: int| 0 <= j < i ==> val_view(r@[j]) == val_view(os@[j]),
        decreases os@.len() - i,
    {
        proof {
            assert(decreases_to!(*os => os@));
            assert(decreases_to!(os@ => os@[i as int]));
        }
        r.push(clone_obj(&os[i]));
        i += 1;
    }
    proof {
        lemma_vals_view(r@);
        lemma_vals_view(os@);
        assert(vals_view(r@) =~= vals_view(os@));
    }
    r
}

/// Copies a vector of named fields, element for element.
pub fn clone_fields(fs: &Vec<(String, Object)>) -> (r: Vec<(String, Object)>)
    ensures
        fields_view(r@) == fields_view(fs@),
        r@.len() == fs@.len(),
    decreases *fs, 0int,
{
    let mut r: Vec<(String, Object)> = Vec::new();
    let mut i: usize = 0;
    while i < fs.len()
        invariant
            i <= fs@.len(),
            r@.len() == i,
            forall|j: int|
                0 <= j < i ==> r@[j].0@ == fs@[j].0@ && val_view(r@[j].1) == val_view(fs@[j].1),
        decreases fs@.len() - i,
    {
        proof {
            assert(decreases_to!(*fs => fs@));
            assert(decreases_to!(fs@ => fs@[i as int]));
        }
        let (name, val) = &fs[i];
        r.push((name.clone(), clone_obj(val)));
        i += 1;
    }
    proof {
        lemma_fields_view(r@);
        lemma_fields_view(fs@);
        assert(fields_view(r@) =~= fields_view(fs@));
    }
    r
}

/// Equality of two strings, stated over their views.
pub fn str_eq(a: &String, b: &String) -> (r: bool)
    ensures
        r == (a@ == b@),
{
    a.eq(b)
}

/// Structural equality of two values: true exactly when the views are equal.
pub fn obj_eq(a: &Object, b: &Object) -> (r: bool)
    ensures
        r == (a@ == b@),
    decreases *a, 1int,
{
    match (a, b) {
        (Object::Nil, Object::Nil) => true,
        (Object::Keyword(x), Object::Keyword(y)) => str_eq(x, y),
        (Object::Str(x), Object::Str(y)) => str_eq(x, y),
        (Object::Int(x), Object::Int(y)) => x == y,
        (Object::Instance(i, xf), Object::Instance(j, yf)) => {
            proof {
                assert(decreases_to!(*a => *xf));
            }
            let r = i == j && eq_fields(xf, yf);
            proof {
                if r {
                    assert(a@ =~= b@);
                }
            }
            r
        },
        (Object::Class(x), Object::Class(y)) => x == y,
        (Object::Operator(x), Object::Operator(y)) => str_eq(x, y),
        (Object::List(xs), Object::List(ys)) => {
            proof {
                assert(decreases_to!(*a => *xs));
            }
            let r = eq_objs(xs, ys);
            proof {
                if r {
                    assert(a@ =~= b@);
                }
            }
            r
        },
        _ => false,
    }
}

/// Elementwise equality of two value vectors, by view.
pub fn eq_objs(xs: &Vec<Object>, ys: &Vec<Object>) -> (r: bool)
    ensures
        r == (vals_view(xs@) == vals_view(ys@)),
    decreases *xs, 0int,
{
    proof {
        lemma_vals_view(xs@);
        lemma_vals_view(ys@);
    }
    if xs.len() != ys.len() {
        return false;
    }
    let mut i: usize = 0;
    while i < xs.len()
        invariant
            xs@.len() == ys@.len(),
            i <= xs@.len(),
            vals_view(xs@).len() == xs@.len(),
            vals_view(ys@).len() == ys@.len(),
            forall|k: int| 0 <= k < xs@.len() ==> vals_view(xs@)[k] == val_view(xs@[k]),
            forall|k: int| 0 <= k < ys@.len() ==> vals_view(ys@)[k] == val_view(ys@[k]),
            forall|j: int| 0 <= j < i ==> val_view(xs@[j]) == val_view(ys@[j]),
        decreases xs@.len() - i,
    {
        proof {
            assert(decreases_to!(*xs => xs@));
            assert(decreases_to!(xs@ => xs@[i as int]));
        }
        if !obj_eq(&xs[i], &ys[i]) {
            proof {
                assert(vals_view(xs@)[i as int] != vals_view(ys@)[i as int]);
            }
            return false;
        }
        i += 1;
    }
    proof {
        assert(vals_view(xs@) =~= vals_view(ys@));
    }
    true
}

/// Elementwise equality of two field vectors, by name and view.
pub fn eq_fields(xs: &Vec<(String, Object)>, ys: &Vec<(String, Object)>) -> (r: bool)
    ensures
        r == (fields_view(xs@) == fields_view(ys@)),
    decreases *xs, 0int,
{
    proof {
        lemma_fields_view(xs@);
        lemma_fields_view(ys@);
    }
    if xs.len() != ys.len() {
        return false;
    }
    let mut i: usize = 0;
    while i < xs.len()
        invariant
            xs@.len() == ys@.len(),
            i <= xs@.len(),
            fields_view(xs@).len() == xs@.len(),
            fields_view(ys@).len() == ys@.len(),
            forall|k: int|
                0 <= k < xs@.len() ==> fields_view(xs@)[k] == (xs@[k].0@, val_view(xs@[k].1)),
            forall|k: int|
                0 <= k < ys@.len() ==> fields_view(ys@)[k] == (ys@[k].0@, val_view(ys@[k].1)),
            forall|j: int|
                0 <= j < i ==> xs@[j].0@ == ys@[j].0@ && val_view(xs@[j].1) == val_view(ys@[j].1),
        decreases xs@.len() - i,
    {
        proof {
            assert(decreases_to!(*xs => xs@));
            assert(decreases_to!(xs@ => xs@[i as int]));
        }
        let (xn, xv) = &xs[i];
        let (yn, yv) = &ys[i];
        if !str_eq(xn, yn) {
            proof {
                assert(fields_view(xs@)[i as int].0 != fields_view(ys@)[i as int].0);
            }
            return false;
        }
        if !obj_eq(xv, yv) {
            proof {
                assert(fields_view(xs@)[i as int].1 != fields_view(ys@)[i as int].1);
            }
            return false;
        }
        i += 1;
    }
    proof {
        assert(fields_view(xs@) =~= fields_view(ys@));
    }
    true
}

} // verus!
