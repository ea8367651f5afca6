//! Textual rendering of runtime values, used by the `log` native operation.
//!
//! The rendering rules: `nil` renders as `nil`; a keyword as `:name`; a
//! string in double quotes; an integer in decimal; a class reference as
//! `[ClassName]`; an operator in backquotes; a list as `[item; item;]`
//! (an empty list as `[]`); an instance as `ClassName{field: value;
//! field: value;}`, except that instances of the root `Object` class render
//! without the name prefix and instances of classes named `Int` or `String`
//! with at least one field render as their first field's value alone.
//! A class id that is not in the registry renders its name as `?`.
use vstd::prelude::*;
use vstd::string::*;

use crate::state::{ClassV, Registry};
use crate::value::{val_view, vals_view, fields_view, Object, Val};

verus! {

/// The decimal digit `d` as a one-character string.
pub open spec fn dig(d: nat) -> Seq<char> {
    if d == 0 {
        "0"@
    } else if d == 1 {
        "1"@
    } else if d == 2 {
        "2"@
    } else if d == 3 {
        "3"@
    } else if d == 4 {
        "4"@
    } else if d == 5 {
        "5"@
    } else if d == 6 {
        "6"@
    } else if d == 7 {
        "7"@
    } else if d == 8 {
        "8"@
    } else {
        "9"@
    }
}

/// The decimal rendering of a natural number.
pub open spec fn dec_str(n: nat) -> Seq<char>
    decreases n,
{
    if n < 10 {
        dig(n)
    } else {
        dec_str(n / 10) + dig(n % 10)
    }
}

/// The name under which class `id` renders.
pub open spec fn class_name_of(classes: Seq<ClassV>, id: nat) -> Seq<char> {
    if id < classes.len() {
        classes[id as int].name
    } else {
        "?"@
    }
}

/// The rendering of one value.
pub open spec fn render(v: Val, classes: Seq<ClassV>) -> Seq<char>
    decreases v, 0int, 0int,
{
    match v {
        Val::Nil => "nil"@,
        Val::Keyword(k) => ":"@ + k,
        Val::Str(s) => "\""@ + s + "\""@,
        Val::Int(n) => dec_str(n),
        Val::Class(id) => "["@ + class_name_of(classes, id) + "]"@,
        Val::Operator(op) => "`"@ + op + "`"@,
        Val::List(items) => {
            proof {
                assert(decreases_to!(v => items));
            }
            if items.len() == 0 {
                "[]"@
            } else {
                "["@ + render_items(items, classes) + ";]"@
            }
        },
        Val::Instance(id, fields) => {
            proof {
                assert(decreases_to!(v => fields));
            }
            let name = class_name_of(classes, id);
            if (name == "Int"@ || name == "String"@) && fields.len() >= 1 {
                proof {
                    assert(decreases_to!(fields => fields[0]));
                }
                render(fields[0].1, classes)
            } else {
                let prefix: Seq<char> = if id < classes.len() && name == "Object"@ {
                    Seq::empty()
                } else {
                    name
                };
                let inner: Seq<char> = if fields.len() == 0 {
                    Seq::empty()
                } else {
                    render_fields(fields, classes) + ";"@
                };
                prefix + "{"@ + inner + "}"@
            }
        },
    }
}

/// The renderings of a non-empty sequence of values, joined by `; `.
pub open spec fn render_items(items: Seq<Val>, classes: Seq<ClassV>) -> Seq<char>
    decreases items, 1int, items.len(),
        when items.len() > 0
{
    proof {
        assert(decreases_to!(items => items[0]));
    }
    if items.len() <= 1 {
        render(items[0], classes)
    } else {
        render(items[0], classes) + "; "@ + render_items(
            items.subrange(1, items.len() as int),
            classes,
        )
    }
}

/// The renderings of a non-empty field sequence, `name: value` joined by `; `.
pub open spec fn render_fields(fields: Seq<(Seq<char>, Val)>, classes: Seq<ClassV>) -> Seq<char>
    decreases fields, 1int, fields.len(),
        when fields.len() > 0
{
    proof {
        assert(decreases_to!(fields => fields[0]));
        assert(decreases_to!(fields[0] => fields[0].1));
    }
    let head = fields[0].0 + ": "@ + render(fields[0].1, classes);
    if fields.len() <= 1 {
        head
    } else {
        head + "; "@ + render_fields(fields.subrange(1, fields.len() as int), classes)
    }
}

/// The decimal digit `d` as a string slice.
fn digit_str(d: usize) -> (r: &'static str)
    requires
        d < 10,
    ensures
        r@ == dig(d as nat),
{
    if d == 0 {
        "0"
    } else if d == 1 {
        "1"
    } else if d == 2 {
        "2"
    } else if d == 3 {
        "3"
    } else if d == 4 {
        "4"
    } else if d == 5 {
        "5"
    } else if d == 6 {
        "6"
    } else if d == 7 {
        "7"
    } else if d == 8 {
        "8"
    } else {
        "9"
    }
}

/// Renders a number in decimal.
pub fn usize_to_string(n: usize) -> (r: String)
    ensures
        r@ == dec_str(n as nat),
    decreases n,
{
    if n < 10 {
        String::from_str(digit_str(n))
    } else {
        let mut s = usize_to_string(n / 10);
        s.append(digit_str(n % 10));
        s
    }
}

impl Object {
    /// Renders this value by the rules above.
    pub fn to_s(&self, class_env: &Registry) -> (r: String)
        ensures
            r@ == render(self@, class_env@),
        decreases *self, 0int, 0int,
    {
        match self {
            Object::Nil => String::from_str("nil"),
            Object::Keyword(k) => {
                let mut s = String::from_str(":");
                s.append(k.as_str());
                s
            },
            Object::Str(text) => {
                let mut s = String::from_str("\"");
                s.append(text.as_str());
                s.append("\"");
                s
            },
            Object::Int(n) => usize_to_string(*n),
            Object::Class(id) => {
                let mut s = String::from_str("[");
                match class_env.get(*id) {
                    Some(c) => s.append(c.name.as_str()),
                    None => s.append("?"),
                }
                s.append("]");
                s
            },
            Object::Operator(op) => {
                let mut s = String::from_str("`");
                s.append(op.as_str());
                s.append("`");
                s
            },
            Object::List(items) => {
                proof {
                    assert(decreases_to!(*self => *items));
                }
                if items.len() == 0 {
                    proof {
                        crate::value::lemma_vals_view(items@);
                    }
                    String::from_str("[]")
                } else {
                    let mut s = String::from_str("[");
                    let inner = to_s_items(items, 0, class_env);
                    s.append(inner.as_str());
                    s.append(";]");
                    proof {
                        crate::value::lemma_vals_view(items@);
                        assert(vals_view(items@).subrange(0, vals_view(items@).len() as int)
                            =~= vals_view(items@));
                    }
                    s
                }
            },
            Object::Instance(id, fields) => {
                proof {
                    assert(decreases_to!(*self => *fields));
                    crate::value::lemma_fields_view(fields@);
                }
                let name_int = String::from_str("Int");
                let name_string = String::from_str("String");
                let name_object = String::from_str("Object");
                let wrapper = match class_env.get(*id) {
                    Some(c) => (crate::value::str_eq(&c.name, &name_int) || crate::value::str_eq(
                        &c.name,
                        &name_string,
                    )) && fields.len() >= 1,
                    None => {
                        proof {
                            reveal_strlit("?");
                            reveal_strlit("Int");
                            reveal_strlit("String");
                            assert("?"@.len() == 1 && "Int"@.len() == 3 && "String"@.len() == 6);
                        }
                        false
                    },
                };
                if wrapper {
                    proof {
                        assert(decreases_to!(fields@ => fields@[0]));
                        assert(decreases_to!(*fields => fields@));
                    }
                    let (_, first) = &fields[0];
                    first.to_s(class_env)
                } else {
                    let mut s = String::new();
                    match class_env.get(*id) {
                        Some(c) => {
                            if !crate::value::str_eq(&c.name, &name_object) {
                                s.append(c.name.as_str());
                            }
                        },
                        None => s.append("?"),
                    }
                    s.append("{");
                    if fields.len() > 0 {
                        let inner = to_s_fields(fields, 0, class_env);
                        s.append(inner.as_str());
                        s.append(";");
                        proof {
                            assert(fields_view(fields@).subrange(
                                0,
                                fields_view(fields@).len() as int,
                            ) =~= fields_view(fields@));
                        }
                    }
                    s.append("}");
                    s
                }
            },
        }
    }
}

/// Renders the values of `items` from index `i` on, joined by `; `.
fn to_s_items(items: &Vec<Object>, i: usize, class_env: &Registry) -> (r: String)
    requires
        i < items@.len(),
    ensures
        r@ == render_items(
            vals_view(items@).subrange(i as int, vals_view(items@).len() as int),
            class_env@,
        ),
    decreases *items, 1int, items@.len() - i,
{
    proof {
        crate::value::lemma_vals_view(items@);
        assert(decreases_to!(*items => items@));
        assert(decreases_to!(items@ => items@[i as int]));
    }
    let head = items[i].to_s(class_env);
    let ghost whole = vals_view(items@);
    let n = items.len();
    if i == n - 1 {
        proof {
            assert(whole.subrange(i as int, whole.len() as int).len() == 1);
            assert(whole.subrange(i as int, whole.len() as int)[0] == val_view(items@[i as int]));
        }
        head
    } else {
        let mut s = head;
        s.append("; ");
        let rest = to_s_items(items, i + 1, class_env);
        s.append(rest.as_str());
        proof {
            let sub = whole.subrange(i as int, whole.len() as int);
            assert(sub[0] == val_view(items@[i as int]));
            assert(sub.subrange(1, sub.len() as int) =~= whole.subrange(
                i + 1,
                whole.len() as int,
            ));
        }
        s
    }
}

/// Renders the fields of `fields` from index `i` on, `name: value` joined
/// by `; `.
fn to_s_fields(fields: &Vec<(String, Object)>, i: usize, class_env: &Registry) -> (r: String)
    requires
        i < fields@.len(),
    ensures
        r@ == render_fields(
            fields_view(fields@).subrange(i as int, fields_view(fields@).len() as int),
            class_env@,
        ),
    decreases *fields, 1int, fields@.len() - i,
{
    proof {
        crate::value::lemma_fields_view(fields@);
        assert(decreases_to!(*fields => fields@));
        assert(decreases_to!(fields@ => fields@[i as int]));
        assert(decreases_to!(fields@[i as int] => fields@[i as int].1));
    }
    let (name, val) = &fields[i];
    let mut s = name.clone();
    s.append(": ");
    let rendered = val.to_s(class_env);
    s.append(rendered.as_str());
    let ghost whole = fields_view(fields@);
    let n = fields.len();
    if i == n - 1 {
        proof {
            assert(whole.subrange(i as int, whole.len() as int).len() == 1);
            assert(whole.subrange(i as int, whole.len() as int)[0] == (
                fields@[i as int].0@,
                val_view(fields@[i as int].1),
            ));
        }
        s
    } else {
        s.append("; ");
        let rest = to_s_fields(fields, i + 1, class_env);
        s.append(rest.as_str());
        proof {
            let sub = whole.subrange(i as int, whole.len() as int);
            assert(sub[0] == (fields@[i as int].0@, val_view(fields@[i as int].1)));
            assert(sub.subrange(1, sub.len() as int) =~= whole.subrange(
                i + 1,
                whole.len() as int,
            ));
        }
        s
    }
}

} // verus!
