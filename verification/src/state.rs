//! The evaluation state: the variable environment and the class registry,
//! with the output accumulated by the `log` native operation.
//!
//! The registry is an arena: a class's identity is its index, minted at
//! registration and never reused.  The environment is an ordered mapping
//! from names to values; a later binding of a name shadows an earlier one,
//! so its view is a `Map` in which the latest binding wins.
use vstd::prelude::*;

use crate::ast::{clone_nodes, nodes_view, Node, NodeV};
use crate::value::{clone_fields, clone_obj, fields_view, str_eq, val_view, ClassId, Object, Val};

verus! {

/// Metadata of one class: its name, its method clauses in declaration
/// order (each a `Node::Def`), and its optional superclass.
#[derive(Debug)]
pub struct Class {
    pub name: String,
    pub methods: Vec<Node>,
    pub superclass: Option<ClassId>,
}

/// The view of a [`Class`].
#[verifier::ext_equal]
pub struct ClassV {
    pub name: Seq<char>,
    pub methods: Seq<NodeV>,
    pub superclass: Option<nat>,
}

impl View for Class {
    type V = ClassV;

    open spec fn view(&self) -> ClassV {
        ClassV {
            name: self.name@,
            methods: nodes_view(self.methods@),
            superclass: match self.superclass {
                Some(id) => Some(id as nat),
                None => None,
            },
        }
    }
}

/// The view of a sequence of classes.
pub open spec fn classes_view(s: Seq<Class>) -> Seq<ClassV> {
    Seq::new(s.len(), |i: int| s[i]@)
}

/// The class registry: an arena of classes, identified by index.
#[derive(Debug)]
pub struct Registry {
    classes: Vec<Class>,
}

impl View for Registry {
    type V = Seq<ClassV>;

    closed spec fn view(&self) -> Seq<ClassV> {
        classes_view(self.classes@)
    }
}

impl Registry {
    /// An empty registry.
    pub fn new() -> (r: Registry)
        ensures
            r@ == Seq::<ClassV>::empty(),
    {
        let r = Registry { classes: Vec::new() };
        proof {
            assert(r@ =~= Seq::<ClassV>::empty());
        }
        r
    }

    /// The number of registered classes; also the next fresh id.
    pub fn len(&self) -> (r: usize)
        ensures
            r == self@.len(),
    {
        self.classes.len()
    }

    /// The class with the given id, if the id is registered.
    pub fn get(&self, id: ClassId) -> (r: Option<&Class>)
        ensures
            match r {
                Some(c) => id < self@.len() && c@ == self@[id as int],
                None => id >= self@.len(),
            },
    {
        if id < self.classes.len() {
            Some(&self.classes[id])
        } else {
            None
        }
    }

    /// Registers a class; its id is the registry's length before the call.
    pub fn push_class(&mut self, c: Class) -> (id: ClassId)
        ensures
            final(self)@ == old(self)@.push(c@),
            id == old(self)@.len(),
    {
        let id = self.classes.len();
        self.classes.push(c);
        proof {
            assert(final(self)@ =~= old(self)@.push(c@));
        }
        id
    }

    /// Appends a method clause to the class with the given id.
    pub fn add_method(&mut self, id: ClassId, def: Node)
        requires
            id < old(self)@.len(),
        ensures
            final(self)@ == old(self)@.update(
                id as int,
                ClassV {
                    methods: old(self)@[id as int].methods.push(def@),
                    ..old(self)@[id as int]
                },
            ),
    {
        let mut c = self.classes.remove(id);
        c.methods.push(def);
        proof {
            crate::ast::lemma_nodes_view(old(self).classes@[id as int].methods@);
            crate::ast::lemma_nodes_view(c.methods@);
            assert(nodes_view(c.methods@) =~= old(self)@[id as int].methods.push(def@));
        }
        self.classes.insert(id, c);
        proof {
            assert(final(self)@ =~= old(self)@.update(
                id as int,
                ClassV {
                    methods: old(self)@[id as int].methods.push(def@),
                    ..old(self)@[id as int]
                },
            ));
        }
    }

    /// Copies the registry; the copy has the same view.
    pub fn duplicate(&self) -> (r: Registry)
        ensures
            r@ == self@,
    {
        let mut classes: Vec<Class> = Vec::new();
        let mut i: usize = 0;
        while i < self.classes.len()
            invariant
                i <= self.classes@.len(),
                classes@.len() == i,
                forall|j: int| 0 <= j < i ==> classes@[j]@ == self.classes@[j]@,
            decreases self.classes@.len() - i,
        {
            let c = &self.classes[i];
            let copy = Class {
                name: c.name.clone(),
                methods: clone_nodes(&c.methods),
                superclass: match c.superclass {
                    Some(id) => Some(id),
                    None => None,
                },
            };
            assert(copy@ =~= c@);
            classes.push(copy);
            i += 1;
        }
        let r = Registry { classes };
        proof {
            assert(r@ =~= self@);
        }
        r
    }
}

/// The view of an ordered binding list: the map in which the latest
/// binding of a name wins.
pub open spec fn map_of(t: Seq<(Seq<char>, Val)>) -> Map<Seq<char>, Val>
    decreases t.len(),
{
    if t.len() == 0 {
        Map::empty()
    } else {
        map_of(t.drop_last()).insert(t.last().0, t.last().1)
    }
}

/// The variable environment: an ordered mapping from names to values.
/// Inserting a binding shadows any earlier binding of the same name.
#[derive(Debug)]
pub struct Env {
    entries: Vec<(String, Object)>,
}

impl View for Env {
    type V = Map<Seq<char>, Val>;

    closed spec fn view(&self) -> Map<Seq<char>, Val> {
        map_of(fields_view(self.entries@))
    }
}

/// Appending one binding inserts it into the map.
pub proof fn lemma_map_of_push(t: Seq<(Seq<char>, Val)>, k: Seq<char>, v: Val)
    ensures
        map_of(t.push((k, v))) == map_of(t).insert(k, v),
{
    assert(t.push((k, v)).drop_last() =~= t);
}

/// If entry `j` binds `k` and no later entry does, the map holds its value.
pub proof fn lemma_map_of_found(t: Seq<(Seq<char>, Val)>, k: Seq<char>, j: int)
    requires
        0 <= j < t.len(),
        t[j].0 == k,
        forall|l: int| j < l < t.len() ==> t[l].0 != k,
    ensures
        map_of(t).contains_key(k),
        map_of(t)[k] == t[j].1,
    decreases t.len(),
{
    if j == t.len() - 1 {
    } else {
        lemma_map_of_found(t.drop_last(), k, j);
    }
}

/// If no entry binds `k`, the map has no key `k`.
pub proof fn lemma_map_of_absent(t: Seq<(Seq<char>, Val)>, k: Seq<char>)
    requires
        forall|l: int| 0 <= l < t.len() ==> t[l].0 != k,
    ensures
        !map_of(t).contains_key(k),
    decreases t.len(),
{
    if t.len() > 0 {
        lemma_map_of_absent(t.drop_last(), k);
    }
}

impl Env {
    /// An empty environment.
    pub fn new() -> (r: Env)
        ensures
            r@ == Map::<Seq<char>, Val>::empty(),
    {
        let r = Env { entries: Vec::new() };
        proof {
            crate::value::lemma_fields_view(r.entries@);
        }
        r
    }

    /// Binds a name to a value, shadowing any earlier binding.
    pub fn insert(&mut self, name: String, val: Object)
        ensures
            final(self)@ == old(self)@.insert(name@, val@),
    {
        proof {
            crate::value::lemma_fields_view(self.entries@);
        }
        let ghost t = fields_view(self.entries@);
        let ghost k = name@;
        let ghost v = val@;
        self.entries.push((name, val));
        proof {
            crate::value::lemma_fields_view(self.entries@);
            assert(fields_view(self.entries@) =~= t.push((k, v)));
            lemma_map_of_push(t, k, v);
        }
    }

    /// The value bound to a name, if any: the latest binding wins.
    pub fn get(&self, name: &String) -> (r: Option<&Object>)
        ensures
            match r {
                Some(o) => self@.contains_key(name@) && o@ == self@[name@],
                None => !self@.contains_key(name@),
            },
    {
        proof {
            crate::value::lemma_fields_view(self.entries@);
        }
        let ghost t = fields_view(self.entries@);
        let mut i: usize = self.entries.len();
        while i > 0
            invariant
                i <= self.entries@.len(),
                t == fields_view(self.entries@),
                t.len() == self.entries@.len(),
                forall|k: int|
                    0 <= k < t.len() ==> t[k] == (self.entries@[k].0@, val_view(
                        self.entries@[k].1,
                    )),
                forall|l: int| i <= l < t.len() ==> t[l].0 != name@,
            decreases i,
        {
            i = i - 1;
            let (n, o) = &self.entries[i];
            if str_eq(n, name) {
                proof {
                    lemma_map_of_found(t, name@, i as int);
                }
                return Some(o);
            }
        }
        proof {
            lemma_map_of_absent(t, name@);
        }
        None
    }

    /// Whether a name is bound.
    pub fn contains(&self, name: &String) -> (r: bool)
        ensures
            r == self@.contains_key(name@),
    {
        match self.get(name) {
            Some(_) => true,
            None => false,
        }
    }

    /// Copies the environment; the copy has the same view.
    pub fn duplicate(&self) -> (r: Env)
        ensures
            r@ == self@,
    {
        let entries = clone_fields(&self.entries);
        Env { entries }
    }

    /// Applies every binding of `other`, in order, on top of `self`.
    /// Bindings of `other` win where both bind a name.
    pub fn apply(&mut self, other: &Env)
        ensures
            final(self)@ == old(self)@.union_prefer_right(other@),
    {
        proof {
            crate::value::lemma_fields_view(other.entries@);
        }
        let ghost t = fields_view(other.entries@);
        let mut i: usize = 0;
        while i < other.entries.len()
            invariant
                i <= other.entries@.len(),
                t == fields_view(other.entries@),
                t.len() == other.entries@.len(),
                forall|k: int|
                    0 <= k < t.len() ==> t[k] == (other.entries@[k].0@, val_view(
                        other.entries@[k].1,
                    )),
                self@ == old(self)@.union_prefer_right(map_of(t.subrange(0, i as int))),
            decreases other.entries@.len() - i,
        {
            let (n, o) = &other.entries[i];
            self.insert(n.clone(), clone_obj(o));
            proof {
                assert(t.subrange(0, i + 1).drop_last() =~= t.subrange(0, i as int));
                assert(self@ =~= old(self)@.union_prefer_right(map_of(t.subrange(0, i + 1))));
            }
            i += 1;
        }
        proof {
            assert(t.subrange(0, t.len() as int) =~= t);
            assert(final(self)@ =~= old(self)@.union_prefer_right(other@));
        }
    }
}

/// The view of the whole evaluation state.
#[verifier::ext_equal]
pub struct StateV {
    /// The variable environment.
    pub env: Map<Seq<char>, Val>,
    /// The class registry.
    pub classes: Seq<ClassV>,
    /// The lines printed so far by the `log` native operation.
    pub out: Seq<Seq<char>>,
}

/// The view of a sequence of output lines.
pub open spec fn out_view(s: Seq<String>) -> Seq<Seq<char>> {
    Seq::new(s.len(), |i: int| s[i]@)
}

/// Assembles the view of the three state components.
pub open spec fn st_of(env: Env, reg: Registry, out: Vec<String>) -> StateV {
    StateV { env: env@, classes: reg@, out: out_view(out@) }
}

} // verus!
