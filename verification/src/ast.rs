//! The abstract syntax tree handed to the evaluator, and its mathematical
//! view.
//!
//! The engine's only input is an ordered sequence of [`Node`]s.  Contracts
//! never speak of `Node` values directly: they speak of [`NodeV`], the deep
//! view in which every string is a `Seq<char>` and every vector a `Seq`, so
//! that two syntactically identical trees are equal as specification values.
use vstd::prelude::*;

verus! {

/// One node of the syntax tree.
#[derive(Debug)]
pub enum Node {
    Keyword(String),
    Def(Vec<Node>, Box<Node>),
    Class(String, Vec<Node>),
    MethodCall(Box<Node>, Vec<Node>),
    RecordConstructor(String, Vec<(String, Node)>),
    VectorConstructor(String, Vec<Node>),
    Int(usize),
    IdLookup(String),
    Assign(String, Box<Node>),
    Operator(String),
    List(Vec<Node>),
    Str(String),
    Unquote(Box<Node>),
    ParenExpr(Box<Node>),
    Spread(Box<Node>),
    Object(Vec<Node>),
    RecordLiteral(Vec<(String, Node)>),
}

/// The deep view of a [`Node`]: the same tree over `Seq<char>` and `Seq`.
#[verifier::ext_equal]
pub enum NodeV {
    Keyword(Seq<char>),
    Def(Seq<NodeV>, Box<NodeV>),
    Class(Seq<char>, Seq<NodeV>),
    MethodCall(Box<NodeV>, Seq<NodeV>),
    RecordConstructor(Seq<char>, Seq<(Seq<char>, NodeV)>),
    VectorConstructor(Seq<char>, Seq<NodeV>),
    Int(nat),
    IdLookup(Seq<char>),
    Assign(Seq<char>, Box<NodeV>),
    Operator(Seq<char>),
    List(Seq<NodeV>),
    Str(Seq<char>),
    Unquote(Box<NodeV>),
    ParenExpr(Box<NodeV>),
    Spread(Box<NodeV>),
    Object(Seq<NodeV>),
    RecordLiteral(Seq<(Seq<char>, NodeV)>),
}

/// The deep view of one node.
pub open spec fn node_view(n: Node) -> NodeV
    decreases n, 1int,
{
    match n {
        Node::Keyword(s) => NodeV::Keyword(s@),
        Node::Def(args, body) => {
            proof {
                assert(decreases_to!(n => args));
                assert(decreases_to!(args => args@));
            }
            NodeV::Def(nodes_view(args@), Box::new(node_view(*body)))
        },
        Node::Class(name, defs) => {
            proof {
                assert(decreases_to!(n => defs));
                assert(decreases_to!(defs => defs@));
            }
            NodeV::Class(name@, nodes_view(defs@))
        },
        Node::MethodCall(lhs, args) => {
            proof {
                assert(decreases_to!(n => args));
                assert(decreases_to!(args => args@));
            }
            NodeV::MethodCall(Box::new(node_view(*lhs)), nodes_view(args@))
        },
        Node::RecordConstructor(name, props) => {
            proof {
                assert(decreases_to!(n => props));
                assert(decreases_to!(props => props@));
            }
            NodeV::RecordConstructor(name@, props_view(props@))
        },
        Node::VectorConstructor(name, exprs) => {
            proof {
                assert(decreases_to!(n => exprs));
                assert(decreases_to!(exprs => exprs@));
            }
            NodeV::VectorConstructor(name@, nodes_view(exprs@))
        },
        Node::Int(v) => NodeV::Int(v as nat),
        Node::IdLookup(s) => NodeV::IdLookup(s@),
        Node::Assign(name, rhs) => NodeV::Assign(name@, Box::new(node_view(*rhs))),
        Node::Operator(s) => NodeV::Operator(s@),
        Node::List(items) => {
            proof {
                assert(decreases_to!(n => items));
                assert(decreases_to!(items => items@));
            }
            NodeV::List(nodes_view(items@))
        },
        Node::Str(s) => NodeV::Str(s@),
        Node::Unquote(inner) => NodeV::Unquote(Box::new(node_view(*inner))),
        Node::ParenExpr(inner) => NodeV::ParenExpr(Box::new(node_view(*inner))),
        Node::Spread(inner) => NodeV::Spread(Box::new(node_view(*inner))),
        Node::Object(defs) => {
            proof {
                assert(decreases_to!(n => defs));
                assert(decreases_to!(defs => defs@));
            }
            NodeV::Object(nodes_view(defs@))
        },
        Node::RecordLiteral(props) => {
            proof {
                assert(decreases_to!(n => props));
                assert(decreases_to!(props => props@));
            }
            NodeV::RecordLiteral(props_view(props@))
        },
    }
}

/// The deep view of a sequence of nodes.
pub open spec fn nodes_view(s: Seq<Node>) -> Seq<NodeV>
    decreases s, 0int,
{
    if s.len() == 0 {
        Seq::empty()
    } else {
        Seq::empty().push(node_view(s[0])) + nodes_view(s.subrange(1, s.len() as int))
    }
}

/// The deep view of a sequence of named sub-trees.
pub open spec fn props_view(s: Seq<(String, Node)>) -> Seq<(Seq<char>, NodeV)>
    decreases s, 0int,
{
    if s.len() == 0 {
        Seq::empty()
    } else {
        Seq::empty().push((s[0].0@, node_view(s[0].1))) + props_view(s.subrange(1, s.len() as int))
    }
}

impl View for Node {
    type V = NodeV;

    open spec fn view(&self) -> NodeV {
        node_view(*self)
    }
}

/// `nodes_view` maps the sequence pointwise.
pub broadcast proof fn lemma_nodes_view(s: Seq<Node>)
    ensures
        (#[trigger] nodes_view(s)).len() == s.len(),
        forall|i: int| 0 <= i < s.len() ==> nodes_view(s)[i] == node_view(s[i]),
    decreases s.len(),
{
    if s.len() > 0 {
        lemma_nodes_view(s.subrange(1, s.len() as int));
    }
}

/// `props_view` maps the sequence pointwise.
pub broadcast proof fn lemma_props_view(s: Seq<(String, Node)>)
    ensures
        (#[trigger] props_view(s)).len() == s.len(),
        forall|i: int|
            0 <= i < s.len() ==> props_view(s)[i] == (s[i].0@, node_view(s[i].1)),
    decreases s.len(),
{
    if s.len() > 0 {
        lemma_props_view(s.subrange(1, s.len() as int));
    }
}

/// Copies a node; the copy has the same view as the original.
pub fn clone_node(n: &Node) -> (r: Node)
    ensures
        r@ == n@,
    decreases *n,
{
    match n {
        Node::Keyword(s) => Node::Keyword(s.clone()),
        Node::Def(args, body) => {
            let r = Node::Def(clone_nodes(args), Box::new(clone_node(body)));
            assert(r@ =~= n@);
            r
        },
        Node::Class(name, defs) => {
            let r = Node::Class(name.clone(), clone_nodes(defs));
            assert(r@ =~= n@);
            r
        },
        Node::MethodCall(lhs, args) => {
            let r = Node::MethodCall(Box::new(clone_node(lhs)), clone_nodes(args));
            assert(r@ =~= n@);
            r
        },
        Node::RecordConstructor(name, props) => {
            let r = Node::RecordConstructor(name.clone(), clone_props(props));
            assert(r@ =~= n@);
            r
        },
        Node::VectorConstructor(name, exprs) => {
            let r = Node::VectorConstructor(name.clone(), clone_nodes(exprs));
            assert(r@ =~= n@);
            r
        },
        Node::Int(v) => Node::Int(*v),
        Node::IdLookup(s) => Node::IdLookup(s.clone()),
        Node::Assign(name, rhs) => Node::Assign(name.clone(), Box::new(clone_node(rhs))),
        Node::Operator(s) => Node::Operator(s.clone()),
        Node::List(items) => {
            let r = Node::List(clone_nodes(items));
            assert(r@ =~= n@);
            r
        },
        Node::Str(s) => Node::Str(s.clone()),
        Node::Unquote(inner) => Node::Unquote(Box::new(clone_node(inner))),
        Node::ParenExpr(inner) => Node::ParenExpr(Box::new(clone_node(inner))),
        Node::Spread(inner) => Node::Spread(Box::new(clone_node(inner))),
        Node::Object(defs) => {
            let r = Node::Object(clone_nodes(defs));
            assert(r@ =~= n@);
            r
        },
        Node::RecordLiteral(props) => {
            let r = Node::RecordLiteral(clone_props(props));
            assert(r@ =~= n@);
            r
        },
    }
}

/// Copies a vector of nodes, element for element.
pub fn clone_nodes(ns: &Vec<Node>) -> (r: Vec<Node>)
    ensures
        nodes_view(r@) == nodes_view(ns@),
        r@.len() == ns@.len(),
    decreases *ns,
{
    let mut r: Vec<Node> = Vec::new();
    let mut i: usize = 0;
    while i < ns.len()
        invariant
            i <= ns@.len(),
            r@.len() == i,
            forall|j: int| 0 <= j < i ==> node_view(r@[j]) == node_view(ns@[j]),
        decreases ns@.len() - i,
    {
        r.push(clone_node(&ns[i]));
        i += 1;
    }
    proof {
        lemma_nodes_view(r@);
        lemma_nodes_view(ns@);
        assert(nodes_view(r@) =~= nodes_view(ns@));
    }
    r
}

/// Copies a vector of named sub-trees, element for element.
pub fn clone_props(ps: &Vec<(String, Node)>) -> (r: Vec<(String, Node)>)
    ensures
        props_view(r@) == props_view(ps@),
        r@.len() == ps@.len(),
    decreases *ps,
{
    let mut r: Vec<(String, Node)> = Vec::new();
    let mut i: usize = 0;
    while i < ps.len()
        invariant
            i <= ps@.len(),
            r@.len() == i,
            forall|j: int| 0 <= j < i ==> r@[j].0@ == ps@[j].0@ && node_view(r@[j].1) == node_view(
                ps@[j].1,
            ),
        decreases ps@.len() - i,
    {
        let (name, node) = &ps[i];
        r.push((name.clone(), clone_node(node)));
        i += 1;
    }
    proof {
        lemma_props_view(r@);
        lemma_props_view(ps@);
        assert(props_view(r@) =~= props_view(ps@));
    }
    r
}

} // verus!
