//! The document tree model.
//!
//! A node is an element (with name, optional namespace data, attributes and
//! children), or text, a comment, character data or a processing instruction.
//! Contracts speak of nodes through their deep view, `NodeV`, on which copies
//! and the metadata filter are stated exactly.

use vstd::prelude::*;
use vstd::string::StringExecFns;

verus! {

broadcast use vstd::seq::group_seq_axioms, vstd::std_specs::vec::group_vec_axioms;

/// An XML element.
#[derive(Debug, PartialEq, Eq)]
pub struct Elem {
    pub name: String,
    pub prefix: Option<String>,
    pub namespace: Option<String>,
    pub namespaces: Option<Vec<(String, String)>>,
    pub attrs: Vec<(String, String)>,
    pub children: Vec<Node>,
}

/// One node of the document tree.
#[derive(Debug, PartialEq, Eq)]
pub enum Node {
    Element(Elem),
    Comment(String),
    CData(String),
    Text(String),
    Pi(String, Option<String>),
}

/// The deep view of an element.
pub struct ElemV {
    pub name: Seq<char>,
    pub prefix: Option<Seq<char>>,
    pub namespace: Option<Seq<char>>,
    pub namespaces: Option<Seq<(Seq<char>, Seq<char>)>>,
    pub attrs: Seq<(Seq<char>, Seq<char>)>,
    pub children: Seq<NodeV>,
}

/// The deep view of a node.
pub enum NodeV {
    Element(ElemV),
    Comment(Seq<char>),
    CData(Seq<char>),
    Text(Seq<char>),
    Pi(Seq<char>, Option<Seq<char>>),
}

pub open spec fn opt_str_view(o: Option<String>) -> Option<Seq<char>> {
    match o {
        Option::None => Option::None,
        Option::Some(s) => Option::Some(s@),
    }
}

pub open spec fn pairs_view(v: Seq<(String, String)>) -> Seq<(Seq<char>, Seq<char>)> {
    Seq::new(v.len(), |i: int| (v[i].0@, v[i].1@))
}

pub open spec fn node_view(n: Node) -> NodeV
    decreases n,
{
    match n {
        Node::Element(e) => NodeV::Element(
            ElemV {
                name: e.name@,
                prefix: opt_str_view(e.prefix),
                namespace: opt_str_view(e.namespace),
                namespaces: match e.namespaces {
                    Option::None => Option::None,
                    Option::Some(v) => Option::Some(pairs_view(v@)),
                },
                attrs: pairs_view(e.attrs@),
                children: nodes_view(e.children@),
            },
        ),
        Node::Comment(s) => NodeV::Comment(s@),
        Node::CData(s) => NodeV::CData(s@),
        Node::Text(s) => NodeV::Text(s@),
        Node::Pi(a, b) => NodeV::Pi(a@, opt_str_view(b)),
    }
}

pub open spec fn nodes_view(s: Seq<Node>) -> Seq<NodeV>
    decreases s,
{
    if s.len() == 0 {
        Seq::empty()
    } else {
        nodes_view(s.drop_last()).push(node_view(s.last()))
    }
}

pub proof fn lemma_nodes_view_len(s: Seq<Node>)
    ensures
        nodes_view(s).len() == s.len(),
    decreases s.len(),
{
    if s.len() > 0 {
        lemma_nodes_view_len(s.drop_last());
    }
}

pub proof fn lemma_nodes_view_index(s: Seq<Node>, i: int)
    requires
        0 <= i < s.len(),
    ensures
        nodes_view(s).len() == s.len(),
        nodes_view(s)[i] == node_view(s[i]),
    decreases s.len(),
{
    lemma_nodes_view_len(s);
    if i < s.len() - 1 {
        lemma_nodes_view_index(s.drop_last(), i);
    } else {
        lemma_nodes_view_len(s.drop_last());
    }
}

/// Whether a top-level node is replicated: only elements are, and elements
/// named `title` or `desc` are not.
pub open spec fn keep_node(n: NodeV) -> bool {
    match n {
        NodeV::Element(e) => e.name != "title"@ && e.name != "desc"@,
        _ => false,
    }
}

/// The subsequence of nodes that are replicated, in order.
pub open spec fn filtered(s: Seq<NodeV>) -> Seq<NodeV>
    decreases s.len(),
{
    if s.len() == 0 {
        Seq::empty()
    } else if keep_node(s.last()) {
        filtered(s.drop_last()).push(s.last())
    } else {
        filtered(s.drop_last())
    }
}

/// Everything the filter passes is a replicated element: in particular no
/// `title` or `desc` element, and no text, comment, character data or
/// processing instruction, ever reaches a group.
pub proof fn lemma_filtered_all_kept(s: Seq<NodeV>)
    ensures
        forall|k: int| 0 <= k < filtered(s).len() ==> keep_node(#[trigger] filtered(s)[k]),
        filtered(s).len() <= s.len(),
    decreases s.len(),
{
    if s.len() > 0 {
        lemma_filtered_all_kept(s.drop_last());
    }
}

fn clone_string_opt(o: &Option<String>) -> (r: Option<String>)
    ensures
        opt_str_view(r) == opt_str_view(*o),
{
    match o {
        Option::None => Option::None,
        Option::Some(s) => Option::Some(s.clone()),
    }
}

#[verifier::loop_isolation(false)]
fn clone_pairs(v: &Vec<(String, String)>) -> (r: Vec<(String, String)>)
    ensures
        pairs_view(r@) == pairs_view(v@),
{
    let mut r: Vec<(String, String)> = Vec::new();
    let mut i: usize = 0;
    while i < v.len()
        invariant
            r@.len() == i <= v@.len(),
            forall|k: int| 0 <= k < i ==> #[trigger] r@[k].0@ == v@[k].0@ && r@[k].1@ == v@[k].1@,
        decreases v@.len() - i,
    {
        let p = (v[i].0.clone(), v[i].1.clone());
        r.push(p);
        i = i + 1;
    }
    proof {
        assert(pairs_view(r@) =~~= pairs_view(v@));
    }
    r
}

fn clone_pairs_opt(o: &Option<Vec<(String, String)>>) -> (r: Option<Vec<(String, String)>>)
    ensures
        match (r, o) {
            (Option::None, Option::None) => true,
            (Option::Some(rv), Option::Some(ov)) => pairs_view(rv@) == pairs_view(ov@),
            _ => false,
        },
{
    match o {
        Option::None => Option::None,
        Option::Some(v) => Option::Some(clone_pairs(v)),
    }
}

/// A deep copy: the copy has the same view as the original, so every fact
/// stated of the original's structure holds of the copy.
#[verifier::loop_isolation(false)]
pub fn clone_node(n: &Node) -> (r: Node)
    ensures
        node_view(r) == node_view(*n),
    decreases *n,
{
    match n {
        Node::Element(e) => {
            let mut kids: Vec<Node> = Vec::new();
            let mut i: usize = 0;
            while i < e.children.len()
                invariant
                    kids@.len() == i <= e.children@.len(),
                    forall|k: int| 0 <= k < i ==> node_view(#[trigger] kids@[k]) == node_view(
                        e.children@[k],
                    ),
                decreases e.children@.len() - i,
            {
                let kid = clone_node(&e.children[i]);
                kids.push(kid);
                i = i + 1;
            }
            proof {
                lemma_nodes_views_equal(kids@, e.children@);
            }
            let r = Node::Element(
                Elem {
                    name: e.name.clone(),
                    prefix: clone_string_opt(&e.prefix),
                    namespace: clone_string_opt(&e.namespace),
                    namespaces: clone_pairs_opt(&e.namespaces),
                    attrs: clone_pairs(&e.attrs),
                    children: kids,
                },
            );
            r
        },
        Node::Comment(s) => Node::Comment(s.clone()),
        Node::CData(s) => Node::CData(s.clone()),
        Node::Text(s) => Node::Text(s.clone()),
        Node::Pi(a, b) => Node::Pi(a.clone(), clone_string_opt(b)),
    }
}

/// Sequences of nodes with pairwise equal views have equal views.
pub proof fn lemma_nodes_views_equal(a: Seq<Node>, b: Seq<Node>)
    requires
        a.len() == b.len(),
        forall|k: int| 0 <= k < a.len() ==> node_view(#[trigger] a[k]) == node_view(b[k]),
    ensures
        nodes_view(a) == nodes_view(b),
    decreases a.len(),
{
    if a.len() > 0 {
        lemma_nodes_views_equal(a.drop_last(), b.drop_last());
    }
}

/// Deep-copies a sequence of nodes.
#[verifier::loop_isolation(false)]
pub fn clone_nodes(v: &Vec<Node>) -> (r: Vec<Node>)
    ensures
        nodes_view(r@) == nodes_view(v@),
{
    let mut r: Vec<Node> = Vec::new();
    let mut i: usize = 0;
    while i < v.len()
        invariant
            r@.len() == i <= v@.len(),
            forall|k: int| 0 <= k < i ==> node_view(#[trigger] r@[k]) == node_view(v@[k]),
        decreases v@.len() - i,
    {
        let c = clone_node(&v[i]);
        r.push(c);
        i = i + 1;
    }
    proof {
        lemma_nodes_views_equal(r@, v@);
    }
    r
}

/// Keeps, in order, copies of the element children that are not named
/// `title` or `desc`; text, comments, character data and processing
/// instructions are dropped.
#[verifier::loop_isolation(false)]
pub fn filter_children(v: &Vec<Node>) -> (out: Vec<Node>)
    ensures
        nodes_view(out@) == filtered(nodes_view(v@)),
{
    let title: String = String::from_str("title");
    let desc: String = String::from_str("desc");
    let ghost w = nodes_view(v@);
    proof {
        lemma_nodes_view_len(v@);
    }
    let mut out: Vec<Node> = Vec::new();
    let mut i: usize = 0;
    while i < v.len()
        invariant
            0 <= i <= v@.len(),
            w == nodes_view(v@),
            w.len() == v@.len(),
            title@ == "title"@,
            desc@ == "desc"@,
            nodes_view(out@) == filtered(w.take(i as int)),
        decreases v@.len() - i,
    {
        proof {
            assert(w.take(i + 1).drop_last() =~= w.take(i as int));
            lemma_nodes_view_index(v@, i as int);
            assert(w.take(i + 1).last() == node_view(v@[i as int]));
        }
        let keep = match &v[i] {
            Node::Element(e) => !(e.name == title) && !(e.name == desc),
            _ => false,
        };
        if keep {
            let ghost old_out = out@;
            let c = clone_node(&v[i]);
            out.push(c);
            proof {
                assert(out@.drop_last() =~= old_out);
                assert(out@.last() == c);
                assert(nodes_view(out@) == nodes_view(old_out).push(node_view(v@[i as int])));
            }
        }
        i = i + 1;
    }
    proof {
        assert(w.take(v@.len() as int) =~= w);
    }
    out
}

} // verus!
