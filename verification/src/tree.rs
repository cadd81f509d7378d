//! A labeled document tree and the generic query primitives over it:
//! find matching nodes, collect text, and fetch the text of a single tag.

use vstd::prelude::*;
use vstd::string::*;

verus! {

broadcast use vstd::std_specs::vec::group_vec_axioms;

/// A child of an element node: a nested element, a text fragment, or
/// another piece of document content (comments, processing instructions,
/// CDATA) that the query primitives pass over.
pub enum NodeChild {
    Elem(Node),
    Text(String),
    Other(String),
}

/// An element node: a name and an ordered sequence of children.
pub struct Node {
    pub name: String,
    pub children: Vec<NodeChild>,
}

/// The mathematical model of a child.
pub enum ChildV {
    Elem(NodeV),
    Text(Seq<char>),
    Other(Seq<char>),
}

/// The mathematical model of an element node.
pub struct NodeV {
    pub name: Seq<char>,
    pub children: Seq<ChildV>,
}

pub open spec fn child_view(c: NodeChild) -> ChildV
    decreases c,
{
    match c {
        NodeChild::Elem(n) => ChildV::Elem(node_view(n)),
        NodeChild::Text(t) => ChildV::Text(t@),
        NodeChild::Other(t) => ChildV::Other(t@),
    }
}

pub open spec fn node_view(n: Node) -> NodeV
    decreases n,
{
    NodeV {
        name: n.name@,
        children: Seq::new(
            n.children@.len(),
            |i: int|
                if 0 <= i < n.children@.len() {
                    child_view(n.children@[i])
                } else {
                    ChildV::Text(Seq::empty())
                },
        ),
    }
}

impl View for Node {
    type V = NodeV;

    open spec fn view(&self) -> NodeV {
        node_view(*self)
    }
}

impl View for NodeChild {
    type V = ChildV;

    open spec fn view(&self) -> ChildV {
        child_view(*self)
    }
}

/// A pure total predicate over a single node, with its executable test.
pub trait NodePred: Sized {
    spec fn spec_test(&self, n: NodeV) -> bool;

    fn test(&self, n: &Node) -> (r: bool)
        ensures
            r == self.spec_test(n@),
    ;
}

/// The predicate of a `NodePred` value, as a spec-level function.
pub open spec fn pred_of<P: NodePred>(p: &P) -> spec_fn(NodeV) -> bool {
    |m: NodeV| p.spec_test(m)
}

/// The predicate that accepts exactly the nodes with a given name.
pub struct NameIs {
    pub name: String,
}

impl NameIs {
    pub fn new(name: &str) -> (r: NameIs)
        ensures
            r.name@ == name@,
    {
        NameIs { name: name.to_owned() }
    }
}

impl NodePred for NameIs {
    open spec fn spec_test(&self, n: NodeV) -> bool {
        n.name == self.name@
    }

    fn test(&self, n: &Node) -> (r: bool) {
        self.name == n.name
    }
}

/// The nodes of the subtree rooted at `n` that satisfy `p`, in document
/// order (pre-order). With `recurse` false, the children of a matching
/// node are not explored; with `recurse` true they always are.
pub open spec fn found(p: spec_fn(NodeV) -> bool, n: NodeV, recurse: bool) -> Seq<NodeV>
    decreases n,
{
    if p(n) && !recurse {
        seq![n]
    } else {
        if p(n) {
            seq![n] + found_from(p, n.children, 0, recurse)
        } else {
            found_from(p, n.children, 0, recurse)
        }
    }
}

/// The nodes satisfying `p` found under the children `cs[i..]`.
pub open spec fn found_from(
    p: spec_fn(NodeV) -> bool,
    cs: Seq<ChildV>,
    i: int,
    recurse: bool,
) -> Seq<NodeV>
    decreases cs, cs.len() - i,
{
    if i < 0 || i >= cs.len() {
        Seq::empty()
    } else {
        let here = match cs[i] {
            ChildV::Elem(m) => found(p, m, recurse),
            ChildV::Text(_) => Seq::empty(),
            ChildV::Other(_) => Seq::empty(),
        };
        here + found_from(p, cs, i + 1, recurse)
    }
}

/// The concatenation of the text fragments under `n`, in document order.
/// With `recurse` true, text inside element children is included too.
pub open spec fn all_text(n: NodeV, recurse: bool) -> Seq<char>
    decreases n,
{
    text_from(n.children, 0, recurse)
}

/// The text collected from the children `cs[i..]`.
pub open spec fn text_from(cs: Seq<ChildV>, i: int, recurse: bool) -> Seq<char>
    decreases cs, cs.len() - i,
{
    if i < 0 || i >= cs.len() {
        Seq::empty()
    } else {
        let here = match cs[i] {
            ChildV::Elem(m) => if recurse {
                all_text(m, recurse)
            } else {
                Seq::empty()
            },
            ChildV::Text(t) => t,
            ChildV::Other(_) => Seq::empty(),
        };
        here + text_from(cs, i + 1, recurse)
    }
}

/// The text of the single node under `n` satisfying `p`: its immediate
/// text if exactly one such node exists, and empty text on zero or
/// several matches (silent degradation, relied on for optional fields).
pub open spec fn tag_text(p: spec_fn(NodeV) -> bool, n: NodeV) -> Seq<char> {
    let f = found(p, n, false);
    if f.len() == 1 {
        all_text(f[0], false)
    } else {
        Seq::empty()
    }
}

/// The views of a sequence of borrowed nodes.
pub open spec fn views_of(s: Seq<&Node>) -> Seq<NodeV> {
    s.map_values(|n: &Node| n@)
}

/// With `recurse` false a matching node seals its subtree: the search
/// returns the node itself alone, so no returned node has an ancestor,
/// up to the nearest matching ancestor, that also matched.
pub proof fn lemma_match_seals_subtree(p: spec_fn(NodeV) -> bool, n: NodeV)
    ensures
        p(n) ==> found(p, n, false) == seq![n],
{
}

/// A node that does not match contributes exactly what its children's
/// subtrees contribute: sibling subtrees are still searched.
pub proof fn lemma_no_match_searches_children(p: spec_fn(NodeV) -> bool, n: NodeV)
    ensures
        !p(n) ==> found(p, n, false) == found_from(p, n.children, 0, false),
{
}

/// Every node the search returns satisfies the predicate.
pub proof fn lemma_found_all_match(p: spec_fn(NodeV) -> bool, n: NodeV, recurse: bool)
    ensures
        forall|i: int|
            0 <= i < found(p, n, recurse).len() ==> p(#[trigger] found(p, n, recurse)[i]),
    decreases n,
{
    let f = found(p, n, recurse);
    if p(n) && !recurse {
    } else {
        lemma_found_from_all_match(p, n.children, 0, recurse);
        let below = found_from(p, n.children, 0, recurse);
        assert forall|i: int| 0 <= i < f.len() implies p(f[i]) by {
            if p(n) {
                assert(f == seq![n] + below);
                if i == 0 {
                    assert(f[i] == n);
                } else {
                    assert(f[i] == below[i - 1]);
                }
            } else {
                assert(f == below);
            }
        }
    }
}

/// Every node found under a child sequence satisfies the predicate.
pub proof fn lemma_found_from_all_match(
    p: spec_fn(NodeV) -> bool,
    cs: Seq<ChildV>,
    i: int,
    recurse: bool,
)
    ensures
        forall|j: int|
            0 <= j < found_from(p, cs, i, recurse).len() ==> p(
                #[trigger] found_from(p, cs, i, recurse)[j],
            ),
    decreases cs, cs.len() - i,
{
    if 0 <= i < cs.len() {
        let here = match cs[i] {
            ChildV::Elem(m) => found(p, m, recurse),
            ChildV::Text(_) => Seq::<NodeV>::empty(),
            ChildV::Other(_) => Seq::<NodeV>::empty(),
        };
        match cs[i] {
            ChildV::Elem(m) => {
                lemma_found_all_match(p, m, recurse);
            },
            ChildV::Text(_) => {
            },
            ChildV::Other(_) => {
            },
        }
        lemma_found_from_all_match(p, cs, i + 1, recurse);
        let rest = found_from(p, cs, i + 1, recurse);
        let f = found_from(p, cs, i, recurse);
        assert forall|j: int| 0 <= j < f.len() implies p(f[j]) by {
            assert(f == here + rest);
            if j < here.len() {
                assert(f[j] == here[j]);
            } else {
                assert(f[j] == rest[j - here.len()]);
            }
        }
    }
}

/// On a tree with exactly one node matching `p`, and text fragments `a`
/// then `b` as that node's children, the tag text is exactly `a + b`.
pub proof fn lemma_tag_text_two_fragments(
    p: spec_fn(NodeV) -> bool,
    n: NodeV,
    a: Seq<char>,
    b: Seq<char>,
)
    requires
        found(p, n, false).len() == 1,
        found(p, n, false)[0].children == seq![ChildV::Text(a), ChildV::Text(b)],
    ensures
        tag_text(p, n) == a + b,
{
    let cs = found(p, n, false)[0].children;
    assert(cs[0] == ChildV::Text(a));
    assert(cs[1] == ChildV::Text(b));
    assert(text_from(cs, 2, false) =~= Seq::<char>::empty());
    assert(text_from(cs, 1, false) == b + text_from(cs, 2, false));
    assert(text_from(cs, 0, false) == a + text_from(cs, 1, false));
    assert(a + (b + Seq::<char>::empty()) =~= a + b);
}

/// On a tree with zero or several nodes matching `p`, the tag text is
/// empty: the single-tag lookup degrades silently.
pub proof fn lemma_tag_text_not_single(p: spec_fn(NodeV) -> bool, n: NodeV)
    requires
        found(p, n, false).len() != 1,
    ensures
        tag_text(p, n) == Seq::<char>::empty(),
{
}

/// Depth-first pre-order search: appends to `finds` every node of the
/// subtree rooted at `tree` that satisfies `testfn`, in document order.
/// With `recurse` false the search does not descend into a matching
/// node, though sibling subtrees are still explored.
pub fn find_all<'a, P: NodePred>(
    tree: &'a Node,
    testfn: &P,
    finds: &mut Vec<&'a Node>,
    recurse: bool,
)
    ensures
        views_of(final(finds)@) == views_of(old(finds)@) + found(pred_of(testfn), tree@, recurse),
    decreases *tree,
{
    let ghost p = pred_of(testfn);
    let ghost cs = tree@.children;
    let matched = testfn.test(tree);
    if matched {
        finds.push(tree);
        if !recurse {
            proof {
                assert(found(p, tree@, recurse) =~= seq![tree@]);
                assert(views_of(finds@) =~= views_of(old(finds)@) + seq![tree@]);
            }
            return ;
        }
    }
    let ghost target = views_of(old(finds)@) + found(p, tree@, recurse);
    proof {
        if matched {
            assert(views_of(finds@) =~= views_of(old(finds)@) + seq![tree@]);
        }
        assert(target =~= views_of(finds@) + found_from(p, cs, 0, recurse));
    }
    let n = tree.children.len();
    let mut i: usize = 0;
    while i < n
        invariant
            n == tree.children.len(),
            0 <= i <= n,
            cs == tree@.children,
            cs.len() == n,
            target == views_of(old(finds)@) + found(p, tree@, recurse),
            p == pred_of(testfn),
            target == views_of(finds@) + found_from(p, cs, i as int, recurse),
        decreases n - i,
    {
        let ghost pre = finds@;
        match &tree.children[i] {
            NodeChild::Elem(child) => {
                proof {
                    assert(cs[i as int] == ChildV::Elem(child@));
                    assert(decreases_to!(tree.children => tree.children[i as int]));
                    assert(decreases_to!(*tree => *child));
                }
                find_all(child, testfn, finds, recurse);
                proof {
                    assert(views_of(finds@) + found_from(p, cs, i + 1, recurse) =~= (views_of(
                        pre,
                    ) + found(p, child@, recurse)) + found_from(p, cs, i + 1, recurse));
                    assert((views_of(pre) + found(p, child@, recurse)) + found_from(
                        p,
                        cs,
                        i + 1,
                        recurse,
                    ) =~= views_of(pre) + (found(p, child@, recurse) + found_from(
                        p,
                        cs,
                        i + 1,
                        recurse,
                    )));
                }
            },
            NodeChild::Text(_) => {
                proof {
                    assert(cs[i as int] is Text);
                    assert(found_from(p, cs, i as int, recurse) =~= Seq::empty() + found_from(
                        p,
                        cs,
                        i + 1,
                        recurse,
                    ));
                    assert(Seq::<NodeV>::empty() + found_from(p, cs, i + 1, recurse) =~= found_from(
                        p,
                        cs,
                        i + 1,
                        recurse,
                    ));
                }
            },
            NodeChild::Other(_) => {
                proof {
                    assert(cs[i as int] is Other);
                    assert(found_from(p, cs, i as int, recurse) =~= Seq::empty() + found_from(
                        p,
                        cs,
                        i + 1,
                        recurse,
                    ));
                    assert(Seq::<NodeV>::empty() + found_from(p, cs, i + 1, recurse) =~= found_from(
                        p,
                        cs,
                        i + 1,
                        recurse,
                    ));
                }
            },
        }
        i = i + 1;
    }
    proof {
        assert(found_from(p, cs, n as int, recurse) =~= Seq::empty());
        assert(views_of(finds@) + Seq::<NodeV>::empty() =~= views_of(finds@));
    }
}

/// Concatenates onto `s` the text fragments under `tree` in document
/// order; with `recurse` true, text inside element children as well.
/// The node's own tag name is never included.
pub fn find_all_text(tree: &Node, s: &mut String, recurse: bool)
    ensures
        final(s)@ == old(s)@ + all_text(tree@, recurse),
    decreases *tree,
{
    let ghost cs = tree@.children;
    let n = tree.children.len();
    let mut i: usize = 0;
    while i < n
        invariant
            n == tree.children.len(),
            0 <= i <= n,
            cs == tree@.children,
            cs.len() == n,
            old(s)@ + all_text(tree@, recurse) == s@ + text_from(cs, i as int, recurse),
        decreases n - i,
    {
        let ghost pre = s@;
        match &tree.children[i] {
            NodeChild::Elem(child) => {
                proof {
                    assert(cs[i as int] == ChildV::Elem(child@));
                }
                if recurse {
                    proof {
                        assert(decreases_to!(tree.children => tree.children[i as int]));
                        assert(decreases_to!(*tree => *child));
                    }
                    find_all_text(child, s, recurse);
                    proof {
                        assert((pre + all_text(child@, recurse)) + text_from(cs, i + 1, recurse)
                            =~= pre + (all_text(child@, recurse) + text_from(cs, i + 1, recurse)));
                    }
                } else {
                    proof {
                        assert(text_from(cs, i as int, recurse) =~= Seq::empty() + text_from(
                            cs,
                            i + 1,
                            recurse,
                        ));
                        assert(Seq::<char>::empty() + text_from(cs, i + 1, recurse) =~= text_from(
                            cs,
                            i + 1,
                            recurse,
                        ));
                    }
                }
            },
            NodeChild::Text(t) => {
                s.append(t.as_str());
                proof {
                    assert(cs[i as int] == ChildV::Text(t@));
                    assert((pre + t@) + text_from(cs, i + 1, recurse) =~= pre + (t@ + text_from(
                        cs,
                        i + 1,
                        recurse,
                    )));
                }
            },
            NodeChild::Other(_) => {
                proof {
                    assert(cs[i as int] is Other);
                    assert(Seq::<char>::empty() + text_from(cs, i + 1, recurse) =~= text_from(
                        cs,
                        i + 1,
                        recurse,
                    ));
                }
            },
        }
        i = i + 1;
    }
    proof {
        assert(text_from(cs, n as int, recurse) =~= Seq::empty());
        assert(s@ + Seq::<char>::empty() =~= s@);
    }
}

/// Appends to `s` the text of the single node under `tree` satisfying
/// `testfn`. On zero or several matches `s` is left as it was: optional
/// fields degrade silently to empty text rather than raising an error.
pub fn find_tag_text<P: NodePred>(tree: &Node, testfn: &P, s: &mut String)
    ensures
        final(s)@ == old(s)@ + tag_text(pred_of(testfn), tree@),
{
    let ghost p = pred_of(testfn);
    let mut itemelts: Vec<&Node> = Vec::new();
    find_all(tree, testfn, &mut itemelts, false);
    proof {
        assert(views_of(Seq::<&Node>::empty()) =~= Seq::<NodeV>::empty());
        assert(Seq::<NodeV>::empty() + found(p, tree@, false) =~= found(p, tree@, false));
        assert(views_of(itemelts@).len() == itemelts@.len());
    }
    if itemelts.len() != 1 {
        proof {
            assert(s@ + tag_text(p, tree@) =~= s@);
        }
        return ;
    }
    proof {
        assert(itemelts@[0]@ == views_of(itemelts@)[0]);
        assert(itemelts@[0]@ == found(p, tree@, false)[0]);
    }
    find_all_text(itemelts[0], s, false);
}

} // verus!
