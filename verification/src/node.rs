//! The declarative node tree an application's `view` builds on every update.

use vstd::prelude::*;

use crate::attribute::{attrs_view, spec_eff, AttrV, AttribKey, Attribute, Value, ValueV};
use crate::event::Callback;
use crate::widget::{Widget, WidgetV};

verus! {

/// A node of the declarative tree: rebuilt on every render, never mutated in
/// place.  An element owns a widget tag, its attributes and its ordered
/// children; a text leaf owns a string.
#[derive(Debug, PartialEq)]
pub enum Node<MSG> {
    Element { tag: Widget, attrs: Vec<Attribute<MSG>>, children: Vec<Node<MSG>> },
    Text(String),
}

/// The mathematical value of a node: widget kind, observable attribute
/// content and child order.  This is what contracts and the diff engine
/// speak about.
pub enum NodeV {
    Element { tag: WidgetV, attrs: Seq<AttrV>, children: Seq<NodeV> },
    Text(Seq<char>),
}

impl<MSG> Node<MSG> {
    /// The observable value of this node.
    pub open spec fn nview(self) -> NodeV
        decreases self,
    {
        match self {
            Node::Element { tag, attrs, children } => NodeV::Element {
                tag: tag@,
                attrs: attrs_view(attrs@),
                children: nodes_view(children@),
            },
            Node::Text(t) => NodeV::Text(t@),
        }
    }
}

impl<MSG> View for Node<MSG> {
    type V = NodeV;

    open spec fn view(&self) -> NodeV {
        (*self).nview()
    }
}

/// The views of a sequence of nodes.
pub open spec fn nodes_view<MSG>(s: Seq<Node<MSG>>) -> Seq<NodeV>
    decreases s,
{
    if s.len() == 0 {
        Seq::empty()
    } else {
        seq![s[0].nview()] + nodes_view(s.drop_first())
    }
}

/// `nodes_view` maps the sequence pointwise.
pub proof fn lemma_nodes_view<MSG>(s: Seq<Node<MSG>>)
    ensures
        nodes_view(s).len() == s.len(),
        forall|i: int| 0 <= i < s.len() ==> #[trigger] nodes_view(s)[i] == s[i].nview(),
    decreases s,
{
    if s.len() == 0 {
    } else {
        lemma_nodes_view(s.drop_first());
        assert forall|i: int| 0 <= i < s.len() implies #[trigger] nodes_view(s)[i] == s[i].nview()
        by {
            if i > 0 {
                assert(s.drop_first()[i - 1] == s[i]);
                assert(nodes_view(s)[i] == nodes_view(s.drop_first())[i - 1]);
            }
        }
    }
}

/// A copy of a node, observably equal to the original.
pub fn clone_node<MSG: Clone>(n: &Node<MSG>) -> (r: Node<MSG>)
    ensures
        r@ == n@,
    decreases n,
{
    match n {
        Node::Text(t) => Node::Text(t.clone()),
        Node::Element { tag, attrs, children } => {
            let tag2 = crate::widget::clone_widget(tag);
            let mut attrs2: Vec<Attribute<MSG>> = Vec::new();
            let an = attrs.len();
            let mut i: usize = 0;
            while i < an
                invariant
                    an == attrs.len(),
                    0 <= i <= an,
                    attrs2@.len() == i,
                    forall|k: int| 0 <= k < i ==> attrs2@[k]@ == attrs@[k]@,
                decreases an - i,
            {
                attrs2.push(crate::attribute::clone_attr(&attrs[i]));
                i = i + 1;
            }
            let mut children2: Vec<Node<MSG>> = Vec::new();
            let cn = children.len();
            let mut j: usize = 0;
            while j < cn
                invariant
                    cn == children.len(),
                    0 <= j <= cn,
                    *n is Element,
                    *children == n->Element_children,
                    children2@.len() == j,
                    forall|k: int| 0 <= k < j ==> #[trigger] children2@[k].nview()
                        == children@[k].nview(),
                decreases cn - j,
            {
                proof {
                    assert(decreases_to!(*n => n->Element_children));
                    assert(decreases_to!(*children => children@[j as int]));
                }
                children2.push(clone_node(&children[j]));
                j = j + 1;
            }
            proof {
                assert(attrs_view(attrs2@) =~= attrs_view(attrs@));
                lemma_nodes_view(children2@);
                lemma_nodes_view(children@);
                assert(nodes_view(children2@) =~= nodes_view(children@));
            }
            Node::Element { tag: tag2, attrs: attrs2, children: children2 }
        },
    }
}

/// The identity of a node for child matching: the value of its `Key`
/// attribute, when that attribute is present and plain.  Text leaves carry
/// no key.
pub open spec fn node_key(n: NodeV) -> Option<ValueV> {
    match n {
        NodeV::Element { attrs, .. } => match spec_eff(attrs, AttribKey::Key) {
            Some(AttrV::Plain(_, v)) => Some(v),
            _ => None,
        },
        NodeV::Text(_) => None,
    }
}

/// The key of a node, as a borrowed value: `Some` exactly when the node is
/// an element whose effective `Key` attribute is plain.
pub fn key_of_node<'a, MSG>(n: &'a Node<MSG>) -> (r: Option<&'a Value>)
    ensures
        match r {
            Some(v) => node_key(n@) == Some(v@),
            None => node_key(n@) is None,
        },
{
    match n {
        Node::Element { attrs, .. } => crate::attribute::find_value(AttribKey::Key, attrs),
        Node::Text(_) => None,
    }
}

/// The node a path leads to, walking child indices from depth `d`.
pub open spec fn spec_node_at(t: NodeV, path: Seq<usize>, d: int) -> Option<NodeV>
    decreases path.len() - d,
{
    if d < 0 || d >= path.len() {
        Some(t)
    } else {
        match t {
            NodeV::Element { children, .. } => if (path[d] as int) < children.len() {
                spec_node_at(children[path[d] as int], path, d + 1)
            } else {
                None
            },
            NodeV::Text(_) => None,
        }
    }
}

/// The callback wired at a path, if the path leads to an element whose
/// effective attribute of the key is a handler.  This is how a backend finds
/// the handler a native event belongs to.
pub fn callback_at<'a, MSG>(n: &'a Node<MSG>, path: &Vec<usize>, d: usize, k: AttribKey) -> (r:
    Option<&'a Callback<MSG>>)
    ensures
        match spec_node_at(n@, path@, d as int) {
            Some(t) => match r {
                Some(_) => t is Element && spec_eff(t->Element_attrs, k) == Some(AttrV::Cb(k)),
                None => !(t is Element && spec_eff(t->Element_attrs, k) == Some(AttrV::Cb(k))),
            },
            None => r is None,
        },
    decreases path@.len() - d,
{
    if d >= path.len() {
        match n {
            Node::Element { attrs, .. } => crate::attribute::find_callback(k, attrs),
            Node::Text(_) => None,
        }
    } else {
        match n {
            Node::Element { children, .. } => {
                let idx = path[d];
                if idx < children.len() {
                    proof {
                        lemma_nodes_view(children@);
                    }
                    callback_at(&children[idx], path, d + 1, k)
                } else {
                    proof {
                        lemma_nodes_view(children@);
                    }
                    None
                }
            },
            Node::Text(_) => None,
        }
    }
}

} // verus!
