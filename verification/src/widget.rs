//! The closed set of abstract widget kinds, and the constructors an
//! application's `view` builds its tree with.

use vstd::prelude::*;

use crate::attribute::Attribute;
use crate::node::{Node, NodeV};

verus! {

/// What native construct a node renders to.  `Text` and `Image` carry their
/// content in the tag itself; the other kinds derive content from
/// attributes.
#[derive(Clone, Debug, PartialEq)]
pub enum Widget {
    Vbox,
    Hbox,
    Button,
    Text(String),
    TextInput,
    Checkbox,
    Radio,
    Image(Vec<u8>),
}

/// The mathematical value of a widget tag.
pub enum WidgetV {
    Vbox,
    Hbox,
    Button,
    Text(Seq<char>),
    TextInput,
    Checkbox,
    Radio,
    Image(Seq<u8>),
}

impl View for Widget {
    type V = WidgetV;

    open spec fn view(&self) -> WidgetV {
        match self {
            Widget::Vbox => WidgetV::Vbox,
            Widget::Hbox => WidgetV::Hbox,
            Widget::Button => WidgetV::Button,
            Widget::Text(s) => WidgetV::Text(s@),
            Widget::TextInput => WidgetV::TextInput,
            Widget::Checkbox => WidgetV::Checkbox,
            Widget::Radio => WidgetV::Radio,
            Widget::Image(b) => WidgetV::Image(b@),
        }
    }
}

/// Whether two byte sequences are equal.
pub fn bytes_eq(a: &Vec<u8>, b: &Vec<u8>) -> (r: bool)
    ensures
        r == (a@ == b@),
{
    if a.len() != b.len() {
        return false;
    }
    let n = a.len();
    let mut i: usize = 0;
    while i < n
        invariant
            n == a.len() && n == b.len(),
            0 <= i <= n,
            forall|j: int| 0 <= j < i ==> a@[j] == b@[j],
        decreases n - i,
    {
        if a[i] != b[i] {
            return false;
        }
        i = i + 1;
    }
    proof {
        assert(a@ =~= b@);
    }
    true
}

/// A copy of a byte vector.
pub fn clone_bytes(b: &Vec<u8>) -> (r: Vec<u8>)
    ensures
        r@ == b@,
{
    let n = b.len();
    let mut out: Vec<u8> = Vec::new();
    let mut i: usize = 0;
    while i < n
        invariant
            n == b.len(),
            0 <= i <= n,
            out@ =~= b@.subrange(0, i as int),
        decreases n - i,
    {
        out.push(b[i]);
        i = i + 1;
    }
    proof {
        assert(out@ =~= b@);
    }
    out
}

/// Whether two tags are the same widget kind, whatever content they carry.
pub fn widget_same_kind(a: &Widget, b: &Widget) -> (r: bool)
    ensures
        r == crate::diff::same_kind(a@, b@),
{
    match (a, b) {
        (Widget::Vbox, Widget::Vbox) => true,
        (Widget::Hbox, Widget::Hbox) => true,
        (Widget::Button, Widget::Button) => true,
        (Widget::Text(_), Widget::Text(_)) => true,
        (Widget::TextInput, Widget::TextInput) => true,
        (Widget::Checkbox, Widget::Checkbox) => true,
        (Widget::Radio, Widget::Radio) => true,
        (Widget::Image(_), Widget::Image(_)) => true,
        _ => false,
    }
}

/// A copy of a widget tag.
pub fn clone_widget(w: &Widget) -> (r: Widget)
    ensures
        r@ == w@,
{
    match w {
        Widget::Vbox => Widget::Vbox,
        Widget::Hbox => Widget::Hbox,
        Widget::Button => Widget::Button,
        Widget::Text(s) => Widget::Text(s.clone()),
        Widget::TextInput => Widget::TextInput,
        Widget::Checkbox => Widget::Checkbox,
        Widget::Radio => Widget::Radio,
        Widget::Image(b) => Widget::Image(clone_bytes(b)),
    }
}

/// An element node with the given tag, attributes and children.
pub fn widget<MSG>(kind: Widget, attrs: Vec<Attribute<MSG>>, children: Vec<Node<MSG>>) -> (r:
    Node<MSG>)
    ensures
        r@ == (NodeV::Element {
            tag: kind@,
            attrs: crate::attribute::attrs_view(attrs@),
            children: crate::node::nodes_view(children@),
        }),
{
    Node::Element { tag: kind, attrs, children }
}

/// A vertical box.
pub fn column<MSG>(attrs: Vec<Attribute<MSG>>, children: Vec<Node<MSG>>) -> (r: Node<MSG>)
    ensures
        r@ == (NodeV::Element {
            tag: WidgetV::Vbox,
            attrs: crate::attribute::attrs_view(attrs@),
            children: crate::node::nodes_view(children@),
        }),
{
    widget(Widget::Vbox, attrs, children)
}

/// A horizontal box.
pub fn row<MSG>(attrs: Vec<Attribute<MSG>>, children: Vec<Node<MSG>>) -> (r: Node<MSG>)
    ensures
        r@ == (NodeV::Element {
            tag: WidgetV::Hbox,
            attrs: crate::attribute::attrs_view(attrs@),
            children: crate::node::nodes_view(children@),
        }),
{
    widget(Widget::Hbox, attrs, children)
}

/// A button.
pub fn button<MSG>(attrs: Vec<Attribute<MSG>>) -> (r: Node<MSG>)
    ensures
        r@ == (NodeV::Element {
            tag: WidgetV::Button,
            attrs: crate::attribute::attrs_view(attrs@),
            children: Seq::<NodeV>::empty(),
        }),
{
    widget(Widget::Button, attrs, Vec::new())
}

/// A read-only text view.
pub fn text<MSG>(txt: &str) -> (r: Node<MSG>)
    ensures
        r@ == (NodeV::Element {
            tag: WidgetV::Text(txt@),
            attrs: Seq::<crate::attribute::AttrV>::empty(),
            children: Seq::<NodeV>::empty(),
        }),
{
    proof {
        crate::attribute::lemma_attrs_view_empty::<MSG>();
    }
    widget(Widget::Text(txt.to_owned()), Vec::new(), Vec::new())
}

/// An editable single-line field.
pub fn text_input<MSG>(attrs: Vec<Attribute<MSG>>) -> (r: Node<MSG>)
    ensures
        r@ == (NodeV::Element {
            tag: WidgetV::TextInput,
            attrs: crate::attribute::attrs_view(attrs@),
            children: Seq::<NodeV>::empty(),
        }),
{
    widget(Widget::TextInput, attrs, Vec::new())
}

/// A checkbox.
pub fn checkbox<MSG>(attrs: Vec<Attribute<MSG>>) -> (r: Node<MSG>)
    ensures
        r@ == (NodeV::Element {
            tag: WidgetV::Checkbox,
            attrs: crate::attribute::attrs_view(attrs@),
            children: Seq::<NodeV>::empty(),
        }),
{
    widget(Widget::Checkbox, attrs, Vec::new())
}

/// A radio button.
pub fn radio<MSG>(attrs: Vec<Attribute<MSG>>) -> (r: Node<MSG>)
    ensures
        r@ == (NodeV::Element {
            tag: WidgetV::Radio,
            attrs: crate::attribute::attrs_view(attrs@),
            children: Seq::<NodeV>::empty(),
        }),
{
    widget(Widget::Radio, attrs, Vec::new())
}

/// An image displaying the given encoded bytes.
pub fn image<MSG>(bytes: Vec<u8>) -> (r: Node<MSG>)
    ensures
        r@ == (NodeV::Element {
            tag: WidgetV::Image(bytes@),
            attrs: Seq::<crate::attribute::AttrV>::empty(),
            children: Seq::<NodeV>::empty(),
        }),
{
    proof {
        crate::attribute::lemma_attrs_view_empty::<MSG>();
    }
    widget(Widget::Image(bytes), Vec::new(), Vec::new())
}

/// A leaf text node.
pub fn text_leaf<MSG>(txt: &str) -> (r: Node<MSG>)
    ensures
        r@ == NodeV::Text(txt@),
{
    Node::Text(txt.to_owned())
}

} // verus!
