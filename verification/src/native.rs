//! The live native widget tree a backend owns, modelled as a tagged tree,
//! and the patch applier that replays an edit script against it.

use vstd::prelude::*;

use crate::attribute::{akey, attrs_view, spec_find_attr, AttrV, AttribKey, Attribute};
use crate::diff::{patches_view, Patch, PatchV};
use crate::node::{nodes_view, Node, NodeV};
use crate::widget::{Widget, WidgetV};

verus! {

/// A live native widget: what a backend keeps on screen.  It persists
/// across render passes and is mutated by patches, never rebuilt wholesale
/// unless a patch says so.  Its callback attributes are the wired handler
/// slots.
#[derive(Debug, PartialEq)]
pub enum NativeNode<MSG> {
    Widget { kind: Widget, attrs: Vec<Attribute<MSG>>, children: Vec<NativeNode<MSG>> },
    Text(String),
}

impl<MSG> NativeNode<MSG> {
    /// The observable value of this native node: same widget kinds,
    /// attribute values and child order as the node tree it renders.
    pub open spec fn nview(self) -> NodeV
        decreases self,
    {
        match self {
            NativeNode::Widget { kind, attrs, children } => NodeV::Element {
                tag: kind@,
                attrs: attrs_view(attrs@),
                children: natives_view(children@),
            },
            NativeNode::Text(t) => NodeV::Text(t@),
        }
    }
}

impl<MSG> View for NativeNode<MSG> {
    type V = NodeV;

    open spec fn view(&self) -> NodeV {
        (*self).nview()
    }
}

/// The views of a sequence of native nodes.
pub open spec fn natives_view<MSG>(s: Seq<NativeNode<MSG>>) -> Seq<NodeV>
    decreases s,
{
    if s.len() == 0 {
        Seq::empty()
    } else {
        seq![s[0].nview()] + natives_view(s.drop_first())
    }
}

/// `natives_view` maps the sequence pointwise.
pub proof fn lemma_natives_view<MSG>(s: Seq<NativeNode<MSG>>)
    ensures
        natives_view(s).len() == s.len(),
        forall|i: int| 0 <= i < s.len() ==> #[trigger] natives_view(s)[i] == s[i].nview(),
    decreases s,
{
    if s.len() == 0 {
    } else {
        lemma_natives_view(s.drop_first());
        assert forall|i: int| 0 <= i < s.len() implies #[trigger] natives_view(s)[i]
            == s[i].nview() by {
            if i > 0 {
                assert(s.drop_first()[i - 1] == s[i]);
                assert(natives_view(s)[i] == natives_view(s.drop_first())[i - 1]);
            }
        }
    }
}

/// Build the native rendering of a node tree: a fresh native subtree,
/// observably equal to the description it renders.
pub fn render<MSG: Clone>(n: &Node<MSG>) -> (r: NativeNode<MSG>)
    ensures
        r@ == n@,
    decreases n,
{
    match n {
        Node::Text(t) => NativeNode::Text(t.clone()),
        Node::Element { tag, attrs, children } => {
            let kind = crate::widget::clone_widget(tag);
            let mut attrs2: Vec<Attribute<MSG>> = Vec::new();
            let an = attrs.len();
            let mut i: usize = 0;
            while i < an
                invariant
                    an == attrs.len(),
                    0 <= i <= an,
                    attrs2@.len() == i,
                    forall|k: int| 0 <= k < i ==> attrs2@[k]@ == attrs@[k]@,
                decreases an - i,
            {
                attrs2.push(crate::attribute::clone_attr(&attrs[i]));
                i = i + 1;
            }
            let mut children2: Vec<NativeNode<MSG>> = Vec::new();
            let cn = children.len();
            let mut j: usize = 0;
            while j < cn
                invariant
                    cn == children.len(),
                    0 <= j <= cn,
                    *n is Element,
                    *children == n->Element_children,
                    children2@.len() == j,
                    forall|k: int| 0 <= k < j ==> #[trigger] children2@[k].nview()
                        == children@[k].nview(),
                decreases cn - j,
            {
                proof {
                    assert(decreases_to!(*n => n->Element_children));
                    assert(decreases_to!(*children => children@[j as int]));
                }
                children2.push(render(&children[j]));
                j = j + 1;
            }
            proof {
                assert(attrs_view(attrs2@) =~= attrs_view(attrs@));
                lemma_natives_view(children2@);
                crate::node::lemma_nodes_view(children@);
                assert(natives_view(children2@) =~= nodes_view(children@));
            }
            NativeNode::Widget { kind, attrs: attrs2, children: children2 }
        },
    }
}

/// A copy of a native subtree, observably equal to the original.
pub fn clone_native<MSG: Clone>(n: &NativeNode<MSG>) -> (r: NativeNode<MSG>)
    ensures
        r@ == n@,
    decreases n,
{
    match n {
        NativeNode::Text(t) => NativeNode::Text(t.clone()),
        NativeNode::Widget { kind, attrs, children } => {
            let kind2 = crate::widget::clone_widget(kind);
            let mut attrs2: Vec<Attribute<MSG>> = Vec::new();
            let an = attrs.len();
            let mut i: usize = 0;
            while i < an
                invariant
                    an == attrs.len(),
                    0 <= i <= an,
                    attrs2@.len() == i,
                    forall|k: int| 0 <= k < i ==> attrs2@[k]@ == attrs@[k]@,
                decreases an - i,
            {
                attrs2.push(crate::attribute::clone_attr(&attrs[i]));
                i = i + 1;
            }
            let mut children2: Vec<NativeNode<MSG>> = Vec::new();
            let cn = children.len();
            let mut j: usize = 0;
            while j < cn
                invariant
                    cn == children.len(),
                    0 <= j <= cn,
                    *n is Widget,
                    *children == n->Widget_children,
                    children2@.len() == j,
                    forall|k: int| 0 <= k < j ==> #[trigger] children2@[k].nview()
                        == children@[k].nview(),
                decreases cn - j,
            {
                proof {
                    assert(decreases_to!(*n => n->Widget_children));
                    assert(decreases_to!(*children => children@[j as int]));
                }
                children2.push(clone_native(&children[j]));
                j = j + 1;
            }
            proof {
                assert(attrs_view(attrs2@) =~= attrs_view(attrs@));
                lemma_natives_view(children2@);
                lemma_natives_view(children@);
                assert(natives_view(children2@) =~= natives_view(children@));
            }
            NativeNode::Widget { kind: kind2, attrs: attrs2, children: children2 }
        },
    }
}

/// The attribute list after a `SetAttribute`: the first attribute of the
/// key is overwritten in place, or the attribute is appended when the key
/// was absent.
pub open spec fn set_attr_seq(attrs: Seq<AttrV>, a: AttrV) -> Seq<AttrV> {
    match spec_find_attr(attrs, akey(a)) {
        Some(i) => attrs.update(i, a),
        None => attrs.push(a),
    }
}

/// The attribute list after a `RemoveAttribute`: every attribute of the
/// key is dropped, from index `i` on.
pub open spec fn remove_attr_seq(attrs: Seq<AttrV>, k: AttribKey, i: int) -> Seq<AttrV>
    decreases attrs.len() - i,
{
    if i < 0 || i >= attrs.len() {
        Seq::empty()
    } else {
        (if akey(attrs[i]) == k {
            Seq::empty()
        } else {
            seq![attrs[i]]
        }) + remove_attr_seq(attrs, k, i + 1)
    }
}

/// A valid arrangement: a permutation of the child positions.
pub open spec fn valid_order(order: Seq<usize>, len: int) -> bool {
    &&& order.len() == len
    &&& (forall|p: int| 0 <= p < order.len() ==> (#[trigger] order[p]) < len)
    &&& (forall|p1: int, p2: int|
        0 <= p1 < p2 < order.len() ==> order[p1] != order[p2])
}

/// The path a patch targets.
pub open spec fn patch_path_of(p: PatchV) -> Seq<usize> {
    match p {
        PatchV::ChangeText { at, .. } => at,
        PatchV::ChangeImage { at, .. } => at,
        PatchV::ReplaceNode { at, .. } => at,
        PatchV::SetAttribute { at, .. } => at,
        PatchV::RemoveAttribute { at, .. } => at,
        PatchV::RemoveChild { at, .. } => at,
        PatchV::AppendChild { at, .. } => at,
        PatchV::InsertChild { at, .. } => at,
        PatchV::ReorderChildren { at, .. } => at,
    }
}

/// What one patch does to the node it targets; `None` is a structural
/// mismatch — the script was computed against a different tree.
pub open spec fn sapply_here(t: NodeV, p: PatchV) -> Option<NodeV> {
    match p {
        PatchV::ChangeText { text, .. } => match t {
            NodeV::Text(_) => Some(NodeV::Text(text)),
            NodeV::Element { tag, attrs, children } => match tag {
                WidgetV::Text(_) => Some(
                    NodeV::Element { tag: WidgetV::Text(text), attrs, children },
                ),
                _ => None,
            },
        },
        PatchV::ChangeImage { bytes, .. } => match t {
            NodeV::Element { tag, attrs, children } => match tag {
                WidgetV::Image(_) => Some(
                    NodeV::Element { tag: WidgetV::Image(bytes), attrs, children },
                ),
                _ => None,
            },
            NodeV::Text(_) => None,
        },
        PatchV::ReplaceNode { node, .. } => Some(node),
        PatchV::SetAttribute { attr, .. } => match t {
            NodeV::Element { tag, attrs, children } => Some(
                NodeV::Element { tag, attrs: set_attr_seq(attrs, attr), children },
            ),
            NodeV::Text(_) => None,
        },
        PatchV::RemoveAttribute { name, .. } => match t {
            NodeV::Element { tag, attrs, children } => Some(
                NodeV::Element { tag, attrs: remove_attr_seq(attrs, name, 0), children },
            ),
            NodeV::Text(_) => None,
        },
        PatchV::RemoveChild { index, .. } => match t {
            NodeV::Element { tag, attrs, children } => if (index as int) < children.len() {
                Some(NodeV::Element { tag, attrs, children: children.remove(index as int) })
            } else {
                None
            },
            NodeV::Text(_) => None,
        },
        PatchV::AppendChild { child, .. } => match t {
            NodeV::Element { tag, attrs, children } => Some(
                NodeV::Element { tag, attrs, children: children.push(child) },
            ),
            NodeV::Text(_) => None,
        },
        PatchV::InsertChild { index, child, .. } => match t {
            NodeV::Element { tag, attrs, children } => if index as int <= children.len() {
                Some(NodeV::Element { tag, attrs, children: children.insert(index as int, child) })
            } else {
                None
            },
            NodeV::Text(_) => None,
        },
        PatchV::ReorderChildren { order, .. } => match t {
            NodeV::Element { tag, attrs, children } => if valid_order(order, children.len() as int) {
                Some(
                    NodeV::Element {
                        tag,
                        attrs,
                        children: Seq::new(children.len(), |p: int| children[order[p] as int]),
                    },
                )
            } else {
                None
            },
            NodeV::Text(_) => None,
        },
    }
}

/// What one patch does to a tree, walking its path from depth `d`.
pub open spec fn sapply_at(t: NodeV, at: Seq<usize>, d: int, p: PatchV) -> Option<NodeV>
    decreases at.len() - d,
{
    if d < 0 || d >= at.len() {
        sapply_here(t, p)
    } else {
        match t {
            NodeV::Element { tag, attrs, children } => {
                let i = at[d] as int;
                if i < children.len() {
                    match sapply_at(children[i], at, d + 1, p) {
                        Some(c2) => Some(
                            NodeV::Element { tag, attrs, children: children.update(i, c2) },
                        ),
                        None => None,
                    }
                } else {
                    None
                }
            },
            NodeV::Text(_) => None,
        }
    }
}

/// What one patch does to a tree.
pub open spec fn sapply(t: NodeV, p: PatchV) -> Option<NodeV> {
    sapply_at(t, patch_path_of(p), 0, p)
}

/// What a whole edit script does to a tree, from patch `i` on: the patches
/// apply in order, and a single mismatch poisons the whole script.
pub open spec fn sapply_all(t: NodeV, ps: Seq<PatchV>, i: int) -> Option<NodeV>
    decreases ps.len() - i,
{
    if i < 0 || i >= ps.len() {
        Some(t)
    } else {
        match sapply(t, ps[i]) {
            Some(t2) => sapply_all(t2, ps, i + 1),
            None => None,
        }
    }
}

/// Keep, from index `i` on, the attributes whose key is not `k`.
fn remove_attrs_exec<MSG: Clone>(
    attrs: &Vec<Attribute<MSG>>,
    k: AttribKey,
    i: usize,
    out: &mut Vec<Attribute<MSG>>,
)
    ensures
        attrs_view(final(out)@) == attrs_view(old(out)@) + remove_attr_seq(
            attrs_view(attrs@),
            k,
            i as int,
        ),
    decreases attrs@.len() - i,
{
    if i >= attrs.len() {
        proof {
            assert(attrs_view(out@) + remove_attr_seq(attrs_view(attrs@), k, i as int)
                =~= attrs_view(out@));
        }
        return ;
    }
    proof {
        assert(attrs_view(attrs@)[i as int] == attrs@[i as int]@);
        assert(akey(attrs@[i as int]@) == attrs@[i as int].name);
    }
    if !(attrs[i].name == k) {
        let ghost before = out@;
        out.push(crate::attribute::clone_attr(&attrs[i]));
        proof {
            assert(attrs_view(out@) =~= attrs_view(before) + seq![attrs@[i as int]@]);
        }
    }
    remove_attrs_exec(attrs, k, i + 1, out);
    proof {
        assert(attrs_view(final(out)@) =~= attrs_view(old(out)@) + remove_attr_seq(
            attrs_view(attrs@),
            k,
            i as int,
        ));
    }
}

/// Apply one patch to the node it targets.  On a structural mismatch the
/// tree comes back unchanged and the flag is false.
fn apply_here<MSG: Clone>(t: NativeNode<MSG>, p: &Patch<MSG>) -> (r: (NativeNode<MSG>, bool))
    ensures
        match sapply_here(t@, p@) {
            Some(v) => r.1 && r.0@ == v,
            None => !r.1 && r.0@ == t@,
        },
{
    match p {
        Patch::ChangeText { text, .. } => match t {
            NativeNode::Text(_) => (NativeNode::Text(text.clone()), true),
            NativeNode::Widget { kind, attrs, children } => match kind {
                Widget::Text(_) => (
                    NativeNode::Widget { kind: Widget::Text(text.clone()), attrs, children },
                    true,
                ),
                other => (NativeNode::Widget { kind: other, attrs, children }, false),
            },
        },
        Patch::ChangeImage { bytes, .. } => match t {
            NativeNode::Widget { kind, attrs, children } => match kind {
                Widget::Image(_) => (
                    NativeNode::Widget {
                        kind: Widget::Image(crate::widget::clone_bytes(bytes)),
                        attrs,
                        children,
                    },
                    true,
                ),
                other => (NativeNode::Widget { kind: other, attrs, children }, false),
            },
            leaf => (leaf, false),
        },
        Patch::ReplaceNode { node, .. } => (render(node), true),
        Patch::SetAttribute { attr, .. } => match t {
            NativeNode::Widget { kind, mut attrs, children } => {
                proof {
                    crate::attribute::lemma_find_attr(attrs_view(attrs@), akey(attr@));
                    assert(akey(attr@) == attr.name);
                }
                match crate::diff::find_attr_idx(&attrs, attr.name) {
                    Some(i) => {
                        let ghost before = attrs@;
                        attrs.remove(i);
                        attrs.insert(i, crate::attribute::clone_attr(attr));
                        proof {
                            assert(attrs_view(attrs@) =~= set_attr_seq(
                                attrs_view(before),
                                attr@,
                            ));
                        }
                    },
                    None => {
                        let ghost before = attrs@;
                        attrs.push(crate::attribute::clone_attr(attr));
                        proof {
                            assert(attrs_view(attrs@) =~= set_attr_seq(
                                attrs_view(before),
                                attr@,
                            ));
                        }
                    },
                }
                (NativeNode::Widget { kind, attrs, children }, true)
            },
            leaf => (leaf, false),
        },
        Patch::RemoveAttribute { name, .. } => match t {
            NativeNode::Widget { kind, attrs, children } => {
                let mut kept: Vec<Attribute<MSG>> = Vec::new();
                remove_attrs_exec(&attrs, *name, 0, &mut kept);
                proof {
                    assert(attrs_view(kept@) =~= remove_attr_seq(attrs_view(attrs@), *name, 0));
                }
                (NativeNode::Widget { kind, attrs: kept, children }, true)
            },
            leaf => (leaf, false),
        },
        Patch::RemoveChild { index, .. } => match t {
            NativeNode::Widget { kind, attrs, mut children } => {
                if *index < children.len() {
                    let ghost before = children@;
                    children.remove(*index);
                    proof {
                        lemma_natives_view(before);
                        lemma_natives_view(children@);
                        assert(natives_view(children@) =~= natives_view(before).remove(
                            *index as int,
                        ));
                    }
                    (NativeNode::Widget { kind, attrs, children }, true)
                } else {
                    proof {
                        lemma_natives_view(children@);
                    }
                    (NativeNode::Widget { kind, attrs, children }, false)
                }
            },
            leaf => (leaf, false),
        },
        Patch::AppendChild { child, .. } => match t {
            NativeNode::Widget { kind, attrs, mut children } => {
                let ghost before = children@;
                children.push(render(child));
                proof {
                    lemma_natives_view(before);
                    lemma_natives_view(children@);
                    assert(natives_view(children@) =~= natives_view(before).push(child@));
                }
                (NativeNode::Widget { kind, attrs, children }, true)
            },
            leaf => (leaf, false),
        },
        Patch::InsertChild { index, child, .. } => match t {
            NativeNode::Widget { kind, attrs, mut children } => {
                if *index <= children.len() {
                    let ghost before = children@;
                    children.insert(*index, render(child));
                    proof {
                        lemma_natives_view(before);
                        lemma_natives_view(children@);
                        assert(natives_view(children@) =~= natives_view(before).insert(
                            *index as int,
                            child@,
                        ));
                    }
                    (NativeNode::Widget { kind, attrs, children }, true)
                } else {
                    proof {
                        lemma_natives_view(children@);
                    }
                    (NativeNode::Widget { kind, attrs, children }, false)
                }
            },
            leaf => (leaf, false),
        },
        Patch::ReorderChildren { order, .. } => match t {
            NativeNode::Widget { kind, attrs, children } => {
                proof {
                    lemma_natives_view(children@);
                }
                let cn = children.len();
                if order.len() != cn {
                    return (NativeNode::Widget { kind, attrs, children }, false);
                }
                let mut seen: Vec<bool> = Vec::new();
                let mut q: usize = 0;
                while q < cn
                    invariant
                        0 <= q <= cn,
                        seen@.len() == q,
                        forall|x: int| 0 <= x < q ==> seen@[x] == false,
                    decreases cn - q,
                {
                    seen.push(false);
                    q = q + 1;
                }
                let mut p: usize = 0;
                let mut ok = true;
                while p < cn
                    invariant
                        0 <= p <= cn,
                        cn == order@.len(),
                        seen@.len() == cn,
                        ok ==> (forall|x: int| 0 <= x < p ==> (#[trigger] order@[x]) < cn),
                        ok ==> (forall|x1: int, x2: int|
                            0 <= x1 < x2 < p ==> order@[x1] != order@[x2]),
                        ok ==> (forall|x: int|
                            0 <= x < cn ==> (#[trigger] seen@[x] == true) == (exists|y: int|
                                0 <= y < p && order@[y] == x)),
                        !ok ==> !valid_order(order@, cn as int),
                    decreases cn - p,
                {
                    if ok {
                        let ix = order[p];
                        if ix >= cn {
                            ok = false;
                            proof {
                                assert(!valid_order(order@, cn as int));
                            }
                        } else if seen[ix] {
                            ok = false;
                            proof {
                                let y = choose|y: int| 0 <= y < p && order@[y] == ix;
                                assert(order@[y] == order@[p as int]);
                                assert(!valid_order(order@, cn as int));
                            }
                        } else {
                            seen.set(ix, true);
                        }
                    }
                    p = p + 1;
                }
                if !ok {
                    return (NativeNode::Widget { kind, attrs, children }, false);
                }
                proof {
                    assert(valid_order(order@, cn as int));
                }
                let mut out: Vec<NativeNode<MSG>> = Vec::new();
                let mut w: usize = 0;
                while w < cn
                    invariant
                        0 <= w <= cn,
                        cn == order@.len(),
                        cn == children@.len(),
                        forall|x: int| 0 <= x < cn ==> (#[trigger] order@[x]) < cn,
                        out@.len() == w,
                        forall|x: int| 0 <= x < w ==> #[trigger] out@[x].nview()
                            == children@[order@[x] as int].nview(),
                    decreases cn - w,
                {
                    out.push(clone_native(&children[order[w]]));
                    w = w + 1;
                }
                proof {
                    lemma_natives_view(out@);
                    lemma_natives_view(children@);
                    assert(natives_view(out@) =~= Seq::new(
                        natives_view(children@).len(),
                        |x: int| natives_view(children@)[order@[x] as int],
                    ));
                }
                (NativeNode::Widget { kind, attrs, children: out }, true)
            },
            leaf => (leaf, false),
        },
    }
}

/// The path a patch targets, as stored in it.
fn patch_path<'a, MSG>(p: &'a Patch<MSG>) -> (r: &'a Vec<usize>)
    ensures
        r@ == patch_path_of(p@),
{
    match p {
        Patch::ChangeText { at, .. } => at,
        Patch::ChangeImage { at, .. } => at,
        Patch::ReplaceNode { at, .. } => at,
        Patch::SetAttribute { at, .. } => at,
        Patch::RemoveAttribute { at, .. } => at,
        Patch::RemoveChild { at, .. } => at,
        Patch::AppendChild { at, .. } => at,
        Patch::InsertChild { at, .. } => at,
        Patch::ReorderChildren { at, .. } => at,
    }
}

/// Apply one patch, walking its path from depth `d`.  On a mismatch the
/// tree comes back unchanged and the flag is false.
fn apply_patch<MSG: Clone>(t: NativeNode<MSG>, p: &Patch<MSG>, d: usize) -> (r: (
    NativeNode<MSG>,
    bool,
))
    ensures
        match sapply_at(t@, patch_path_of(p@), d as int, p@) {
            Some(v) => r.1 && r.0@ == v,
            None => !r.1 && r.0@ == t@,
        },
    decreases patch_path_of(p@).len() - d,
{
    let at = patch_path(p);
    if d >= at.len() {
        apply_here(t, p)
    } else {
        match t {
            NativeNode::Widget { kind, attrs, mut children } => {
                proof {
                    lemma_natives_view(children@);
                }
                let idx = at[d];
                if idx < children.len() {
                    let ghost before = children@;
                    let child = children.remove(idx);
                    let (child2, ok) = apply_patch(child, p, d + 1);
                    children.insert(idx, child2);
                    proof {
                        lemma_natives_view(children@);
                        lemma_natives_view(before);
                        assert(children@ =~= before.update(idx as int, child2));
                        assert(natives_view(children@) =~= natives_view(before).update(
                            idx as int,
                            child2@,
                        ));
                        if !ok {
                            assert(natives_view(children@) =~= natives_view(before));
                        }
                    }
                    (NativeNode::Widget { kind, attrs, children }, ok)
                } else {
                    (NativeNode::Widget { kind, attrs, children }, false)
                }
            },
            leaf => (leaf, false),
        }
    }
}

/// Why a script was aborted: the first patch that did not fit the tree,
/// and the tree as it stood when the cycle was abandoned.  A mismatch means
/// the script was computed against a different tree — a caller error that
/// is reported, not silently repaired.
#[derive(Debug)]
pub struct ApplyError<MSG> {
    pub index: usize,
    pub tree: NativeNode<MSG>,
}

/// Replay a whole edit script against a native tree.  Patches apply in
/// script order; the first structural mismatch aborts the cycle.
pub fn apply<MSG: Clone>(t: NativeNode<MSG>, script: &Vec<Patch<MSG>>) -> (r: Result<
    NativeNode<MSG>,
    ApplyError<MSG>,
>)
    ensures
        match r {
            Ok(t2) => sapply_all(t@, patches_view(script@), 0) == Some(t2@),
            Err(e) => sapply_all(t@, patches_view(script@), 0) is None && e.index
                < script@.len(),
        },
{
    let n = script.len();
    let mut cur = t;
    let mut i: usize = 0;
    while i < n
        invariant
            n == script@.len(),
            0 <= i <= n,
            sapply_all(t@, patches_view(script@), 0) == sapply_all(
                cur@,
                patches_view(script@),
                i as int,
            ),
        decreases n - i,
    {
        proof {
            assert(patches_view(script@)[i as int] == script@[i as int]@);
        }
        let (next, ok) = apply_patch(cur, &script[i], 0);
        if !ok {
            return Err(ApplyError { index: i, tree: next });
        }
        cur = next;
        i = i + 1;
    }
    Ok(cur)
}

} // verus!
