//! The diff engine: computes a minimal edit script between two node trees,
//! matching children by their optional `Key` attribute and falling back to
//! positional matching.

use vstd::prelude::*;

use crate::attribute::{
    akey, attrs_view, spec_eff, spec_find_attr, AttrV, AttribKey, Attribute, Value, ValueV,
};
use crate::node::{node_key, nodes_view, Node, NodeV};
use crate::widget::{Widget, WidgetV};

verus! {

/// One operation of an edit script.  `at` is the path of child indices from
/// the root, in the tree the script was computed against, to the node the
/// operation targets.
#[derive(Debug, PartialEq)]
pub enum Patch<MSG> {
    /// Replace the text content in place: of a text leaf, or of a `Text`
    /// element's tag payload.
    ChangeText { at: Vec<usize>, text: String },
    /// Replace an `Image` element's encoded bytes in place.
    ChangeImage { at: Vec<usize>, bytes: Vec<u8> },
    /// Discard the whole subtree and build this node's rendering afresh.
    ReplaceNode { at: Vec<usize>, node: Node<MSG> },
    /// Set (or first set) the attribute; a callback attribute means: rebind
    /// the handler slot of that key.
    SetAttribute { at: Vec<usize>, attr: Attribute<MSG> },
    /// Drop every attribute of this key.
    RemoveAttribute { at: Vec<usize>, name: AttribKey },
    /// Remove the child at this index.  A script lists removals in
    /// descending index order, after the patches of kept children.
    RemoveChild { at: Vec<usize>, index: usize },
    /// Append a new child at the end.
    AppendChild { at: Vec<usize>, child: Node<MSG> },
    /// Insert a new child so that it ends up at `index`.  Applied after
    /// removals and reordering, in ascending index order.
    InsertChild { at: Vec<usize>, index: usize, child: Node<MSG> },
    /// Rearrange the kept children: the child at new position `p` is the one
    /// that sat at position `order[p]` after removals.
    ReorderChildren { at: Vec<usize>, order: Vec<usize> },
}

/// The mathematical value of a patch.
pub enum PatchV {
    ChangeText { at: Seq<usize>, text: Seq<char> },
    ChangeImage { at: Seq<usize>, bytes: Seq<u8> },
    ReplaceNode { at: Seq<usize>, node: NodeV },
    SetAttribute { at: Seq<usize>, attr: AttrV },
    RemoveAttribute { at: Seq<usize>, name: AttribKey },
    RemoveChild { at: Seq<usize>, index: usize },
    AppendChild { at: Seq<usize>, child: NodeV },
    InsertChild { at: Seq<usize>, index: usize, child: NodeV },
    ReorderChildren { at: Seq<usize>, order: Seq<usize> },
}

impl<MSG> View for Patch<MSG> {
    type V = PatchV;

    open spec fn view(&self) -> PatchV {
        match self {
            Patch::ChangeText { at, text } => PatchV::ChangeText { at: at@, text: text@ },
            Patch::ChangeImage { at, bytes } => PatchV::ChangeImage { at: at@, bytes: bytes@ },
            Patch::ReplaceNode { at, node } => PatchV::ReplaceNode { at: at@, node: node@ },
            Patch::SetAttribute { at, attr } => PatchV::SetAttribute { at: at@, attr: attr@ },
            Patch::RemoveAttribute { at, name } => PatchV::RemoveAttribute { at: at@, name: *name },
            Patch::RemoveChild { at, index } => PatchV::RemoveChild { at: at@, index: *index },
            Patch::AppendChild { at, child } => PatchV::AppendChild { at: at@, child: child@ },
            Patch::InsertChild { at, index, child } => PatchV::InsertChild {
                at: at@,
                index: *index,
                child: child@,
            },
            Patch::ReorderChildren { at, order } => PatchV::ReorderChildren {
                at: at@,
                order: order@,
            },
        }
    }
}

/// The views of an edit script.
pub open spec fn patches_view<MSG>(s: Seq<Patch<MSG>>) -> Seq<PatchV> {
    s.map_values(|p: Patch<MSG>| p@)
}

/// `patches_view` distributes over push.
pub proof fn lemma_patches_view_push<MSG>(s: Seq<Patch<MSG>>, p: Patch<MSG>)
    ensures
        patches_view(s.push(p)) == patches_view(s) + seq![p@],
{
    assert(patches_view(s.push(p)) =~= patches_view(s) + seq![p@]);
}

/// Two widget tags are diff-compatible when they are the same variant,
/// whatever content the variant carries.
pub open spec fn same_kind(a: WidgetV, b: WidgetV) -> bool {
    match (a, b) {
        (WidgetV::Vbox, WidgetV::Vbox) => true,
        (WidgetV::Hbox, WidgetV::Hbox) => true,
        (WidgetV::Button, WidgetV::Button) => true,
        (WidgetV::Text(_), WidgetV::Text(_)) => true,
        (WidgetV::TextInput, WidgetV::TextInput) => true,
        (WidgetV::Checkbox, WidgetV::Checkbox) => true,
        (WidgetV::Radio, WidgetV::Radio) => true,
        (WidgetV::Image(_), WidgetV::Image(_)) => true,
        _ => false,
    }
}

/// Content carried in the tag itself (`Text`, `Image`) is patched in place
/// when it differs between two tags of the same kind.
pub open spec fn content_diff(a: WidgetV, b: WidgetV, at: Seq<usize>) -> Seq<PatchV> {
    match (a, b) {
        (WidgetV::Text(s1), WidgetV::Text(s2)) => if s1 == s2 {
            Seq::empty()
        } else {
            seq![PatchV::ChangeText { at, text: s2 }]
        },
        (WidgetV::Image(b1), WidgetV::Image(b2)) => if b1 == b2 {
            Seq::empty()
        } else {
            seq![PatchV::ChangeImage { at, bytes: b2 }]
        },
        _ => Seq::empty(),
    }
}

/// Whether the new attribute must be (re)set, given the effective old
/// attribute of the same key.  A plain value is set when the old side lacks
/// the key or holds a different value; a callback is set only when the old
/// side had no handler in that slot, since handler slots are re-bound from
/// the new tree on every cycle anyway.
pub open spec fn need_set(o_eff: Option<AttrV>, na: AttrV) -> bool {
    match na {
        AttrV::Plain(_, v) => match o_eff {
            Some(AttrV::Plain(_, ov)) => ov != v,
            _ => true,
        },
        AttrV::Cb(_) => !(o_eff matches Some(AttrV::Cb(_))),
    }
}

/// `SetAttribute` patches: one for each key whose first (effective)
/// occurrence in the new attributes needs setting.
pub open spec fn spec_attr_sets(o: Seq<AttrV>, n: Seq<AttrV>, at: Seq<usize>, j: int) -> Seq<
    PatchV,
>
    decreases n.len() - j,
{
    if j < 0 || j >= n.len() {
        Seq::empty()
    } else {
        (if spec_find_attr(n, akey(n[j])) == Some(j) && need_set(spec_eff(o, akey(n[j])), n[j]) {
            seq![PatchV::SetAttribute { at, attr: n[j] }]
        } else {
            Seq::empty()
        }) + spec_attr_sets(o, n, at, j + 1)
    }
}

/// `RemoveAttribute` patches: one for each key effective in the old
/// attributes and absent from the new ones.
pub open spec fn spec_attr_removes(o: Seq<AttrV>, n: Seq<AttrV>, at: Seq<usize>, i: int) -> Seq<
    PatchV,
>
    decreases o.len() - i,
{
    if i < 0 || i >= o.len() {
        Seq::empty()
    } else {
        (if spec_find_attr(o, akey(o[i])) == Some(i) && spec_find_attr(n, akey(o[i])) is None {
            seq![PatchV::RemoveAttribute { at, name: akey(o[i]) }]
        } else {
            Seq::empty()
        }) + spec_attr_removes(o, n, at, i + 1)
    }
}

/// The attribute part of the diff of one element.
pub open spec fn spec_attr_diff(o: Seq<AttrV>, n: Seq<AttrV>, at: Seq<usize>) -> Seq<PatchV> {
    spec_attr_sets(o, n, at, 0) + spec_attr_removes(o, n, at, 0)
}

/// First child at or after `i` whose key is `k`.
pub open spec fn spec_find_keyed(c: Seq<NodeV>, k: ValueV, i: int) -> Option<int>
    decreases c.len() - i,
{
    if i < 0 || i >= c.len() {
        None
    } else if node_key(c[i]) == Some(k) {
        Some(i)
    } else {
        spec_find_keyed(c, k, i + 1)
    }
}

/// What `spec_find_keyed` returns, starting from 0: the first child bearing
/// the key, or `None` when no child does.
pub proof fn lemma_find_keyed(c: Seq<NodeV>, k: ValueV, i: int)
    requires
        0 <= i,
    ensures
        match spec_find_keyed(c, k, i) {
            Some(x) => i <= x < c.len() && node_key(c[x]) == Some(k) && (forall|y: int|
                i <= y < x ==> node_key(c[y]) != Some(k)),
            None => forall|y: int| i <= y < c.len() ==> node_key(c[y]) != Some(k),
        },
    decreases c.len() - i,
{
    if i < 0 || i >= c.len() {
    } else if node_key(c[i]) == Some(k) {
    } else {
        lemma_find_keyed(c, k, i + 1);
    }
}

/// Positional fallback: new child `j` pairs with old child `j` when that
/// child exists and carries no key.
pub open spec fn pos_match(o: Seq<NodeV>, j: int) -> Option<int> {
    if 0 <= j < o.len() && node_key(o[j]) is None {
        Some(j)
    } else {
        None
    }
}

/// Which old child the new child at `j` is matched with.  A keyed child
/// matches the first old child of the same key, provided it is the first
/// new child of that key; later duplicates of a key degrade to positional
/// matching (a caller error, accepted rather than rejected).  Unkeyed
/// children match positionally.
pub open spec fn match_of(o: Seq<NodeV>, n: Seq<NodeV>, j: int) -> Option<int> {
    if 0 <= j < n.len() {
        match node_key(n[j]) {
            Some(k) => if spec_find_keyed(n, k, 0) == Some(j) {
                spec_find_keyed(o, k, 0)
            } else {
                pos_match(o, j)
            },
            None => pos_match(o, j),
        }
    } else {
        None
    }
}

/// Whether the old child at `i` is kept by some new child.
pub open spec fn matched_old(o: Seq<NodeV>, n: Seq<NodeV>, i: int) -> bool {
    exists|j: int| 0 <= j < n.len() && match_of(o, n, j) == Some(i)
}

/// How many of the first `i` old children are kept: the position of a kept
/// old child `i` among the survivors of the removals.
pub open spec fn count_matched_below(o: Seq<NodeV>, n: Seq<NodeV>, i: int) -> int
    decreases i,
{
    if i <= 0 {
        0
    } else {
        count_matched_below(o, n, i - 1) + if matched_old(o, n, i - 1) {
            1int
        } else {
            0int
        }
    }
}

/// How many of the first `j` new children are unmatched (freshly inserted).
pub open spec fn count_unmatched_new_below(o: Seq<NodeV>, n: Seq<NodeV>, j: int) -> int
    decreases j,
{
    if j <= 0 {
        0
    } else {
        count_unmatched_new_below(o, n, j - 1) + if match_of(o, n, j - 1) is None {
            1int
        } else {
            0int
        }
    }
}

/// The desired relative order of the kept children: for each new child that
/// has a match, in new order, the position its old child holds among the
/// survivors.
pub open spec fn reorder_order(o: Seq<NodeV>, n: Seq<NodeV>, j: int) -> Seq<usize>
    decreases n.len() - j,
{
    if j < 0 || j >= n.len() {
        Seq::empty()
    } else {
        (match match_of(o, n, j) {
            Some(i) => seq![count_matched_below(o, n, i) as usize],
            None => Seq::empty(),
        }) + reorder_order(o, n, j + 1)
    }
}

/// A sequence is the identity arrangement when every entry names its own
/// position.
pub open spec fn is_identity(s: Seq<usize>) -> bool {
    forall|p: int| 0 <= p < s.len() ==> s[p] == p
}

/// The reorder part of a child diff: one patch, only when the kept children
/// change their relative order.
pub open spec fn child_reorder(o: Seq<NodeV>, n: Seq<NodeV>, at: Seq<usize>) -> Seq<PatchV> {
    if is_identity(reorder_order(o, n, 0)) {
        Seq::empty()
    } else {
        seq![PatchV::ReorderChildren { at, order: reorder_order(o, n, 0) }]
    }
}

/// Removal patches for the old children kept by no new child, in descending
/// index order; `i` counts how many leading old children are still to do.
pub open spec fn child_removes(o: Seq<NodeV>, n: Seq<NodeV>, at: Seq<usize>, i: int) -> Seq<PatchV>
    decreases i,
{
    if i <= 0 {
        Seq::empty()
    } else {
        (if matched_old(o, n, i - 1) {
            Seq::empty()
        } else {
            seq![PatchV::RemoveChild { at, index: (i - 1) as usize }]
        }) + child_removes(o, n, at, i - 1)
    }
}

/// Insertion patches for the new children with no match, in ascending new
/// order.  One landing past every kept child is an append; the others name
/// the final index they must end up at.
pub open spec fn child_inserts(o: Seq<NodeV>, n: Seq<NodeV>, at: Seq<usize>, j: int) -> Seq<PatchV>
    decreases n.len() - j,
{
    if j < 0 || j >= n.len() {
        Seq::empty()
    } else {
        (match match_of(o, n, j) {
            Some(_) => Seq::empty(),
            None => if j == count_matched_below(o, n, o.len() as int) + count_unmatched_new_below(
                o,
                n,
                j,
            ) {
                seq![PatchV::AppendChild { at, child: n[j] }]
            } else {
                seq![PatchV::InsertChild { at, index: j as usize, child: n[j] }]
            },
        }) + child_inserts(o, n, at, j + 1)
    }
}

/// The recursive diffs of the matched child pairs, in ascending new order,
/// each at the path of its old child.
pub open spec fn child_recs(o: Seq<NodeV>, n: Seq<NodeV>, at: Seq<usize>, j: int) -> Seq<PatchV>
    decreases o, n.len() - j,
{
    if j < 0 || j >= n.len() {
        Seq::empty()
    } else {
        (match match_of(o, n, j) {
            Some(i) => if 0 <= i < o.len() {
                spec_diff(o[i], n[j], at.push(i as usize))
            } else {
                Seq::empty()
            },
            None => Seq::empty(),
        }) + child_recs(o, n, at, j + 1)
    }
}

/// The child part of the diff of one element: the kept children's own
/// patches, then removals (descending), then the reorder, then insertions
/// (ascending) — the order a backend applies them in.
pub open spec fn children_diff(o: Seq<NodeV>, n: Seq<NodeV>, at: Seq<usize>) -> Seq<PatchV>
    decreases o, n.len() + 1,
{
    child_recs(o, n, at, 0) + child_removes(o, n, at, o.len() as int) + child_reorder(o, n, at)
        + child_inserts(o, n, at, 0)
}

/// The edit script that turns a rendering of `a` into a rendering of `b`:
/// equal text leaves and equal trees yield nothing; incompatible nodes are
/// replaced wholesale; elements of the same widget kind are patched in
/// place — tag content, then attributes, then children.
pub open spec fn spec_diff(a: NodeV, b: NodeV, at: Seq<usize>) -> Seq<PatchV>
    decreases a, 0int,
{
    match (a, b) {
        (NodeV::Text(s1), NodeV::Text(s2)) => if s1 == s2 {
            Seq::empty()
        } else {
            seq![PatchV::ChangeText { at, text: s2 }]
        },
        (NodeV::Text(_), NodeV::Element { .. }) => seq![PatchV::ReplaceNode { at, node: b }],
        (NodeV::Element { .. }, NodeV::Text(_)) => seq![PatchV::ReplaceNode { at, node: b }],
        (
            NodeV::Element { tag: t1, attrs: a1, children: c1 },
            NodeV::Element { tag: t2, attrs: a2, children: c2 },
        ) => if !same_kind(t1, t2) {
            seq![PatchV::ReplaceNode { at, node: b }]
        } else {
            content_diff(t1, t2, at) + spec_attr_diff(a1, a2, at) + children_diff(c1, c2, at)
        },
    }
}

/// A kept old child index is a real index of the old children.
pub proof fn lemma_match_of_range(o: Seq<NodeV>, n: Seq<NodeV>, j: int)
    ensures
        match_of(o, n, j) matches Some(i) ==> 0 <= i < o.len(),
{
    if 0 <= j < n.len() {
        match node_key(n[j]) {
            Some(k) => {
                lemma_find_keyed(n, k, 0);
                lemma_find_keyed(o, k, 0);
            },
            None => {},
        }
    }
}

/// Appending to either side of a concatenation keeps the other side.
pub proof fn lemma_seq_add_empty<A>(s: Seq<A>)
    ensures
        s + Seq::<A>::empty() == s,
        Seq::<A>::empty() + s == s,
{
    assert(s + Seq::<A>::empty() =~= s);
    assert(Seq::<A>::empty() + s =~= s);
}

/// A copy of a patch path.
pub fn clone_path(at: &Vec<usize>) -> (r: Vec<usize>)
    ensures
        r@ == at@,
{
    let n = at.len();
    let mut out: Vec<usize> = Vec::new();
    let mut i: usize = 0;
    while i < n
        invariant
            n == at.len(),
            0 <= i <= n,
            out@ =~= at@.subrange(0, i as int),
        decreases n - i,
    {
        out.push(at[i]);
        i = i + 1;
    }
    proof {
        assert(out@ =~= at@);
    }
    out
}

/// Index of the first attribute with the given key, if any.
pub fn find_attr_idx<MSG>(attrs: &Vec<Attribute<MSG>>, k: AttribKey) -> (r: Option<usize>)
    ensures
        match r {
            Some(i) => spec_find_attr(attrs_view(attrs@), k) == Some(i as int),
            None => spec_find_attr(attrs_view(attrs@), k) is None,
        },
{
    let n = attrs.len();
    let mut i: usize = 0;
    while i < n
        invariant
            n == attrs.len(),
            0 <= i <= n,
            forall|j: int| 0 <= j < i ==> akey(attrs_view(attrs@)[j]) != k,
        decreases n - i,
    {
        if attrs[i].name == k {
            proof {
                crate::attribute::lemma_find_attr(attrs_view(attrs@), k);
                assert(attrs_view(attrs@)[i as int] == attrs@[i as int]@);
            }
            return Some(i);
        }
        proof {
            assert(attrs_view(attrs@)[i as int] == attrs@[i as int]@);
        }
        i = i + 1;
    }
    proof {
        crate::attribute::lemma_find_attr(attrs_view(attrs@), k);
    }
    None
}

/// Whether the new attribute must be (re)set against the old attribute
/// list.
fn need_set_exec<MSG>(o: &Vec<Attribute<MSG>>, na: &Attribute<MSG>) -> (r: bool)
    ensures
        r == need_set(spec_eff(attrs_view(o@), akey(na@)), na@),
{
    let idx = find_attr_idx(o, na.name);
    proof {
        assert(akey(na@) == na.name);
        crate::attribute::lemma_find_attr(attrs_view(o@), na.name);
        if let Some(i) = idx {
            assert(0 <= i < o@.len());
            assert(attrs_view(o@)[i as int] == o@[i as int]@);
        }
    }
    match &na.value {
        crate::attribute::AttribValue::Plain(v) => match idx {
            Some(i) => match &o[i].value {
                crate::attribute::AttribValue::Plain(ov) => !crate::attribute::value_eq(ov, v),
                crate::attribute::AttribValue::Cb(_) => true,
            },
            None => true,
        },
        crate::attribute::AttribValue::Cb(_) => match idx {
            Some(i) => match &o[i].value {
                crate::attribute::AttribValue::Plain(_) => true,
                crate::attribute::AttribValue::Cb(_) => false,
            },
            None => true,
        },
    }
}

/// Emit the `SetAttribute` patches of one element, from new index `j` on.
fn attr_sets_exec<MSG: Clone>(
    o: &Vec<Attribute<MSG>>,
    n: &Vec<Attribute<MSG>>,
    at: &Vec<usize>,
    j: usize,
    out: &mut Vec<Patch<MSG>>,
)
    ensures
        patches_view(final(out)@) == patches_view(old(out)@) + spec_attr_sets(
            attrs_view(o@),
            attrs_view(n@),
            at@,
            j as int,
        ),
    decreases n@.len() - j,
{
    if j >= n.len() {
        proof {
            lemma_seq_add_empty(patches_view(out@));
        }
        return ;
    }
    proof {
        assert(attrs_view(n@)[j as int] == n@[j as int]@);
        assert(akey(n@[j as int]@) == n@[j as int].name);
    }
    let first = find_attr_idx(n, n[j].name);
    let is_first = match first {
        Some(x) => x == j,
        None => false,
    };
    if is_first && need_set_exec(o, &n[j]) {
        let p = Patch::SetAttribute {
            at: clone_path(at),
            attr: crate::attribute::clone_attr(&n[j]),
        };
        proof {
            lemma_patches_view_push(out@, p);
        }
        let ghost mid = out@;
        out.push(p);
        attr_sets_exec(o, n, at, j + 1, out);
        proof {
            assert(patches_view(final(out)@) =~= patches_view(old(out)@) + spec_attr_sets(
                attrs_view(o@),
                attrs_view(n@),
                at@,
                j as int,
            ));
        }
    } else {
        attr_sets_exec(o, n, at, j + 1, out);
        proof {
            assert(patches_view(final(out)@) =~= patches_view(old(out)@) + spec_attr_sets(
                attrs_view(o@),
                attrs_view(n@),
                at@,
                j as int,
            ));
        }
    }
}

/// Emit the `RemoveAttribute` patches of one element, from old index `i` on.
fn attr_removes_exec<MSG: Clone>(
    o: &Vec<Attribute<MSG>>,
    n: &Vec<Attribute<MSG>>,
    at: &Vec<usize>,
    i: usize,
    out: &mut Vec<Patch<MSG>>,
)
    ensures
        patches_view(final(out)@) == patches_view(old(out)@) + spec_attr_removes(
            attrs_view(o@),
            attrs_view(n@),
            at@,
            i as int,
        ),
    decreases o@.len() - i,
{
    if i >= o.len() {
        proof {
            lemma_seq_add_empty(patches_view(out@));
        }
        return ;
    }
    proof {
        assert(attrs_view(o@)[i as int] == o@[i as int]@);
        assert(akey(o@[i as int]@) == o@[i as int].name);
    }
    let first = find_attr_idx(o, o[i].name);
    let is_first = match first {
        Some(x) => x == i,
        None => false,
    };
    let absent = match find_attr_idx(n, o[i].name) {
        Some(_) => false,
        None => true,
    };
    if is_first && absent {
        let p = Patch::RemoveAttribute { at: clone_path(at), name: o[i].name };
        proof {
            lemma_patches_view_push(out@, p);
        }
        out.push(p);
    }
    attr_removes_exec(o, n, at, i + 1, out);
    proof {
        assert(patches_view(final(out)@) =~= patches_view(old(out)@) + spec_attr_removes(
            attrs_view(o@),
            attrs_view(n@),
            at@,
            i as int,
        ));
    }
}

/// First child at or after `i` whose key equals `k`.
fn find_keyed_exec<MSG>(c: &Vec<Node<MSG>>, k: &Value, i: usize) -> (r: Option<usize>)
    ensures
        match r {
            Some(x) => spec_find_keyed(nodes_view(c@), k@, i as int) == Some(x as int),
            None => spec_find_keyed(nodes_view(c@), k@, i as int) is None,
        },
    decreases c@.len() - i,
{
    proof {
        crate::node::lemma_nodes_view(c@);
    }
    if i >= c.len() {
        return None;
    }
    let here = match crate::node::key_of_node(&c[i]) {
        Some(v) => crate::attribute::value_eq(v, k),
        None => false,
    };
    if here {
        Some(i)
    } else {
        find_keyed_exec(c, k, i + 1)
    }
}

/// The positional fallback match for new child `j`.
fn pos_match_exec<MSG>(o: &Vec<Node<MSG>>, j: usize) -> (r: Option<usize>)
    ensures
        match r {
            Some(x) => pos_match(nodes_view(o@), j as int) == Some(x as int),
            None => pos_match(nodes_view(o@), j as int) is None,
        },
{
    proof {
        crate::node::lemma_nodes_view(o@);
    }
    if j < o.len() {
        match crate::node::key_of_node(&o[j]) {
            None => Some(j),
            Some(_) => None,
        }
    } else {
        None
    }
}

/// The old child matched with new child `j`, if any.
fn match_of_exec<MSG>(o: &Vec<Node<MSG>>, n: &Vec<Node<MSG>>, j: usize) -> (r: Option<usize>)
    requires
        j < n@.len(),
    ensures
        match r {
            Some(x) => match_of(nodes_view(o@), nodes_view(n@), j as int) == Some(x as int),
            None => match_of(nodes_view(o@), nodes_view(n@), j as int) is None,
        },
{
    proof {
        crate::node::lemma_nodes_view(n@);
        crate::node::lemma_nodes_view(o@);
    }
    match crate::node::key_of_node(&n[j]) {
        Some(k) => {
            let first = find_keyed_exec(n, k, 0);
            let is_first = match first {
                Some(x) => x == j,
                None => false,
            };
            if is_first {
                find_keyed_exec(o, k, 0)
            } else {
                pos_match_exec(o, j)
            }
        },
        None => pos_match_exec(o, j),
    }
}

/// Whether old child `i` is kept by some new child.
fn matched_old_exec<MSG>(o: &Vec<Node<MSG>>, n: &Vec<Node<MSG>>, i: usize) -> (r: bool)
    ensures
        r == matched_old(nodes_view(o@), nodes_view(n@), i as int),
{
    proof {
        crate::node::lemma_nodes_view(n@);
    }
    let m = n.len();
    let mut j: usize = 0;
    while j < m
        invariant
            m == n.len(),
            0 <= j <= m,
            m == nodes_view(n@).len(),
            forall|y: int| 0 <= y < j ==> match_of(nodes_view(o@), nodes_view(n@), y) != Some(
                i as int,
            ),
        decreases m - j,
    {
        let got = match match_of_exec(o, n, j) {
            Some(x) => x == i,
            None => false,
        };
        if got {
            proof {
                assert(match_of(nodes_view(o@), nodes_view(n@), j as int) == Some(i as int));
            }
            return true;
        }
        j = j + 1;
    }
    false
}

/// The number of kept old children among the first `i`.
fn count_matched_upto<MSG>(o: &Vec<Node<MSG>>, n: &Vec<Node<MSG>>, i: usize) -> (r: usize)
    requires
        i <= o@.len(),
    ensures
        r as int == count_matched_below(nodes_view(o@), nodes_view(n@), i as int),
        r <= i,
    decreases i,
{
    if i == 0 {
        0
    } else {
        let below = count_matched_upto(o, n, i - 1);
        if matched_old_exec(o, n, i - 1) {
            below + 1
        } else {
            below
        }
    }
}

/// Emit the removal patches for the unmatched old children with index below
/// `i`, in descending order.
fn removes_exec<MSG: Clone>(
    o: &Vec<Node<MSG>>,
    n: &Vec<Node<MSG>>,
    at: &Vec<usize>,
    i: usize,
    out: &mut Vec<Patch<MSG>>,
)
    requires
        i <= o@.len(),
    ensures
        patches_view(final(out)@) == patches_view(old(out)@) + child_removes(
            nodes_view(o@),
            nodes_view(n@),
            at@,
            i as int,
        ),
    decreases i,
{
    if i == 0 {
        proof {
            lemma_seq_add_empty(patches_view(out@));
        }
        return ;
    }
    if !matched_old_exec(o, n, i - 1) {
        let p = Patch::RemoveChild { at: clone_path(at), index: i - 1 };
        proof {
            lemma_patches_view_push(out@, p);
        }
        out.push(p);
    }
    removes_exec(o, n, at, i - 1, out);
    proof {
        assert(patches_view(final(out)@) =~= patches_view(old(out)@) + child_removes(
            nodes_view(o@),
            nodes_view(n@),
            at@,
            i as int,
        ));
    }
}

/// Build the desired relative order of the kept children, from new index
/// `j` on.
fn build_order<MSG>(o: &Vec<Node<MSG>>, n: &Vec<Node<MSG>>, j: usize, ord: &mut Vec<usize>)
    ensures
        final(ord)@ == old(ord)@ + reorder_order(nodes_view(o@), nodes_view(n@), j as int),
    decreases n@.len() - j,
{
    proof {
        crate::node::lemma_nodes_view(n@);
        crate::node::lemma_nodes_view(o@);
    }
    if j >= n.len() {
        proof {
            lemma_seq_add_empty(ord@);
        }
        return ;
    }
    match match_of_exec(o, n, j) {
        Some(i) => {
            proof {
                lemma_match_of_range(nodes_view(o@), nodes_view(n@), j as int);
            }
            let pos = count_matched_upto(o, n, i);
            ord.push(pos);
        },
        None => {},
    }
    build_order(o, n, j + 1, ord);
    proof {
        assert(final(ord)@ =~= old(ord)@ + reorder_order(
            nodes_view(o@),
            nodes_view(n@),
            j as int,
        ));
    }
}

/// Whether an arrangement is the identity.
fn check_identity(v: &Vec<usize>) -> (r: bool)
    ensures
        r == is_identity(v@),
{
    let m = v.len();
    let mut p: usize = 0;
    while p < m
        invariant
            m == v.len(),
            0 <= p <= m,
            forall|q: int| 0 <= q < p ==> v@[q] == q,
        decreases m - p,
    {
        if v[p] != p {
            return false;
        }
        p = p + 1;
    }
    true
}

/// Emit the insertion patches for the unmatched new children from `j` on.
/// `m_total` is the number of kept children, `cu` the number of unmatched
/// new children before `j`.
fn inserts_exec<MSG: Clone>(
    o: &Vec<Node<MSG>>,
    n: &Vec<Node<MSG>>,
    at: &Vec<usize>,
    j: usize,
    m_total: usize,
    cu: usize,
    out: &mut Vec<Patch<MSG>>,
)
    requires
        m_total as int == count_matched_below(nodes_view(o@), nodes_view(n@), nodes_view(o@).len() as int),
        cu as int == count_unmatched_new_below(nodes_view(o@), nodes_view(n@), j as int),
        cu <= j,
    ensures
        patches_view(final(out)@) == patches_view(old(out)@) + child_inserts(
            nodes_view(o@),
            nodes_view(n@),
            at@,
            j as int,
        ),
    decreases n@.len() - j,
{
    proof {
        crate::node::lemma_nodes_view(n@);
        crate::node::lemma_nodes_view(o@);
    }
    if j >= n.len() {
        proof {
            lemma_seq_add_empty(patches_view(out@));
        }
        return ;
    }
    match match_of_exec(o, n, j) {
        Some(_) => {
            inserts_exec(o, n, at, j + 1, m_total, cu, out);
        },
        None => {
            let p = if j >= cu && j - cu == m_total {
                Patch::AppendChild { at: clone_path(at), child: crate::node::clone_node(&n[j]) }
            } else {
                Patch::InsertChild {
                    at: clone_path(at),
                    index: j,
                    child: crate::node::clone_node(&n[j]),
                }
            };
            proof {
                lemma_patches_view_push(out@, p);
            }
            out.push(p);
            inserts_exec(o, n, at, j + 1, m_total, cu + 1, out);
        },
    }
    proof {
        assert(patches_view(final(out)@) =~= patches_view(old(out)@) + child_inserts(
            nodes_view(o@),
            nodes_view(n@),
            at@,
            j as int,
        ));
    }
}

/// Emit the recursive diffs of the matched child pairs from new index `j`
/// on.
fn recs_exec<MSG: Clone>(
    o: &Vec<Node<MSG>>,
    n: &Vec<Node<MSG>>,
    at: &Vec<usize>,
    j: usize,
    out: &mut Vec<Patch<MSG>>,
)
    ensures
        patches_view(final(out)@) == patches_view(old(out)@) + child_recs(
            nodes_view(o@),
            nodes_view(n@),
            at@,
            j as int,
        ),
    decreases o@, n@.len() - j,
{
    proof {
        crate::node::lemma_nodes_view(n@);
        crate::node::lemma_nodes_view(o@);
    }
    if j >= n.len() {
        proof {
            lemma_seq_add_empty(patches_view(out@));
        }
        return ;
    }
    match match_of_exec(o, n, j) {
        Some(i) => {
            proof {
                lemma_match_of_range(nodes_view(o@), nodes_view(n@), j as int);
            }
            let mut at2 = clone_path(at);
            at2.push(i);
            proof {
                assert(decreases_to!(o@ => o@[i as int]));
            }
            diff_at(&o[i], &n[j], &at2, out);
        },
        None => {},
    }
    recs_exec(o, n, at, j + 1, out);
    proof {
        assert(patches_view(final(out)@) =~= patches_view(old(out)@) + child_recs(
            nodes_view(o@),
            nodes_view(n@),
            at@,
            j as int,
        ));
    }
}

/// Emit the whole child diff of one element.
fn diff_children<MSG: Clone>(
    o: &Vec<Node<MSG>>,
    n: &Vec<Node<MSG>>,
    at: &Vec<usize>,
    out: &mut Vec<Patch<MSG>>,
)
    ensures
        patches_view(final(out)@) == patches_view(old(out)@) + children_diff(
            nodes_view(o@),
            nodes_view(n@),
            at@,
        ),
    decreases o@, n@.len() + 1,
{
    proof {
        crate::node::lemma_nodes_view(o@);
        crate::node::lemma_nodes_view(n@);
    }
    recs_exec(o, n, at, 0, out);
    removes_exec(o, n, at, o.len(), out);
    let mut ord: Vec<usize> = Vec::new();
    build_order(o, n, 0, &mut ord);
    if !check_identity(&ord) {
        let p = Patch::ReorderChildren { at: clone_path(at), order: ord };
        proof {
            lemma_patches_view_push(out@, p);
        }
        out.push(p);
    }
    let m_total = count_matched_upto(o, n, o.len());
    inserts_exec(o, n, at, 0, m_total, 0, out);
    proof {
        assert(patches_view(final(out)@) =~= patches_view(old(out)@) + children_diff(
            nodes_view(o@),
            nodes_view(n@),
            at@,
        ));
    }
}

/// Emit the edit script that turns `a` into `b`, at the given path.
fn diff_at<MSG: Clone>(a: &Node<MSG>, b: &Node<MSG>, at: &Vec<usize>, out: &mut Vec<Patch<MSG>>)
    ensures
        patches_view(final(out)@) == patches_view(old(out)@) + spec_diff(a@, b@, at@),
    decreases a, 0int,
{
    match (a, b) {
        (Node::Text(t1), Node::Text(t2)) => {
            if !((*t1) == (*t2)) {
                let p = Patch::ChangeText { at: clone_path(at), text: t2.clone() };
                proof {
                    lemma_patches_view_push(out@, p);
                }
                out.push(p);
            } else {
                proof {
                    lemma_seq_add_empty(patches_view(out@));
                }
            }
        },
        (Node::Text(_), Node::Element { .. }) => {
            let p = Patch::ReplaceNode { at: clone_path(at), node: crate::node::clone_node(b) };
            proof {
                lemma_patches_view_push(out@, p);
            }
            out.push(p);
        },
        (Node::Element { .. }, Node::Text(_)) => {
            let p = Patch::ReplaceNode { at: clone_path(at), node: crate::node::clone_node(b) };
            proof {
                lemma_patches_view_push(out@, p);
            }
            out.push(p);
        },
        (
            Node::Element { tag: t1, attrs: a1, children: c1 },
            Node::Element { tag: t2, attrs: a2, children: c2 },
        ) => {
            if !crate::widget::widget_same_kind(t1, t2) {
                let p = Patch::ReplaceNode { at: clone_path(at), node: crate::node::clone_node(b) };
                proof {
                    lemma_patches_view_push(out@, p);
                }
                out.push(p);
            } else {
                match (t1, t2) {
                    (Widget::Text(s1), Widget::Text(s2)) => {
                        if !((*s1) == (*s2)) {
                            let p = Patch::ChangeText { at: clone_path(at), text: s2.clone() };
                            proof {
                                lemma_patches_view_push(out@, p);
                            }
                            out.push(p);
                        }
                    },
                    (Widget::Image(x), Widget::Image(y)) => {
                        if !crate::widget::bytes_eq(x, y) {
                            let p = Patch::ChangeImage {
                                at: clone_path(at),
                                bytes: crate::widget::clone_bytes(y),
                            };
                            proof {
                                lemma_patches_view_push(out@, p);
                            }
                            out.push(p);
                        }
                    },
                    _ => {},
                }
                attr_sets_exec(a1, a2, at, 0, out);
                attr_removes_exec(a1, a2, at, 0, out);
                proof {
                    assert(decreases_to!(*a => a->Element_children));
                    assert(decreases_to!(*c1 => c1@));
                }
                diff_children(c1, c2, at, out);
                proof {
                    assert(patches_view(final(out)@) =~= patches_view(old(out)@) + spec_diff(
                        a@,
                        b@,
                        at@,
                    ));
                }
            }
        },
    }
}

/// The edit script that turns a rendering of `a` into a rendering of `b`.
/// An empty script means the two trees are observably identical.
pub fn diff<MSG: Clone>(a: &Node<MSG>, b: &Node<MSG>) -> (r: Vec<Patch<MSG>>)
    ensures
        patches_view(r@) == spec_diff(a@, b@, Seq::<usize>::empty()),
{
    let mut out: Vec<Patch<MSG>> = Vec::new();
    let at: Vec<usize> = Vec::new();
    diff_at(a, b, &at, &mut out);
    proof {
        assert(patches_view(Seq::<Patch<MSG>>::empty()) =~= Seq::<PatchV>::empty());
        lemma_seq_add_empty(spec_diff(a@, b@, Seq::<usize>::empty()));
    }
    out
}

} // verus!
