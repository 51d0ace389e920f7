//! Laws of the diff engine, stated over the observable values of trees and
//! proved for every input they speak of.

use vstd::prelude::*;

use crate::attribute::{akey, lemma_find_attr, spec_eff, spec_find_attr, AttrV};
use crate::diff::{
    child_inserts, child_recs, child_removes, child_reorder, children_diff, content_diff,
    count_matched_below, count_unmatched_new_below, is_identity, lemma_find_keyed,
    lemma_seq_add_empty, match_of, matched_old, need_set, pos_match, reorder_order, same_kind,
    spec_attr_removes, spec_attr_sets, spec_diff, spec_find_keyed, PatchV,
};
use crate::node::{node_key, NodeV};
use crate::widget::WidgetV;

verus! {

/// No two keyed siblings share a key.  Duplicate keys are a caller error:
/// the engine degrades them to positional matching, and the laws below
/// leave such trees out.
pub open spec fn distinct_keys(c: Seq<NodeV>) -> bool {
    forall|i1: int, i2: int|
        0 <= i1 < i2 < c.len() && (#[trigger] node_key(c[i1])) is Some ==> node_key(c[i1])
            != #[trigger] node_key(c[i2])
}

/// Each of the children from index `i` on is well keyed.
pub open spec fn well_keyed_all(c: Seq<NodeV>, i: int) -> bool
    decreases c, c.len() - i,
{
    if i < 0 || i >= c.len() {
        true
    } else {
        well_keyed(c[i]) && well_keyed_all(c, i + 1)
    }
}

/// A tree whose sibling keys are distinct everywhere, with child counts a
/// machine word can index.
pub open spec fn well_keyed(t: NodeV) -> bool
    decreases t, 0int,
{
    match t {
        NodeV::Element { children, .. } => distinct_keys(children) && children.len() <= usize::MAX
            && well_keyed_all(children, 0),
        NodeV::Text(_) => true,
    }
}

proof fn lemma_well_keyed_at(c: Seq<NodeV>, j: int, i: int)
    requires
        0 <= j <= i < c.len(),
        well_keyed_all(c, j),
    ensures
        well_keyed(c[i]),
    decreases i - j,
{
    if j < i {
        lemma_well_keyed_at(c, j + 1, i);
    }
}

/// No two attributes share a key.
pub open spec fn distinct_attr_keys(a: Seq<AttrV>) -> bool {
    forall|q1: int, q2: int| 0 <= q1 < q2 < a.len() ==> akey(a[q1]) != akey(a[q2])
}

proof fn lemma_find_attr_distinct(a: Seq<AttrV>, j: int)
    requires
        distinct_attr_keys(a),
        0 <= j < a.len(),
    ensures
        spec_find_attr(a, akey(a[j])) == Some(j),
{
    lemma_find_attr(a, akey(a[j]));
}

proof fn lemma_attr_sets_self(a: Seq<AttrV>, at: Seq<usize>, j: int)
    ensures
        spec_attr_sets(a, a, at, j) == Seq::<PatchV>::empty(),
    decreases a.len() - j,
{
    if j < 0 || j >= a.len() {
    } else {
        lemma_find_attr(a, akey(a[j]));
        if spec_find_attr(a, akey(a[j])) == Some(j) {
            assert(spec_eff(a, akey(a[j])) == Some(a[j]));
            assert(!need_set(Some(a[j]), a[j]));
        }
        lemma_attr_sets_self(a, at, j + 1);
        lemma_seq_add_empty(Seq::<PatchV>::empty());
    }
}

proof fn lemma_attr_removes_self(a: Seq<AttrV>, at: Seq<usize>, i: int)
    ensures
        spec_attr_removes(a, a, at, i) == Seq::<PatchV>::empty(),
    decreases a.len() - i,
{
    if i < 0 || i >= a.len() {
    } else {
        lemma_attr_removes_self(a, at, i + 1);
        lemma_seq_add_empty(Seq::<PatchV>::empty());
    }
}

proof fn lemma_match_of_self(c: Seq<NodeV>, j: int)
    requires
        distinct_keys(c),
        0 <= j < c.len(),
    ensures
        match_of(c, c, j) == Some(j),
{
    match node_key(c[j]) {
        Some(k) => {
            lemma_find_keyed(c, k, 0);
            match spec_find_keyed(c, k, 0) {
                Some(x) => {
                    assert(node_key(c[x]) == Some(k));
                    if x < j {
                        assert(node_key(c[x]) != node_key(c[j]));
                    }
                    assert(x == j);
                },
                None => {
                    assert(node_key(c[j]) != Some(k));
                },
            }
        },
        None => {
            assert(pos_match(c, j) == Some(j));
        },
    }
}

proof fn lemma_matched_old_self(c: Seq<NodeV>, i: int)
    requires
        distinct_keys(c),
        0 <= i < c.len(),
    ensures
        matched_old(c, c, i),
{
    lemma_match_of_self(c, i);
    assert(0 <= i < c.len() && match_of(c, c, i) == Some(i));
}

proof fn lemma_count_matched_self(c: Seq<NodeV>, i: int)
    requires
        distinct_keys(c),
        0 <= i <= c.len(),
    ensures
        count_matched_below(c, c, i) == i,
    decreases i,
{
    if i > 0 {
        lemma_count_matched_self(c, i - 1);
        lemma_matched_old_self(c, i - 1);
    }
}

proof fn lemma_removes_self(c: Seq<NodeV>, at: Seq<usize>, i: int)
    requires
        distinct_keys(c),
        i <= c.len(),
    ensures
        child_removes(c, c, at, i) == Seq::<PatchV>::empty(),
    decreases i,
{
    if i <= 0 {
    } else {
        lemma_matched_old_self(c, i - 1);
        lemma_removes_self(c, at, i - 1);
        lemma_seq_add_empty(Seq::<PatchV>::empty());
    }
}

proof fn lemma_inserts_self(c: Seq<NodeV>, at: Seq<usize>, j: int)
    requires
        distinct_keys(c),
        0 <= j,
    ensures
        child_inserts(c, c, at, j) == Seq::<PatchV>::empty(),
    decreases c.len() - j,
{
    if j >= c.len() {
    } else {
        lemma_match_of_self(c, j);
        lemma_inserts_self(c, at, j + 1);
        lemma_seq_add_empty(Seq::<PatchV>::empty());
    }
}

proof fn lemma_reorder_order_self(c: Seq<NodeV>, j: int)
    requires
        distinct_keys(c),
        0 <= j <= c.len(),
    ensures
        reorder_order(c, c, j).len() == c.len() - j,
        forall|p: int|
            0 <= p < c.len() - j ==> reorder_order(c, c, j)[p] == (j + p) as usize,
    decreases c.len() - j,
{
    if j >= c.len() {
    } else {
        lemma_match_of_self(c, j);
        lemma_count_matched_self(c, j);
        lemma_reorder_order_self(c, j + 1);
        assert forall|p: int|
            0 <= p < c.len() - j implies reorder_order(c, c, j)[p] == (j + p) as usize by {
            if p > 0 {
                assert(reorder_order(c, c, j)[p] == reorder_order(c, c, j + 1)[p - 1]);
            }
        }
    }
}

proof fn lemma_child_reorder_self(c: Seq<NodeV>, at: Seq<usize>)
    requires
        distinct_keys(c),
        c.len() <= usize::MAX,
    ensures
        child_reorder(c, c, at) == Seq::<PatchV>::empty(),
{
    lemma_reorder_order_self(c, 0);
    assert(is_identity(reorder_order(c, c, 0)));
}

proof fn lemma_recs_self(c: Seq<NodeV>, at: Seq<usize>, j: int)
    requires
        distinct_keys(c),
        well_keyed_all(c, 0),
        0 <= j,
    ensures
        child_recs(c, c, at, j) == Seq::<PatchV>::empty(),
    decreases c, c.len() - j,
{
    if j >= c.len() {
    } else {
        lemma_match_of_self(c, j);
        lemma_well_keyed_at(c, 0, j);
        lemma_diff_identity_empty(c[j], at.push(j as usize));
        lemma_recs_self(c, at, j + 1);
        lemma_seq_add_empty(Seq::<PatchV>::empty());
    }
}

proof fn lemma_children_diff_self(c: Seq<NodeV>, at: Seq<usize>)
    requires
        distinct_keys(c),
        well_keyed_all(c, 0),
        c.len() <= usize::MAX,
    ensures
        children_diff(c, c, at) == Seq::<PatchV>::empty(),
    decreases c, c.len() + 1,
{
    lemma_recs_self(c, at, 0);
    lemma_removes_self(c, at, c.len() as int);
    lemma_child_reorder_self(c, at);
    lemma_inserts_self(c, at, 0);
    lemma_seq_add_empty(Seq::<PatchV>::empty());
}

/// Diffing a well-keyed tree against itself yields the empty edit script.
pub proof fn lemma_diff_identity_empty(t: NodeV, at: Seq<usize>)
    requires
        well_keyed(t),
    ensures
        spec_diff(t, t, at) == Seq::<PatchV>::empty(),
    decreases t, 0int,
{
    match t {
        NodeV::Text(_) => {},
        NodeV::Element { tag, attrs, children } => {
            assert(same_kind(tag, tag));
            assert(content_diff(tag, tag, at) == Seq::<PatchV>::empty());
            lemma_attr_sets_self(attrs, at, 0);
            lemma_attr_removes_self(attrs, at, 0);
            lemma_seq_add_empty(Seq::<PatchV>::empty());
            lemma_children_diff_self(children, at);
            assert(spec_diff(t, t, at) =~= Seq::<PatchV>::empty());
        },
    }
}

/// Replacing a text leaf's content yields exactly one content patch — and
/// no patch at all when the content is unchanged.  The node itself is kept.
pub proof fn lemma_text_content_patch(s1: Seq<char>, s2: Seq<char>, at: Seq<usize>)
    ensures
        s1 != s2 ==> spec_diff(NodeV::Text(s1), NodeV::Text(s2), at) == seq![
            PatchV::ChangeText { at, text: s2 },
        ],
        s1 == s2 ==> spec_diff(NodeV::Text(s1), NodeV::Text(s2), at) == Seq::<PatchV>::empty(),
{
}

/// Changing an element's widget kind yields exactly one `ReplaceNode` and
/// zero attribute or child patches for that node.
pub proof fn lemma_kind_change_replaces(a: NodeV, b: NodeV, at: Seq<usize>)
    requires
        a is Element,
        b is Element,
        !same_kind(a->Element_tag, b->Element_tag),
    ensures
        spec_diff(a, b, at) == seq![PatchV::ReplaceNode { at, node: b }],
{
}

proof fn lemma_attr_sets_onechange(
    a1: Seq<AttrV>,
    a2: Seq<AttrV>,
    at: Seq<usize>,
    p: int,
    j: int,
)
    requires
        a2.len() == a1.len(),
        0 <= p < a1.len(),
        forall|q: int| 0 <= q < a1.len() && q != p ==> a1[q] == a2[q],
        akey(a1[p]) == akey(a2[p]),
        a1[p] is Plain,
        a2[p] is Plain,
        a1[p] != a2[p],
        distinct_attr_keys(a1),
        distinct_attr_keys(a2),
        0 <= j,
    ensures
        spec_attr_sets(a1, a2, at, j) == if j <= p {
            seq![PatchV::SetAttribute { at, attr: a2[p] }]
        } else {
            Seq::<PatchV>::empty()
        },
    decreases a2.len() - j,
{
    if j >= a2.len() {
    } else {
        lemma_find_attr_distinct(a2, j);
        lemma_find_attr_distinct(a1, j);
        assert(akey(a2[j]) == akey(a1[j]));
        assert(spec_find_attr(a1, akey(a2[j])) == Some(j));
        assert(spec_eff(a1, akey(a2[j])) == Some(a1[j]));
        if j == p {
            assert(need_set(Some(a1[p]), a2[p]));
        } else {
            assert(!need_set(Some(a1[j]), a2[j]));
        }
        lemma_attr_sets_onechange(a1, a2, at, p, j + 1);
        if j <= p {
            assert(spec_attr_sets(a1, a2, at, j) =~= seq![
                PatchV::SetAttribute { at, attr: a2[p] },
            ]);
        } else {
            assert(spec_attr_sets(a1, a2, at, j) =~= Seq::<PatchV>::empty());
        }
    }
}

proof fn lemma_attr_removes_samekeys(a1: Seq<AttrV>, a2: Seq<AttrV>, at: Seq<usize>, i: int)
    requires
        a2.len() == a1.len(),
        forall|q: int| 0 <= q < a1.len() ==> akey(a1[q]) == akey(a2[q]),
        distinct_attr_keys(a2),
        0 <= i,
    ensures
        spec_attr_removes(a1, a2, at, i) == Seq::<PatchV>::empty(),
    decreases a1.len() - i,
{
    if i >= a1.len() {
    } else {
        lemma_find_attr_distinct(a2, i);
        assert(spec_find_attr(a2, akey(a1[i])) == Some(i));
        lemma_attr_removes_samekeys(a1, a2, at, i + 1);
        lemma_seq_add_empty(Seq::<PatchV>::empty());
    }
}

/// Toggling one plain attribute of an element — same widget kind, same
/// children, every other attribute unchanged — yields exactly one
/// `SetAttribute` patch for that key and no `ReplaceNode`.
pub proof fn lemma_value_toggle_single_patch(
    tag: WidgetV,
    a1: Seq<AttrV>,
    a2: Seq<AttrV>,
    c: Seq<NodeV>,
    at: Seq<usize>,
    p: int,
)
    requires
        a2.len() == a1.len(),
        0 <= p < a1.len(),
        forall|q: int| 0 <= q < a1.len() && q != p ==> a1[q] == a2[q],
        akey(a1[p]) == akey(a2[p]),
        a1[p] is Plain,
        a2[p] is Plain,
        a1[p] != a2[p],
        distinct_attr_keys(a1),
        distinct_keys(c),
        well_keyed_all(c, 0),
        c.len() <= usize::MAX,
    ensures
        spec_diff(
            NodeV::Element { tag, attrs: a1, children: c },
            NodeV::Element { tag, attrs: a2, children: c },
            at,
        ) == seq![PatchV::SetAttribute { at, attr: a2[p] }],
{
    assert forall|q: int| 0 <= q < a1.len() implies akey(a1[q]) == akey(a2[q]) by {}
    assert(distinct_attr_keys(a2));
    assert(same_kind(tag, tag));
    assert(content_diff(tag, tag, at) == Seq::<PatchV>::empty());
    lemma_attr_sets_onechange(a1, a2, at, p, 0);
    lemma_attr_removes_samekeys(a1, a2, at, 0);
    lemma_children_diff_self(c, at);
    assert(spec_diff(
        NodeV::Element { tag, attrs: a1, children: c },
        NodeV::Element { tag, attrs: a2, children: c },
        at,
    ) =~= seq![PatchV::SetAttribute { at, attr: a2[p] }]);
}

proof fn lemma_match_of_push(c: Seq<NodeV>, z: NodeV, j: int)
    requires
        distinct_keys(c),
        node_key(z) is None,
        0 <= j < c.len(),
    ensures
        match_of(c, c.push(z), j) == Some(j),
{
    let n = c.push(z);
    assert(n[j] == c[j]);
    match node_key(c[j]) {
        Some(k) => {
            lemma_find_keyed(n, k, 0);
            match spec_find_keyed(n, k, 0) {
                Some(x) => {
                    assert(node_key(n[x]) == Some(k));
                    if x == c.len() {
                        assert(n[x] == z);
                    }
                    assert(x < c.len());
                    assert(n[x] == c[x]);
                    if x < j {
                        assert(node_key(c[x]) != node_key(c[j]));
                    }
                    assert(x == j);
                },
                None => {
                    assert(node_key(n[j]) != Some(k));
                },
            }
            lemma_find_keyed(c, k, 0);
            match spec_find_keyed(c, k, 0) {
                Some(y) => {
                    if y < j {
                        assert(node_key(c[y]) != node_key(c[j]));
                    }
                    assert(y == j);
                },
                None => {
                    assert(node_key(c[j]) != Some(k));
                },
            }
        },
        None => {
            assert(pos_match(c, j) == Some(j));
        },
    }
}

proof fn lemma_count_matched_push(c: Seq<NodeV>, z: NodeV, i: int)
    requires
        distinct_keys(c),
        node_key(z) is None,
        0 <= i <= c.len(),
    ensures
        count_matched_below(c, c.push(z), i) == i,
    decreases i,
{
    if i > 0 {
        lemma_count_matched_push(c, z, i - 1);
        lemma_match_of_push(c, z, i - 1);
        assert(0 <= i - 1 < c.push(z).len() && match_of(c, c.push(z), i - 1) == Some(i - 1));
        assert(matched_old(c, c.push(z), i - 1));
    }
}

proof fn lemma_removes_push(c: Seq<NodeV>, z: NodeV, at: Seq<usize>, i: int)
    requires
        distinct_keys(c),
        node_key(z) is None,
        i <= c.len(),
    ensures
        child_removes(c, c.push(z), at, i) == Seq::<PatchV>::empty(),
    decreases i,
{
    if i <= 0 {
    } else {
        lemma_match_of_push(c, z, i - 1);
        assert(0 <= i - 1 < c.push(z).len() && match_of(c, c.push(z), i - 1) == Some(i - 1));
        assert(matched_old(c, c.push(z), i - 1));
        lemma_removes_push(c, z, at, i - 1);
        lemma_seq_add_empty(Seq::<PatchV>::empty());
    }
}

proof fn lemma_cu_push(c: Seq<NodeV>, z: NodeV, j: int)
    requires
        distinct_keys(c),
        node_key(z) is None,
        0 <= j <= c.len(),
    ensures
        count_unmatched_new_below(c, c.push(z), j) == 0,
    decreases j,
{
    if j > 0 {
        lemma_match_of_push(c, z, j - 1);
        lemma_cu_push(c, z, j - 1);
    }
}

proof fn lemma_inserts_push(c: Seq<NodeV>, z: NodeV, at: Seq<usize>, j: int)
    requires
        distinct_keys(c),
        node_key(z) is None,
        0 <= j <= c.len(),
    ensures
        child_inserts(c, c.push(z), at, j) == seq![PatchV::AppendChild { at, child: z }],
    decreases c.len() + 1 - j,
{
    let n = c.push(z);
    if j == c.len() {
        assert(node_key(n[j]) is None);
        assert(match_of(c, n, j) is None);
        lemma_count_matched_push(c, z, c.len() as int);
        lemma_cu_push(c, z, j);
        assert(child_inserts(c, n, at, j + 1) == Seq::<PatchV>::empty());
        assert(child_inserts(c, n, at, j) =~= seq![PatchV::AppendChild { at, child: z }]);
    } else {
        lemma_match_of_push(c, z, j);
        lemma_inserts_push(c, z, at, j + 1);
        assert(child_inserts(c, n, at, j) =~= seq![PatchV::AppendChild { at, child: z }]);
    }
}

proof fn lemma_reorder_order_push(c: Seq<NodeV>, z: NodeV, j: int)
    requires
        distinct_keys(c),
        node_key(z) is None,
        0 <= j <= c.len() + 1,
    ensures
        reorder_order(c, c.push(z), j).len() == if j <= c.len() {
            c.len() - j
        } else {
            0int
        },
        forall|p: int|
            0 <= p < c.len() - j ==> reorder_order(c, c.push(z), j)[p] == (j + p) as usize,
    decreases c.len() + 1 - j,
{
    let n = c.push(z);
    if j >= n.len() {
    } else if j == c.len() {
        assert(node_key(n[j]) is None);
        assert(match_of(c, n, j) is None);
        lemma_reorder_order_push(c, z, j + 1);
    } else {
        lemma_match_of_push(c, z, j);
        lemma_count_matched_push(c, z, j);
        lemma_reorder_order_push(c, z, j + 1);
        assert forall|p: int|
            0 <= p < c.len() - j implies reorder_order(c, n, j)[p] == (j + p) as usize by {
            if p > 0 {
                assert(reorder_order(c, n, j)[p] == reorder_order(c, n, j + 1)[p - 1]);
            }
        }
    }
}

proof fn lemma_recs_push(c: Seq<NodeV>, z: NodeV, at: Seq<usize>, j: int)
    requires
        distinct_keys(c),
        well_keyed_all(c, 0),
        node_key(z) is None,
        0 <= j,
    ensures
        child_recs(c, c.push(z), at, j) == Seq::<PatchV>::empty(),
    decreases c.len() + 1 - j,
{
    let n = c.push(z);
    if j >= n.len() {
    } else if j == c.len() {
        assert(node_key(n[j]) is None);
        assert(match_of(c, n, j) is None);
        lemma_recs_push(c, z, at, j + 1);
        lemma_seq_add_empty(Seq::<PatchV>::empty());
    } else {
        lemma_match_of_push(c, z, j);
        lemma_well_keyed_at(c, 0, j);
        assert(n[j] == c[j]);
        lemma_diff_identity_empty(c[j], at.push(j as usize));
        lemma_recs_push(c, z, at, j + 1);
        lemma_seq_add_empty(Seq::<PatchV>::empty());
    }
}

/// Appending one new unkeyed child to an element whose other children are
/// unchanged yields exactly one `AppendChild` patch: the kept children are
/// not touched.
pub proof fn lemma_append_single_patch(
    tag: WidgetV,
    attrs: Seq<AttrV>,
    c: Seq<NodeV>,
    z: NodeV,
    at: Seq<usize>,
)
    requires
        distinct_keys(c),
        well_keyed_all(c, 0),
        c.len() + 1 <= usize::MAX,
        node_key(z) is None,
    ensures
        spec_diff(
            NodeV::Element { tag, attrs, children: c },
            NodeV::Element { tag, attrs, children: c.push(z) },
            at,
        ) == seq![PatchV::AppendChild { at, child: z }],
{
    let n = c.push(z);
    assert(same_kind(tag, tag));
    assert(content_diff(tag, tag, at) == Seq::<PatchV>::empty());
    lemma_attr_sets_self(attrs, at, 0);
    lemma_attr_removes_self(attrs, at, 0);
    lemma_seq_add_empty(Seq::<PatchV>::empty());
    lemma_recs_push(c, z, at, 0);
    lemma_removes_push(c, z, at, c.len() as int);
    lemma_reorder_order_push(c, z, 0);
    assert(is_identity(reorder_order(c, n, 0)));
    lemma_inserts_push(c, z, at, 0);
    assert(spec_diff(
        NodeV::Element { tag, attrs, children: c },
        NodeV::Element { tag, attrs, children: n },
        at,
    ) =~= seq![PatchV::AppendChild { at, child: z }]);
}

/// The hypotheses of the reorder law: `perm` is a permutation of the child
/// positions and `n` arranges the old children by it.
pub open spec fn permuted(c: Seq<NodeV>, n: Seq<NodeV>, perm: Seq<int>) -> bool {
    &&& perm.len() == c.len()
    &&& n.len() == c.len()
    &&& (forall|j: int| 0 <= j < perm.len() ==> 0 <= #[trigger] perm[j] < c.len())
    &&& (forall|j1: int, j2: int| 0 <= j1 < j2 < perm.len() ==> perm[j1] != perm[j2])
    &&& (forall|i: int| #![trigger c[i]]
        0 <= i < c.len() ==> exists|j: int| 0 <= j < perm.len() && #[trigger] perm[j] == i)
    &&& (forall|j: int| 0 <= j < n.len() ==> #[trigger] n[j] == c[perm[j]])
}

proof fn lemma_match_of_perm(c: Seq<NodeV>, n: Seq<NodeV>, perm: Seq<int>, j: int)
    requires
        distinct_keys(c),
        forall|i: int| 0 <= i < c.len() ==> (#[trigger] node_key(c[i])) is Some,
        permuted(c, n, perm),
        0 <= j < n.len(),
    ensures
        match_of(c, n, j) == Some(perm[j]),
{
    let k = node_key(c[perm[j]])->0;
    assert(node_key(n[j]) == Some(k));
    lemma_find_keyed(n, k, 0);
    match spec_find_keyed(n, k, 0) {
        Some(x) => {
            assert(node_key(n[x]) == Some(k));
            assert(n[x] == c[perm[x]]);
            if x != j {
                if perm[x] < perm[j] {
                    assert(node_key(c[perm[x]]) != node_key(c[perm[j]]));
                } else {
                    assert(perm[j] < perm[x]);
                    assert(node_key(c[perm[j]]) != node_key(c[perm[x]]));
                }
            }
            assert(x == j);
        },
        None => {
            assert(node_key(n[j]) != Some(k));
        },
    }
    lemma_find_keyed(c, k, 0);
    match spec_find_keyed(c, k, 0) {
        Some(y) => {
            if y < perm[j] {
                assert(node_key(c[y]) != node_key(c[perm[j]]));
            }
            assert(y == perm[j]);
        },
        None => {
            assert(node_key(c[perm[j]]) != Some(k));
        },
    }
}

proof fn lemma_matched_old_perm(c: Seq<NodeV>, n: Seq<NodeV>, perm: Seq<int>, i: int)
    requires
        distinct_keys(c),
        forall|i2: int| 0 <= i2 < c.len() ==> (#[trigger] node_key(c[i2])) is Some,
        permuted(c, n, perm),
        0 <= i < c.len(),
    ensures
        matched_old(c, n, i),
{
    assert(node_key(c[i]) is Some);
    let j = choose|j: int| 0 <= j < perm.len() && #[trigger] perm[j] == i;
    lemma_match_of_perm(c, n, perm, j);
    assert(0 <= j < n.len() && match_of(c, n, j) == Some(i));
}

proof fn lemma_count_matched_perm(c: Seq<NodeV>, n: Seq<NodeV>, perm: Seq<int>, i: int)
    requires
        distinct_keys(c),
        forall|i2: int| 0 <= i2 < c.len() ==> (#[trigger] node_key(c[i2])) is Some,
        permuted(c, n, perm),
        0 <= i <= c.len(),
    ensures
        count_matched_below(c, n, i) == i,
    decreases i,
{
    if i > 0 {
        lemma_count_matched_perm(c, n, perm, i - 1);
        lemma_matched_old_perm(c, n, perm, i - 1);
    }
}

proof fn lemma_removes_perm(c: Seq<NodeV>, n: Seq<NodeV>, perm: Seq<int>, at: Seq<usize>, i: int)
    requires
        distinct_keys(c),
        forall|i2: int| 0 <= i2 < c.len() ==> (#[trigger] node_key(c[i2])) is Some,
        permuted(c, n, perm),
        i <= c.len(),
    ensures
        child_removes(c, n, at, i) == Seq::<PatchV>::empty(),
    decreases i,
{
    if i <= 0 {
    } else {
        lemma_matched_old_perm(c, n, perm, i - 1);
        lemma_removes_perm(c, n, perm, at, i - 1);
        lemma_seq_add_empty(Seq::<PatchV>::empty());
    }
}

proof fn lemma_inserts_perm(c: Seq<NodeV>, n: Seq<NodeV>, perm: Seq<int>, at: Seq<usize>, j: int)
    requires
        distinct_keys(c),
        forall|i2: int| 0 <= i2 < c.len() ==> (#[trigger] node_key(c[i2])) is Some,
        permuted(c, n, perm),
        0 <= j,
    ensures
        child_inserts(c, n, at, j) == Seq::<PatchV>::empty(),
    decreases n.len() - j,
{
    if j >= n.len() {
    } else {
        lemma_match_of_perm(c, n, perm, j);
        lemma_inserts_perm(c, n, perm, at, j + 1);
        lemma_seq_add_empty(Seq::<PatchV>::empty());
    }
}

proof fn lemma_reorder_order_perm(c: Seq<NodeV>, n: Seq<NodeV>, perm: Seq<int>, j: int)
    requires
        distinct_keys(c),
        forall|i2: int| 0 <= i2 < c.len() ==> (#[trigger] node_key(c[i2])) is Some,
        permuted(c, n, perm),
        0 <= j <= n.len(),
    ensures
        reorder_order(c, n, j).len() == n.len() - j,
        forall|p: int|
            0 <= p < n.len() - j ==> reorder_order(c, n, j)[p] == perm[j + p] as usize,
    decreases n.len() - j,
{
    if j >= n.len() {
    } else {
        lemma_match_of_perm(c, n, perm, j);
        lemma_count_matched_perm(c, n, perm, perm[j]);
        lemma_reorder_order_perm(c, n, perm, j + 1);
        assert forall|p: int|
            0 <= p < n.len() - j implies reorder_order(c, n, j)[p] == perm[j + p] as usize by {
            if p > 0 {
                assert(reorder_order(c, n, j)[p] == reorder_order(c, n, j + 1)[p - 1]);
            }
        }
    }
}

proof fn lemma_recs_perm(c: Seq<NodeV>, n: Seq<NodeV>, perm: Seq<int>, at: Seq<usize>, j: int)
    requires
        distinct_keys(c),
        well_keyed_all(c, 0),
        forall|i2: int| 0 <= i2 < c.len() ==> (#[trigger] node_key(c[i2])) is Some,
        permuted(c, n, perm),
        0 <= j,
    ensures
        child_recs(c, n, at, j) == Seq::<PatchV>::empty(),
    decreases n.len() - j,
{
    if j >= n.len() {
    } else {
        lemma_match_of_perm(c, n, perm, j);
        lemma_well_keyed_at(c, 0, perm[j]);
        assert(n[j] == c[perm[j]]);
        lemma_diff_identity_empty(c[perm[j]], at.push(perm[j] as usize));
        lemma_recs_perm(c, n, perm, at, j + 1);
        lemma_seq_add_empty(Seq::<PatchV>::empty());
    }
}

/// Reordering keyed children yields only a single reorder patch: no child
/// is destroyed and recreated, no append or removal is emitted.
pub proof fn lemma_keyed_reorder_only(
    tag: WidgetV,
    attrs: Seq<AttrV>,
    c: Seq<NodeV>,
    n: Seq<NodeV>,
    perm: Seq<int>,
    at: Seq<usize>,
)
    requires
        distinct_keys(c),
        well_keyed_all(c, 0),
        c.len() <= usize::MAX,
        forall|i: int| 0 <= i < c.len() ==> (#[trigger] node_key(c[i])) is Some,
        permuted(c, n, perm),
        exists|j: int| 0 <= j < perm.len() && #[trigger] perm[j] != j,
    ensures
        spec_diff(
            NodeV::Element { tag, attrs, children: c },
            NodeV::Element { tag, attrs, children: n },
            at,
        ) == seq![
            PatchV::ReorderChildren {
                at,
                order: Seq::new(c.len(), |j: int| perm[j] as usize),
            },
        ],
{
    assert(same_kind(tag, tag));
    assert(content_diff(tag, tag, at) == Seq::<PatchV>::empty());
    lemma_attr_sets_self(attrs, at, 0);
    lemma_attr_removes_self(attrs, at, 0);
    lemma_seq_add_empty(Seq::<PatchV>::empty());
    lemma_recs_perm(c, n, perm, at, 0);
    lemma_removes_perm(c, n, perm, at, c.len() as int);
    lemma_inserts_perm(c, n, perm, at, 0);
    lemma_reorder_order_perm(c, n, perm, 0);
    let ord = reorder_order(c, n, 0);
    assert(ord =~= Seq::new(c.len(), |j: int| perm[j] as usize));
    let j0 = choose|j: int| 0 <= j < perm.len() && #[trigger] perm[j] != j;
    assert(ord[j0] == perm[j0] as usize);
    assert(!is_identity(ord));
    assert(spec_diff(
        NodeV::Element { tag, attrs, children: c },
        NodeV::Element { tag, attrs, children: n },
        at,
    ) =~= seq![
        PatchV::ReorderChildren { at, order: Seq::new(c.len(), |j: int| perm[j] as usize) },
    ]);
}

proof fn lemma_sapply_single(t: NodeV, p: PatchV, t2: NodeV)
    requires
        crate::native::sapply(t, p) == Some(t2),
    ensures
        crate::native::sapply_all(t, seq![p], 0) == Some(t2),
{
    assert(seq![p][0] == p);
    assert(crate::native::sapply_all(t2, seq![p], 1) == Some(t2));
}

/// Replacing a text leaf's content and applying the resulting script to a
/// rendering of the old leaf yields the rendering of the new one.
pub proof fn lemma_apply_diff_text(s1: Seq<char>, s2: Seq<char>)
    ensures
        crate::native::sapply_all(
            NodeV::Text(s1),
            spec_diff(NodeV::Text(s1), NodeV::Text(s2), Seq::<usize>::empty()),
            0,
        ) == Some(NodeV::Text(s2)),
{
    let at = Seq::<usize>::empty();
    lemma_text_content_patch(s1, s2, at);
    if s1 == s2 {
        assert(crate::native::sapply_all(NodeV::Text(s1), Seq::<PatchV>::empty(), 0) == Some(
            NodeV::Text(s2),
        ));
    } else {
        let p = PatchV::ChangeText { at, text: s2 };
        assert(crate::native::sapply(NodeV::Text(s1), p) == Some(NodeV::Text(s2)));
        lemma_sapply_single(NodeV::Text(s1), p, NodeV::Text(s2));
    }
}

/// A widget-kind change replaces the whole subtree: applying the script to
/// the old rendering yields the new tree's rendering directly.
pub proof fn lemma_apply_diff_kind_change(a: NodeV, b: NodeV)
    requires
        a is Element,
        b is Element,
        !same_kind(a->Element_tag, b->Element_tag),
    ensures
        crate::native::sapply_all(a, spec_diff(a, b, Seq::<usize>::empty()), 0) == Some(b),
{
    let at = Seq::<usize>::empty();
    lemma_kind_change_replaces(a, b, at);
    let p = PatchV::ReplaceNode { at, node: b };
    assert(crate::native::sapply(a, p) == Some(b));
    lemma_sapply_single(a, p, b);
}

/// Toggling one plain attribute and applying the one-patch script to the old
/// rendering yields the new rendering: the widget is updated in place.
pub proof fn lemma_apply_diff_value_toggle(
    tag: WidgetV,
    a1: Seq<AttrV>,
    a2: Seq<AttrV>,
    c: Seq<NodeV>,
    p: int,
)
    requires
        a2.len() == a1.len(),
        0 <= p < a1.len(),
        forall|q: int| 0 <= q < a1.len() && q != p ==> a1[q] == a2[q],
        akey(a1[p]) == akey(a2[p]),
        a1[p] is Plain,
        a2[p] is Plain,
        a1[p] != a2[p],
        distinct_attr_keys(a1),
        distinct_keys(c),
        well_keyed_all(c, 0),
        c.len() <= usize::MAX,
    ensures
        crate::native::sapply_all(
            NodeV::Element { tag, attrs: a1, children: c },
            spec_diff(
                NodeV::Element { tag, attrs: a1, children: c },
                NodeV::Element { tag, attrs: a2, children: c },
                Seq::<usize>::empty(),
            ),
            0,
        ) == Some(NodeV::Element { tag, attrs: a2, children: c }),
{
    let at = Seq::<usize>::empty();
    lemma_value_toggle_single_patch(tag, a1, a2, c, at, p);
    lemma_find_attr_distinct(a1, p);
    assert(akey(a2[p]) == akey(a1[p]));
    assert(spec_find_attr(a1, akey(a2[p])) == Some(p));
    assert(crate::native::set_attr_seq(a1, a2[p]) =~= a2);
    let pa = PatchV::SetAttribute { at, attr: a2[p] };
    assert(crate::native::sapply(NodeV::Element { tag, attrs: a1, children: c }, pa) == Some(
        NodeV::Element { tag, attrs: a2, children: c },
    ));
    lemma_sapply_single(
        NodeV::Element { tag, attrs: a1, children: c },
        pa,
        NodeV::Element { tag, attrs: a2, children: c },
    );
}

/// Appending one unkeyed child and applying the one-patch script to the old
/// rendering yields the new rendering: the kept children are untouched.
pub proof fn lemma_apply_diff_append(
    tag: WidgetV,
    attrs: Seq<AttrV>,
    c: Seq<NodeV>,
    z: NodeV,
)
    requires
        distinct_keys(c),
        well_keyed_all(c, 0),
        c.len() + 1 <= usize::MAX,
        node_key(z) is None,
    ensures
        crate::native::sapply_all(
            NodeV::Element { tag, attrs, children: c },
            spec_diff(
                NodeV::Element { tag, attrs, children: c },
                NodeV::Element { tag, attrs, children: c.push(z) },
                Seq::<usize>::empty(),
            ),
            0,
        ) == Some(NodeV::Element { tag, attrs, children: c.push(z) }),
{
    let at = Seq::<usize>::empty();
    lemma_append_single_patch(tag, attrs, c, z, at);
    let pa = PatchV::AppendChild { at, child: z };
    assert(crate::native::sapply(NodeV::Element { tag, attrs, children: c }, pa) == Some(
        NodeV::Element { tag, attrs, children: c.push(z) },
    ));
    lemma_sapply_single(
        NodeV::Element { tag, attrs, children: c },
        pa,
        NodeV::Element { tag, attrs, children: c.push(z) },
    );
}

/// Reordering keyed children and applying the one-patch script to the old
/// rendering yields the new rendering: no child is rebuilt.
pub proof fn lemma_apply_diff_reorder(
    tag: WidgetV,
    attrs: Seq<AttrV>,
    c: Seq<NodeV>,
    n: Seq<NodeV>,
    perm: Seq<int>,
)
    requires
        distinct_keys(c),
        well_keyed_all(c, 0),
        c.len() <= usize::MAX,
        forall|i: int| 0 <= i < c.len() ==> (#[trigger] node_key(c[i])) is Some,
        permuted(c, n, perm),
        exists|j: int| 0 <= j < perm.len() && #[trigger] perm[j] != j,
    ensures
        crate::native::sapply_all(
            NodeV::Element { tag, attrs, children: c },
            spec_diff(
                NodeV::Element { tag, attrs, children: c },
                NodeV::Element { tag, attrs, children: n },
                Seq::<usize>::empty(),
            ),
            0,
        ) == Some(NodeV::Element { tag, attrs, children: n }),
{
    let at = Seq::<usize>::empty();
    lemma_keyed_reorder_only(tag, attrs, c, n, perm, at);
    let ord = Seq::new(c.len(), |j: int| perm[j] as usize);
    assert forall|p1: int, p2: int|
        0 <= p1 < p2 < ord.len() implies ord[p1] != ord[p2] by {
        assert(perm[p1] != perm[p2]);
    }
    assert(crate::native::valid_order(ord, c.len() as int));
    let applied = Seq::new(c.len(), |p: int| c[ord[p] as int]);
    assert(applied =~= n);
    let pa = PatchV::ReorderChildren { at, order: ord };
    assert(crate::native::sapply_here(NodeV::Element { tag, attrs, children: c }, pa) == Some(
        NodeV::Element { tag, attrs, children: applied },
    ));
    assert(crate::native::sapply(NodeV::Element { tag, attrs, children: c }, pa) == Some(
        NodeV::Element { tag, attrs, children: n },
    ));
    lemma_sapply_single(
        NodeV::Element { tag, attrs, children: c },
        pa,
        NodeV::Element { tag, attrs, children: n },
    );
}

} // verus!
