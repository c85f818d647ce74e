//! Names in the scene: that no two nodes share one.
//!
//! A scene is well named when every node has a name of its own and no name
//! that its counter has yet to reach is in use. An empty scene is well named,
//! and every change that the editor makes to a scene keeps it so: new shapes
//! get the next name, and everything else moves or alters nodes without
//! renaming any.

use vstd::prelude::*;
use crate::drag_laws::roots_found_by_name;
use crate::drag_state::baseline_of;
use crate::drag_state::DragView;
use crate::editor::capped;
use crate::editor::EditorView;
use crate::editor::placed;
use crate::editor::restyled;
use crate::ids::id_text;
use crate::ids::lemma_id_text_injective;
use crate::math::TransformMatrix;
use crate::pen_state::PenView;
use crate::scalar::Scalar;
use crate::scene::find_node;
use crate::scene::lemma_root_position;
use crate::scene::lowered;
use crate::scene::NodeView;
use crate::scene::ObjectView;
use crate::scene::placed_root;
use crate::scene::raised;
use crate::scene::reshaped_root;
use crate::scene::restyled_root;
use crate::scene::root_position;
use crate::scene::SceneView;
use crate::scene::StyleView;

verus! {

/// The names of the nodes below a group, or nothing for a leaf.
pub open spec fn names_below(node: NodeView) -> Seq<Seq<char>>
    decreases node, 0int,
{
    match node {
        NodeView::Group { children, .. } => tree_names(children),
        NodeView::Leaf { .. } => Seq::empty(),
    }
}

/// The names of a run of nodes and of everything below them, each node
/// before its children.
pub open spec fn tree_names(nodes: Seq<NodeView>) -> Seq<Seq<char>>
    decreases nodes, 1int,
{
    if nodes.len() == 0 {
        Seq::empty()
    } else {
        seq![nodes[0].id()] + names_below(nodes[0]) + tree_names(nodes.skip(1))
    }
}

/// The names of one node and of everything below it.
pub open spec fn node_names(node: NodeView) -> Seq<Seq<char>> {
    seq![node.id()] + names_below(node)
}

/// Whether a scene is well named: no name occurs twice, and no name that
/// the counter has yet to reach occurs at all.
pub open spec fn well_named(scene: SceneView) -> bool {
    &&& tree_names(scene.roots).no_duplicates()
    &&& forall|k: nat| k > scene.id_counter ==> !tree_names(scene.roots).contains(#[trigger] id_text(k))
}

/// Whether every scene in a history stack is well named.
pub open spec fn all_well_named(stack: Seq<SceneView>) -> bool {
    forall|i: int| 0 <= i < stack.len() ==> well_named(#[trigger] stack[i])
}

/// Whether the editor's scene and every snapshot it keeps are well named.
pub open spec fn editor_well_named(e: EditorView) -> bool {
    &&& well_named(e.scene)
    &&& all_well_named(e.undo)
    &&& all_well_named(e.redo)
}

/// The names of two runs of nodes, one after the other.
pub proof fn lemma_names_concat(a: Seq<NodeView>, b: Seq<NodeView>)
    ensures
        tree_names(a + b) == tree_names(a) + tree_names(b),
    decreases a.len(),
{
    if a.len() == 0 {
        assert(a + b =~= b);
        assert(tree_names(a) + tree_names(b) =~= tree_names(b));
    } else {
        assert((a + b)[0] == a[0]);
        assert((a + b).skip(1) =~= a.skip(1) + b);
        lemma_names_concat(a.skip(1), b);
        assert(tree_names(a + b) =~= tree_names(a) + tree_names(b));
    }
}

/// The names of a run of one node.
pub proof fn lemma_names_single(node: NodeView)
    ensures
        tree_names(seq![node]) == node_names(node),
{
    let one = seq![node];
    assert(one[0] == node);
    assert(one.skip(1) =~= Seq::<NodeView>::empty());
    assert(tree_names(one.skip(1)) =~= Seq::<Seq<char>>::empty());
    assert(tree_names(one) =~= node_names(node));
}

/// The names of a run of nodes, split at one of them.
pub proof fn lemma_names_split(nodes: Seq<NodeView>, i: int)
    requires
        0 <= i < nodes.len(),
    ensures
        tree_names(nodes) == tree_names(nodes.take(i)) + node_names(nodes[i]) + tree_names(
            nodes.skip(i + 1),
        ),
{
    let head = nodes.take(i);
    let one = seq![nodes[i]];
    let tail = nodes.skip(i + 1);
    assert(nodes =~= head + one + tail);
    lemma_names_concat(head + one, tail);
    lemma_names_concat(head, one);
    lemma_names_single(nodes[i]);
}

/// Replacing a node by one with the same names keeps the names of the run.
pub proof fn lemma_names_update(nodes: Seq<NodeView>, i: int, node: NodeView)
    requires
        0 <= i < nodes.len(),
        node_names(node) == node_names(nodes[i]),
    ensures
        tree_names(nodes.update(i, node)) == tree_names(nodes),
{
    let after = nodes.update(i, node);
    lemma_names_split(nodes, i);
    lemma_names_split(after, i);
    assert(after.take(i) =~= nodes.take(i));
    assert(after.skip(i + 1) =~= nodes.skip(i + 1));
}

/// Swapping two neighbouring parts of a list keeps what it contains and
/// whether it repeats anything.
pub proof fn lemma_swap_parts<A>(o: Seq<A>, p: Seq<A>, q: Seq<A>, r: Seq<A>)
    ensures
        (o + p + q + r).no_duplicates() == (o + q + p + r).no_duplicates(),
        forall|x: A| (o + p + q + r).contains(x) == (o + q + p + r).contains(x),
{
    let s = o + p + q + r;
    let t = o + q + p + r;
    let to_s = |j: int|
        if j < o.len() {
            j
        } else if j < o.len() + q.len() {
            j + p.len()
        } else if j < o.len() + q.len() + p.len() {
            j - q.len()
        } else {
            j
        };
    let to_t = |j: int|
        if j < o.len() {
            j
        } else if j < o.len() + p.len() {
            j + q.len()
        } else if j < o.len() + p.len() + q.len() {
            j - p.len()
        } else {
            j
        };
    assert forall|j: int| 0 <= j < t.len() implies 0 <= to_s(j) < s.len() && #[trigger] t[j] == s[to_s(
        j,
    )] by {}
    assert forall|j: int| 0 <= j < s.len() implies 0 <= to_t(j) < t.len() && #[trigger] s[j] == t[to_t(
        j,
    )] by {}
    if s.no_duplicates() {
        assert forall|i: int, j: int| 0 <= i < t.len() && 0 <= j < t.len() && i != j implies t[i]
            != t[j] by {
            assert(t[i] == s[to_s(i)]);
            assert(t[j] == s[to_s(j)]);
            assert(to_s(i) != to_s(j));
        }
    }
    if t.no_duplicates() {
        assert forall|i: int, j: int| 0 <= i < s.len() && 0 <= j < s.len() && i != j implies s[i]
            != s[j] by {
            assert(s[i] == t[to_t(i)]);
            assert(s[j] == t[to_t(j)]);
            assert(to_t(i) != to_t(j));
        }
    }
    assert forall|x: A| s.contains(x) == t.contains(x) by {
        if s.contains(x) {
            let j = choose|j: int| 0 <= j < s.len() && s[j] == x;
            assert(t[to_t(j)] == x);
        }
        if t.contains(x) {
            let j = choose|j: int| 0 <= j < t.len() && t[j] == x;
            assert(s[to_s(j)] == x);
        }
    }
}

/// Moving a root to the top of the z-order keeps the scene well named.
pub proof fn lemma_raise_keeps_names(scene: SceneView, target: Seq<char>)
    requires
        well_named(scene),
    ensures
        well_named(SceneView { roots: raised(scene.roots, target), ..scene }),
{
    let roots = scene.roots;
    lemma_root_position(roots, target);
    match root_position(roots, target) {
        Some(i) => {
            let head = roots.take(i);
            let one = seq![roots[i]];
            let tail = roots.skip(i + 1);
            let none = Seq::<Seq<char>>::empty();
            let p = tree_names(head);
            let q = node_names(roots[i]);
            let r = tree_names(tail);
            lemma_names_split(roots, i);
            lemma_names_single(roots[i]);
            assert(raised(roots, target) =~= head + tail + one);
            lemma_names_concat(head + tail, one);
            lemma_names_concat(head, tail);
            lemma_swap_parts(p, q, r, none);
            assert(p + q + r + none =~= p + q + r);
            assert(p + r + q + none =~= p + r + q);
        },
        None => {},
    }
}

/// Moving a root to the bottom of the z-order keeps the scene well named.
pub proof fn lemma_lower_keeps_names(scene: SceneView, target: Seq<char>)
    requires
        well_named(scene),
    ensures
        well_named(SceneView { roots: lowered(scene.roots, target), ..scene }),
{
    let roots = scene.roots;
    lemma_root_position(roots, target);
    match root_position(roots, target) {
        Some(i) => {
            let head = roots.take(i);
            let one = seq![roots[i]];
            let tail = roots.skip(i + 1);
            let none = Seq::<Seq<char>>::empty();
            let p = tree_names(head);
            let q = node_names(roots[i]);
            let r = tree_names(tail);
            lemma_names_split(roots, i);
            lemma_names_single(roots[i]);
            assert(lowered(roots, target) =~= one + head + tail);
            lemma_names_concat(one + head, tail);
            lemma_names_concat(one, head);
            lemma_swap_parts(none, p, q, r);
            assert(none + p + q + r =~= p + q + r);
            assert(none + q + p + r =~= q + p + r);
        },
        None => {},
    }
}

/// A new shape under the next name keeps the scene well named.
pub proof fn lemma_add_keeps_names(scene: SceneView, object: ObjectView, transform: TransformMatrix, style: StyleView)
    requires
        well_named(scene),
    ensures
        well_named(
            SceneView {
                roots: scene.roots.push(
                    NodeView::Leaf {
                        id: id_text(scene.id_counter + 1),
                        object,
                        transform,
                        style,
                    },
                ),
                id_counter: scene.id_counter + 1,
            },
        ),
{
    let name = id_text(scene.id_counter + 1);
    let leaf = NodeView::Leaf { id: name, object, transform, style };
    let roots = scene.roots;
    let old_names = tree_names(roots);
    assert(roots.push(leaf) =~= roots + seq![leaf]);
    lemma_names_concat(roots, seq![leaf]);
    lemma_names_single(leaf);
    let names = tree_names(roots.push(leaf));
    assert(node_names(leaf) =~= seq![name]);
    assert(names =~= old_names.push(name));
    assert(!old_names.contains(name));
    assert(names.no_duplicates()) by {
        assert forall|a: int, b: int|
            0 <= a < names.len() && 0 <= b < names.len() && a != b implies names[a] != names[b] by {
            if a < old_names.len() && b < old_names.len() {
                assert(names[a] == old_names[a]);
                assert(names[b] == old_names[b]);
            } else if a < old_names.len() {
                assert(old_names.contains(names[a]));
            } else {
                assert(old_names.contains(names[b]));
            }
        }
    }
    assert forall|k: nat| k > scene.id_counter + 1 implies !names.contains(#[trigger] id_text(k)) by {
        if names.contains(id_text(k)) {
            let j = choose|j: int| 0 <= j < names.len() && names[j] == id_text(k);
            if j < old_names.len() {
                assert(old_names[j] == id_text(k));
                assert(old_names.contains(id_text(k)));
            } else {
                lemma_id_text_injective(k, scene.id_counter + 1);
            }
        }
    }
}

/// Changing what a root leaf holds (style, transform or shape) keeps the names.
pub proof fn lemma_edit_keeps_names(
    roots: Seq<NodeView>,
    target: Seq<char>,
    style: StyleView,
    transform: TransformMatrix,
    index: nat,
    x: Scalar,
    y: Scalar,
)
    ensures
        tree_names(restyled_root(roots, target, style)) == tree_names(roots),
        tree_names(placed_root(roots, target, transform)) == tree_names(roots),
        tree_names(reshaped_root(roots, target, index, x, y)) == tree_names(roots),
{
    lemma_root_position(roots, target);
    match root_position(roots, target) {
        Some(i) => {
            lemma_names_update(roots, i, roots[i].with_style(style));
            lemma_names_update(roots, i, roots[i].with_transform(transform));
            match roots[i] {
                NodeView::Leaf { object, .. } => {
                    lemma_names_update(
                        roots,
                        i,
                        roots[i].with_object(crate::scene::reshaped(object, index, x, y)),
                    );
                },
                NodeView::Group { .. } => {},
            }
        },
        None => {},
    }
}

/// Restyling the selection keeps the names.
pub proof fn lemma_restyled_keeps_names(roots: Seq<NodeView>, selected: Seq<Seq<char>>, style: StyleView)
    ensures
        tree_names(restyled(roots, selected, style)) == tree_names(roots),
    decreases selected.len(),
{
    if selected.len() > 0 {
        lemma_restyled_keeps_names(roots, selected.drop_last(), style);
        lemma_edit_keeps_names(
            restyled(roots, selected.drop_last(), style),
            selected.last(),
            style,
            TransformMatrix::identity_value(),
            0,
            Scalar { bits: 0 },
            Scalar { bits: 0 },
        );
    }
}

/// Giving the selection new transforms keeps the names.
pub proof fn lemma_placed_keeps_names(
    roots: Seq<NodeView>,
    selected: Seq<Seq<char>>,
    frozen: Option<Seq<(Seq<char>, TransformMatrix)>>,
    updates: Seq<(Seq<char>, TransformMatrix)>,
)
    ensures
        tree_names(placed(roots, selected, frozen, updates)) == tree_names(roots),
    decreases selected.len(),
{
    if selected.len() > 0 {
        lemma_placed_keeps_names(roots, selected.drop_last(), frozen, updates);
        match baseline_of(updates, selected.last()) {
            Some(transform) => {
                lemma_edit_keeps_names(
                    placed(roots, selected.drop_last(), frozen, updates),
                    selected.last(),
                    StyleView { fill_color: None, stroke_color: None, stroke_width: Scalar { bits: 0 } },
                    transform,
                    0,
                    Scalar { bits: 0 },
                    Scalar { bits: 0 },
                );
            },
            None => {},
        }
    }
}

/// A name that no node has is not found.
pub proof fn lemma_find_needs_name(nodes: Seq<NodeView>, target: Seq<char>)
    requires
        !tree_names(nodes).contains(target),
    ensures
        find_node(nodes, target) is None,
    decreases nodes,
{
    if nodes.len() > 0 {
        let names = tree_names(nodes);
        let below = names_below(nodes[0]);
        let rest = tree_names(nodes.skip(1));
        assert(names[0] == nodes[0].id());
        assert forall|j: int| 0 <= j < below.len() implies below[j] != target by {
            assert(names[1 + j] == below[j]);
        }
        assert forall|j: int| 0 <= j < rest.len() implies rest[j] != target by {
            assert(names[1 + below.len() + j] == rest[j]);
        }
        match nodes[0] {
            NodeView::Group { children, .. } => {
                lemma_find_needs_name(children, target);
            },
            NodeView::Leaf { .. } => {},
        }
        lemma_find_needs_name(nodes.skip(1), target);
    }
}

/// What a search finds has the name searched for, and a name that some node
/// has is found.
pub proof fn lemma_find_by_name(nodes: Seq<NodeView>, target: Seq<char>)
    ensures
        find_node(nodes, target) matches Some(node) ==> node.id() == target,
        tree_names(nodes).contains(target) ==> find_node(nodes, target) is Some,
    decreases nodes,
{
    if nodes.len() > 0 {
        let names = tree_names(nodes);
        let below = names_below(nodes[0]);
        let rest = tree_names(nodes.skip(1));
        match nodes[0] {
            NodeView::Group { children, .. } => {
                lemma_find_by_name(children, target);
            },
            NodeView::Leaf { .. } => {},
        }
        lemma_find_by_name(nodes.skip(1), target);
        if names.contains(target) && nodes[0].id() != target {
            let j = choose|j: int| 0 <= j < names.len() && names[j] == target;
            assert(names[0] == nodes[0].id());
            if j < 1 + below.len() {
                assert(below[j - 1] == target);
                assert(below.contains(target));
            } else {
                assert(rest[j - 1 - below.len()] == target);
                assert(rest.contains(target));
            }
        }
    } else {
        assert(!tree_names(nodes).contains(target));
    }
}

/// A search over two runs of nodes takes what it finds in the first run, and
/// goes on to the second only when the first has nothing.
pub proof fn lemma_find_concat(a: Seq<NodeView>, b: Seq<NodeView>, target: Seq<char>)
    ensures
        find_node(a + b, target) == if find_node(a, target) is Some {
            find_node(a, target)
        } else {
            find_node(b, target)
        },
    decreases a.len(),
{
    if a.len() == 0 {
        assert(a + b =~= b);
    } else {
        assert((a + b)[0] == a[0]);
        assert((a + b).skip(1) =~= a.skip(1) + b);
        lemma_find_concat(a.skip(1), b, target);
    }
}

/// In a scene without repeated names, looking up the name of a root finds
/// that root.
pub proof fn lemma_unique_names_find_roots(roots: Seq<NodeView>)
    requires
        tree_names(roots).no_duplicates(),
    ensures
        roots_found_by_name(roots),
{
    assert forall|i: int| 0 <= i < roots.len() implies find_node(roots, (#[trigger] roots[i]).id())
        == Some(roots[i]) by {
        let target = roots[i].id();
        let head = roots.take(i);
        let rest = roots.skip(i);
        let names = tree_names(roots);
        let p = tree_names(head);
        assert(roots =~= head + rest);
        lemma_names_concat(head, rest);
        lemma_find_concat(head, rest, target);
        assert(rest[0] == roots[i]);
        assert(tree_names(rest)[0] == target);
        assert(names[p.len() as int] == target);
        assert forall|j: int| 0 <= j < p.len() implies p[j] != target by {
            assert(names[j] == p[j]);
        }
        lemma_find_needs_name(head, target);
    }
}

/// A history stack cut down to its newest entries holds well named scenes
/// if it did before.
pub proof fn lemma_capped_keeps_names(stack: Seq<SceneView>)
    requires
        all_well_named(stack),
    ensures
        all_well_named(capped(stack)),
{
    let cut = capped(stack);
    assert forall|i: int| 0 <= i < cut.len() implies well_named(#[trigger] cut[i]) by {
        if stack.len() > crate::editor::MAX_HISTORY {
            assert(cut[i] == stack[i + (stack.len() - crate::editor::MAX_HISTORY)]);
        }
    }
}

/// Every step of the editor keeps it well named: selecting, dragging and
/// drawing, which leave the scene alone; adding a shape, from the pen or
/// otherwise; moving a root in the z-order; restyling, placing and reshaping;
/// saving a snapshot, undoing and redoing; and clearing the scene. Replacing
/// the scene does so if the new scene is well named.
pub proof fn lemma_editor_keeps_names(
    e: EditorView,
    object: ObjectView,
    transform: TransformMatrix,
    target: Seq<char>,
    style: StyleView,
    frozen: Option<Seq<(Seq<char>, TransformMatrix)>>,
    updates: Seq<(Seq<char>, TransformMatrix)>,
    index: nat,
    x: Scalar,
    y: Scalar,
    replacement: SceneView,
    selected: Seq<Seq<char>>,
    drag: DragView,
    pen: PenView,
)
    requires
        editor_well_named(e),
    ensures
        editor_well_named(EditorView::empty()),
        editor_well_named(e.with_selected(selected)),
        editor_well_named(e.with_drag(drag)),
        editor_well_named(e.with_pen(pen)),
        editor_well_named(e.with_shape(object, transform).with_pen(pen)),
        editor_well_named(e.with_shape(object, transform)),
        editor_well_named(e.with_roots(raised(e.scene.roots, target))),
        editor_well_named(e.with_roots(lowered(e.scene.roots, target))),
        editor_well_named(e.with_roots(restyled(e.scene.roots, e.selected, style))),
        editor_well_named(e.with_roots(placed(e.scene.roots, e.selected, frozen, updates))),
        editor_well_named(e.with_roots(reshaped_root(e.scene.roots, target, index, x, y))),
        editor_well_named(e.after_save()),
        e.undo.len() > 0 ==> editor_well_named(e.after_undo()),
        e.redo.len() > 0 ==> editor_well_named(e.after_redo()),
        editor_well_named(e.reset_to(SceneView { roots: Seq::empty(), id_counter: 0 })),
        well_named(replacement) ==> editor_well_named(e.reset_to(replacement)),
{
    let none = Seq::<NodeView>::empty();
    assert(tree_names(none) =~= Seq::<Seq<char>>::empty());
    lemma_add_keeps_names(e.scene, object, transform, crate::scene::ObjectStyle::default_view());
    lemma_raise_keeps_names(e.scene, target);
    lemma_lower_keeps_names(e.scene, target);
    lemma_restyled_keeps_names(e.scene.roots, e.selected, style);
    lemma_placed_keeps_names(e.scene.roots, e.selected, frozen, updates);
    lemma_edit_keeps_names(e.scene.roots, target, style, transform, index, x, y);
    let pushed = e.undo.push(e.scene);
    assert(all_well_named(pushed)) by {
        assert forall|i: int| 0 <= i < pushed.len() implies well_named(#[trigger] pushed[i]) by {
            if i < e.undo.len() {
                assert(pushed[i] == e.undo[i]);
            }
        }
    }
    lemma_capped_keeps_names(pushed);
    if e.undo.len() > 0 {
        let after = e.after_undo();
        assert(well_named(e.undo[e.undo.len() - 1]));
        assert forall|i: int| 0 <= i < after.undo.len() implies well_named(#[trigger] after.undo[i]) by {
            assert(after.undo[i] == e.undo[i]);
        }
        assert forall|i: int| 0 <= i < after.redo.len() implies well_named(#[trigger] after.redo[i]) by {
            if i < e.redo.len() {
                assert(after.redo[i] == e.redo[i]);
            }
        }
    }
    if e.redo.len() > 0 {
        let after = e.after_redo();
        assert(well_named(e.redo[e.redo.len() - 1]));
        assert forall|i: int| 0 <= i < after.redo.len() implies well_named(#[trigger] after.redo[i]) by {
            assert(after.redo[i] == e.redo[i]);
        }
        assert forall|i: int| 0 <= i < after.undo.len() implies well_named(#[trigger] after.undo[i]) by {
            if i < e.undo.len() {
                assert(after.undo[i] == e.undo[i]);
            }
        }
    }
}

} // verus!
