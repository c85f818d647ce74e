//! The editor: one scene, one selection, one drag, one pen and the undo
//! history, behind a single owner.
//!
//! Geometry that needs arithmetic reaches the editor as values: which leaves
//! a point hits, where a dragged object goes, how far a press is from the
//! first anchor. The editor decides what those values change.

use vstd::prelude::*;
use crate::drag_state::baseline_of;
use crate::drag_state::baselines_view;
use crate::drag_state::DragMode;
use crate::drag_state::DragState;
use crate::drag_state::DragView;
use crate::drag_state::HandleIndex;
use crate::drag_state::lookup_transform;
use crate::ids::id_text;
use crate::math::TransformMatrix;
use crate::pen_state::PenState;
use crate::pen_state::PenView;
use crate::renderer::find_overlay;
use crate::renderer::outline_of;
use crate::renderer::overlays_view;
use crate::renderer::OverlayView;
use crate::renderer::SelectionOverlay;
use crate::scalar::Scalar;
use crate::scene::anchors_of;
use crate::scene::count_nodes;
use crate::scene::entries_view;
use crate::scene::find_node;
use crate::scene::ids_view;
use crate::scene::LeafEntry;
use crate::scene::LeafView;
use crate::scene::leaves_of;
use crate::scene::lowered;
use crate::scene::NodeView;
use crate::scene::ObjectStyle;
use crate::scene::ObjectView;
use crate::scene::path_points;
use crate::scene::PathCommand;
use crate::scene::PathPoint;
use crate::scene::placed_root;
use crate::scene::raised;
use crate::scene::reshaped_root;
use crate::scene::restyled_root;
use crate::scene::root_position;
use crate::scene::SceneGraph;
use crate::scene::SceneNode;
use crate::scene::SceneView;
use crate::scene::StyleView;
use crate::scene::VectorObject;

verus! {

/// How many snapshots the undo stack keeps.
pub const MAX_HISTORY: usize = 50;

/// The editor's whole state.
#[derive(Debug)]
pub struct Editor {
    scene: SceneGraph,
    selected_ids: Vec<String>,
    drag_state: DragState,
    pen_state: PenState,
    undo_stack: Vec<SceneGraph>,
    redo_stack: Vec<SceneGraph>,
}

/// What an [`Editor`] holds.
pub ghost struct EditorView {
    pub scene: SceneView,
    /// The selected identifiers, in the order in which they were selected.
    pub selected: Seq<Seq<char>>,
    pub drag: DragView,
    pub pen: PenView,
    /// Snapshots to go back to, oldest first.
    pub undo: Seq<SceneView>,
    /// Snapshots to go forward to, the next one last.
    pub redo: Seq<SceneView>,
}

/// The views of a run of scenes.
pub open spec fn scenes_view(scenes: Seq<SceneGraph>) -> Seq<SceneView> {
    Seq::new(scenes.len(), |i: int| scenes[i]@)
}

/// A history stack cut down to its `MAX_HISTORY` newest snapshots.
pub open spec fn capped(stack: Seq<SceneView>) -> Seq<SceneView> {
    if stack.len() > MAX_HISTORY {
        stack.skip(stack.len() - MAX_HISTORY)
    } else {
        stack
    }
}

/// The leaf that a new shape becomes: default style, the given transform.
pub open spec fn new_leaf(id: Seq<char>, object: ObjectView, transform: TransformMatrix) -> NodeView {
    NodeView::Leaf { id, object, transform, style: ObjectStyle::default_view() }
}

/// The greatest position below `n` that `hits` marks, if there is one.
pub open spec fn topmost_index(hits: Seq<bool>, n: int) -> Option<int>
    decreases n,
{
    if n <= 0 {
        None
    } else if n <= hits.len() && hits[n - 1] {
        Some(n - 1)
    } else {
        topmost_index(hits, n - 1)
    }
}

/// The identifier of the topmost leaf that is hit, or the empty text.
/// `leaves` are in paint order and `hits[i]` says whether leaf `i` is hit; a
/// leaf without a mark counts as missed.
pub open spec fn hit_id(leaves: Seq<LeafView>, hits: Seq<bool>) -> Seq<char> {
    match topmost_index(hits, leaves.len() as int) {
        Some(i) => leaves[i].id,
        None => Seq::empty(),
    }
}

/// The identifiers without `id`.
pub open spec fn without(ids: Seq<Seq<char>>, id: Seq<char>) -> Seq<Seq<char>>
    decreases ids.len(),
{
    if ids.len() == 0 {
        ids
    } else if ids.last() == id {
        without(ids.drop_last(), id)
    } else {
        without(ids.drop_last(), id).push(ids.last())
    }
}

/// The selection after a click on `id` with the extend key held: a selected
/// object is deselected, another one joins the selection, and a click on
/// nothing (the empty text) changes nothing.
pub open spec fn toggled(ids: Seq<Seq<char>>, id: Seq<char>) -> Seq<Seq<char>> {
    if id.len() == 0 {
        ids
    } else if ids.contains(id) {
        without(ids, id)
    } else {
        ids.push(id)
    }
}

/// The selection after a plain click on `id`.
pub open spec fn picked(id: Seq<char>) -> Seq<Seq<char>> {
    if id.len() == 0 {
        Seq::empty()
    } else {
        seq![id]
    }
}

/// What the style parameter of `update_style` means: the word `none` and the
/// empty text stand for no colour.
pub open spec fn color_choice(text: Seq<char>) -> Option<Seq<char>> {
    if text.len() == 0 || text == "none"@ {
        None
    } else {
        Some(text)
    }
}

/// The roots after every selected identifier's first root, if a leaf, got
/// the style.
pub open spec fn restyled(roots: Seq<NodeView>, selected: Seq<Seq<char>>, style: StyleView) -> Seq<
    NodeView,
>
    decreases selected.len(),
{
    if selected.len() == 0 {
        roots
    } else {
        restyled_root(restyled(roots, selected.drop_last(), style), selected.last(), style)
    }
}

/// The roots after every selected identifier's first root, if a leaf, got
/// the transform that `updates` lists for the identifier. With `frozen`
/// given, only identifiers that it lists are touched.
pub open spec fn placed(
    roots: Seq<NodeView>,
    selected: Seq<Seq<char>>,
    frozen: Option<Seq<(Seq<char>, TransformMatrix)>>,
    updates: Seq<(Seq<char>, TransformMatrix)>,
) -> Seq<NodeView>
    decreases selected.len(),
{
    if selected.len() == 0 {
        roots
    } else {
        let before = placed(roots, selected.drop_last(), frozen, updates);
        let id = selected.last();
        let allowed = match frozen {
            Some(entries) => baseline_of(entries, id) is Some,
            None => true,
        };
        match baseline_of(updates, id) {
            Some(transform) => if allowed {
                placed_root(before, id, transform)
            } else {
                before
            },
            None => before,
        }
    }
}

/// The transforms that a drag freezes: for every selected identifier that
/// names a leaf, at any depth, the leaf's transform.
pub open spec fn frozen_transforms(roots: Seq<NodeView>, selected: Seq<Seq<char>>) -> Seq<
    (Seq<char>, TransformMatrix),
>
    decreases selected.len(),
{
    if selected.len() == 0 {
        Seq::empty()
    } else {
        let before = frozen_transforms(roots, selected.drop_last());
        match find_node(roots, selected.last()) {
            Some(NodeView::Leaf { transform, .. }) => before.push((selected.last(), transform)),
            _ => before,
        }
    }
}

/// The leaves whose names are selected, in paint order.
pub open spec fn selected_among(leaves: Seq<LeafView>, selected: Seq<Seq<char>>) -> Seq<LeafView>
    decreases leaves.len(),
{
    if leaves.len() == 0 {
        leaves
    } else if selected.contains(leaves.last().id) {
        selected_among(leaves.drop_last(), selected).push(leaves.last())
    } else {
        selected_among(leaves.drop_last(), selected)
    }
}

/// The fixed point of a resize by `handle`: the opposite corner of the first
/// selected object's outline, if that object has an outline.
pub open spec fn resize_pivot(
    overlays: Seq<OverlayView>,
    selected: Seq<Seq<char>>,
    handle: HandleIndex,
) -> Option<(Scalar, Scalar)> {
    if selected.len() == 0 {
        None
    } else {
        match outline_of(overlays, selected[0]) {
            Some(corners) => Some(corners[handle.opposite_value().index_value()]),
            None => None,
        }
    }
}

impl View for Editor {
    type V = EditorView;

    closed spec fn view(&self) -> EditorView {
        EditorView {
            scene: self.scene@,
            selected: ids_view(self.selected_ids@),
            drag: self.drag_state@,
            pen: self.pen_state@,
            undo: scenes_view(self.undo_stack@),
            redo: scenes_view(self.redo_stack@),
        }
    }
}

impl EditorView {
    /// The state of a new editor.
    pub open spec fn empty() -> EditorView {
        EditorView {
            scene: SceneView { roots: Seq::empty(), id_counter: 0 },
            selected: Seq::empty(),
            drag: DragView::idle(),
            pen: PenView::Idle,
            undo: Seq::empty(),
            redo: Seq::empty(),
        }
    }

    /// The state with another scene and everything else as it is.
    pub open spec fn with_scene(self, scene: SceneView) -> EditorView {
        EditorView { scene, ..self }
    }

    /// The state after a shape was added on top of the z-order.
    pub open spec fn with_shape(self, object: ObjectView, transform: TransformMatrix) -> EditorView {
        self.with_scene(
            SceneView {
                roots: self.scene.roots.push(
                    new_leaf(id_text(self.scene.id_counter + 1), object, transform),
                ),
                id_counter: self.scene.id_counter + 1,
            },
        )
    }

    /// The state with other roots and everything else as it is.
    pub open spec fn with_roots(self, roots: Seq<NodeView>) -> EditorView {
        self.with_scene(SceneView { roots, id_counter: self.scene.id_counter })
    }

    /// The state with another selection and everything else as it is.
    pub open spec fn with_selected(self, selected: Seq<Seq<char>>) -> EditorView {
        EditorView { selected, ..self }
    }

    /// The state with another drag and everything else as it is.
    pub open spec fn with_drag(self, drag: DragView) -> EditorView {
        EditorView { drag, ..self }
    }

    /// The state with another pen state and everything else as it is.
    pub open spec fn with_pen(self, pen: PenView) -> EditorView {
        EditorView { pen, ..self }
    }

    /// The leaves of the scene in paint order.
    pub open spec fn leaves(self) -> Seq<LeafView> {
        leaves_of(self.scene.roots, Seq::empty())
    }

    /// The first selected node, if something is selected and the scene has
    /// a node of that name at any depth.
    pub open spec fn first_selected_node(self) -> Option<NodeView> {
        if self.selected.len() == 0 {
            None
        } else {
            find_node(self.scene.roots, self.selected[0])
        }
    }

    /// The state after a drag began in `mode` at `start`. Transforms are
    /// frozen only if `pivot` is given; without one the drag has nothing to
    /// act on and turns about the origin.
    pub open spec fn after_begin(
        self,
        mode: DragMode,
        start: (Scalar, Scalar),
        pivot: Option<(Scalar, Scalar)>,
    ) -> EditorView {
        self.with_drag(
            match pivot {
                Some(point) => DragView {
                    mode,
                    start_point: start,
                    initial_transforms: frozen_transforms(self.scene.roots, self.selected),
                    pivot: point,
                },
                None => DragView {
                    mode,
                    start_point: start,
                    initial_transforms: Seq::empty(),
                    pivot: (Scalar { bits: 0 }, Scalar { bits: 0 }),
                },
            },
        )
    }

    /// The state after an update of the drag: the roots that are selected
    /// leaves, frozen by the drag and listed in `updates`, take their new
    /// transforms. The drag itself, with what it froze, is untouched.
    pub open spec fn after_update(self, updates: Seq<(Seq<char>, TransformMatrix)>) -> EditorView {
        self.with_roots(
            placed(self.scene.roots, self.selected, Some(self.drag.initial_transforms), updates),
        )
    }

    /// The state after the path being drawn went into the scene; meaningful
    /// while drawing.
    pub open spec fn after_path(self, commands: Seq<PathCommand>, is_closed: bool) -> EditorView {
        self.with_shape(
            ObjectView::Path { commands, is_closed },
            TransformMatrix::identity_value(),
        ).with_pen(PenView::Idle)
    }

    /// The state after a snapshot was saved: the scene goes on the undo
    /// stack, which keeps its newest `MAX_HISTORY` entries, and nothing is left to redo.
    pub open spec fn after_save(self) -> EditorView {
        EditorView { undo: capped(self.undo.push(self.scene)), redo: Seq::empty(), ..self }
    }

    /// The state after one step back; meaningful when `undo` is not empty.
    pub open spec fn after_undo(self) -> EditorView {
        EditorView {
            scene: self.undo.last(),
            selected: Seq::empty(),
            drag: DragView::idle(),
            pen: self.pen,
            undo: self.undo.drop_last(),
            redo: self.redo.push(self.scene),
        }
    }

    /// The state after one step forward; meaningful when `redo` is not empty.
    pub open spec fn after_redo(self) -> EditorView {
        EditorView {
            scene: self.redo.last(),
            selected: Seq::empty(),
            drag: DragView::idle(),
            pen: self.pen,
            undo: self.undo.push(self.scene),
            redo: self.redo.drop_last(),
        }
    }

    /// The state after the scene was replaced: nothing selected, no drag, no
    /// path being drawn; the history stays.
    pub open spec fn reset_to(self, scene: SceneView) -> EditorView {
        EditorView {
            scene,
            selected: Seq::empty(),
            drag: DragView::idle(),
            pen: PenView::Idle,
            undo: self.undo,
            redo: self.redo,
        }
    }
}

fn choose_color(text: &str) -> (r: Option<String>)
    ensures
        crate::scene::color_view(r) == color_choice(text@),
{
    if text.is_empty() {
        return None;
    }
    let owned = text.to_owned();
    if owned == "none".to_owned() {
        None
    } else {
        Some(owned)
    }
}

impl Editor {
    /// An editor with an empty scene and no history.
    pub fn new() -> (e: Editor)
        ensures
            e@ == EditorView::empty(),
    {
        let e = Editor {
            scene: SceneGraph::new(),
            selected_ids: Vec::new(),
            drag_state: DragState::new(),
            pen_state: PenState::new(),
            undo_stack: Vec::new(),
            redo_stack: Vec::new(),
        };
        assert(e@.selected =~= Seq::empty());
        assert(e@.undo =~= Seq::empty());
        assert(e@.redo =~= Seq::empty());
        e
    }

    /// The scene.
    pub fn scene(&self) -> (s: &SceneGraph)
        ensures
            s@ == self@.scene,
    {
        &self.scene
    }

    /// The drag in progress.
    pub fn drag_state(&self) -> (d: &DragState)
        ensures
            d@ == self@.drag,
    {
        &self.drag_state
    }

    /// The pen tool's state.
    pub fn pen_state(&self) -> (p: &PenState)
        ensures
            p@ == self@.pen,
    {
        &self.pen_state
    }

    /// Adds a shape on top of the z-order, with the default style, under a
    /// fresh identifier, which is returned.
    pub fn add_shape(&mut self, object: VectorObject, transform: TransformMatrix) -> (id: String)
        requires
            old(self)@.scene.id_counter < u64::MAX,
        ensures
            id@ == id_text(old(self)@.scene.id_counter + 1),
            final(self)@ == old(self)@.with_shape(object@, transform),
    {
        let id = self.scene.generate_id();
        self.scene.add_object(id.clone(), object, transform);
        id
    }

    /// Adds a rectangle with corner `(x, y)` at the identity transform.
    pub fn add_rectangle(&mut self, x: Scalar, y: Scalar, width: Scalar, height: Scalar) -> (id:
        String)
        requires
            old(self)@.scene.id_counter < u64::MAX,
        ensures
            id@ == id_text(old(self)@.scene.id_counter + 1),
            final(self)@ == old(self)@.with_shape(
                ObjectView::Rectangle { x, y, width, height },
                TransformMatrix::identity_value(),
            ),
    {
        self.add_shape(
            VectorObject::Rectangle { x, y, width, height },
            TransformMatrix::identity(),
        )
    }

    /// Adds an ellipse with centre `(cx, cy)` at the identity transform.
    pub fn add_ellipse(&mut self, cx: Scalar, cy: Scalar, rx: Scalar, ry: Scalar) -> (id: String)
        requires
            old(self)@.scene.id_counter < u64::MAX,
        ensures
            id@ == id_text(old(self)@.scene.id_counter + 1),
            final(self)@ == old(self)@.with_shape(
                ObjectView::Ellipse { cx, cy, rx, ry },
                TransformMatrix::identity_value(),
            ),
    {
        self.add_shape(VectorObject::Ellipse { cx, cy, rx, ry }, TransformMatrix::identity())
    }

    /// Adds a closed path made of the given commands at the identity transform.
    pub fn add_path(&mut self, commands: Vec<PathCommand>) -> (id: String)
        requires
            old(self)@.scene.id_counter < u64::MAX,
        ensures
            id@ == id_text(old(self)@.scene.id_counter + 1),
            final(self)@ == old(self)@.with_shape(
                ObjectView::Path { commands: commands@, is_closed: true },
                TransformMatrix::identity_value(),
            ),
    {
        self.add_shape(
            VectorObject::Path { commands, is_closed: true },
            TransformMatrix::identity(),
        )
    }

    /// The number of nodes in the scene.
    pub fn object_count(&self) -> (n: usize)
        requires
            count_nodes(self@.scene.roots) <= usize::MAX,
        ensures
            n == count_nodes(self@.scene.roots),
    {
        self.scene.object_count()
    }

    /// The identifier of the topmost leaf that is hit, or the empty text when
    /// none is. `hits[i]` says whether the point in question hits the `i`-th
    /// leaf of the scene in paint order; the caller has tested each leaf in
    /// its own local space.
    pub fn hit_test(&self, hits: &Vec<bool>) -> (id: String)
        ensures
            id@ == hit_id(self@.leaves(), hits@),
    {
        let leaves = self.scene.iter_leaves();
        let ghost views = entries_view(leaves@);
        let mut n: usize = leaves.len();
        while n > 0
            invariant
                n <= leaves.len(),
                views == entries_view(leaves@),
                views == self@.leaves(),
                topmost_index(hits@, leaves.len() as int) == topmost_index(hits@, n as int),
            decreases n,
        {
            if n <= hits.len() && hits[n - 1] {
                assert(views[n - 1] == leaves@[n - 1]@);
                return leaves[n - 1].id.clone();
            }
            n -= 1;
        }
        String::new()
    }

    /// A plain click: the selection becomes the topmost leaf that is hit, or
    /// nothing. Returns that leaf's identifier, or the empty text.
    pub fn select_at(&mut self, hits: &Vec<bool>) -> (id: String)
        ensures
            id@ == hit_id(old(self)@.leaves(), hits@),
            final(self)@ == old(self)@.with_selected(picked(id@)),
    {
        self.selected_ids = Vec::new();
        let id = self.hit_test(hits);
        if !id.as_str().is_empty() {
            self.selected_ids.push(id.clone());
        }
        assert(self@.selected =~= picked(id@));
        id
    }

    fn is_selected(&self, id: &String) -> (r: bool)
        ensures
            r == self@.selected.contains(id@),
    {
        let mut i: usize = 0;
        while i < self.selected_ids.len()
            invariant
                i <= self.selected_ids.len(),
                forall|k: int| 0 <= k < i ==> self@.selected[k] != id@,
            decreases self.selected_ids.len() - i,
        {
            if self.selected_ids[i] == *id {
                assert(self@.selected[i as int] == id@);
                return true;
            }
            i += 1;
        }
        false
    }

    fn deselect(&mut self, id: &String)
        ensures
            final(self)@ == old(self)@.with_selected(without(old(self)@.selected, id@)),
    {
        let ghost all = self@.selected;
        let mut kept: Vec<String> = Vec::new();
        let mut i: usize = 0;
        assert(all.take(0) =~= Seq::empty());
        while i < self.selected_ids.len()
            invariant
                i <= self.selected_ids.len(),
                *self == *old(self),
                all == self@.selected,
                ids_view(kept@) == without(all.take(i as int), id@),
            decreases self.selected_ids.len() - i,
        {
            proof {
                let next = all.take(i as int + 1);
                assert(next.drop_last() =~= all.take(i as int));
                assert(next.last() == all[i as int]);
            }
            let ghost before = ids_view(kept@);
            if !(self.selected_ids[i] == *id) {
                kept.push(self.selected_ids[i].clone());
                assert(ids_view(kept@) =~= before.push(all[i as int]));
            }
            i += 1;
        }
        assert(all.take(i as int) =~= all);
        self.selected_ids = kept;
    }

    /// A click with the extend key held: the topmost leaf that is hit leaves
    /// the selection if it was in it and joins it otherwise. Returns that
    /// leaf's identifier, or the empty text.
    pub fn add_to_selection_at(&mut self, hits: &Vec<bool>) -> (id: String)
        ensures
            id@ == hit_id(old(self)@.leaves(), hits@),
            final(self)@ == old(self)@.with_selected(toggled(old(self)@.selected, id@)),
    {
        let id = self.hit_test(hits);
        if !id.as_str().is_empty() {
            if self.is_selected(&id) {
                self.deselect(&id);
            } else {
                self.selected_ids.push(id.clone());
                assert(self@.selected =~= old(self)@.selected.push(id@));
            }
        }
        id
    }

    /// Empties the selection.
    pub fn deselect_all(&mut self)
        ensures
            final(self)@ == old(self)@.with_selected(Seq::empty()),
    {
        self.selected_ids = Vec::new();
        assert(self@.selected =~= Seq::empty());
    }

    /// The selected identifiers, in the order in which they were selected.
    pub fn get_selected_ids(&self) -> (ids: Vec<String>)
        ensures
            ids_view(ids@) == self@.selected,
    {
        let mut out: Vec<String> = Vec::new();
        let mut i: usize = 0;
        while i < self.selected_ids.len()
            invariant
                i <= self.selected_ids.len(),
                out.len() == i,
                forall|k: int| 0 <= k < i ==> out@[k]@ == self.selected_ids@[k]@,
            decreases self.selected_ids.len() - i,
        {
            out.push(self.selected_ids[i].clone());
            i += 1;
        }
        assert(ids_view(out@) =~= self@.selected);
        out
    }

    /// Whether anything is selected.
    pub fn has_selection(&self) -> (r: bool)
        ensures
            r == (self@.selected.len() > 0),
    {
        self.selected_ids.len() > 0
    }

    /// The style of the first selected object, if it is a leaf of the scene.
    pub fn get_selected_style(&self) -> (r: Option<ObjectStyle>)
        ensures
            match r {
                Some(style) => self@.first_selected_node() matches Some(
                    NodeView::Leaf { style: s, .. },
                ) && s == style@,
                None => !(self@.first_selected_node() matches Some(NodeView::Leaf { .. })),
            },
    {
        if self.selected_ids.len() == 0 {
            return None;
        }
        match self.scene.get_node_by_id(self.selected_ids[0].as_str()) {
            Some(node) => match node {
                SceneNode::Leaf { style, .. } => Some(style.clone()),
                SceneNode::Group { .. } => None,
            },
            None => None,
        }
    }

    /// Whether the first selected object is a leaf that holds a path.
    pub fn selected_is_path(&self) -> (r: bool)
        ensures
            r == (self@.first_selected_node() matches Some(
                NodeView::Leaf { object: ObjectView::Path { .. }, .. },
            )),
    {
        if self.selected_ids.len() == 0 {
            return false;
        }
        match self.scene.get_node_by_id(self.selected_ids[0].as_str()) {
            Some(node) => match node {
                SceneNode::Leaf { object, .. } => match object {
                    VectorObject::Path { .. } => true,
                    _ => false,
                },
                SceneNode::Group { .. } => false,
            },
            None => false,
        }
    }

    /// Gives every selected root leaf a new style. The word `none` and the
    /// empty text stand for no fill or no stroke. Selected objects below a
    /// group are not reached.
    pub fn update_style(&mut self, fill: &str, stroke: &str, stroke_width: Scalar)
        ensures
            final(self)@ == old(self)@.with_roots(
                restyled(
                    old(self)@.scene.roots,
                    old(self)@.selected,
                    StyleView {
                        fill_color: color_choice(fill@),
                        stroke_color: color_choice(stroke@),
                        stroke_width,
                    },
                ),
            ),
    {
        let style = ObjectStyle {
            fill_color: choose_color(fill),
            stroke_color: choose_color(stroke),
            stroke_width,
        };
        let ghost all = self@.selected;
        let ghost roots = self@.scene.roots;
        let mut i: usize = 0;
        assert(all.take(0) =~= Seq::empty());
        while i < self.selected_ids.len()
            invariant
                i <= self.selected_ids.len(),
                all == self@.selected,
                self@ == old(self)@.with_roots(self@.scene.roots),
                self@.scene.roots == restyled(roots, all.take(i as int), style@),
            decreases self.selected_ids.len() - i,
        {
            proof {
                let next = all.take(i as int + 1);
                assert(next.drop_last() =~= all.take(i as int));
                assert(next.last() == all[i as int]);
            }
            self.scene.set_root_style(self.selected_ids[i].as_str(), &style);
            i += 1;
        }
        assert(all.take(i as int) =~= all);
    }

    /// Moves the first selected object to the top of the z-order, if it is a
    /// root and not on top already. Returns whether it moved.
    pub fn bring_to_front(&mut self) -> (moved: bool)
        ensures
            moved == (old(self)@.selected.len() > 0 && (root_position(
                old(self)@.scene.roots,
                old(self)@.selected[0],
            ) matches Some(i) && i < old(self)@.scene.roots.len() - 1)),
            old(self)@.selected.len() > 0 ==> final(self)@ == old(self)@.with_roots(
                raised(old(self)@.scene.roots, old(self)@.selected[0]),
            ),
            old(self)@.selected.len() == 0 ==> final(self)@ == old(self)@,
    {
        if self.selected_ids.len() == 0 {
            return false;
        }
        self.scene.bring_to_front(self.selected_ids[0].as_str())
    }

    /// Moves the first selected object to the bottom of the z-order, if it is
    /// a root and not at the bottom already. Returns whether it moved.
    pub fn send_to_back(&mut self) -> (moved: bool)
        ensures
            moved == (old(self)@.selected.len() > 0 && (root_position(
                old(self)@.scene.roots,
                old(self)@.selected[0],
            ) matches Some(i) && i > 0)),
            old(self)@.selected.len() > 0 ==> final(self)@ == old(self)@.with_roots(
                lowered(old(self)@.scene.roots, old(self)@.selected[0]),
            ),
            old(self)@.selected.len() == 0 ==> final(self)@ == old(self)@,
    {
        if self.selected_ids.len() == 0 {
            return false;
        }
        self.scene.send_to_back(self.selected_ids[0].as_str())
    }

    fn freeze_selection(&self) -> (frozen: Vec<(String, TransformMatrix)>)
        ensures
            baselines_view(frozen@) == frozen_transforms(self@.scene.roots, self@.selected),
    {
        let ghost all = self@.selected;
        let ghost roots = self@.scene.roots;
        let mut out: Vec<(String, TransformMatrix)> = Vec::new();
        let mut i: usize = 0;
        assert(all.take(0) =~= Seq::empty());
        assert(baselines_view(out@) =~= Seq::empty());
        while i < self.selected_ids.len()
            invariant
                i <= self.selected_ids.len(),
                all == self@.selected,
                roots == self@.scene.roots,
                baselines_view(out@) == frozen_transforms(roots, all.take(i as int)),
            decreases self.selected_ids.len() - i,
        {
            proof {
                let next = all.take(i as int + 1);
                assert(next.drop_last() =~= all.take(i as int));
                assert(next.last() == all[i as int]);
            }
            let ghost before = baselines_view(out@);
            match self.scene.get_node_by_id(self.selected_ids[i].as_str()) {
                Some(node) => match node {
                    SceneNode::Leaf { transform, .. } => {
                        out.push((self.selected_ids[i].clone(), *transform));
                        assert(baselines_view(out@) =~= before.push((all[i as int], *transform)));
                    },
                    SceneNode::Group { .. } => {},
                },
                None => {},
            }
            i += 1;
        }
        assert(all.take(i as int) =~= all);
        out
    }

    fn apply_updates(&mut self, gated: bool, updates: &Vec<(String, TransformMatrix)>)
        ensures
            final(self)@ == old(self)@.with_roots(
                placed(
                    old(self)@.scene.roots,
                    old(self)@.selected,
                    if gated {
                        Some(old(self)@.drag.initial_transforms)
                    } else {
                        None
                    },
                    baselines_view(updates@),
                ),
            ),
    {
        let ghost all = self@.selected;
        let ghost roots = self@.scene.roots;
        let ghost frozen = if gated {
            Some(self@.drag.initial_transforms)
        } else {
            None
        };
        let mut i: usize = 0;
        assert(all.take(0) =~= Seq::empty());
        while i < self.selected_ids.len()
            invariant
                i <= self.selected_ids.len(),
                all == self@.selected,
                self@ == old(self)@.with_roots(self@.scene.roots),
                frozen == if gated {
                    Some(old(self)@.drag.initial_transforms)
                } else {
                    None
                },
                self@.scene.roots == placed(
                    roots,
                    all.take(i as int),
                    frozen,
                    baselines_view(updates@),
                ),
            decreases self.selected_ids.len() - i,
        {
            proof {
                let next = all.take(i as int + 1);
                assert(next.drop_last() =~= all.take(i as int));
                assert(next.last() == all[i as int]);
            }
            let id = self.selected_ids[i].as_str();
            let allowed = !gated || self.drag_state.get_initial_transform(id).is_some();
            if allowed {
                match lookup_transform(updates, id) {
                    Some(transform) => {
                        let target = *transform;
                        self.scene.set_root_transform(self.selected_ids[i].as_str(), target);
                    },
                    None => {},
                }
            }
            i += 1;
        }
        assert(all.take(i as int) =~= all);
    }

    /// Gives selected root leaves new transforms outside any drag: each one
    /// that `updates` lists takes the transform listed for it.
    pub fn move_selected(&mut self, updates: &Vec<(String, TransformMatrix)>)
        ensures
            final(self)@ == old(self)@.with_roots(
                placed(
                    old(self)@.scene.roots,
                    old(self)@.selected,
                    None,
                    baselines_view(updates@),
                ),
            ),
    {
        self.apply_updates(false, updates);
    }

    /// Starts moving the selection: the transform of every selected leaf is
    /// frozen, and the pointer's position remembered.
    pub fn begin_move_drag(&mut self, start_x: Scalar, start_y: Scalar)
        ensures
            final(self)@ == old(self)@.after_begin(
                DragMode::Moving,
                (start_x, start_y),
                Some((Scalar { bits: 0 }, Scalar { bits: 0 })),
            ),
    {
        let frozen = self.freeze_selection();
        self.drag_state.begin(
            DragMode::Moving,
            start_x,
            start_y,
            frozen,
            (Scalar::zero(), Scalar::zero()),
        );
    }

    /// The selected leaves in paint order, each with the transforms on the
    /// way to it: what the caller needs to work out the selection's outlines.
    pub fn selected_leaves(&self) -> (leaves: Vec<LeafEntry>)
        ensures
            entries_view(leaves@) == selected_among(self@.leaves(), self@.selected),
    {
        let all = self.scene.iter_leaves();
        let ghost views = entries_view(all@);
        let mut out: Vec<LeafEntry> = Vec::new();
        let mut i: usize = 0;
        assert(entries_view(out@) =~= selected_among(views.take(0), self@.selected));
        while i < all.len()
            invariant
                i <= all.len(),
                views == entries_view(all@),
                entries_view(out@) == selected_among(views.take(i as int), self@.selected),
            decreases all.len() - i,
        {
            let ghost before = entries_view(out@);
            proof {
                let next = views.take(i as int + 1);
                assert(next.drop_last() =~= views.take(i as int));
                assert(next.last() == all@[i as int]@);
            }
            if self.is_selected(&all[i].id) {
                out.push(all[i].clone());
                assert(entries_view(out@) =~= before.push(all@[i as int]@));
            }
            i += 1;
        }
        assert(views.take(i as int) =~= views);
        out
    }

    /// Starts resizing the selection by the corner handle `handle_index`
    /// (0 top-left, then clockwise). `overlays` are the outlines of the
    /// selected leaves in world space; the corner opposite to the handle, on
    /// the outline of the first selected object, becomes the fixed point, and
    /// the transforms of the selected leaves are frozen. Without such an
    /// outline the drag begins with nothing to act on. A handle index above 3
    /// is ignored.
    pub fn begin_resize_drag(
        &mut self,
        start_x: Scalar,
        start_y: Scalar,
        handle_index: u8,
        overlays: &Vec<SelectionOverlay>,
    )
        ensures
            handle_index > 3 ==> final(self)@ == old(self)@,
            handle_index <= 3 ==> exists|handle: HandleIndex|
                handle.index_value() == handle_index && final(self)@ == old(self)@.after_begin(
                    DragMode::Resizing(handle),
                    (start_x, start_y),
                    resize_pivot(overlays_view(overlays@), old(self)@.selected, handle),
                ),
    {
        let handle = match HandleIndex::from_index(handle_index) {
            Some(handle) => handle,
            None => {
                return ;
            },
        };
        let found = if self.selected_ids.len() > 0 {
            find_overlay(overlays, &self.selected_ids[0])
        } else {
            None
        };
        match found {
            Some(overlay) => {
                let pivot = overlay.corners[handle.opposite().index()];
                let frozen = self.freeze_selection();
                self.drag_state.begin(DragMode::Resizing(handle), start_x, start_y, frozen, pivot);
            },
            None => {
                self.drag_state.begin(
                    DragMode::Resizing(handle),
                    start_x,
                    start_y,
                    Vec::new(),
                    (Scalar::zero(), Scalar::zero()),
                );
                assert(self@.drag.initial_transforms =~= Seq::empty());
            },
        }
    }

    /// Starts rotating the selection about `center`, the centre of the first
    /// selected object's outline, if it has one.
    pub fn begin_rotate_drag(
        &mut self,
        start_x: Scalar,
        start_y: Scalar,
        center: Option<(Scalar, Scalar)>,
    )
        ensures
            final(self)@ == old(self)@.after_begin(DragMode::Rotating, (start_x, start_y), center),
    {
        match center {
            Some(pivot) => {
                let frozen = self.freeze_selection();
                self.drag_state.begin(DragMode::Rotating, start_x, start_y, frozen, pivot);
            },
            None => {
                self.drag_state.begin(
                    DragMode::Rotating,
                    start_x,
                    start_y,
                    Vec::new(),
                    (Scalar::zero(), Scalar::zero()),
                );
                assert(self@.drag.initial_transforms =~= Seq::empty());
            },
        }
    }

    /// An update of a move. `updates` lists, for frozen objects, the frozen
    /// transform translated by the pointer's offset from the start point.
    /// Ignored unless a move is going on.
    pub fn update_move_drag(&mut self, updates: &Vec<(String, TransformMatrix)>)
        ensures
            old(self)@.drag.mode == DragMode::Moving ==> final(self)@ == old(self)@.after_update(
                baselines_view(updates@),
            ),
            old(self)@.drag.mode != DragMode::Moving ==> final(self)@ == old(self)@,
    {
        match self.drag_state.mode {
            DragMode::Moving => {
                self.apply_updates(true, updates);
            },
            _ => {},
        }
    }

    /// An update of a resize. `updates` lists, for frozen objects, the frozen
    /// transform scaled about the pivot. Ignored unless a resize is going on.
    pub fn update_resize_drag(&mut self, updates: &Vec<(String, TransformMatrix)>)
        ensures
            old(self)@.drag.mode is Resizing ==> final(self)@ == old(self)@.after_update(
                baselines_view(updates@),
            ),
            !(old(self)@.drag.mode is Resizing) ==> final(self)@ == old(self)@,
    {
        match self.drag_state.mode {
            DragMode::Resizing(_) => {
                self.apply_updates(true, updates);
            },
            _ => {},
        }
    }

    /// An update of a rotation. `updates` lists, for frozen objects, the
    /// frozen transform rotated about the pivot. Ignored unless a rotation is
    /// going on.
    pub fn update_rotate_drag(&mut self, updates: &Vec<(String, TransformMatrix)>)
        ensures
            old(self)@.drag.mode == DragMode::Rotating ==> final(self)@ == old(self)@.after_update(
                baselines_view(updates@),
            ),
            old(self)@.drag.mode != DragMode::Rotating ==> final(self)@ == old(self)@,
    {
        match self.drag_state.mode {
            DragMode::Rotating => {
                self.apply_updates(true, updates);
            },
            _ => {},
        }
    }

    /// Ends the drag, if one is going on.
    pub fn end_drag(&mut self)
        ensures
            final(self)@ == old(self)@.with_drag(DragView::idle()),
    {
        self.drag_state.end();
    }

    /// Whether a drag is going on.
    pub fn is_dragging(&self) -> (r: bool)
        ensures
            r == (self@.drag.mode != DragMode::Idle),
    {
        self.drag_state.is_active()
    }

    /// A press of the pen at `(x, y)`, `distance` away from the path's first
    /// anchor as the caller measured it (not looked at while no path is being
    /// drawn). Returns whether the press offers to close the path: it does
    /// when the path has two commands or more and the press is less than
    /// fifteen units from the first anchor, and then nothing changes.
    pub fn pen_down(&mut self, x: Scalar, y: Scalar, distance: Scalar) -> (closable: bool)
        ensures
            closable == old(self)@.pen.closable(distance),
            final(self)@ == old(self)@.with_pen(old(self)@.pen.after_down(x, y, distance)),
    {
        self.pen_state.pen_down(x, y, distance)
    }

    /// The pen moved to `(x, y)` with the button held.
    pub fn pen_move(&mut self, x: Scalar, y: Scalar)
        ensures
            final(self)@ == old(self)@.with_pen(old(self)@.pen.after_move(x, y)),
    {
        self.pen_state.pen_move(x, y);
    }

    /// The pen's button was released: the pending anchor is confirmed.
    pub fn pen_up(&mut self)
        ensures
            final(self)@ == old(self)@.with_pen(old(self)@.pen.after_up()),
    {
        self.pen_state.pen_up();
    }

    /// Closes the path being drawn: a close command is appended and the path
    /// goes into the scene as a closed path at the identity transform.
    /// Returns the new identifier, or the empty text when no path was being drawn.
    pub fn pen_close(&mut self) -> (id: String)
        requires
            old(self)@.scene.id_counter < u64::MAX,
        ensures
            match old(self)@.pen {
                PenView::Drawing { commands, .. } => {
                    &&& id@ == id_text(old(self)@.scene.id_counter + 1)
                    &&& final(self)@ == old(self)@.after_path(
                        commands.push(PathCommand::ClosePath),
                        true,
                    )
                },
                PenView::Idle => id@.len() == 0 && final(self)@ == old(self)@,
            },
    {
        match self.pen_state.take_commands() {
            Some(mut commands) => {
                commands.push(PathCommand::ClosePath);
                self.add_shape(
                    VectorObject::Path { commands, is_closed: true },
                    TransformMatrix::identity(),
                )
            },
            None => String::new(),
        }
    }

    /// Ends the path being drawn without closing it. With two commands or
    /// more it goes into the scene as an open path and its identifier is
    /// returned; a shorter one is dropped and the empty text returned.
    pub fn pen_finish(&mut self) -> (id: String)
        requires
            old(self)@.scene.id_counter < u64::MAX,
        ensures
            match old(self)@.pen {
                PenView::Drawing { commands, .. } => if commands.len() >= 2 {
                    &&& id@ == id_text(old(self)@.scene.id_counter + 1)
                    &&& final(self)@ == old(self)@.after_path(commands, false)
                } else {
                    id@.len() == 0 && final(self)@ == old(self)@.with_pen(PenView::Idle)
                },
                PenView::Idle => id@.len() == 0 && final(self)@ == old(self)@,
            },
    {
        match self.pen_state.take_commands() {
            Some(commands) => {
                if commands.len() < 2 {
                    return String::new();
                }
                self.add_shape(
                    VectorObject::Path { commands, is_closed: false },
                    TransformMatrix::identity(),
                )
            },
            None => String::new(),
        }
    }

    /// Drops the path being drawn.
    pub fn pen_cancel(&mut self)
        ensures
            final(self)@ == old(self)@.with_pen(PenView::Idle),
    {
        self.pen_state = PenState::Idle;
    }

    /// Whether a path is being drawn.
    pub fn is_pen_drawing(&self) -> (r: bool)
        ensures
            r == (self@.pen is Drawing),
    {
        self.pen_state.is_drawing()
    }

    /// The anchors of the path that the named leaf holds, in the path's local
    /// space; empty when no node has the name or it holds no path.
    pub fn get_path_points(&self, id: &str) -> (points: Vec<PathPoint>)
        ensures
            points@ == match find_node(self@.scene.roots, id@) {
                Some(NodeView::Leaf { object: ObjectView::Path { commands, .. }, .. }) => anchors_of(
                    commands,
                ),
                _ => Seq::empty(),
            },
    {
        match self.scene.get_node_by_id(id) {
            Some(node) => match node {
                SceneNode::Leaf { object, .. } => match object {
                    VectorObject::Path { commands, .. } => path_points(commands),
                    _ => Vec::new(),
                },
                SceneNode::Group { .. } => Vec::new(),
            },
            None => Vec::new(),
        }
    }

    /// Moves the `index`-th anchor of the path held by the named root leaf
    /// to `(local_x, local_y)`, a point of the path's local space.
    pub fn update_path_point(&mut self, id: &str, index: usize, local_x: Scalar, local_y: Scalar)
        ensures
            final(self)@ == old(self)@.with_roots(
                reshaped_root(old(self)@.scene.roots, id@, index as nat, local_x, local_y),
            ),
    {
        self.scene.set_root_path_point(id, index, local_x, local_y);
    }

    /// Replaces the scene by a parsed one. `None` stands for a document that
    /// could not be parsed: the call then reports failure and changes nothing.
    pub fn import_scene(&mut self, parsed: Option<SceneGraph>) -> (imported: bool)
        ensures
            imported == parsed is Some,
            match parsed {
                Some(scene) => final(self)@ == old(self)@.reset_to(scene@),
                None => final(self)@ == old(self)@,
            },
    {
        match parsed {
            Some(scene) => {
                self.scene = scene;
                self.selected_ids = Vec::new();
                self.drag_state.end();
                self.pen_state = PenState::Idle;
                assert(self@.selected =~= Seq::empty());
                true
            },
            None => false,
        }
    }

    /// Empties the scene and restarts its identifiers; the history stays.
    pub fn clear_scene(&mut self)
        ensures
            final(self)@ == old(self)@.reset_to(
                SceneView { roots: Seq::empty(), id_counter: 0 },
            ),
    {
        self.scene = SceneGraph::new();
        self.selected_ids = Vec::new();
        self.drag_state.end();
        self.pen_state = PenState::Idle;
        assert(self@.selected =~= Seq::empty());
    }

    /// Saves the scene as it is now, to come back to by `undo`. Call it right
    /// before a change that is to be reversible. Whatever could be redone is
    /// forgotten, and the oldest snapshot goes once there are more than
    /// `MAX_HISTORY`.
    pub fn save_snapshot(&mut self)
        ensures
            final(self)@ == old(self)@.after_save(),
    {
        self.undo_stack.push(self.scene.clone());
        self.redo_stack = Vec::new();
        let ghost pushed = old(self)@.undo.push(old(self)@.scene);
        assert(scenes_view(self.undo_stack@) =~= pushed);
        assert(pushed.skip(0) =~= pushed);
        while self.undo_stack.len() > MAX_HISTORY
            invariant
                self.undo_stack.len() <= pushed.len(),
                scenes_view(self.undo_stack@) == pushed.skip(
                    pushed.len() - self.undo_stack.len(),
                ),
                self.undo_stack.len() >= MAX_HISTORY || self.undo_stack.len() == pushed.len(),
                self.scene@ == old(self)@.scene,
                self.selected_ids@ == old(self).selected_ids@,
                self.drag_state@ == old(self)@.drag,
                self.pen_state@ == old(self)@.pen,
                self.redo_stack@.len() == 0,
            decreases self.undo_stack.len(),
        {
            let ghost before = scenes_view(self.undo_stack@);
            self.undo_stack.remove(0);
            assert(scenes_view(self.undo_stack@) =~= before.skip(1));
            assert(before.skip(1) =~= pushed.skip(pushed.len() - self.undo_stack.len()));
        }
        assert(self@.redo =~= Seq::empty());
    }

    /// Goes one snapshot back: the current scene moves to the redo stack, the
    /// newest snapshot becomes the scene, the selection and any drag are
    /// dropped. Returns `false`, changing nothing, when there is no snapshot.
    pub fn undo(&mut self) -> (done: bool)
        ensures
            done == (old(self)@.undo.len() > 0),
            done ==> final(self)@ == old(self)@.after_undo(),
            !done ==> final(self)@ == old(self)@,
    {
        match self.undo_stack.pop() {
            Some(previous) => {
                let ghost redo_before = scenes_view(self.redo_stack@);
                let current = self.scene.clone();
                self.redo_stack.push(current);
                assert(scenes_view(self.redo_stack@) =~= redo_before.push(old(self)@.scene));
                assert(scenes_view(self.undo_stack@) =~= old(self)@.undo.drop_last());
                self.scene = previous;
                self.selected_ids = Vec::new();
                self.drag_state.end();
                assert(self@.selected =~= Seq::empty());
                true
            },
            None => {
                assert(scenes_view(self.undo_stack@) =~= old(self)@.undo);
                false
            },
        }
    }

    /// Goes one snapshot forward again: the mirror image of `undo`.
    pub fn redo(&mut self) -> (done: bool)
        ensures
            done == (old(self)@.redo.len() > 0),
            done ==> final(self)@ == old(self)@.after_redo(),
            !done ==> final(self)@ == old(self)@,
    {
        match self.redo_stack.pop() {
            Some(next) => {
                let ghost undo_before = scenes_view(self.undo_stack@);
                let current = self.scene.clone();
                self.undo_stack.push(current);
                assert(scenes_view(self.undo_stack@) =~= undo_before.push(old(self)@.scene));
                assert(scenes_view(self.redo_stack@) =~= old(self)@.redo.drop_last());
                self.scene = next;
                self.selected_ids = Vec::new();
                self.drag_state.end();
                assert(self@.selected =~= Seq::empty());
                true
            },
            None => {
                assert(scenes_view(self.redo_stack@) =~= old(self)@.redo);
                false
            },
        }
    }

    /// Whether there is a snapshot to go back to.
    pub fn can_undo(&self) -> (r: bool)
        ensures
            r == (self@.undo.len() > 0),
    {
        self.undo_stack.len() > 0
    }

    /// Whether there is a snapshot to go forward to.
    pub fn can_redo(&self) -> (r: bool)
        ensures
            r == (self@.redo.len() > 0),
    {
        self.redo_stack.len() > 0
    }

    /// The number of snapshots to go back to.
    pub fn undo_stack_size(&self) -> (n: usize)
        ensures
            n == self@.undo.len(),
    {
        self.undo_stack.len()
    }

    /// The number of snapshots to go forward to.
    pub fn redo_stack_size(&self) -> (n: usize)
        ensures
            n == self@.redo.len(),
    {
        self.redo_stack.len()
    }
}

impl Default for Editor {
    fn default() -> (e: Editor)
        ensures
            e@ == EditorView::empty(),
    {
        Editor::new()
    }
}

} // verus!
