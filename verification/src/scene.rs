//! The scene graph: shapes, styles, nodes and the tree that owns them.
//!
//! Root order is z-order: index 0 is painted first, the last root is on top.
//! Every type with heap data has a view made of `Seq` values, and all
//! contracts speak of those views.

use vstd::prelude::*;
use crate::ids::id_text;
use crate::ids::make_id;
use crate::math::TransformMatrix;
use crate::scalar::Scalar;

verus! {

/// Bit pattern of the default stroke width, two units.
pub const DEFAULT_STROKE_WIDTH_BITS: u64 = 0x4000_0000_0000_0000;

/// The name of an object: a text that the scene hands out once.
pub type ObjectId = String;

/// The texts of a run of identifiers.
pub open spec fn ids_view(ids: Seq<String>) -> Seq<Seq<char>> {
    Seq::new(ids.len(), |i: int| ids[i]@)
}

/// One drawing instruction of a path, in the owning node's local space.
#[derive(Clone, Copy, PartialEq, Eq, Structural, Debug)]
pub enum PathCommand {
    MoveTo { x: Scalar, y: Scalar },
    LineTo { x: Scalar, y: Scalar },
    /// Cubic curve: two control points, then the end point.
    CurveTo { x1: Scalar, y1: Scalar, x2: Scalar, y2: Scalar, x: Scalar, y: Scalar },
    ClosePath,
}

/// A shape, in the local space of the node that owns it.
#[derive(Debug)]
pub enum VectorObject {
    Rectangle { x: Scalar, y: Scalar, width: Scalar, height: Scalar },
    Ellipse { cx: Scalar, cy: Scalar, rx: Scalar, ry: Scalar },
    Path { commands: Vec<PathCommand>, is_closed: bool },
}

/// What a [`VectorObject`] holds.
pub ghost enum ObjectView {
    Rectangle { x: Scalar, y: Scalar, width: Scalar, height: Scalar },
    Ellipse { cx: Scalar, cy: Scalar, rx: Scalar, ry: Scalar },
    Path { commands: Seq<PathCommand>, is_closed: bool },
}

impl View for VectorObject {
    type V = ObjectView;

    open spec fn view(&self) -> ObjectView {
        match self {
            VectorObject::Rectangle { x, y, width, height } => ObjectView::Rectangle {
                x: *x,
                y: *y,
                width: *width,
                height: *height,
            },
            VectorObject::Ellipse { cx, cy, rx, ry } => ObjectView::Ellipse {
                cx: *cx,
                cy: *cy,
                rx: *rx,
                ry: *ry,
            },
            VectorObject::Path { commands, is_closed } => ObjectView::Path {
                commands: commands@,
                is_closed: *is_closed,
            },
        }
    }
}

/// Whether a path stored without a closed flag counts as closed: it does.
pub fn default_true() -> (closed: bool)
    ensures
        closed,
{
    true
}

/// Copies a command list.
pub fn copy_commands(commands: &Vec<PathCommand>) -> (r: Vec<PathCommand>)
    ensures
        r@ == commands@,
{
    let mut out: Vec<PathCommand> = Vec::new();
    let mut i: usize = 0;
    while i < commands.len()
        invariant
            i <= commands.len(),
            out@ == commands@.subrange(0, i as int),
        decreases commands.len() - i,
    {
        out.push(commands[i]);
        i += 1;
    }
    out
}

impl Clone for VectorObject {
    fn clone(&self) -> (r: VectorObject)
        ensures
            r@ == self@,
    {
        match self {
            VectorObject::Rectangle { x, y, width, height } => VectorObject::Rectangle {
                x: *x,
                y: *y,
                width: *width,
                height: *height,
            },
            VectorObject::Ellipse { cx, cy, rx, ry } => VectorObject::Ellipse {
                cx: *cx,
                cy: *cy,
                rx: *rx,
                ry: *ry,
            },
            VectorObject::Path { commands, is_closed } => VectorObject::Path {
                commands: copy_commands(commands),
                is_closed: *is_closed,
            },
        }
    }
}

/// How a leaf is painted. `None` means "do not fill" or "do not stroke".
#[derive(Debug)]
pub struct ObjectStyle {
    pub fill_color: Option<String>,
    pub stroke_color: Option<String>,
    pub stroke_width: Scalar,
}

/// What an [`ObjectStyle`] holds.
pub ghost struct StyleView {
    pub fill_color: Option<Seq<char>>,
    pub stroke_color: Option<Seq<char>>,
    pub stroke_width: Scalar,
}

/// The text of an optional colour.
pub open spec fn color_view(color: Option<String>) -> Option<Seq<char>> {
    match color {
        Some(text) => Some(text@),
        None => None,
    }
}

/// Copies an optional colour.
pub fn copy_color(color: &Option<String>) -> (r: Option<String>)
    ensures
        color_view(r) == color_view(*color),
{
    match color {
        Some(text) => Some(text.clone()),
        None => None,
    }
}

impl View for ObjectStyle {
    type V = StyleView;

    open spec fn view(&self) -> StyleView {
        StyleView {
            fill_color: color_view(self.fill_color),
            stroke_color: color_view(self.stroke_color),
            stroke_width: self.stroke_width,
        }
    }
}

impl ObjectStyle {
    /// The style every new leaf starts with: blue fill, darker blue stroke,
    /// stroke width two.
    pub open spec fn default_view() -> StyleView {
        StyleView {
            fill_color: Some("#3b82f6"@),
            stroke_color: Some("#1e40af"@),
            stroke_width: Scalar { bits: DEFAULT_STROKE_WIDTH_BITS },
        }
    }
}

impl Default for ObjectStyle {
    fn default() -> (s: ObjectStyle)
        ensures
            s@ == ObjectStyle::default_view(),
    {
        ObjectStyle {
            fill_color: Some("#3b82f6".to_owned()),
            stroke_color: Some("#1e40af".to_owned()),
            stroke_width: Scalar { bits: DEFAULT_STROKE_WIDTH_BITS },
        }
    }
}

impl Clone for ObjectStyle {
    fn clone(&self) -> (r: ObjectStyle)
        ensures
            r@ == self@,
    {
        ObjectStyle {
            fill_color: copy_color(&self.fill_color),
            stroke_color: copy_color(&self.stroke_color),
            stroke_width: self.stroke_width,
        }
    }
}

/// A node of the tree: a group of nodes, or a leaf that pairs a shape with a
/// transform and a style. A node's transform is relative to its parent.
#[derive(Debug)]
pub enum SceneNode {
    Group { id: String, children: Vec<SceneNode>, transform: TransformMatrix },
    Leaf { id: String, object: VectorObject, transform: TransformMatrix, style: ObjectStyle },
}

/// What a [`SceneNode`] holds.
pub ghost enum NodeView {
    Group { id: Seq<char>, children: Seq<NodeView>, transform: TransformMatrix },
    Leaf { id: Seq<char>, object: ObjectView, transform: TransformMatrix, style: StyleView },
}

impl View for SceneNode {
    type V = NodeView;

    open spec fn view(&self) -> NodeView
        decreases self, 0int,
    {
        match self {
            SceneNode::Group { id, children, transform } => NodeView::Group {
                id: id@,
                children: nodes_view(children@),
                transform: *transform,
            },
            SceneNode::Leaf { id, object, transform, style } => NodeView::Leaf {
                id: id@,
                object: object@,
                transform: *transform,
                style: style@,
            },
        }
    }
}

/// The views of a run of nodes, in order.
pub open spec fn nodes_view(nodes: Seq<SceneNode>) -> Seq<NodeView>
    decreases nodes, 1int,
{
    Seq::new(
        nodes.len(),
        |i: int|
            if 0 <= i < nodes.len() {
                nodes[i]@
            } else {
                arbitrary()
            },
    )
}

impl NodeView {
    /// The node's identifier.
    pub open spec fn id(self) -> Seq<char> {
        match self {
            NodeView::Group { id, .. } => id,
            NodeView::Leaf { id, .. } => id,
        }
    }
}

impl NodeView {
    /// The node with another style, if it is a leaf; a group has no style.
    pub open spec fn with_style(self, style: StyleView) -> NodeView {
        match self {
            NodeView::Leaf { id, object, transform, .. } => NodeView::Leaf {
                id,
                object,
                transform,
                style,
            },
            NodeView::Group { .. } => self,
        }
    }

    /// The node with another transform, if it is a leaf; groups are left alone.
    pub open spec fn with_transform(self, transform: TransformMatrix) -> NodeView {
        match self {
            NodeView::Leaf { id, object, style, .. } => NodeView::Leaf {
                id,
                object,
                transform,
                style,
            },
            NodeView::Group { .. } => self,
        }
    }

    /// The node with another shape, if it is a leaf.
    pub open spec fn with_object(self, object: ObjectView) -> NodeView {
        match self {
            NodeView::Leaf { id, transform, style, .. } => NodeView::Leaf {
                id,
                object,
                transform,
                style,
            },
            NodeView::Group { .. } => self,
        }
    }
}

/// Copies a node with everything below it.
pub fn copy_node(node: &SceneNode) -> (r: SceneNode)
    ensures
        r@ == node@,
    decreases node, 0int,
{
    match node {
        SceneNode::Group { id, children, transform } => SceneNode::Group {
            id: id.clone(),
            children: copy_nodes(children),
            transform: *transform,
        },
        SceneNode::Leaf { id, object, transform, style } => SceneNode::Leaf {
            id: id.clone(),
            object: object.clone(),
            transform: *transform,
            style: style.clone(),
        },
    }
}

/// Copies a run of nodes with everything below them.
pub fn copy_nodes(nodes: &Vec<SceneNode>) -> (r: Vec<SceneNode>)
    ensures
        nodes_view(r@) == nodes_view(nodes@),
    decreases nodes, 1int,
{
    let mut out: Vec<SceneNode> = Vec::new();
    let mut i: usize = 0;
    while i < nodes.len()
        invariant
            i <= nodes.len(),
            out.len() == i,
            forall|k: int| 0 <= k < i ==> out@[k]@ == nodes@[k]@,
        decreases nodes.len() - i,
    {
        out.push(copy_node(&nodes[i]));
        i += 1;
    }
    assert(nodes_view(out@) =~= nodes_view(nodes@));
    out
}

impl Clone for SceneNode {
    fn clone(&self) -> (r: SceneNode)
        ensures
            r@ == self@,
    {
        copy_node(self)
    }
}

/// How many nodes a run of nodes holds: each node counts itself, a group
/// also everything below it.
pub open spec fn count_nodes(nodes: Seq<NodeView>) -> nat
    decreases nodes,
{
    if nodes.len() == 0 {
        0
    } else {
        let below: nat = match nodes[0] {
            NodeView::Group { children, .. } => count_nodes(children),
            NodeView::Leaf { .. } => 0,
        };
        1 + below + count_nodes(nodes.skip(1))
    }
}

/// The first node with identifier `target`, searching each node before its
/// children and its children before its later siblings.
pub open spec fn find_node(nodes: Seq<NodeView>, target: Seq<char>) -> Option<NodeView>
    decreases nodes,
{
    if nodes.len() == 0 {
        None
    } else if nodes[0].id() == target {
        Some(nodes[0])
    } else {
        let below: Option<NodeView> = match nodes[0] {
            NodeView::Group { children, .. } => find_node(children, target),
            NodeView::Leaf { .. } => None,
        };
        if below is Some {
            below
        } else {
            find_node(nodes.skip(1), target)
        }
    }
}

/// Whether `i` is the position of the first root with identifier `target`.
pub open spec fn is_first_root(roots: Seq<NodeView>, target: Seq<char>, i: int) -> bool {
    &&& 0 <= i < roots.len()
    &&& roots[i].id() == target
    &&& forall|k: int| 0 <= k < i ==> roots[k].id() != target
}

/// The position of the first root with identifier `target`, if any root has it.
/// Only roots are looked at, not what is below them.
pub open spec fn root_position(roots: Seq<NodeView>, target: Seq<char>) -> Option<int> {
    if exists|i: int| is_first_root(roots, target, i) {
        Some(choose|i: int| is_first_root(roots, target, i))
    } else {
        None
    }
}

/// The first root with an identifier is where `root_position` says, and no
/// position is reported when no root has the identifier.
pub proof fn lemma_root_position(roots: Seq<NodeView>, target: Seq<char>)
    ensures
        forall|i: int| is_first_root(roots, target, i) ==> root_position(roots, target) == Some(i),
        (forall|i: int| 0 <= i < roots.len() ==> roots[i].id() != target) ==> root_position(
            roots,
            target,
        ) is None,
        root_position(roots, target) matches Some(i) ==> is_first_root(roots, target, i),
{
    assert forall|i: int| is_first_root(roots, target, i) implies root_position(roots, target)
        == Some(i) by {
        let j = choose|j: int| is_first_root(roots, target, j);
        assert(is_first_root(roots, target, j));
        if j < i {
            assert(roots[j].id() != target);
        }
        if i < j {
            assert(roots[i].id() != target);
        }
    }
}

/// Whether two runs of nodes have the same identifiers at the same places.
pub open spec fn same_ids(a: Seq<NodeView>, b: Seq<NodeView>) -> bool {
    &&& a.len() == b.len()
    &&& forall|i: int| 0 <= i < a.len() ==> (#[trigger] a[i]).id() == b[i].id()
}

/// Which root is the first of a name depends on the names alone.
pub proof fn lemma_position_by_ids(a: Seq<NodeView>, b: Seq<NodeView>, target: Seq<char>)
    requires
        same_ids(a, b),
    ensures
        root_position(a, target) == root_position(b, target),
        forall|i: int| is_first_root(a, target, i) == is_first_root(b, target, i),
{
    assert forall|i: int| is_first_root(a, target, i) == is_first_root(b, target, i) by {
        if is_first_root(a, target, i) {
            assert(b[i].id() == a[i].id());
            assert forall|k: int| 0 <= k < i implies b[k].id() != target by {
                assert(a[k].id() == b[k].id());
            }
        }
        if is_first_root(b, target, i) {
            assert(a[i].id() == b[i].id());
            assert forall|k: int| 0 <= k < i implies a[k].id() != target by {
                assert(a[k].id() == b[k].id());
            }
        }
    }
    lemma_root_position(a, target);
    lemma_root_position(b, target);
    match root_position(a, target) {
        Some(i) => {
            assert(is_first_root(b, target, i));
        },
        None => {
            match root_position(b, target) {
                Some(j) => {
                    assert(is_first_root(a, target, j));
                },
                None => {},
            }
        },
    }
}

/// The roots after the first root with identifier `target` went on top.
pub open spec fn raised(roots: Seq<NodeView>, target: Seq<char>) -> Seq<NodeView> {
    match root_position(roots, target) {
        Some(i) => roots.remove(i).push(roots[i]),
        None => roots,
    }
}

/// The roots after the first root with identifier `target` went to the bottom.
pub open spec fn lowered(roots: Seq<NodeView>, target: Seq<char>) -> Seq<NodeView> {
    match root_position(roots, target) {
        Some(i) => roots.remove(i).insert(0, roots[i]),
        None => roots,
    }
}

/// The roots after the first root with identifier `target` got a new style.
/// Nothing changes when no root has the identifier or that root is a group.
pub open spec fn restyled_root(roots: Seq<NodeView>, target: Seq<char>, style: StyleView) -> Seq<
    NodeView,
> {
    match root_position(roots, target) {
        Some(i) => roots.update(i, roots[i].with_style(style)),
        None => roots,
    }
}

/// The roots after the first root with identifier `target` got a new
/// transform. Nothing changes when no root has the identifier or that root is
/// a group.
pub open spec fn placed_root(
    roots: Seq<NodeView>,
    target: Seq<char>,
    transform: TransformMatrix,
) -> Seq<NodeView> {
    match root_position(roots, target) {
        Some(i) => roots.update(i, roots[i].with_transform(transform)),
        None => roots,
    }
}

/// The command with its end point moved to `(x, y)`; the control points of
/// a curve stay, and a close command has no point to move.
pub open spec fn with_anchor(command: PathCommand, x: Scalar, y: Scalar) -> PathCommand {
    match command {
        PathCommand::MoveTo { .. } => PathCommand::MoveTo { x, y },
        PathCommand::LineTo { .. } => PathCommand::LineTo { x, y },
        PathCommand::CurveTo { x1, y1, x2, y2, .. } => PathCommand::CurveTo {
            x1,
            y1,
            x2,
            y2,
            x,
            y,
        },
        PathCommand::ClosePath => command,
    }
}

/// A position moved `by` places to the right.
pub open spec fn shifted(position: Option<int>, by: int) -> Option<int> {
    match position {
        Some(p) => Some(p + by),
        None => None,
    }
}

/// Where the `index`-th anchor of a path stands in its command list. Close
/// commands have no anchor and are not counted.
pub open spec fn anchor_position(commands: Seq<PathCommand>, index: nat) -> Option<int>
    decreases commands.len(),
{
    if commands.len() == 0 {
        None
    } else if commands[0] is ClosePath {
        shifted(anchor_position(commands.skip(1), index), 1)
    } else if index == 0 {
        Some(0)
    } else {
        shifted(anchor_position(commands.skip(1), (index - 1) as nat), 1)
    }
}

/// The commands after the `index`-th anchor moved to `(x, y)`; unchanged when
/// the path has no such anchor.
pub open spec fn moved_anchor(commands: Seq<PathCommand>, index: nat, x: Scalar, y: Scalar) -> Seq<
    PathCommand,
> {
    match anchor_position(commands, index) {
        Some(p) => commands.update(p, with_anchor(commands[p], x, y)),
        None => commands,
    }
}

/// The shape after the `index`-th anchor moved, if the shape is a path.
pub open spec fn reshaped(object: ObjectView, index: nat, x: Scalar, y: Scalar) -> ObjectView {
    match object {
        ObjectView::Path { commands, is_closed } => ObjectView::Path {
            commands: moved_anchor(commands, index, x, y),
            is_closed,
        },
        _ => object,
    }
}

/// The roots after the `index`-th anchor of the first root with identifier
/// `target` moved to `(x, y)`. Nothing changes unless that root is a leaf
/// holding a path with such an anchor.
pub open spec fn reshaped_root(
    roots: Seq<NodeView>,
    target: Seq<char>,
    index: nat,
    x: Scalar,
    y: Scalar,
) -> Seq<NodeView> {
    match root_position(roots, target) {
        Some(i) => match roots[i] {
            NodeView::Leaf { object, .. } => roots.update(
                i,
                roots[i].with_object(reshaped(object, index, x, y)),
            ),
            NodeView::Group { .. } => roots,
        },
        None => roots,
    }
}

/// What kind of command an anchor ends.
#[derive(Clone, Copy, PartialEq, Eq, Structural, Debug)]
pub enum PointKind {
    Move,
    Line,
    Curve,
}

/// An anchor of a path, in the path's local space.
#[derive(Clone, Copy, PartialEq, Eq, Structural, Debug)]
pub struct PathPoint {
    pub x: Scalar,
    pub y: Scalar,
    pub kind: PointKind,
}

/// The anchor that a command ends, if it has one.
pub open spec fn anchor_of(command: PathCommand) -> Seq<PathPoint> {
    match command {
        PathCommand::MoveTo { x, y } => seq![PathPoint { x, y, kind: PointKind::Move }],
        PathCommand::LineTo { x, y } => seq![PathPoint { x, y, kind: PointKind::Line }],
        PathCommand::CurveTo { x, y, .. } => seq![PathPoint { x, y, kind: PointKind::Curve }],
        PathCommand::ClosePath => Seq::empty(),
    }
}

/// The anchors of a path in order: the end point of every command that has one.
pub open spec fn anchors_of(commands: Seq<PathCommand>) -> Seq<PathPoint>
    decreases commands.len(),
{
    if commands.len() == 0 {
        Seq::empty()
    } else {
        anchors_of(commands.drop_last()) + anchor_of(commands.last())
    }
}

/// The anchors of two runs of commands, one after the other.
pub proof fn lemma_anchors_concat(a: Seq<PathCommand>, b: Seq<PathCommand>)
    ensures
        anchors_of(a + b) == anchors_of(a) + anchors_of(b),
    decreases b.len(),
{
    if b.len() == 0 {
        assert(a + b =~= a);
        assert(anchors_of(a) + anchors_of(b) =~= anchors_of(a));
    } else {
        assert((a + b).drop_last() =~= a + b.drop_last());
        assert((a + b).last() == b.last());
        lemma_anchors_concat(a, b.drop_last());
        assert(anchors_of(a + b) =~= anchors_of(a) + anchors_of(b));
    }
}

/// Where the `index`-th anchor stands: at a command that has an end point,
/// with exactly `index` anchors before it. There is none if the path has
/// `index` anchors or fewer.
pub proof fn lemma_anchor_position(commands: Seq<PathCommand>, index: nat)
    ensures
        match anchor_position(commands, index) {
            Some(p) => {
                &&& 0 <= p < commands.len()
                &&& !(commands[p] is ClosePath)
                &&& anchors_of(commands.take(p)).len() == index
            },
            None => anchors_of(commands).len() <= index,
        },
    decreases commands.len(),
{
    if commands.len() == 0 {
    } else {
        let first = seq![commands[0]];
        let rest = commands.skip(1);
        assert(commands =~= first + rest);
        lemma_anchors_concat(first, rest);
        assert(first.drop_last() =~= Seq::<PathCommand>::empty());
        assert(anchors_of(first.drop_last()) =~= Seq::<PathPoint>::empty());
        assert(anchors_of(first) =~= anchor_of(commands[0]));
        let inner = if commands[0] is ClosePath || index == 0 {
            index
        } else {
            (index - 1) as nat
        };
        if commands[0] is ClosePath || index != 0 {
            lemma_anchor_position(rest, inner);
            match anchor_position(rest, inner) {
                Some(q) => {
                    assert(commands.take(q + 1) =~= first + rest.take(q));
                    lemma_anchors_concat(first, rest.take(q));
                    assert(commands[q + 1] == rest[q]);
                },
                None => {},
            }
        } else {
            assert(commands.take(0) =~= Seq::<PathCommand>::empty());
        }
    }
}

/// Moving an anchor shows in the list of anchors: the anchor moved is at its
/// new place, it ends the kind of command it ended before, and every other
/// anchor is where it was. A path with too few anchors is left alone.
pub proof fn lemma_moved_anchor(commands: Seq<PathCommand>, index: nat, x: Scalar, y: Scalar)
    ensures
        index < anchors_of(commands).len() ==> anchors_of(moved_anchor(commands, index, x, y))
            == anchors_of(commands).update(
            index as int,
            PathPoint { x, y, kind: anchors_of(commands)[index as int].kind },
        ),
        index >= anchors_of(commands).len() ==> moved_anchor(commands, index, x, y) == commands,
{
    lemma_anchor_position(commands, index);
    match anchor_position(commands, index) {
        Some(p) => {
            let head = commands.take(p);
            let tail = commands.skip(p + 1);
            let before = seq![commands[p]];
            let after = seq![with_anchor(commands[p], x, y)];
            let moved = moved_anchor(commands, index, x, y);
            assert(commands =~= head + before + tail);
            assert(moved =~= head + after + tail);
            lemma_anchors_concat(head + before, tail);
            lemma_anchors_concat(head, before);
            lemma_anchors_concat(head + after, tail);
            lemma_anchors_concat(head, after);
            assert(before.drop_last() =~= Seq::<PathCommand>::empty());
            assert(after.drop_last() =~= Seq::<PathCommand>::empty());
            assert(anchors_of(before.drop_last()) =~= Seq::<PathPoint>::empty());
            assert(anchors_of(before) =~= anchor_of(commands[p]));
            assert(anchors_of(after) =~= anchor_of(with_anchor(commands[p], x, y)));
            let points = anchors_of(commands);
            assert(points[index as int] == anchor_of(commands[p])[0]);
            assert(anchors_of(moved) =~= points.update(
                index as int,
                PathPoint { x, y, kind: points[index as int].kind },
            ));
        },
        None => {},
    }
}

/// The anchors of a path in order.
pub fn path_points(commands: &Vec<PathCommand>) -> (points: Vec<PathPoint>)
    ensures
        points@ == anchors_of(commands@),
{
    let mut out: Vec<PathPoint> = Vec::new();
    let mut i: usize = 0;
    while i < commands.len()
        invariant
            i <= commands.len(),
            out@ == anchors_of(commands@.take(i as int)),
        decreases commands.len() - i,
    {
        let ghost before = out@;
        match commands[i] {
            PathCommand::MoveTo { x, y } => {
                out.push(PathPoint { x, y, kind: PointKind::Move });
            },
            PathCommand::LineTo { x, y } => {
                out.push(PathPoint { x, y, kind: PointKind::Line });
            },
            PathCommand::CurveTo { x, y, .. } => {
                out.push(PathPoint { x, y, kind: PointKind::Curve });
            },
            PathCommand::ClosePath => {},
        }
        proof {
            let next = commands@.take(i as int + 1);
            assert(next.drop_last() =~= commands@.take(i as int));
            assert(next.last() == commands@[i as int]);
            assert(out@ =~= before + anchor_of(commands@[i as int]));
        }
        i += 1;
    }
    assert(commands@.take(i as int) =~= commands@);
    out
}

/// Where the `index`-th anchor stands in the command list.
pub fn find_anchor(commands: &Vec<PathCommand>, index: usize) -> (r: Option<usize>)
    ensures
        match r {
            Some(p) => anchor_position(commands@, index as nat) == Some(p as int) && p
                < commands.len(),
            None => anchor_position(commands@, index as nat) is None,
        },
{
    let ghost all = commands@;
    let mut seen: usize = 0;
    let mut i: usize = 0;
    assert(all.skip(0) =~= all);
    while i < commands.len()
        invariant
            i <= commands.len(),
            seen <= index,
            seen <= i,
            all == commands@,
            anchor_position(all, index as nat) == shifted(
                anchor_position(all.skip(i as int), (index - seen) as nat),
                i as int,
            ),
        decreases commands.len() - i,
    {
        assert(all.skip(i as int).skip(1) =~= all.skip(i as int + 1));
        assert(all.skip(i as int)[0] == all[i as int]);
        match commands[i] {
            PathCommand::ClosePath => {},
            _ => {
                if seen == index {
                    return Some(i);
                }
                seen += 1;
            },
        }
        i += 1;
    }
    None
}

/// A leaf as a traversal reports it: the leaf's own data and the transforms
/// on the way to it, outermost group first and the leaf's own transform last.
/// The leaf's world transform is their product in that order.
#[derive(Debug)]
pub struct LeafEntry {
    pub id: String,
    pub object: VectorObject,
    pub transforms: Vec<TransformMatrix>,
    pub style: ObjectStyle,
}

/// What a [`LeafEntry`] holds.
pub ghost struct LeafView {
    pub id: Seq<char>,
    pub object: ObjectView,
    pub transforms: Seq<TransformMatrix>,
    pub style: StyleView,
}

impl View for LeafEntry {
    type V = LeafView;

    open spec fn view(&self) -> LeafView {
        LeafView {
            id: self.id@,
            object: self.object@,
            transforms: self.transforms@,
            style: self.style@,
        }
    }
}

/// A leaf together with its world transform, the product of the transforms
/// on the way to it.
#[derive(Debug)]
pub struct WorldLeaf {
    pub id: String,
    pub object: VectorObject,
    pub world_transform: TransformMatrix,
    pub style: ObjectStyle,
}

/// What a [`WorldLeaf`] holds.
pub ghost struct WorldLeafView {
    pub id: Seq<char>,
    pub object: ObjectView,
    pub world_transform: TransformMatrix,
    pub style: StyleView,
}

impl View for WorldLeaf {
    type V = WorldLeafView;

    open spec fn view(&self) -> WorldLeafView {
        WorldLeafView {
            id: self.id@,
            object: self.object@,
            world_transform: self.world_transform,
            style: self.style@,
        }
    }
}

impl LeafEntry {
    /// Pairs the leaf with its world transform, which the caller has
    /// multiplied out from `transforms`.
    pub fn place(self, world_transform: TransformMatrix) -> (leaf: WorldLeaf)
        ensures
            leaf@ == (WorldLeafView {
                id: self@.id,
                object: self@.object,
                world_transform,
                style: self@.style,
            }),
    {
        WorldLeaf { id: self.id, object: self.object, world_transform, style: self.style }
    }
}

/// The views of a run of placed leaves, in order.
pub open spec fn world_leaves_view(leaves: Seq<WorldLeaf>) -> Seq<WorldLeafView> {
    Seq::new(leaves.len(), |i: int| leaves[i]@)
}

/// The views of a run of leaf entries, in order.
pub open spec fn entries_view(entries: Seq<LeafEntry>) -> Seq<LeafView> {
    Seq::new(entries.len(), |i: int| entries[i]@)
}

/// The leaves below a run of nodes in pre-order, each with the transforms
/// from the outside in; `chain` holds those of the groups already entered.
pub open spec fn leaves_of(nodes: Seq<NodeView>, chain: Seq<TransformMatrix>) -> Seq<LeafView>
    decreases nodes,
{
    if nodes.len() == 0 {
        Seq::empty()
    } else {
        let head: Seq<LeafView> = match nodes[0] {
            NodeView::Group { children, transform, .. } => leaves_of(
                children,
                chain.push(transform),
            ),
            NodeView::Leaf { id, object, transform, style } => seq![
                LeafView { id, object, transforms: chain.push(transform), style },
            ],
        };
        head + leaves_of(nodes.skip(1), chain)
    }
}

impl Clone for LeafEntry {
    fn clone(&self) -> (r: LeafEntry)
        ensures
            r@ == self@,
    {
        let mut transforms: Vec<TransformMatrix> = Vec::new();
        let mut i: usize = 0;
        while i < self.transforms.len()
            invariant
                i <= self.transforms.len(),
                transforms@ == self.transforms@.subrange(0, i as int),
            decreases self.transforms.len() - i,
        {
            transforms.push(self.transforms[i]);
            i += 1;
        }
        assert(transforms@ =~= self.transforms@);
        LeafEntry {
            id: self.id.clone(),
            object: self.object.clone(),
            transforms,
            style: self.style.clone(),
        }
    }
}

/// Copies a transform list and appends one more transform.
fn extend_chain(chain: &Vec<TransformMatrix>, transform: TransformMatrix) -> (r: Vec<
    TransformMatrix,
>)
    ensures
        r@ == chain@.push(transform),
{
    let mut out: Vec<TransformMatrix> = Vec::new();
    let mut i: usize = 0;
    while i < chain.len()
        invariant
            i <= chain.len(),
            out@ == chain@.subrange(0, i as int),
        decreases chain.len() - i,
    {
        out.push(chain[i]);
        i += 1;
    }
    out.push(transform);
    assert(out@ =~= chain@.push(transform));
    out
}

fn collect_leaves(nodes: &Vec<SceneNode>, chain: &Vec<TransformMatrix>, out: &mut Vec<LeafEntry>)
    ensures
        entries_view(final(out)@) == entries_view(old(out)@) + leaves_of(
            nodes_view(nodes@),
            chain@,
        ),
    decreases nodes,
{
    let ghost all = nodes_view(nodes@);
    let ghost start = entries_view(out@);
    let mut i: usize = 0;
    assert(all.skip(0) =~= all);
    assert(start + Seq::<LeafView>::empty() =~= start);
    while i < nodes.len()
        invariant
            i <= nodes.len(),
            all == nodes_view(nodes@),
            entries_view(out@) + leaves_of(all.skip(i as int), chain@) == start + leaves_of(
                all,
                chain@,
            ),
        decreases nodes.len() - i,
    {
        assert(all.skip(i as int).skip(1) =~= all.skip(i as int + 1));
        assert(all.skip(i as int)[0] == nodes@[i as int]@);
        let ghost before = entries_view(out@);
        let ghost rest = leaves_of(all.skip(i as int + 1), chain@);
        match &nodes[i] {
            SceneNode::Group { children, transform, .. } => {
                let inner = extend_chain(chain, *transform);
                collect_leaves(children, &inner, out);
                proof {
                    let head = leaves_of(nodes_view(children@), inner@);
                    assert((before + head) + rest =~= before + (head + rest));
                }
            },
            SceneNode::Leaf { id, object, transform, style } => {
                let entry = LeafEntry {
                    id: id.clone(),
                    object: object.clone(),
                    transforms: extend_chain(chain, *transform),
                    style: style.clone(),
                };
                out.push(entry);
                proof {
                    let head = seq![entry@];
                    assert(entries_view(out@) =~= before + head);
                    assert((before + head) + rest =~= before + (head + rest));
                }
            },
        }
        i += 1;
    }
    assert(entries_view(out@) + Seq::<LeafView>::empty() =~= entries_view(out@));
}

/// The scene: root nodes in z-order, and the number of identifiers handed out.
#[derive(Debug)]
pub struct SceneGraph {
    roots: Vec<SceneNode>,
    id_counter: u64,
}

/// What a [`SceneGraph`] holds.
pub ghost struct SceneView {
    pub roots: Seq<NodeView>,
    pub id_counter: nat,
}

impl View for SceneGraph {
    type V = SceneView;

    closed spec fn view(&self) -> SceneView {
        SceneView { roots: nodes_view(self.roots@), id_counter: self.id_counter as nat }
    }
}

fn node_has_id(node: &SceneNode, target: &String) -> (r: bool)
    ensures
        r == (node@.id() == target@),
{
    match node {
        SceneNode::Group { id, .. } => *id == *target,
        SceneNode::Leaf { id, .. } => *id == *target,
    }
}

fn count_in(nodes: &Vec<SceneNode>) -> (n: usize)
    requires
        count_nodes(nodes_view(nodes@)) <= usize::MAX,
    ensures
        n == count_nodes(nodes_view(nodes@)),
    decreases nodes,
{
    let ghost all = nodes_view(nodes@);
    let mut total: usize = 0;
    let mut i: usize = 0;
    assert(all.skip(0) =~= all);
    while i < nodes.len()
        invariant
            i <= nodes.len(),
            all == nodes_view(nodes@),
            count_nodes(all) <= usize::MAX,
            total + count_nodes(all.skip(i as int)) == count_nodes(all),
        decreases nodes.len() - i,
    {
        assert(all.skip(i as int).skip(1) =~= all.skip(i as int + 1));
        assert(all.skip(i as int)[0] == nodes@[i as int]@);
        let below: usize = match &nodes[i] {
            SceneNode::Group { children, .. } => count_in(children),
            SceneNode::Leaf { .. } => 0,
        };
        total = total + 1 + below;
        i += 1;
    }
    total
}

fn find_in<'a>(nodes: &'a Vec<SceneNode>, target: &String) -> (r: Option<&'a SceneNode>)
    ensures
        match r {
            Some(node) => find_node(nodes_view(nodes@), target@) == Some(node@),
            None => find_node(nodes_view(nodes@), target@) is None,
        },
    decreases nodes,
{
    let ghost all = nodes_view(nodes@);
    let mut i: usize = 0;
    assert(all.skip(0) =~= all);
    while i < nodes.len()
        invariant
            i <= nodes.len(),
            all == nodes_view(nodes@),
            find_node(all, target@) == find_node(all.skip(i as int), target@),
        decreases nodes.len() - i,
    {
        assert(all.skip(i as int).skip(1) =~= all.skip(i as int + 1));
        assert(all.skip(i as int)[0] == nodes@[i as int]@);
        let node = &nodes[i];
        if node_has_id(node, target) {
            return Some(node);
        }
        match node {
            SceneNode::Group { children, .. } => {
                let found = find_in(children, target);
                if found.is_some() {
                    return found;
                }
            },
            SceneNode::Leaf { .. } => {},
        }
        i += 1;
    }
    None
}

impl SceneGraph {
    /// An empty scene that has handed out no identifier yet.
    pub fn new() -> (s: SceneGraph)
        ensures
            s@.roots == Seq::<NodeView>::empty(),
            s@.id_counter == 0,
    {
        let s = SceneGraph { roots: Vec::new(), id_counter: 0 };
        assert(s@.roots =~= Seq::<NodeView>::empty());
        s
    }

    /// A scene made of the given roots, which has handed out `id_counter`
    /// identifiers.
    pub fn from_parts(roots: Vec<SceneNode>, id_counter: u64) -> (s: SceneGraph)
        ensures
            s@.roots == nodes_view(roots@),
            s@.id_counter == id_counter,
    {
        SceneGraph { roots, id_counter }
    }

    /// The number of identifiers handed out so far.
    pub fn id_counter(&self) -> (n: u64)
        ensures
            n == self@.id_counter,
    {
        self.id_counter
    }

    /// The root nodes, bottom of the z-order first.
    pub fn roots(&self) -> (r: &Vec<SceneNode>)
        ensures
            nodes_view(r@) == self@.roots,
    {
        &self.roots
    }

    /// Hands out the next identifier. Identifiers are numbered from one, so
    /// the result differs from every identifier handed out before.
    pub fn generate_id(&mut self) -> (id: String)
        requires
            old(self)@.id_counter < u64::MAX,
        ensures
            final(self)@.id_counter == old(self)@.id_counter + 1,
            final(self)@.roots == old(self)@.roots,
            id@ == id_text(final(self)@.id_counter),
    {
        self.id_counter = self.id_counter + 1;
        make_id(self.id_counter)
    }

    /// Puts a new leaf with the default style on top of the z-order.
    pub fn add_object(&mut self, id: String, object: VectorObject, transform: TransformMatrix)
        ensures
            final(self)@.id_counter == old(self)@.id_counter,
            final(self)@.roots == old(self)@.roots.push(
                NodeView::Leaf {
                    id: id@,
                    object: object@,
                    transform,
                    style: ObjectStyle::default_view(),
                },
            ),
    {
        let node = SceneNode::Leaf { id, object, transform, style: ObjectStyle::default() };
        self.roots.push(node);
        assert(nodes_view(self.roots@) =~= nodes_view(old(self).roots@).push(node@));
    }

    /// The number of nodes: every group counts itself and what is below it.
    pub fn object_count(&self) -> (n: usize)
        requires
            count_nodes(self@.roots) <= usize::MAX,
        ensures
            n == count_nodes(self@.roots),
    {
        count_in(&self.roots)
    }

    fn position_of(&self, target: &String) -> (r: Option<usize>)
        ensures
            match r {
                Some(i) => root_position(self@.roots, target@) == Some(i as int) && i
                    < self.roots.len(),
                None => root_position(self@.roots, target@) is None,
            },
    {
        let mut i: usize = 0;
        while i < self.roots.len()
            invariant
                i <= self.roots.len(),
                forall|k: int| 0 <= k < i ==> self@.roots[k].id() != target@,
            decreases self.roots.len() - i,
        {
            if node_has_id(&self.roots[i], target) {
                proof {
                    assert(is_first_root(self@.roots, target@, i as int));
                    lemma_root_position(self@.roots, target@);
                }
                return Some(i);
            }
            i += 1;
        }
        proof {
            lemma_root_position(self@.roots, target@);
        }
        None
    }

    /// The first root with the given identifier, for changing it in place.
    /// Only roots are searched: a node below a group is not found.
    pub fn get_node_by_id_mut(&mut self, target_id: &str) -> (r: Option<&mut SceneNode>)
        ensures
            final(self)@.id_counter == old(self)@.id_counter,
            match r {
                Some(node) => {
                    &&& root_position(old(self)@.roots, target_id@) matches Some(i)
                    &&& node@ == old(self)@.roots[i]
                    &&& final(self)@.roots == old(self)@.roots.update(i, final(node)@)
                },
                None => {
                    &&& root_position(old(self)@.roots, target_id@) is None
                    &&& final(self)@.roots == old(self)@.roots
                },
            },
    {
        let target = target_id.to_owned();
        match self.position_of(&target) {
            Some(i) => {
                let node = &mut self.roots[i];
                Some(node)
            },
            None => None,
        }
    }

    /// Moves the first root with the given identifier to the top of the
    /// z-order. Returns whether anything moved: `false` when no root has the
    /// identifier or it is on top already.
    pub fn bring_to_front(&mut self, target_id: &str) -> (moved: bool)
        ensures
            final(self)@.id_counter == old(self)@.id_counter,
            moved == (root_position(old(self)@.roots, target_id@) matches Some(i) && i
                < old(self)@.roots.len() - 1),
            final(self)@.roots == raised(old(self)@.roots, target_id@),
    {
        let target = target_id.to_owned();
        match self.position_of(&target) {
            Some(i) => {
                if i < self.roots.len() - 1 {
                    let node = self.roots.remove(i);
                    self.roots.push(node);
                    assert(nodes_view(self.roots@) =~= nodes_view(old(self).roots@).remove(
                        i as int,
                    ).push(nodes_view(old(self).roots@)[i as int]));
                    true
                } else {
                    assert(old(self)@.roots.remove(i as int).push(old(self)@.roots[i as int])
                        =~= old(self)@.roots);
                    false
                }
            },
            None => false,
        }
    }

    /// Moves the first root with the given identifier to the bottom of the
    /// z-order. Returns whether anything moved: `false` when no root has the
    /// identifier or it is at the bottom already.
    pub fn send_to_back(&mut self, target_id: &str) -> (moved: bool)
        ensures
            final(self)@.id_counter == old(self)@.id_counter,
            moved == (root_position(old(self)@.roots, target_id@) matches Some(i) && i > 0),
            final(self)@.roots == lowered(old(self)@.roots, target_id@),
    {
        let target = target_id.to_owned();
        match self.position_of(&target) {
            Some(i) => {
                if i > 0 {
                    let node = self.roots.remove(i);
                    self.roots.insert(0, node);
                    assert(nodes_view(self.roots@) =~= nodes_view(old(self).roots@).remove(
                        i as int,
                    ).insert(0, nodes_view(old(self).roots@)[i as int]));
                    true
                } else {
                    assert(old(self)@.roots.remove(0).insert(0, old(self)@.roots[0])
                        =~= old(self)@.roots);
                    false
                }
            },
            None => false,
        }
    }

    /// Gives the first root with the given identifier a new style, if it is
    /// a leaf. Only roots are searched.
    pub fn set_root_style(&mut self, target_id: &str, style: &ObjectStyle)
        ensures
            final(self)@.id_counter == old(self)@.id_counter,
            final(self)@.roots == restyled_root(old(self)@.roots, target_id@, style@),
    {
        let fresh = style.clone();
        match self.get_node_by_id_mut(target_id) {
            Some(node) => {
                match node {
                    SceneNode::Leaf { style: current, .. } => {
                        *current = fresh;
                    },
                    SceneNode::Group { .. } => {},
                }
            },
            None => {},
        }
        assert(self@.roots =~= restyled_root(old(self)@.roots, target_id@, style@));
    }

    /// Gives the first root with the given identifier a new transform, if it
    /// is a leaf. Only roots are searched.
    pub fn set_root_transform(&mut self, target_id: &str, transform: TransformMatrix)
        ensures
            final(self)@.id_counter == old(self)@.id_counter,
            final(self)@.roots == placed_root(old(self)@.roots, target_id@, transform),
    {
        match self.get_node_by_id_mut(target_id) {
            Some(node) => {
                match node {
                    SceneNode::Leaf { transform: current, .. } => {
                        *current = transform;
                    },
                    SceneNode::Group { .. } => {},
                }
            },
            None => {},
        }
        assert(self@.roots =~= placed_root(old(self)@.roots, target_id@, transform));
    }

    /// Moves the `index`-th anchor of the path held by the first root with
    /// the given identifier to `(x, y)`, in the path's local space. Only roots
    /// are searched; nothing changes unless the root is a leaf holding a path
    /// with such an anchor.
    pub fn set_root_path_point(&mut self, target_id: &str, index: usize, x: Scalar, y: Scalar)
        ensures
            final(self)@.id_counter == old(self)@.id_counter,
            final(self)@.roots == reshaped_root(old(self)@.roots, target_id@, index as nat, x, y),
    {
        match self.get_node_by_id_mut(target_id) {
            Some(node) => {
                match node {
                    SceneNode::Leaf { object, .. } => {
                        match object {
                            VectorObject::Path { commands, .. } => {
                                match find_anchor(commands, index) {
                                    Some(p) => {
                                        let moved = match commands[p] {
                                            PathCommand::MoveTo { .. } => PathCommand::MoveTo {
                                                x,
                                                y,
                                            },
                                            PathCommand::LineTo { .. } => PathCommand::LineTo {
                                                x,
                                                y,
                                            },
                                            PathCommand::CurveTo { x1, y1, x2, y2, .. } => {
                                                PathCommand::CurveTo { x1, y1, x2, y2, x, y }
                                            },
                                            PathCommand::ClosePath => PathCommand::ClosePath,
                                        };
                                        commands.set(p, moved);
                                    },
                                    None => {},
                                }
                            },
                            _ => {},
                        }
                    },
                    SceneNode::Group { .. } => {},
                }
            },
            None => {},
        }
        assert(self@.roots =~= reshaped_root(
            old(self)@.roots,
            target_id@,
            index as nat,
            x,
            y,
        ));
    }

    /// Every leaf of the scene in pre-order, bottom of the z-order first, each
    /// with the transforms of its ancestors and its own, outermost first.
    pub fn iter_leaves(&self) -> (leaves: Vec<LeafEntry>)
        ensures
            entries_view(leaves@) == leaves_of(self@.roots, Seq::<TransformMatrix>::empty()),
    {
        let mut out: Vec<LeafEntry> = Vec::new();
        let chain: Vec<TransformMatrix> = Vec::new();
        collect_leaves(&self.roots, &chain, &mut out);
        assert(entries_view(out@) =~= leaves_of(self@.roots, Seq::<TransformMatrix>::empty()));
        out
    }

    /// The first node with the given identifier, at any depth.
    pub fn get_node_by_id(&self, target_id: &str) -> (r: Option<&SceneNode>)
        ensures
            match r {
                Some(node) => find_node(self@.roots, target_id@) == Some(node@),
                None => find_node(self@.roots, target_id@) is None,
            },
    {
        let target = target_id.to_owned();
        find_in(&self.roots, &target)
    }
}

impl Clone for SceneGraph {
    /// A deep copy: nothing is shared with the scene it was made from.
    fn clone(&self) -> (r: SceneGraph)
        ensures
            r@ == self@,
    {
        SceneGraph { roots: copy_nodes(&self.roots), id_counter: self.id_counter }
    }
}

impl Default for SceneGraph {
    fn default() -> (s: SceneGraph)
        ensures
            s@.roots == Seq::<NodeView>::empty(),
            s@.id_counter == 0,
    {
        SceneGraph::new()
    }
}

} // verus!
