//! Flattening placed leaves into drawing commands for a canvas-like surface.

use vstd::prelude::*;
use crate::math::TransformMatrix;
use crate::scalar::Scalar;
use crate::scene::ObjectView;
use crate::scene::PathCommand;
use crate::scene::StyleView;
use crate::scene::VectorObject;
use crate::scene::world_leaves_view;
use crate::scene::WorldLeaf;
use crate::scene::WorldLeafView;

verus! {

/// One drawing command. The coefficient order of `SetTransform` is the
/// surface's: `(a, b, c, d, e, f)` maps `(x, y)` to `(a x + c y + e, b x + d y + f)`.
#[derive(Debug)]
pub enum RenderCommand {
    SetTransform { a: Scalar, b: Scalar, c: Scalar, d: Scalar, e: Scalar, f: Scalar },
    BeginPath,
    Rect { x: Scalar, y: Scalar, width: Scalar, height: Scalar },
    Ellipse { cx: Scalar, cy: Scalar, rx: Scalar, ry: Scalar },
    MoveTo { x: Scalar, y: Scalar },
    LineTo { x: Scalar, y: Scalar },
    BezierCurveTo { cp1x: Scalar, cp1y: Scalar, cp2x: Scalar, cp2y: Scalar, x: Scalar, y: Scalar },
    ClosePath,
    SetFillStyle { color: String },
    SetStrokeStyle { color: String },
    SetLineWidth { width: Scalar },
    Fill,
    Stroke,
    ResetTransform,
}

/// What a [`RenderCommand`] holds.
pub ghost enum RenderView {
    SetTransform { a: Scalar, b: Scalar, c: Scalar, d: Scalar, e: Scalar, f: Scalar },
    BeginPath,
    Rect { x: Scalar, y: Scalar, width: Scalar, height: Scalar },
    Ellipse { cx: Scalar, cy: Scalar, rx: Scalar, ry: Scalar },
    MoveTo { x: Scalar, y: Scalar },
    LineTo { x: Scalar, y: Scalar },
    BezierCurveTo { cp1x: Scalar, cp1y: Scalar, cp2x: Scalar, cp2y: Scalar, x: Scalar, y: Scalar },
    ClosePath,
    SetFillStyle { color: Seq<char> },
    SetStrokeStyle { color: Seq<char> },
    SetLineWidth { width: Scalar },
    Fill,
    Stroke,
    ResetTransform,
}

impl View for RenderCommand {
    type V = RenderView;

    open spec fn view(&self) -> RenderView {
        match self {
            RenderCommand::SetTransform { a, b, c, d, e, f } => RenderView::SetTransform {
                a: *a,
                b: *b,
                c: *c,
                d: *d,
                e: *e,
                f: *f,
            },
            RenderCommand::BeginPath => RenderView::BeginPath,
            RenderCommand::Rect { x, y, width, height } => RenderView::Rect {
                x: *x,
                y: *y,
                width: *width,
                height: *height,
            },
            RenderCommand::Ellipse { cx, cy, rx, ry } => RenderView::Ellipse {
                cx: *cx,
                cy: *cy,
                rx: *rx,
                ry: *ry,
            },
            RenderCommand::MoveTo { x, y } => RenderView::MoveTo { x: *x, y: *y },
            RenderCommand::LineTo { x, y } => RenderView::LineTo { x: *x, y: *y },
            RenderCommand::BezierCurveTo { cp1x, cp1y, cp2x, cp2y, x, y } => {
                RenderView::BezierCurveTo {
                    cp1x: *cp1x,
                    cp1y: *cp1y,
                    cp2x: *cp2x,
                    cp2y: *cp2y,
                    x: *x,
                    y: *y,
                }
            },
            RenderCommand::ClosePath => RenderView::ClosePath,
            RenderCommand::SetFillStyle { color } => RenderView::SetFillStyle { color: color@ },
            RenderCommand::SetStrokeStyle { color } => RenderView::SetStrokeStyle {
                color: color@,
            },
            RenderCommand::SetLineWidth { width } => RenderView::SetLineWidth { width: *width },
            RenderCommand::Fill => RenderView::Fill,
            RenderCommand::Stroke => RenderView::Stroke,
            RenderCommand::ResetTransform => RenderView::ResetTransform,
        }
    }
}

/// The views of a run of drawing commands, in order.
pub open spec fn commands_view(commands: Seq<RenderCommand>) -> Seq<RenderView> {
    Seq::new(commands.len(), |i: int| commands[i]@)
}

/// The outline of a selected leaf in world space: its local bounding box
/// mapped corner by corner, in the order top-left, top-right, bottom-right,
/// bottom-left of the local box.
#[derive(Debug)]
pub struct SelectionOverlay {
    pub id: String,
    pub corners: [(Scalar, Scalar); 4],
}

/// What a [`SelectionOverlay`] holds.
pub ghost struct OverlayView {
    pub id: Seq<char>,
    pub corners: Seq<(Scalar, Scalar)>,
}

impl View for SelectionOverlay {
    type V = OverlayView;

    open spec fn view(&self) -> OverlayView {
        OverlayView { id: self.id@, corners: self.corners@ }
    }
}

/// The views of a run of outlines, in order.
pub open spec fn overlays_view(overlays: Seq<SelectionOverlay>) -> Seq<OverlayView> {
    Seq::new(overlays.len(), |i: int| overlays[i]@)
}

/// The corners of the first outline that belongs to the object `id`.
pub open spec fn outline_of(overlays: Seq<OverlayView>, id: Seq<char>) -> Option<Seq<(Scalar, Scalar)>>
    decreases overlays.len(),
{
    if overlays.len() == 0 {
        None
    } else if overlays[0].id == id {
        Some(overlays[0].corners)
    } else {
        outline_of(overlays.skip(1), id)
    }
}

/// The first outline that belongs to the object `id`.
pub fn find_overlay<'a>(overlays: &'a Vec<SelectionOverlay>, id: &String) -> (r: Option<
    &'a SelectionOverlay,
>)
    ensures
        match r {
            Some(overlay) => outline_of(overlays_view(overlays@), id@) == Some(overlay@.corners),
            None => outline_of(overlays_view(overlays@), id@) is None,
        },
{
    let ghost all = overlays_view(overlays@);
    let mut i: usize = 0;
    assert(all.skip(0) =~= all);
    while i < overlays.len()
        invariant
            i <= overlays.len(),
            all == overlays_view(overlays@),
            outline_of(all, id@) == outline_of(all.skip(i as int), id@),
        decreases overlays.len() - i,
    {
        assert(all.skip(i as int).skip(1) =~= all.skip(i as int + 1));
        assert(all.skip(i as int)[0] == overlays@[i as int]@);
        if overlays[i].id == *id {
            return Some(&overlays[i]);
        }
        i += 1;
    }
    None
}

/// The drawing command for one path command.
pub open spec fn path_step(command: PathCommand) -> RenderView {
    match command {
        PathCommand::MoveTo { x, y } => RenderView::MoveTo { x, y },
        PathCommand::LineTo { x, y } => RenderView::LineTo { x, y },
        PathCommand::CurveTo { x1, y1, x2, y2, x, y } => RenderView::BezierCurveTo {
            cp1x: x1,
            cp1y: y1,
            cp2x: x2,
            cp2y: y2,
            x,
            y,
        },
        PathCommand::ClosePath => RenderView::ClosePath,
    }
}

/// The commands that trace a shape.
pub open spec fn shape_commands(object: ObjectView) -> Seq<RenderView> {
    match object {
        ObjectView::Rectangle { x, y, width, height } => seq![
            RenderView::Rect { x, y, width, height },
        ],
        ObjectView::Ellipse { cx, cy, rx, ry } => seq![RenderView::Ellipse { cx, cy, rx, ry }],
        ObjectView::Path { commands, .. } => Seq::new(
            commands.len(),
            |i: int| path_step(commands[i]),
        ),
    }
}

/// The commands that set up a style before the shape is traced: the fill
/// colour if there is one, the stroke colour if there is one, the line width.
pub open spec fn style_commands(style: StyleView) -> Seq<RenderView> {
    let fill: Seq<RenderView> = match style.fill_color {
        Some(color) => seq![RenderView::SetFillStyle { color }],
        None => Seq::empty(),
    };
    let stroke: Seq<RenderView> = match style.stroke_color {
        Some(color) => seq![RenderView::SetStrokeStyle { color }],
        None => Seq::empty(),
    };
    fill + stroke + seq![RenderView::SetLineWidth { width: style.stroke_width }]
}

/// The commands that paint a traced shape: fill and stroke, each only if the
/// style has that colour.
pub open spec fn paint_commands(style: StyleView) -> Seq<RenderView> {
    let fill: Seq<RenderView> = if style.fill_color is Some {
        seq![RenderView::Fill]
    } else {
        Seq::empty()
    };
    let stroke: Seq<RenderView> = if style.stroke_color is Some {
        seq![RenderView::Stroke]
    } else {
        Seq::empty()
    };
    fill + stroke
}

/// The surface's form of a transform: the off-diagonal terms change places.
pub open spec fn transform_command(t: TransformMatrix) -> RenderView {
    RenderView::SetTransform { a: t.a, b: t.c, c: t.b, d: t.d, e: t.tx, f: t.ty }
}

/// Everything drawn for one leaf: transform, style, path begin, the shape,
/// fill and stroke, transform reset.
pub open spec fn leaf_commands(leaf: WorldLeafView) -> Seq<RenderView> {
    seq![transform_command(leaf.world_transform)] + style_commands(leaf.style)
        + seq![RenderView::BeginPath] + shape_commands(leaf.object) + paint_commands(leaf.style)
        + seq![RenderView::ResetTransform]
}

/// Everything drawn for a run of leaves, in order.
pub open spec fn scene_commands(leaves: Seq<WorldLeafView>) -> Seq<RenderView>
    decreases leaves.len(),
{
    if leaves.len() == 0 {
        Seq::empty()
    } else {
        scene_commands(leaves.drop_last()) + leaf_commands(leaves.last())
    }
}

fn push_command(out: &mut Vec<RenderCommand>, command: RenderCommand)
    ensures
        commands_view(final(out)@) == commands_view(old(out)@).push(command@),
{
    out.push(command);
    assert(commands_view(out@) =~= commands_view(old(out)@).push(command@));
}

fn push_shape(out: &mut Vec<RenderCommand>, object: &VectorObject)
    ensures
        commands_view(final(out)@) == commands_view(old(out)@) + shape_commands(object@),
{
    let ghost start = commands_view(out@);
    match object {
        VectorObject::Rectangle { x, y, width, height } => {
            let rect = RenderCommand::Rect { x: *x, y: *y, width: *width, height: *height };
            assert(start.push(rect@) =~= start + shape_commands(object@));
            push_command(out, rect);
        },
        VectorObject::Ellipse { cx, cy, rx, ry } => {
            let ellipse = RenderCommand::Ellipse { cx: *cx, cy: *cy, rx: *rx, ry: *ry };
            assert(start.push(ellipse@) =~= start + shape_commands(object@));
            push_command(out, ellipse);
        },
        VectorObject::Path { commands, .. } => {
            let mut i: usize = 0;
            assert(start =~= start + shape_commands(object@).subrange(0, 0));
            while i < commands.len()
                invariant
                    i <= commands.len(),
                    object@ matches ObjectView::Path { commands: c, .. } && c == commands@,
                    commands_view(out@) == start + shape_commands(object@).subrange(0, i as int),
                decreases commands.len() - i,
            {
                let step = match commands[i] {
                    PathCommand::MoveTo { x, y } => RenderCommand::MoveTo { x, y },
                    PathCommand::LineTo { x, y } => RenderCommand::LineTo { x, y },
                    PathCommand::CurveTo { x1, y1, x2, y2, x, y } => {
                        RenderCommand::BezierCurveTo {
                            cp1x: x1,
                            cp1y: y1,
                            cp2x: x2,
                            cp2y: y2,
                            x,
                            y,
                        }
                    },
                    PathCommand::ClosePath => RenderCommand::ClosePath,
                };
                assert(step@ == path_step(commands@[i as int]));
                let ghost before = commands_view(out@);
                push_command(out, step);
                assert(before.push(step@) =~= start + shape_commands(object@).subrange(
                    0,
                    i as int + 1,
                ));
                i += 1;
            }
            assert(shape_commands(object@).subrange(0, i as int) =~= shape_commands(object@));
        },
    }
}

fn push_leaf(out: &mut Vec<RenderCommand>, leaf: &WorldLeaf)
    ensures
        commands_view(final(out)@) == commands_view(old(out)@) + leaf_commands(leaf@),
{
    let ghost start = commands_view(out@);
    let t = leaf.world_transform;
    push_command(
        out,
        RenderCommand::SetTransform { a: t.a, b: t.c, c: t.b, d: t.d, e: t.tx, f: t.ty },
    );
    match &leaf.style.fill_color {
        Some(color) => {
            push_command(out, RenderCommand::SetFillStyle { color: color.clone() });
        },
        None => {},
    }
    match &leaf.style.stroke_color {
        Some(color) => {
            push_command(out, RenderCommand::SetStrokeStyle { color: color.clone() });
        },
        None => {},
    }
    push_command(out, RenderCommand::SetLineWidth { width: leaf.style.stroke_width });
    assert(commands_view(out@) =~= start + seq![transform_command(t)] + style_commands(
        leaf@.style,
    ));
    push_command(out, RenderCommand::BeginPath);
    push_shape(out, &leaf.object);
    let ghost traced = commands_view(out@);
    if leaf.style.fill_color.is_some() {
        push_command(out, RenderCommand::Fill);
    }
    if leaf.style.stroke_color.is_some() {
        push_command(out, RenderCommand::Stroke);
    }
    assert(commands_view(out@) =~= traced + paint_commands(leaf@.style));
    push_command(out, RenderCommand::ResetTransform);
    assert(commands_view(out@) =~= start + leaf_commands(leaf@));
}

/// The drawing commands for a run of placed leaves, bottom of the z-order
/// first: for each leaf its transform, its style, a path begin, its shape,
/// fill and stroke where the style has the colour, and a transform reset.
pub fn generate_render_commands(leaves: &Vec<WorldLeaf>) -> (commands: Vec<RenderCommand>)
    ensures
        commands_view(commands@) == scene_commands(world_leaves_view(leaves@)),
{
    let ghost all = world_leaves_view(leaves@);
    let mut out: Vec<RenderCommand> = Vec::new();
    let mut i: usize = 0;
    assert(commands_view(out@) =~= scene_commands(all.take(0)));
    while i < leaves.len()
        invariant
            i <= leaves.len(),
            all == world_leaves_view(leaves@),
            commands_view(out@) == scene_commands(all.take(i as int)),
        decreases leaves.len() - i,
    {
        push_leaf(&mut out, &leaves[i]);
        proof {
            let next = all.take(i as int + 1);
            assert(next.drop_last() =~= all.take(i as int));
            assert(next.last() == leaves@[i as int]@);
        }
        i += 1;
    }
    assert(all.take(i as int) =~= all);
    out
}

} // verus!
