use vector_editor_core::drag_state::DragMode;
use vector_editor_core::drag_state::DragState;
use vector_editor_core::drag_state::HandleIndex;
use vector_editor_core::math::TransformMatrix;
use vector_editor_core::pen_state::PenState;
use vector_editor_core::scalar::Scalar;
use vector_editor_core::scene::copy_commands;
use vector_editor_core::scene::default_true;
use vector_editor_core::scene::find_anchor;
use vector_editor_core::scene::path_points;
use vector_editor_core::scene::ObjectStyle;
use vector_editor_core::scene::PathCommand;
use vector_editor_core::scene::PointKind;
use vector_editor_core::scene::SceneGraph;
use vector_editor_core::scene::SceneNode;
use vector_editor_core::scene::VectorObject;

fn sc(v: f64) -> Scalar {
    Scalar::from_bits(v.to_bits())
}

fn fl(s: Scalar) -> f64 {
    f64::from_bits(s.to_bits())
}

fn rect(x: f64, y: f64, w: f64, h: f64) -> VectorObject {
    VectorObject::Rectangle { x: sc(x), y: sc(y), width: sc(w), height: sc(h) }
}

fn node_id(node: &SceneNode) -> &str {
    match node {
        SceneNode::Group { id, .. } => id.as_str(),
        SceneNode::Leaf { id, .. } => id.as_str(),
    }
}

fn root_ids(scene: &SceneGraph) -> Vec<String> {
    scene.roots().iter().map(|n| node_id(n).to_string()).collect()
}

fn leaf(id: &str, tx: f64) -> SceneNode {
    SceneNode::Leaf {
        id: id.to_string(),
        object: rect(0.0, 0.0, 1.0, 1.0),
        transform: TransformMatrix::translate(sc(tx), sc(0.0)),
        style: ObjectStyle::default(),
    }
}

fn nested_scene() -> SceneGraph {
    // a, g1[b, g2[c], d], e
    let g2 = SceneNode::Group {
        id: "g2".to_string(),
        children: vec![leaf("c", 3.0)],
        transform: TransformMatrix::translate(sc(200.0), sc(0.0)),
    };
    let g1 = SceneNode::Group {
        id: "g1".to_string(),
        children: vec![leaf("b", 2.0), g2, leaf("d", 4.0)],
        transform: TransformMatrix::translate(sc(100.0), sc(0.0)),
    };
    SceneGraph::from_parts(vec![leaf("a", 1.0), g1, leaf("e", 5.0)], 7)
}

#[test]
fn test_add_object() {
    let mut scene = SceneGraph::new();
    let id = scene.generate_id();
    scene.add_object(id.clone(), rect(0.0, 0.0, 100.0, 100.0), TransformMatrix::identity());
    assert_eq!(scene.object_count(), 1);
}

#[test]
fn test_iter_leaves() {
    let mut scene = SceneGraph::new();
    let id1 = scene.generate_id();
    let id2 = scene.generate_id();
    scene.add_object(id1, rect(0.0, 0.0, 100.0, 100.0), TransformMatrix::translate(sc(10.0), sc(20.0)));
    scene.add_object(
        id2,
        VectorObject::Ellipse { cx: sc(50.0), cy: sc(50.0), rx: sc(30.0), ry: sc(20.0) },
        TransformMatrix::identity(),
    );
    let leaves = scene.iter_leaves();
    assert_eq!(leaves.len(), 2);
}

#[test]
fn test_handle_opposite() {
    assert_eq!(HandleIndex::TopLeft.opposite(), HandleIndex::BottomRight);
    assert_eq!(HandleIndex::BottomRight.opposite(), HandleIndex::TopLeft);
}

#[test]
fn handle_opposite_covers_every_corner() {
    assert_eq!(HandleIndex::TopRight.opposite(), HandleIndex::BottomLeft);
    assert_eq!(HandleIndex::BottomLeft.opposite(), HandleIndex::TopRight);
    for index in 0u8..4 {
        let handle = HandleIndex::from_index(index).unwrap();
        assert_eq!(handle.index(), index as usize);
        assert_eq!(handle.opposite().index(), (index as usize + 2) % 4);
        assert_eq!(handle.opposite().opposite(), handle);
    }
    assert_eq!(HandleIndex::from_index(0), Some(HandleIndex::TopLeft));
    assert_eq!(HandleIndex::from_index(3), Some(HandleIndex::BottomLeft));
    assert_eq!(HandleIndex::from_index(4), None);
    assert_eq!(HandleIndex::from_index(255), None);
}

#[test]
fn test_drag_state_lifecycle() {
    let mut state = DragState::new();
    assert!(!state.is_active());

    let transforms = vec![("obj_1".to_string(), TransformMatrix::identity())];
    state.begin(DragMode::Moving, sc(100.0), sc(100.0), transforms, (sc(0.0), sc(0.0)));
    assert!(state.is_active());
    assert_eq!(state.mode, DragMode::Moving);

    let dx = 150.0 - fl(state.start_point.0);
    let dy = 120.0 - fl(state.start_point.1);
    assert!((dx - 50.0).abs() < 1e-10);
    assert!((dy - 20.0).abs() < 1e-10);

    state.end();
    assert!(!state.is_active());
}

#[test]
fn drag_state_remembers_what_it_froze() {
    let mut state = DragState::default();
    assert_eq!(state.mode, DragMode::default());
    assert_eq!(state.mode, DragMode::Idle);
    let first = TransformMatrix::translate(sc(1.0), sc(2.0));
    let second = TransformMatrix::scale(sc(3.0), sc(4.0));
    let shadowed = TransformMatrix::scale(sc(9.0), sc(9.0));
    state.begin(
        DragMode::Resizing(HandleIndex::TopRight),
        sc(5.0),
        sc(6.0),
        vec![
            ("obj_1".to_string(), first),
            ("obj_2".to_string(), second),
            ("obj_1".to_string(), shadowed),
        ],
        (sc(7.0), sc(8.0)),
    );
    assert_eq!(state.mode, DragMode::Resizing(HandleIndex::TopRight));
    assert_eq!(state.start_point, (sc(5.0), sc(6.0)));
    assert_eq!(state.pivot, (sc(7.0), sc(8.0)));
    assert_eq!(state.get_initial_transform("obj_1"), Some(&first));
    assert_eq!(state.get_initial_transform("obj_2"), Some(&second));
    assert_eq!(state.get_initial_transform("obj_3"), None);
    assert_eq!(state.get_initial_transform(""), None);
    state.end();
    assert_eq!(state.mode, DragMode::Idle);
    assert_eq!(state.start_point, (sc(0.0), sc(0.0)));
    assert_eq!(state.pivot, (sc(0.0), sc(0.0)));
    assert!(state.initial_transforms.is_empty());
    assert_eq!(state.get_initial_transform("obj_1"), None);
}

#[test]
fn test_pen_state_default() {
    let state = PenState::new();
    assert!(!state.is_drawing());
}

#[test]
fn test_is_near_start() {
    let state = PenState::Drawing {
        commands: vec![
            PathCommand::MoveTo { x: sc(100.0), y: sc(100.0) },
            PathCommand::LineTo { x: sc(200.0), y: sc(100.0) },
        ],
        start_point: (sc(100.0), sc(100.0)),
        last_anchor: (sc(200.0), sc(100.0)),
        drag_start_anchor: None,
        drag_handle: None,
        is_dragging: false,
    };
    let (sx, sy) = state.get_start_point().unwrap();
    let distance = |x: f64, y: f64| ((x - fl(sx)).powi(2) + (y - fl(sy)).powi(2)).sqrt();
    assert!(state.is_near_start(sc(distance(105.0, 100.0)), sc(10.0)));
    assert!(!state.is_near_start(sc(distance(200.0, 200.0)), sc(10.0)));
}

#[test]
fn is_near_start_needs_two_commands_and_a_smaller_distance() {
    let one = PenState::Drawing {
        commands: vec![PathCommand::MoveTo { x: sc(0.0), y: sc(0.0) }],
        start_point: (sc(0.0), sc(0.0)),
        last_anchor: (sc(0.0), sc(0.0)),
        drag_start_anchor: None,
        drag_handle: None,
        is_dragging: false,
    };
    assert!(!one.is_near_start(sc(0.0), sc(10.0)));
    assert!(!PenState::Idle.is_near_start(sc(0.0), sc(10.0)));
    let mut two = one.clone();
    two.pen_down(sc(50.0), sc(0.0), sc(50.0));
    two.pen_up();
    assert_eq!(two.get_commands().unwrap().len(), 2);
    assert!(two.is_near_start(sc(9.999), sc(10.0)));
    assert!(!two.is_near_start(sc(10.0), sc(10.0)));
    assert!(!two.is_near_start(sc(f64::NAN), sc(10.0)));
    assert!(PenState::default().get_commands().is_none());
    assert!(PenState::default().get_start_point().is_none());
}

#[test]
fn generate_id_counts_from_one() {
    let mut scene = SceneGraph::default();
    assert_eq!(scene.id_counter(), 0);
    assert_eq!(scene.generate_id(), "obj_1");
    assert_eq!(scene.generate_id(), "obj_2");
    assert_eq!(scene.generate_id(), "obj_3");
    assert_eq!(scene.id_counter(), 3);
    assert_eq!(scene.object_count(), 0);
    let mut seen: Vec<String> = Vec::new();
    for _ in 0..200 {
        let id = scene.generate_id();
        assert!(!seen.contains(&id));
        seen.push(id);
    }
}

#[test]
fn add_object_goes_on_top_with_the_default_style() {
    let mut scene = SceneGraph::new();
    scene.add_object("first".to_string(), rect(1.0, 2.0, 3.0, 4.0), TransformMatrix::identity());
    scene.add_object(
        "second".to_string(),
        rect(0.0, 0.0, 1.0, 1.0),
        TransformMatrix::translate(sc(5.0), sc(6.0)),
    );
    assert_eq!(root_ids(&scene), vec!["first", "second"]);
    assert_eq!(scene.id_counter(), 0);
    match &scene.roots()[1] {
        SceneNode::Leaf { id, object, transform, style } => {
            assert_eq!(id, "second");
            assert!(matches!(object, VectorObject::Rectangle { .. }));
            assert_eq!(*transform, TransformMatrix::translate(sc(5.0), sc(6.0)));
            assert_eq!(style.fill_color.as_deref(), Some("#3b82f6"));
            assert_eq!(style.stroke_color.as_deref(), Some("#1e40af"));
            assert_eq!(fl(style.stroke_width), 2.0);
        }
        SceneNode::Group { .. } => panic!("a leaf was added"),
    }
}

#[test]
fn default_style_is_blue_with_width_two() {
    let style = ObjectStyle::default();
    assert_eq!(style.fill_color, Some("#3b82f6".to_string()));
    assert_eq!(style.stroke_color, Some("#1e40af".to_string()));
    assert_eq!(fl(style.stroke_width), 2.0);
    let copy = style.clone();
    assert_eq!(copy.fill_color, style.fill_color);
    assert_eq!(copy.stroke_color, style.stroke_color);
    assert_eq!(copy.stroke_width, style.stroke_width);
    assert!(default_true());
}

#[test]
fn object_count_counts_groups_and_what_is_below() {
    let scene = nested_scene();
    assert_eq!(scene.object_count(), 7);
    assert_eq!(SceneGraph::new().object_count(), 0);
    let empty_group = SceneGraph::from_parts(
        vec![SceneNode::Group {
            id: "g".to_string(),
            children: Vec::new(),
            transform: TransformMatrix::identity(),
        }],
        0,
    );
    assert_eq!(empty_group.object_count(), 1);
    assert_eq!(empty_group.iter_leaves().len(), 0);
}

#[test]
fn iter_leaves_is_pre_order_with_transforms_from_the_outside_in() {
    let scene = nested_scene();
    let leaves = scene.iter_leaves();
    let ids: Vec<&str> = leaves.iter().map(|l| l.id.as_str()).collect();
    assert_eq!(ids, vec!["a", "b", "c", "d", "e"]);
    let chains: Vec<Vec<f64>> =
        leaves.iter().map(|l| l.transforms.iter().map(|t| fl(t.tx)).collect()).collect();
    assert_eq!(chains[0], vec![1.0]);
    assert_eq!(chains[1], vec![100.0, 2.0]);
    assert_eq!(chains[2], vec![100.0, 200.0, 3.0]);
    assert_eq!(chains[3], vec![100.0, 4.0]);
    assert_eq!(chains[4], vec![5.0]);
    // a second traversal gives the same answer
    let again: Vec<String> = scene.iter_leaves().into_iter().map(|l| l.id).collect();
    assert_eq!(again, vec!["a", "b", "c", "d", "e"]);
    let placed = scene.iter_leaves().remove(2).place(TransformMatrix::translate(sc(303.0), sc(0.0)));
    assert_eq!(placed.id, "c");
    assert_eq!(fl(placed.world_transform.tx), 303.0);
}

#[test]
fn get_node_by_id_searches_every_depth() {
    let scene = nested_scene();
    for id in ["a", "g1", "b", "g2", "c", "d", "e"] {
        let node = scene.get_node_by_id(id).unwrap();
        assert_eq!(node_id(node), id);
    }
    assert!(scene.get_node_by_id("missing").is_none());
    assert!(scene.get_node_by_id("").is_none());
    assert!(matches!(scene.get_node_by_id("g2"), Some(SceneNode::Group { .. })));
    assert!(matches!(scene.get_node_by_id("c"), Some(SceneNode::Leaf { .. })));
}

#[test]
fn get_node_by_id_takes_the_first_in_pre_order() {
    let inner = SceneNode::Group {
        id: "g".to_string(),
        children: vec![leaf("x", 1.0)],
        transform: TransformMatrix::identity(),
    };
    let scene = SceneGraph::from_parts(vec![inner, leaf("x", 2.0)], 0);
    match scene.get_node_by_id("x") {
        Some(SceneNode::Leaf { transform, .. }) => assert_eq!(fl(transform.tx), 1.0),
        _ => panic!("x is a leaf"),
    }
}

#[test]
fn get_node_by_id_mut_only_looks_at_roots() {
    let mut scene = nested_scene();
    assert!(scene.get_node_by_id_mut("b").is_none());
    assert!(scene.get_node_by_id_mut("c").is_none());
    assert!(scene.get_node_by_id_mut("missing").is_none());
    match scene.get_node_by_id_mut("e") {
        Some(SceneNode::Leaf { transform, .. }) => {
            *transform = TransformMatrix::translate(sc(55.0), sc(0.0));
        }
        _ => panic!("e is a root leaf"),
    }
    match scene.get_node_by_id("e") {
        Some(SceneNode::Leaf { transform, .. }) => assert_eq!(fl(transform.tx), 55.0),
        _ => panic!("e is a root leaf"),
    }
    assert!(matches!(scene.get_node_by_id_mut("g1"), Some(SceneNode::Group { .. })));
    assert_eq!(root_ids(&scene), vec!["a", "g1", "e"]);
}

#[test]
fn bring_to_front_moves_a_root_to_the_end() {
    let mut scene = nested_scene();
    assert!(scene.bring_to_front("a"));
    assert_eq!(root_ids(&scene), vec!["g1", "e", "a"]);
    assert!(!scene.bring_to_front("a"));
    assert_eq!(root_ids(&scene), vec!["g1", "e", "a"]);
    assert!(!scene.bring_to_front("b"));
    assert!(!scene.bring_to_front("missing"));
    assert_eq!(root_ids(&scene), vec!["g1", "e", "a"]);
    assert!(scene.bring_to_front("g1"));
    assert_eq!(root_ids(&scene), vec!["e", "a", "g1"]);
    assert_eq!(scene.object_count(), 7);
    assert_eq!(scene.id_counter(), 7);
    let mut empty = SceneGraph::new();
    assert!(!empty.bring_to_front("a"));
}

#[test]
fn send_to_back_moves_a_root_to_the_start() {
    let mut scene = nested_scene();
    assert!(scene.send_to_back("e"));
    assert_eq!(root_ids(&scene), vec!["e", "a", "g1"]);
    assert!(!scene.send_to_back("e"));
    assert!(!scene.send_to_back("c"));
    assert!(!scene.send_to_back("missing"));
    assert_eq!(root_ids(&scene), vec!["e", "a", "g1"]);
    assert!(scene.send_to_back("a"));
    assert_eq!(root_ids(&scene), vec!["a", "e", "g1"]);
    let mut empty = SceneGraph::new();
    assert!(!empty.send_to_back("a"));
}

#[test]
fn set_root_style_and_transform_leave_groups_alone() {
    let mut scene = nested_scene();
    let style = ObjectStyle { fill_color: None, stroke_color: Some("#fff".to_string()), stroke_width: sc(9.0) };
    scene.set_root_style("a", &style);
    scene.set_root_style("g1", &style);
    scene.set_root_style("b", &style);
    scene.set_root_transform("a", TransformMatrix::scale(sc(2.0), sc(2.0)));
    scene.set_root_transform("g1", TransformMatrix::scale(sc(2.0), sc(2.0)));
    scene.set_root_transform("b", TransformMatrix::scale(sc(2.0), sc(2.0)));
    match scene.get_node_by_id("a") {
        Some(SceneNode::Leaf { style, transform, .. }) => {
            assert_eq!(style.fill_color, None);
            assert_eq!(style.stroke_color.as_deref(), Some("#fff"));
            assert_eq!(fl(style.stroke_width), 9.0);
            assert_eq!(*transform, TransformMatrix::scale(sc(2.0), sc(2.0)));
        }
        _ => panic!("a is a leaf"),
    }
    match scene.get_node_by_id("g1") {
        Some(SceneNode::Group { transform, .. }) => assert_eq!(fl(transform.tx), 100.0),
        _ => panic!("g1 is a group"),
    }
    match scene.get_node_by_id("b") {
        Some(SceneNode::Leaf { style, transform, .. }) => {
            assert_eq!(style.fill_color.as_deref(), Some("#3b82f6"));
            assert_eq!(fl(transform.tx), 2.0);
        }
        _ => panic!("b is a leaf"),
    }
}

#[test]
fn clone_is_a_deep_copy() {
    let scene = nested_scene();
    let mut copy = scene.clone();
    copy.set_root_transform("a", TransformMatrix::scale(sc(2.0), sc(2.0)));
    copy.bring_to_front("a");
    copy.generate_id();
    assert_eq!(root_ids(&scene), vec!["a", "g1", "e"]);
    assert_eq!(scene.id_counter(), 7);
    assert_eq!(copy.id_counter(), 8);
    assert_eq!(scene.object_count(), copy.object_count());
    match scene.get_node_by_id("a") {
        Some(SceneNode::Leaf { transform, .. }) => assert_eq!(fl(transform.tx), 1.0),
        _ => panic!("a is a leaf"),
    }
    let ids: Vec<String> = copy.iter_leaves().into_iter().map(|l| l.id).collect();
    assert_eq!(ids, vec!["b", "c", "d", "e", "a"]);
}

fn heart() -> Vec<PathCommand> {
    vec![
        PathCommand::MoveTo { x: sc(0.0), y: sc(30.0) },
        PathCommand::ClosePath,
        PathCommand::CurveTo {
            x1: sc(-50.0),
            y1: sc(-20.0),
            x2: sc(-50.0),
            y2: sc(-70.0),
            x: sc(0.0),
            y: sc(-50.0),
        },
        PathCommand::LineTo { x: sc(7.0), y: sc(8.0) },
        PathCommand::ClosePath,
    ]
}

#[test]
fn path_points_lists_the_anchors() {
    let points = path_points(&heart());
    assert_eq!(points.len(), 3);
    assert_eq!((fl(points[0].x), fl(points[0].y), points[0].kind), (0.0, 30.0, PointKind::Move));
    assert_eq!((fl(points[1].x), fl(points[1].y), points[1].kind), (0.0, -50.0, PointKind::Curve));
    assert_eq!((fl(points[2].x), fl(points[2].y), points[2].kind), (7.0, 8.0, PointKind::Line));
    assert!(path_points(&Vec::new()).is_empty());
    assert!(path_points(&vec![PathCommand::ClosePath]).is_empty());
    assert_eq!(copy_commands(&heart()), heart());
}

#[test]
fn find_anchor_skips_close_commands() {
    let commands = heart();
    assert_eq!(find_anchor(&commands, 0), Some(0));
    assert_eq!(find_anchor(&commands, 1), Some(2));
    assert_eq!(find_anchor(&commands, 2), Some(3));
    assert_eq!(find_anchor(&commands, 3), None);
    assert_eq!(find_anchor(&commands, usize::MAX), None);
    assert_eq!(find_anchor(&Vec::new(), 0), None);
}

#[test]
fn set_root_path_point_moves_one_anchor() {
    let mut scene = SceneGraph::new();
    scene.add_object(
        "p".to_string(),
        VectorObject::Path { commands: heart(), is_closed: true },
        TransformMatrix::identity(),
    );
    scene.add_object("r".to_string(), rect(0.0, 0.0, 1.0, 1.0), TransformMatrix::identity());
    scene.set_root_path_point("p", 1, sc(11.0), sc(12.0));
    scene.set_root_path_point("p", 5, sc(99.0), sc(99.0));
    scene.set_root_path_point("r", 0, sc(99.0), sc(99.0));
    scene.set_root_path_point("missing", 0, sc(99.0), sc(99.0));
    let mut want = heart();
    want[2] = PathCommand::CurveTo {
        x1: sc(-50.0),
        y1: sc(-20.0),
        x2: sc(-50.0),
        y2: sc(-70.0),
        x: sc(11.0),
        y: sc(12.0),
    };
    match scene.get_node_by_id("p") {
        Some(SceneNode::Leaf { object: VectorObject::Path { commands, is_closed }, .. }) => {
            assert_eq!(*commands, want);
            assert!(*is_closed);
        }
        _ => panic!("p holds a path"),
    }
    assert!(matches!(
        scene.get_node_by_id("r"),
        Some(SceneNode::Leaf { object: VectorObject::Rectangle { .. }, .. })
    ));
}
