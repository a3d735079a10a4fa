use refmap::annotation::Rgba;
use refmap::geom::BoxSize;
use refmap::geom::Pt;
use refmap::geom::UNIT;
use refmap::interact::MindMapApp;
use refmap::interact::Mode;
use refmap::interact::PointerEvent;
use refmap::interact::Request;
use refmap::map::EdgeType;
use refmap::viewport::Frac;
use refmap::viewport::Viewport;

fn world(units: i64) -> i64 {
    units * UNIT
}

fn sizes_for(app: &MindMapApp) -> Vec<BoxSize> {
    app.map
        .nodes
        .iter()
        .map(|_| BoxSize { w: world(40), h: world(20) })
        .collect()
}

fn idle_event() -> PointerEvent {
    PointerEvent {
        pos: Pt { x: 0, y: 0 },
        clicked_primary: false,
        double_clicked: false,
        clicked_secondary: false,
        dragged_primary: false,
        drag_stopped_primary: false,
        drag_started_secondary: false,
        drag_stopped_secondary: false,
        drag_delta: Pt { x: 0, y: 0 },
        shift: false,
        ctrl: false,
    }
}

#[test]
fn plain_click_replace_selects_a_node() {
    let mut app = MindMapApp::new();
    assert!(app.map.insert_node_with_id(1, String::from("A"), world(100), world(100)));
    let sizes = sizes_for(&app);
    let mut ev = idle_event();
    ev.clicked_primary = true;
    ev.pos = Pt { x: world(100), y: world(100) };
    let r = app.handle_left_click(&ev, &sizes);
    assert!(r.is_none());
    assert_eq!(app.selected_nodes, vec![1]);
    assert!(app.selected_edges.is_empty());

    // A click on empty space clears the selection.
    ev.pos = Pt { x: world(500), y: world(500) };
    let r2 = app.handle_left_click(&ev, &sizes);
    assert!(r2.is_none());
    assert!(app.selected_nodes.is_empty());
    assert!(app.selected_edges.is_empty());
}

#[test]
fn shift_click_toggle_selects() {
    let mut app = MindMapApp::new();
    assert!(app.map.insert_node_with_id(1, String::from("A"), world(10), 0));
    assert!(app.map.insert_node_with_id(2, String::from("B"), world(100), 0));
    let sizes = sizes_for(&app);
    let mut ev = idle_event();
    ev.clicked_primary = true;
    ev.shift = true;
    ev.pos = Pt { x: world(10), y: 0 };
    assert!(app.handle_left_click(&ev, &sizes).is_none());
    ev.pos = Pt { x: world(100), y: 0 };
    assert!(app.handle_left_click(&ev, &sizes).is_none());
    assert_eq!(app.selected_nodes, vec![1, 2]);
    // Toggling again removes, leaving the other untouched.
    assert!(app.handle_left_click(&ev, &sizes).is_none());
    assert_eq!(app.selected_nodes, vec![1]);
}

#[test]
fn shift_click_on_empty_space_requests_an_import() {
    let mut app = MindMapApp::new();
    let sizes = sizes_for(&app);
    let mut ev = idle_event();
    ev.clicked_primary = true;
    ev.shift = true;
    ev.pos = Pt { x: world(7), y: world(9) };
    match app.handle_left_click(&ev, &sizes) {
        Some(Request::PickImportFile { pos }) => {
            assert_eq!(pos, Pt { x: world(7), y: world(9) });
        }
        other => panic!("expected an import request, got {:?}", other),
    }
}

#[test]
fn double_click_on_empty_space_creates_a_node() {
    let mut app = MindMapApp::new();
    let sizes = sizes_for(&app);
    let mut ev = idle_event();
    ev.clicked_primary = true;
    ev.double_clicked = true;
    ev.pos = Pt { x: world(30), y: world(40) };
    assert!(app.handle_left_click(&ev, &sizes).is_none());
    assert_eq!(app.map.nodes.len(), 1);
    assert_eq!(app.map.nodes[0].title.as_str(), "New");
    assert_eq!(app.map.nodes[0].x, world(30));
    assert_eq!(app.map.nodes[0].y, world(40));
    assert!(app.map.nodes[0].collapsed);
    assert!(app.dirty);
}

#[test]
fn marquee_selection_is_idempotent() {
    let mut app = MindMapApp::new();
    assert!(app.map.insert_node_with_id(1, String::from("A"), world(10), world(10)));
    assert!(app.map.insert_node_with_id(2, String::from("B"), world(20), world(20)));
    assert!(app.map.insert_node_with_id(3, String::from("C"), world(90), world(90)));
    assert!(app.map.insert_edge_with_id(4, 1, 2));
    assert!(app.map.insert_edge_with_id(5, 2, 3));

    let c1 = Pt { x: 0, y: 0 };
    let c2 = Pt { x: world(50), y: world(50) };
    app.marquee_select(c1, c2);
    let once_nodes = app.selected_nodes.clone();
    let once_edges = app.selected_edges.clone();
    assert_eq!(once_nodes, vec![1, 2]);
    // Edge 4 has both endpoints inside; edge 5 does not.
    assert_eq!(once_edges, vec![4]);

    app.marquee_select(c1, c2);
    assert_eq!(app.selected_nodes, once_nodes);
    assert_eq!(app.selected_edges, once_edges);
}

#[test]
fn delete_key_removes_selection_with_cascade() {
    let mut app = MindMapApp::new();
    assert!(app.map.insert_node_with_id(1, String::from("A"), world(10), world(10)));
    assert!(app.map.insert_node_with_id(2, String::from("B"), world(20), world(20)));
    assert!(app.map.insert_edge_with_id(3, 1, 2));
    app.marquee_select(Pt { x: 0, y: 0 }, Pt { x: world(15), y: world(15) });
    assert_eq!(app.selected_nodes, vec![1]);
    app.handle_delete();
    assert!(app.selected_nodes.is_empty());
    assert!(app.selected_edges.is_empty());
    assert_eq!(app.map.nodes.len(), 1);
    assert_eq!(app.map.nodes[0].id, 2);
    assert!(app.map.edges.is_empty());
    assert!(app.dirty);
}

#[test]
fn connect_gesture_creates_an_edge_after_kind_choice() {
    let mut app = MindMapApp::new();
    assert!(app.map.insert_node_with_id(1, String::from("A"), world(10), 0));
    assert!(app.map.insert_node_with_id(2, String::from("B"), world(100), 0));
    let sizes = sizes_for(&app);

    let mut start = idle_event();
    start.drag_started_secondary = true;
    start.pos = Pt { x: world(10), y: 0 };
    app.handle_right_drag(&start, &sizes);
    assert!(matches!(app.mode, Mode::ConnectingEdge { from: 1 }));

    let mut stop = idle_event();
    stop.drag_stopped_secondary = true;
    stop.pos = Pt { x: world(100), y: 0 };
    app.handle_right_drag(&stop, &sizes);
    assert!(matches!(app.mode, Mode::AwaitingEdgeTypeChoice { .. }));

    assert!(app.choose_edge_type(EdgeType::References));
    assert!(matches!(app.mode, Mode::Idle));
    assert_eq!(app.map.edges.len(), 1);
    assert_eq!(app.map.edges[0].from, 1);
    assert_eq!(app.map.edges[0].to, 2);
    assert_eq!(app.map.edges[0].edge_type, EdgeType::References);
    assert!(app.dirty);
}

#[test]
fn connect_gesture_over_empty_space_aborts() {
    let mut app = MindMapApp::new();
    assert!(app.map.insert_node_with_id(1, String::from("A"), world(10), 0));
    let sizes = sizes_for(&app);
    let mut start = idle_event();
    start.drag_started_secondary = true;
    start.pos = Pt { x: world(10), y: 0 };
    app.handle_right_drag(&start, &sizes);
    let mut stop = idle_event();
    stop.drag_stopped_secondary = true;
    stop.pos = Pt { x: world(400), y: world(400) };
    app.handle_right_drag(&stop, &sizes);
    assert!(matches!(app.mode, Mode::Idle));
    assert!(app.map.edges.is_empty());
}

#[test]
fn right_click_opens_and_closes_context_menus() {
    let mut app = MindMapApp::new();
    assert!(app.map.insert_node_with_id(1, String::from("A"), world(10), 0));
    let sizes = sizes_for(&app);
    let mut ev = idle_event();
    ev.clicked_secondary = true;
    ev.pos = Pt { x: world(10), y: 0 };
    app.handle_right_click(&ev, &sizes);
    assert!(matches!(app.mode, Mode::ContextMenuOpen { .. }));
    // Selection is never changed by opening a menu.
    assert!(app.selected_nodes.is_empty());
    ev.pos = Pt { x: world(300), y: world(300) };
    app.handle_right_click(&ev, &sizes);
    assert!(matches!(app.mode, Mode::Idle));
}

#[test]
fn import_without_a_project_prompts_and_defers() {
    let mut app = MindMapApp::new();
    let proceed = app.begin_import(String::from("/tmp/a.pdf"), Pt { x: 0, y: 0 });
    assert!(!proceed);
    assert!(matches!(app.mode, Mode::ProjectPrompt { .. }));
    // Cancelling discards the deferred action without side effects.
    app.cancel_project_prompt();
    assert!(matches!(app.mode, Mode::Idle));
    assert!(app.map.nodes.is_empty());

    // With the prompt accepted instead, the pending path is handed back.
    let _ = app.begin_import(String::from("/tmp/b.pdf"), Pt { x: 0, y: 0 });
    let pending = app.project_created(String::from("/proj"));
    assert_eq!(pending.as_deref(), Some("/tmp/b.pdf"));
    assert!(matches!(app.mode, Mode::Idle));
    assert_eq!(app.current_file.as_deref(), Some("/proj"));
}

#[test]
fn save_requests_follow_the_open_project() {
    let mut app = MindMapApp::new();
    assert!(matches!(app.handle_save(), Request::PickSaveFolder));
    app.current_file = Some(String::from("/proj"));
    match app.handle_save() {
        Request::SaveTo { path } => assert_eq!(path.as_str(), "/proj"),
        other => panic!("expected a save request, got {:?}", other),
    }
}

#[test]
fn autosave_polls_dirty_and_elapsed_time() {
    let mut app = MindMapApp::new();
    assert!(!app.autosave_due(10_000, 1_000));
    app.dirty = true;
    assert!(!app.autosave_due(6_000, 1_000));
    assert!(app.autosave_due(6_001, 1_000));
    app.mark_saved();
    assert!(!app.dirty);
}

#[test]
fn zoom_round_trip_restores_pan_exactly() {
    // A zoom in by 2 and back out by 1/2 at the same pointer position
    // returns pan and zoom to their starting values.
    let mut vp = Viewport::new();
    let pointer = Pt { x: world(10), y: world(5) };
    assert!(vp.pan_by(world(3), world(4)));
    let pan_x0 = vp.pan_x;
    let pan_y0 = vp.pan_y;
    assert!(vp.zoom_at(Frac { num: 2_000_000, den: 1_000_000 }, pointer));
    assert_eq!(vp.zoom.num, 2);
    assert_eq!(vp.zoom.den, 1);
    assert!(vp.zoom_at(Frac { num: 500_000, den: 1_000_000 }, pointer));
    assert_eq!(vp.zoom.num, 1);
    assert_eq!(vp.zoom.den, 1);
    // Equal as exact rationals.
    assert_eq!(
        vp.pan_x.num as i128 * pan_x0.den as i128,
        pan_x0.num as i128 * vp.pan_x.den as i128
    );
    assert_eq!(
        vp.pan_y.num as i128 * pan_y0.den as i128,
        pan_y0.num as i128 * vp.pan_y.den as i128
    );
}

#[test]
fn zoom_keeps_the_world_point_under_the_pointer() {
    let mut vp = Viewport::new();
    assert!(vp.pan_by(world(2), world(1)));
    let pointer = Pt { x: world(42), y: world(17) };
    let before = vp.screen_to_world(pointer);
    assert!(vp.zoom_at(Frac { num: 3_000_000, den: 2_000_000 }, pointer));
    let after = vp.screen_to_world(pointer);
    assert_eq!(before, after);
}

#[test]
fn zoom_delta_is_clamped_per_event() {
    let mut vp = Viewport::new();
    // A delta of 100 is clamped to 5.
    assert!(vp.zoom_at(Frac { num: 100_000_000, den: 1_000_000 }, Pt { x: 0, y: 0 }));
    assert_eq!(vp.zoom.num, 5);
    assert_eq!(vp.zoom.den, 1);
    // A delta of 1/100 is clamped to 1/10: 5 * 1/10 = 1/2.
    assert!(vp.zoom_at(Frac { num: 10_000, den: 1_000_000 }, Pt { x: 0, y: 0 }));
    assert_eq!(vp.zoom.num, 1);
    assert_eq!(vp.zoom.den, 2);
}

#[test]
fn dragging_a_node_moves_it_by_delta_over_zoom() {
    let mut app = MindMapApp::new();
    assert!(app.map.insert_node_with_id(1, String::from("A"), world(10), world(10)));
    let sizes = sizes_for(&app);
    // Pick the node up.
    let mut drag = idle_event();
    drag.dragged_primary = true;
    drag.pos = Pt { x: world(10), y: world(10) };
    app.handle_left_drag(&drag, &sizes);
    assert!(matches!(app.mode, Mode::DraggingNode { id: 1 }));
    // Move it by (5, -3) screen units at zoom 1.
    drag.drag_delta = Pt { x: world(5), y: -world(3) };
    app.handle_left_drag(&drag, &sizes);
    assert_eq!(app.map.nodes[0].x, world(15));
    assert_eq!(app.map.nodes[0].y, world(7));
    assert!(app.dirty);
    // Release.
    let mut stop = idle_event();
    stop.drag_stopped_primary = true;
    stop.pos = drag.pos;
    app.handle_left_drag(&stop, &sizes);
    assert!(matches!(app.mode, Mode::Idle));
}

#[test]
fn ctrl_click_toggles_collapse_under_pointer() {
    let mut app = MindMapApp::new();
    assert!(app.map.insert_node_with_id(1, String::from("A"), world(10), 0));
    let sizes = sizes_for(&app);
    let mut ev = idle_event();
    ev.clicked_primary = true;
    ev.ctrl = true;
    ev.pos = Pt { x: world(10), y: 0 };
    assert!(app.handle_left_click(&ev, &sizes).is_none());
    assert!(!app.map.nodes[0].collapsed);
    assert!(app.handle_left_click(&ev, &sizes).is_none());
    assert!(app.map.nodes[0].collapsed);
}

#[test]
fn save_annotation_targets_nodes_and_edges() {
    let mut app = MindMapApp::new();
    assert!(app.map.insert_node_with_id(1, String::from("A"), 0, 0));
    assert!(app.map.insert_node_with_id(2, String::from("B"), world(1), 0));
    assert!(app.map.insert_edge_with_id(3, 1, 2));
    assert!(app.save_annotation(
        1,
        None,
        refmap::annotation::AnnotationType::Quote,
        String::from("q"),
        String::from("body"),
        Some(7),
    ));
    assert_eq!(app.map.nodes[0].annotations.len(), 1);
    assert_eq!(app.map.nodes[0].annotations[0].title.as_str(), "q");
    assert_eq!(app.map.nodes[0].annotations[0].page_number, Some(7));
    assert!(app.save_annotation(
        3,
        None,
        refmap::annotation::AnnotationType::TextNote,
        String::from("e"),
        String::from("on the edge"),
        None,
    ));
    assert_eq!(app.map.edges[0].annotations.len(), 1);
    // An unknown target writes nothing.
    assert!(!app.save_annotation(
        99,
        None,
        refmap::annotation::AnnotationType::TextNote,
        String::new(),
        String::new(),
        None,
    ));
}

#[test]
fn navigation_pans_and_zooms_the_viewport() {
    let mut app = MindMapApp::new();
    assert!(app.handle_navigation(Some(Pt { x: world(12), y: world(-7) }), None));
    // At zoom 1, panning by (12, -7) shifts every world point by as much
    // on screen.
    let s = app.viewport.world_to_screen(Pt { x: 0, y: 0 });
    assert_eq!(s, Pt { x: world(12), y: world(-7) });
    assert!(app.handle_navigation(
        None,
        Some((Frac { num: 2_000_000, den: 1_000_000 }, Pt { x: 0, y: 0 })),
    ));
    assert_eq!(app.viewport.zoom.num, 2);
    assert_eq!(app.viewport.zoom.den, 1);
}

#[test]
fn screen_and_world_transforms_invert_each_other() {
    let mut vp = Viewport::new();
    assert!(vp.pan_by(world(5), world(6)));
    assert!(vp.zoom_at(Frac { num: 2_000_000, den: 1_000_000 }, Pt { x: 0, y: 0 }));
    let w = Pt { x: world(40), y: world(-15) };
    let s = vp.world_to_screen(w);
    assert_eq!(vp.screen_to_world(s), w);
}

#[test]
fn ctrl_click_toggles_only_the_first_hit_node() {
    // Two nodes whose boxes both contain the click point: list-order
    // precedence resolves the event to the first, which alone toggles.
    let mut app = MindMapApp::new();
    assert!(app.map.insert_node_with_id(1, String::from("A"), world(10), 0));
    assert!(app.map.insert_node_with_id(2, String::from("B"), world(12), 0));
    let sizes = sizes_for(&app);
    let mut ev = idle_event();
    ev.clicked_primary = true;
    ev.ctrl = true;
    ev.pos = Pt { x: world(11), y: 0 };
    assert!(app.handle_left_click(&ev, &sizes).is_none());
    assert!(!app.map.nodes[0].collapsed);
    assert!(app.map.nodes[1].collapsed);
    // Selection stayed untouched.
    assert!(app.selected_nodes.is_empty());
}

#[test]
fn menu_delete_dismisses_the_menu() {
    let mut app = MindMapApp::new();
    assert!(app.map.insert_node_with_id(1, String::from("A"), world(10), 0));
    assert!(app.map.insert_node_with_id(2, String::from("B"), world(100), 0));
    assert!(app.map.insert_edge_with_id(3, 1, 2));
    let sizes = sizes_for(&app);
    let mut ev = idle_event();
    ev.clicked_secondary = true;
    ev.pos = Pt { x: world(10), y: 0 };
    app.handle_right_click(&ev, &sizes);
    assert!(matches!(app.mode, Mode::ContextMenuOpen { .. }));
    app.delete_node(1);
    assert!(matches!(app.mode, Mode::Idle));
    assert!(app.map.edges.is_empty());

    // The same for an edge menu and delete_edge.
    assert!(app.map.insert_node_with_id(1, String::from("A"), world(10), 0));
    assert!(app.map.insert_edge_with_id(3, 1, 2));
    let sizes = sizes_for(&app);
    ev.pos = Pt { x: world(55), y: 0 };
    app.handle_right_click(&ev, &sizes);
    assert!(matches!(app.mode, Mode::ContextMenuOpen { .. }));
    app.delete_edge(3);
    assert!(matches!(app.mode, Mode::Idle));
    app.close_context_menu();
    assert!(matches!(app.mode, Mode::Idle));
}

#[test]
fn updating_an_annotation_succeeds_exactly_when_it_exists() {
    let mut app = MindMapApp::new();
    assert!(app.map.insert_node_with_id(1, String::from("A"), 0, 0));
    assert!(app.save_annotation(
        1,
        None,
        refmap::annotation::AnnotationType::TextNote,
        String::from("t"),
        String::from("c"),
        None,
    ));
    let aid = app.map.nodes[0].annotations[0].id;
    // Editing the existing annotation succeeds.
    assert!(app.save_annotation(
        1,
        Some(aid),
        refmap::annotation::AnnotationType::Idea,
        String::from("t2"),
        String::from("c2"),
        Some(4),
    ));
    assert_eq!(app.map.nodes[0].annotations.len(), 1);
    assert_eq!(app.map.nodes[0].annotations[0].title.as_str(), "t2");
    // Editing a missing annotation id fails and changes nothing.
    assert!(!app.save_annotation(
        1,
        Some(aid.wrapping_add(1)),
        refmap::annotation::AnnotationType::Todo,
        String::from("x"),
        String::from("y"),
        None,
    ));
    assert_eq!(app.map.nodes[0].annotations[0].title.as_str(), "t2");
    // The same for tags.
    assert!(app.save_tag(1, None, String::from("n"), Rgba { r: 1, g: 2, b: 3, a: 4 }));
    let tid = app.map.nodes[0].tags[0].id;
    assert!(app.save_tag(1, Some(tid), String::from("n2"), Rgba { r: 5, g: 6, b: 7, a: 8 }));
    assert_eq!(app.map.nodes[0].tags[0].name.as_str(), "n2");
    assert!(!app.save_tag(1, Some(tid.wrapping_add(1)), String::new(), Rgba {
        r: 0,
        g: 0,
        b: 0,
        a: 0,
    }));
}

#[test]
fn edited_metadata_text_is_split_and_trimmed() {
    let mut app = MindMapApp::new();
    assert!(app.map.insert_node_with_id(1, String::from("A"), 0, 0));
    assert!(app.save_edited_metadata_text(
        1,
        String::from("Paper"),
        "  Ada Lovelace ,Grace Hopper,,  ",
        "graphs,  editors",
        String::from("2021-06-01"),
    ));
    let n = &app.map.nodes[0];
    assert_eq!(n.title.as_str(), "Paper");
    let m = n.metadata.as_ref().expect("metadata present");
    assert_eq!(m.title.as_str(), "Paper");
    assert_eq!(m.authors, vec!["Ada Lovelace".to_string(), "Grace Hopper".to_string()]);
    assert_eq!(m.keywords, vec!["graphs".to_string(), "editors".to_string()]);
    assert_eq!(m.date.as_str(), "2021-06-01");
    assert_eq!(m.path.as_str(), "");
    assert!(app.dirty);
    // A missing node writes nothing.
    assert!(!app.save_edited_metadata_text(
        99,
        String::new(),
        "",
        "",
        String::new(),
    ));
}

#[test]
fn name_lists_parse_exactly() {
    let r = refmap::metadata::parse_name_list(" a, b ,, c  d ,");
    assert_eq!(r, vec!["a".to_string(), "b".to_string(), "c  d".to_string()]);
    let empty = refmap::metadata::parse_name_list("   ");
    assert!(empty.is_empty());
    let one = refmap::metadata::parse_name_list("solo");
    assert_eq!(one, vec!["solo".to_string()]);
}

#[test]
fn combined_pan_and_zoom_in_one_navigation_call() {
    let mut app = MindMapApp::new();
    let ok = app.handle_navigation(
        Some(Pt { x: world(4), y: 0 }),
        Some((Frac { num: 2000, den: 1000 }, Pt { x: 0, y: 0 })),
    );
    assert!(ok);
    // Pan applied first, then the zoom anchored at the origin doubles it:
    // pan' = 0*(1-2) + 4*2 = 8 units on the x axis.
    assert_eq!(app.viewport.zoom.num, 2);
    assert_eq!(app.viewport.zoom.den, 1);
    assert_eq!(app.viewport.pan_x.num, world(8));
    assert_eq!(app.viewport.pan_x.den, 1);
}
