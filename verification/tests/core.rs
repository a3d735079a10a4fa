use refmap::annotation::AnnotationType;
use refmap::annotation::Rgba;
use refmap::geom::BoxSize;
use refmap::geom::Pt;
use refmap::geom::UNIT;
use refmap::map::EdgeType;
use refmap::map::MindMap;

fn world(units: i64) -> i64 {
    units * UNIT
}

fn sample_sizes(map: &MindMap) -> Vec<BoxSize> {
    map.nodes
        .iter()
        .map(|_| BoxSize { w: world(40), h: world(20) })
        .collect()
}

#[test]
fn click_hits_node_at_its_position() {
    // Node A at world (100, 100); zoom 1, pan 0: a click at screen
    // (100, 100) lands on A, a click at (500, 500) hits nothing.
    let mut m = MindMap::new();
    assert!(m.insert_node_with_id(1, String::from("A"), world(100), world(100)));
    let sizes = sample_sizes(&m);

    let vp = refmap::viewport::Viewport::new();
    let click = vp.screen_to_world(Pt { x: world(100), y: world(100) });
    assert_eq!(click.x, world(100));
    assert_eq!(click.y, world(100));
    assert_eq!(m.find_node_at(click, &sizes), Some(0));

    let miss = vp.screen_to_world(Pt { x: world(500), y: world(500) });
    assert_eq!(m.find_node_at(miss, &sizes), None);
}

#[test]
fn click_near_edge_selects_it() {
    // Nodes A (0,0) and B (100,0) joined by an edge: world (50,4) is
    // within the 8-unit threshold, world (50,20) is not.
    let mut m = MindMap::new();
    assert!(m.insert_node_with_id(1, String::from("A"), 0, 0));
    assert!(m.insert_node_with_id(2, String::from("B"), world(100), 0));
    assert!(m.insert_edge_with_id(3, 1, 2));

    assert_eq!(m.find_edge_at(Pt { x: world(50), y: world(4) }), Some(0));
    assert_eq!(m.find_edge_at(Pt { x: world(50), y: world(20) }), None);
}

#[test]
fn removing_a_node_cascades_to_its_edges() {
    // Create edge A -> B, then delete A: no edges remain and B is intact.
    let mut m = MindMap::new();
    assert!(m.insert_node_with_id(1, String::from("A"), 0, 0));
    assert!(m.insert_node_with_id(2, String::from("B"), world(10), world(5)));
    assert!(m.insert_edge_with_id(3, 1, 2));
    assert_eq!(m.edges.len(), 1);

    m.remove_node(1);
    assert_eq!(m.edges.len(), 0);
    assert_eq!(m.nodes.len(), 1);
    let b = &m.nodes[0];
    assert_eq!(b.id, 2);
    assert_eq!(b.title.as_str(), "B");
    assert_eq!(b.x, world(10));
    assert_eq!(b.y, world(5));
    assert!(b.collapsed);
    assert!(b.path.is_none());
}

#[test]
fn removing_a_node_leaves_no_dangling_edges() {
    let mut m = MindMap::new();
    for id in 1..=4u128 {
        assert!(m.insert_node_with_id(id, format!("n{}", id), world(id as i64), 0));
    }
    assert!(m.insert_edge_with_id(10, 1, 2));
    assert!(m.insert_edge_with_id(11, 2, 3));
    assert!(m.insert_edge_with_id(12, 3, 4));
    m.remove_node(2);
    for e in &m.edges {
        assert_ne!(e.from, 2);
        assert_ne!(e.to, 2);
    }
    assert_eq!(m.edges.len(), 1);
    assert_eq!(m.edges[0].id, 12);
}

#[test]
fn toggling_collapsed_twice_restores_the_node() {
    let mut m = MindMap::new();
    assert!(m.insert_node_with_id(1, String::from("A"), 0, 0));
    let before = m.nodes[0].collapsed;
    assert!(m.toggle_collapsed(1));
    assert_eq!(m.nodes[0].collapsed, !before);
    assert!(m.toggle_collapsed(1));
    assert_eq!(m.nodes[0].collapsed, before);
    assert_eq!(m.nodes[0].id, 1);
    assert_eq!(m.nodes[0].title.as_str(), "A");
}

#[test]
fn edge_kind_and_colors_are_editable() {
    let mut m = MindMap::new();
    assert!(m.insert_node_with_id(1, String::from("A"), 0, 0));
    assert!(m.insert_node_with_id(2, String::from("B"), world(1), 0));
    assert!(m.insert_edge_with_id(3, 1, 2));
    assert_eq!(m.edges[0].edge_type, EdgeType::Normal);
    assert!(m.set_edge_kind(3, EdgeType::References));
    assert_eq!(m.edges[0].edge_type, EdgeType::References);
    assert!(!m.set_edge_kind(99, EdgeType::Normal));

    let c = Rgba { r: 1, g: 2, b: 3, a: 4 };
    assert!(m.set_node_color(1, Some(c)));
    assert_eq!(m.nodes[0].color, Some(c));
    assert!(m.set_edge_color(3, None));
    assert_eq!(m.edges[0].color, None);
}

#[test]
fn add_node_draws_fresh_ids() {
    let mut m = MindMap::new();
    let a = m.add_node(String::from("one"), 0, 0).expect("fresh id");
    let b = m.add_node(String::from("two"), world(1), 0).expect("fresh id");
    assert_ne!(a, b);
    assert_eq!(m.nodes.len(), 2);
    let e = m.add_edge(a, b).expect("fresh id");
    assert_eq!(m.edges.len(), 1);
    assert_eq!(m.edges[0].id, e);
    assert_eq!(m.edges[0].from, a);
    assert_eq!(m.edges[0].to, b);
}

#[test]
fn annotation_type_names() {
    assert_eq!(AnnotationType::TextNote.name(), "Text Note");
    assert_eq!(AnnotationType::Question.name(), "Question");
    assert_eq!(AnnotationType::Summary.name(), "Summary");
    assert_eq!(AnnotationType::Quote.name(), "Quote");
    assert_eq!(AnnotationType::Todo.name(), "Todo");
    assert_eq!(AnnotationType::Idea.name(), "Idea");
    assert_eq!(AnnotationType::Warning.name(), "Warning");
    let c = AnnotationType::Idea.color();
    assert_eq!((c.r, c.g, c.b, c.a), (255, 200, 100, 255));
}

#[test]
fn annotations_and_tags_round_through_edits() {
    let mut m = MindMap::new();
    assert!(m.insert_node_with_id(1, String::from("A"), 0, 0));
    let ann = refmap::annotation::Annotation {
        id: 50,
        annotation_type: AnnotationType::Todo,
        title: String::from("t"),
        content: String::from("c"),
        created_at: String::from("2024-01-01 00:00:00 UTC"),
        page_number: Some(3),
    };
    assert!(m.node_add_annotation(1, ann));
    assert_eq!(m.nodes[0].annotations.len(), 1);
    assert!(m.node_update_annotation(
        1,
        50,
        AnnotationType::Idea,
        String::from("t2"),
        String::from("c2"),
        None,
    ));
    assert_eq!(m.nodes[0].annotations[0].annotation_type, AnnotationType::Idea);
    assert_eq!(m.nodes[0].annotations[0].title.as_str(), "t2");
    assert_eq!(m.nodes[0].annotations[0].created_at.as_str(), "2024-01-01 00:00:00 UTC");
    assert!(m.node_remove_annotation(1, 50));
    assert_eq!(m.nodes[0].annotations.len(), 0);

    let tag = refmap::map::Tag {
        id: 60,
        name: String::from("read"),
        color: Rgba { r: 9, g: 8, b: 7, a: 6 },
    };
    assert!(m.node_add_tag(1, tag));
    assert!(m.node_update_tag(1, 60, String::from("later"), Rgba { r: 1, g: 1, b: 1, a: 1 }));
    assert_eq!(m.nodes[0].tags[0].name.as_str(), "later");
    assert!(m.node_remove_tag(1, 60));
    assert_eq!(m.nodes[0].tags.len(), 0);
}
