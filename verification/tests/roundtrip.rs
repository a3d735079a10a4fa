use refmap::annotation::Annotation;
use refmap::annotation::AnnotationType;
use refmap::annotation::Rgba;
use refmap::codec::decode_map;
use refmap::codec::encode_map;
use refmap::map::EdgeType;
use refmap::map::MindMap;
use refmap::map::Tag;
use refmap::metadata::Metadata;

fn rich_map() -> MindMap {
    let mut m = MindMap::new();
    assert!(m.insert_node_with_id(1, String::from("Alpha"), 1_000, -2_000));
    assert!(m.insert_pdf_node_with_id(
        2,
        Metadata {
            title: String::from("Paper on graphs"),
            keywords: vec![String::from("graphs"), String::from("editors")],
            authors: vec![String::from("Ada"), String::from("Grace")],
            date: String::from("2021-06-01"),
            path: String::from("pdfs/paper.pdf"),
        },
        String::from("pdfs/paper.pdf"),
        50_000,
        60_000,
    ));
    assert!(m.insert_edge_with_id(3, 1, 2));
    assert!(m.set_edge_kind(3, EdgeType::References));
    assert!(m.set_node_color(1, Some(Rgba { r: 10, g: 20, b: 30, a: 40 })));
    assert!(m.set_edge_color(3, Some(Rgba { r: 5, g: 6, b: 7, a: 8 })));
    assert!(m.node_add_annotation(
        1,
        Annotation {
            id: 100,
            annotation_type: AnnotationType::Question,
            title: String::from("why?"),
            content: String::from("unicode: √ѓ∆ — ok"),
            created_at: String::from("2024-05-05 10:00:00 UTC"),
            page_number: None,
        },
    ));
    assert!(m.edge_add_annotation(
        3,
        Annotation {
            id: 101,
            annotation_type: AnnotationType::Summary,
            title: String::new(),
            content: String::from("links the two"),
            created_at: String::from("2024-05-06 11:00:00 UTC"),
            page_number: Some(12),
        },
    ));
    assert!(m.node_add_tag(
        2,
        Tag { id: 102, name: String::from("to-read"), color: Rgba { r: 1, g: 2, b: 3, a: 4 } },
    ));
    m
}

fn assert_same_map(a: &MindMap, b: &MindMap) {
    assert_eq!(a.nodes.len(), b.nodes.len());
    for (x, y) in a.nodes.iter().zip(b.nodes.iter()) {
        assert_eq!(x.id, y.id);
        assert_eq!(x.title, y.title);
        assert_eq!(x.x, y.x);
        assert_eq!(x.y, y.y);
        assert_eq!(x.collapsed, y.collapsed);
        assert_eq!(x.path, y.path);
        assert_eq!(x.color, y.color);
        match (&x.metadata, &y.metadata) {
            (None, None) => {}
            (Some(mx), Some(my)) => {
                assert_eq!(mx.title, my.title);
                assert_eq!(mx.keywords, my.keywords);
                assert_eq!(mx.authors, my.authors);
                assert_eq!(mx.date, my.date);
                assert_eq!(mx.path, my.path);
            }
            _ => panic!("metadata presence differs"),
        }
        assert_eq!(x.annotations.len(), y.annotations.len());
        for (ax, ay) in x.annotations.iter().zip(y.annotations.iter()) {
            assert_eq!(ax.id, ay.id);
            assert_eq!(ax.annotation_type, ay.annotation_type);
            assert_eq!(ax.title, ay.title);
            assert_eq!(ax.content, ay.content);
            assert_eq!(ax.created_at, ay.created_at);
            assert_eq!(ax.page_number, ay.page_number);
        }
        assert_eq!(x.tags.len(), y.tags.len());
        for (tx, ty) in x.tags.iter().zip(y.tags.iter()) {
            assert_eq!(tx.id, ty.id);
            assert_eq!(tx.name, ty.name);
            assert_eq!(tx.color, ty.color);
        }
    }
    assert_eq!(a.edges.len(), b.edges.len());
    for (x, y) in a.edges.iter().zip(b.edges.iter()) {
        assert_eq!(x.id, y.id);
        assert_eq!(x.from, y.from);
        assert_eq!(x.to, y.to);
        assert_eq!(x.edge_type, y.edge_type);
        assert_eq!(x.color, y.color);
        assert_eq!(x.annotations.len(), y.annotations.len());
    }
}

#[test]
fn serializing_and_deserializing_reproduces_the_graph() {
    let m = rich_map();
    let words = encode_map(&m);
    let back = decode_map(&words).expect("a serialized graph decodes");
    assert_same_map(&m, &back);
}

#[test]
fn the_empty_graph_round_trips() {
    let m = MindMap::new();
    let words = encode_map(&m);
    let back = decode_map(&words).expect("decodes");
    assert!(back.nodes.is_empty());
    assert!(back.edges.is_empty());
}

#[test]
fn truncated_documents_are_rejected() {
    let m = rich_map();
    let mut words = encode_map(&m);
    // Dropping the last word leaves a malformed document.
    words.pop();
    assert!(decode_map(&words).is_none());
    // So does appending junk after a well-formed one.
    let mut longer = encode_map(&m);
    longer.push(0);
    assert!(decode_map(&longer).is_none());
    // And an empty word stream has no header at all.
    let empty: Vec<u64> = Vec::new();
    assert!(decode_map(&empty).is_none());
}

#[test]
fn strings_do_not_pass_through_unchanged_encoding() {
    // The serialized form is not the identity on its inputs: a one-node
    // graph whose title has three characters spends three words on them,
    // plus the surrounding structure.
    let mut m = MindMap::new();
    assert!(m.insert_node_with_id(7, String::from("abc"), 0, 0));
    let words = encode_map(&m);
    assert!(words.len() > 10);
    assert!(words.contains(&('a' as u64)));
    assert!(words.contains(&('b' as u64)));
    assert!(words.contains(&('c' as u64)));
}
