//! A self-contained serialization of the graph into a flat sequence of
//! 64-bit words, and its inverse. Deserializing a serialized graph
//! reproduces an identical set of nodes, edges, annotations and tags —
//! ids and field values included — which is proved as
//! [`lemma_codec_round_trip`].
//!
//! Numbers are single words (an `i64` as a sign word and a magnitude, a
//! `u128` as two words), text is a length word followed by one word per
//! character, options are a presence word, and lists are a length word
//! followed by the items.

use vstd::prelude::*;

use crate::annotation::Annotation;
use crate::annotation::AnnotationType;
use crate::annotation::AnnotationView;
use crate::annotation::Rgba;
use crate::map::Edge;
use crate::map::EdgeType;
use crate::map::MindMap;
use crate::map::Node;
use crate::map::Tag;
use crate::metadata::Metadata;
use crate::metadata::MetadataView;
use crate::metadata::strings_view;

verus! {

/// The mathematical value of a [`Tag`].
pub ghost struct TagV {
    pub id: u128,
    pub name: Seq<char>,
    pub color: Rgba,
}

/// The mathematical value of a [`Node`].
pub ghost struct NodeV {
    pub id: u128,
    pub title: Seq<char>,
    pub metadata: Option<MetadataView>,
    pub x: i64,
    pub y: i64,
    pub collapsed: bool,
    pub path: Option<Seq<char>>,
    pub annotations: Seq<AnnotationView>,
    pub tags: Seq<TagV>,
    pub color: Option<Rgba>,
}

/// The mathematical value of an [`Edge`].
pub ghost struct EdgeV {
    pub id: u128,
    pub from: u128,
    pub to: u128,
    pub edge_type: EdgeType,
    pub color: Option<Rgba>,
    pub annotations: Seq<AnnotationView>,
}

/// The mathematical value of a [`MindMap`].
pub ghost struct MindMapV {
    pub nodes: Seq<NodeV>,
    pub edges: Seq<EdgeV>,
}

pub open spec fn tag_v(t: Tag) -> TagV {
    TagV { id: t.id, name: t.name@, color: t.color }
}

pub open spec fn anns_v(s: Seq<Annotation>) -> Seq<AnnotationView> {
    s.map_values(|a: Annotation| a@)
}

pub open spec fn tags_v(s: Seq<Tag>) -> Seq<TagV> {
    s.map_values(|t: Tag| tag_v(t))
}

pub open spec fn node_v(n: Node) -> NodeV {
    NodeV {
        id: n.id,
        title: n.title@,
        metadata: match n.metadata {
            Some(m) => Some(m@),
            None => None,
        },
        x: n.x,
        y: n.y,
        collapsed: n.collapsed,
        path: match n.path {
            Some(p) => Some(p@),
            None => None,
        },
        annotations: anns_v(n.annotations@),
        tags: tags_v(n.tags@),
        color: n.color,
    }
}

pub open spec fn edge_v(e: Edge) -> EdgeV {
    EdgeV {
        id: e.id,
        from: e.from,
        to: e.to,
        edge_type: e.edge_type,
        color: e.color,
        annotations: anns_v(e.annotations@),
    }
}

pub open spec fn map_v(m: MindMap) -> MindMapV {
    MindMapV {
        nodes: m.nodes@.map_values(|n: Node| node_v(n)),
        edges: m.edges@.map_values(|e: Edge| edge_v(e)),
    }
}

// ---------------------------------------------------------------------
// The encoded forms.
// ---------------------------------------------------------------------

/// A word holding a valid Unicode scalar value.
pub open spec fn is_char_word(w: u64) -> bool {
    w < 0xD800 || (0xE000 <= w && w < 0x110000)
}

pub open spec fn enc_u128(x: u128) -> Seq<u64> {
    seq![(x / 0x1_0000_0000_0000_0000) as u64, (x % 0x1_0000_0000_0000_0000) as u64]
}

pub open spec fn enc_i64(x: i64) -> Seq<u64> {
    if x >= 0 {
        seq![0u64, x as u64]
    } else {
        seq![1u64, (-(x as int)) as u64]
    }
}

pub open spec fn enc_bool(b: bool) -> Seq<u64> {
    seq![if b { 1u64 } else { 0u64 }]
}

pub open spec fn enc_chars(t: Seq<char>) -> Seq<u64> {
    seq![t.len() as u64] + t.map_values(|c: char| c as u64)
}

pub open spec fn enc_opt_chars(o: Option<Seq<char>>) -> Seq<u64> {
    match o {
        None => seq![0u64],
        Some(t) => seq![1u64] + enc_chars(t),
    }
}

pub open spec fn enc_color(o: Option<Rgba>) -> Seq<u64> {
    match o {
        None => seq![0u64],
        Some(c) => seq![1u64, c.r as u64, c.g as u64, c.b as u64, c.a as u64],
    }
}

pub open spec fn enc_opt_u32(o: Option<u32>) -> Seq<u64> {
    match o {
        None => seq![0u64],
        Some(p) => seq![1u64, p as u64],
    }
}

pub open spec fn ann_type_word(t: AnnotationType) -> u64 {
    match t {
        AnnotationType::TextNote => 0u64,
        AnnotationType::Question => 1u64,
        AnnotationType::Summary => 2u64,
        AnnotationType::Quote => 3u64,
        AnnotationType::Todo => 4u64,
        AnnotationType::Idea => 5u64,
        AnnotationType::Warning => 6u64,
    }
}

pub open spec fn enc_ann(a: AnnotationView) -> Seq<u64> {
    enc_u128(a.id) + seq![ann_type_word(a.annotation_type)] + enc_chars(a.title) + enc_chars(
        a.content,
    ) + enc_chars(a.created_at) + enc_opt_u32(a.page_number)
}

pub open spec fn enc_ann_items(s: Seq<AnnotationView>) -> Seq<u64>
    decreases s.len(),
{
    if s.len() == 0 {
        seq![]
    } else {
        enc_ann(s[0]) + enc_ann_items(s.drop_first())
    }
}

pub open spec fn enc_anns(s: Seq<AnnotationView>) -> Seq<u64> {
    seq![s.len() as u64] + enc_ann_items(s)
}

pub open spec fn enc_tag(t: TagV) -> Seq<u64> {
    enc_u128(t.id) + enc_chars(t.name) + enc_color(Some(t.color))
}

pub open spec fn enc_tag_items(s: Seq<TagV>) -> Seq<u64>
    decreases s.len(),
{
    if s.len() == 0 {
        seq![]
    } else {
        enc_tag(s[0]) + enc_tag_items(s.drop_first())
    }
}

pub open spec fn enc_tags(s: Seq<TagV>) -> Seq<u64> {
    seq![s.len() as u64] + enc_tag_items(s)
}

pub open spec fn enc_str_items(s: Seq<Seq<char>>) -> Seq<u64>
    decreases s.len(),
{
    if s.len() == 0 {
        seq![]
    } else {
        enc_chars(s[0]) + enc_str_items(s.drop_first())
    }
}

pub open spec fn enc_strs(s: Seq<Seq<char>>) -> Seq<u64> {
    seq![s.len() as u64] + enc_str_items(s)
}

pub open spec fn enc_meta(m: MetadataView) -> Seq<u64> {
    enc_chars(m.title) + enc_strs(m.keywords) + enc_strs(m.authors) + enc_chars(m.date)
        + enc_chars(m.path)
}

pub open spec fn enc_opt_meta(o: Option<MetadataView>) -> Seq<u64> {
    match o {
        None => seq![0u64],
        Some(m) => seq![1u64] + enc_meta(m),
    }
}

pub open spec fn enc_node(n: NodeV) -> Seq<u64> {
    enc_u128(n.id) + enc_chars(n.title) + enc_opt_meta(n.metadata) + enc_i64(n.x) + enc_i64(n.y)
        + enc_bool(n.collapsed) + enc_opt_chars(n.path) + enc_anns(n.annotations) + enc_tags(
        n.tags,
    ) + enc_color(n.color)
}

pub open spec fn enc_node_items(s: Seq<NodeV>) -> Seq<u64>
    decreases s.len(),
{
    if s.len() == 0 {
        seq![]
    } else {
        enc_node(s[0]) + enc_node_items(s.drop_first())
    }
}

pub open spec fn edge_type_word(t: EdgeType) -> u64 {
    match t {
        EdgeType::Normal => 0u64,
        EdgeType::References => 1u64,
    }
}

pub open spec fn enc_edge(e: EdgeV) -> Seq<u64> {
    enc_u128(e.id) + enc_u128(e.from) + enc_u128(e.to) + seq![edge_type_word(e.edge_type)]
        + enc_color(e.color) + enc_anns(e.annotations)
}

pub open spec fn enc_edge_items(s: Seq<EdgeV>) -> Seq<u64>
    decreases s.len(),
{
    if s.len() == 0 {
        seq![]
    } else {
        enc_edge(s[0]) + enc_edge_items(s.drop_first())
    }
}

pub open spec fn enc_map(m: MindMapV) -> Seq<u64> {
    seq![m.nodes.len() as u64] + enc_node_items(m.nodes) + seq![m.edges.len() as u64]
        + enc_edge_items(m.edges)
}


// ---------------------------------------------------------------------
// The decoded forms: suffix-style readers over word sequences.
// ---------------------------------------------------------------------

pub open spec fn dec_u64(s: Seq<u64>) -> Option<(u64, Seq<u64>)> {
    if s.len() >= 1 {
        Some((s[0], s.drop_first()))
    } else {
        None
    }
}

pub open spec fn dec_u128(s: Seq<u64>) -> Option<(u128, Seq<u64>)> {
    if s.len() >= 2 {
        Some(
            (
                ((s[0] as int) * 0x1_0000_0000_0000_0000 + (s[1] as int)) as u128,
                s.drop_first().drop_first(),
            ),
        )
    } else {
        None
    }
}

pub open spec fn dec_i64(s: Seq<u64>) -> Option<(i64, Seq<u64>)> {
    if s.len() >= 2 {
        let sign = s[0];
        let mag = s[1];
        let rest = s.drop_first().drop_first();
        if sign == 0 && mag <= 0x7fff_ffff_ffff_ffff {
            Some((mag as i64, rest))
        } else if sign == 1 && 1 <= mag <= 0x8000_0000_0000_0000 {
            Some(((-(mag as int)) as i64, rest))
        } else {
            None
        }
    } else {
        None
    }
}

pub open spec fn dec_bool(s: Seq<u64>) -> Option<(bool, Seq<u64>)> {
    if s.len() >= 1 && (s[0] == 0 || s[0] == 1) {
        Some((s[0] == 1, s.drop_first()))
    } else {
        None
    }
}

pub open spec fn word_char(w: u64) -> char {
    w as char
}

pub open spec fn dec_chars(s: Seq<u64>) -> Option<(Seq<char>, Seq<u64>)> {
    if s.len() >= 1 {
        let n = s[0] as int;
        let body = s.drop_first();
        if body.len() >= n && (forall|k: int| 0 <= k < n ==> is_char_word(#[trigger] body[k])) {
            Some((body.take(n).map_values(|w: u64| word_char(w)), body.skip(n)))
        } else {
            None
        }
    } else {
        None
    }
}

pub open spec fn dec_opt_chars(s: Seq<u64>) -> Option<(Option<Seq<char>>, Seq<u64>)> {
    if s.len() >= 1 {
        if s[0] == 0 {
            Some((None, s.drop_first()))
        } else if s[0] == 1 {
            match dec_chars(s.drop_first()) {
                Some((t, r)) => Some((Some(t), r)),
                None => None,
            }
        } else {
            None
        }
    } else {
        None
    }
}

pub open spec fn dec_color(s: Seq<u64>) -> Option<(Option<Rgba>, Seq<u64>)> {
    if s.len() >= 1 {
        if s[0] == 0 {
            Some((None, s.drop_first()))
        } else if s[0] == 1 && s.len() >= 5 && s[1] <= 255 && s[2] <= 255 && s[3] <= 255 && s[4]
            <= 255 {
            Some(
                (
                    Some(
                        Rgba { r: s[1] as u8, g: s[2] as u8, b: s[3] as u8, a: s[4] as u8 },
                    ),
                    s.skip(5),
                ),
            )
        } else {
            None
        }
    } else {
        None
    }
}

pub open spec fn dec_opt_u32(s: Seq<u64>) -> Option<(Option<u32>, Seq<u64>)> {
    if s.len() >= 1 {
        if s[0] == 0 {
            Some((None, s.drop_first()))
        } else if s[0] == 1 && s.len() >= 2 && s[1] <= 0xffff_ffff {
            Some((Some(s[1] as u32), s.drop_first().drop_first()))
        } else {
            None
        }
    } else {
        None
    }
}

pub open spec fn word_ann_type(w: u64) -> Option<AnnotationType> {
    if w == 0 {
        Some(AnnotationType::TextNote)
    } else if w == 1 {
        Some(AnnotationType::Question)
    } else if w == 2 {
        Some(AnnotationType::Summary)
    } else if w == 3 {
        Some(AnnotationType::Quote)
    } else if w == 4 {
        Some(AnnotationType::Todo)
    } else if w == 5 {
        Some(AnnotationType::Idea)
    } else if w == 6 {
        Some(AnnotationType::Warning)
    } else {
        None
    }
}

pub open spec fn dec_ann(s: Seq<u64>) -> Option<(AnnotationView, Seq<u64>)> {
    match dec_u128(s) {
        None => None,
        Some((id, s1)) => match dec_u64(s1) {
            None => None,
            Some((tw, s2)) => match word_ann_type(tw) {
                None => None,
                Some(t) => match dec_chars(s2) {
                    None => None,
                    Some((title, s3)) => match dec_chars(s3) {
                        None => None,
                        Some((content, s4)) => match dec_chars(s4) {
                            None => None,
                            Some((created_at, s5)) => match dec_opt_u32(s5) {
                                None => None,
                                Some((page, s6)) => Some(
                                    (
                                        AnnotationView {
                                            id,
                                            annotation_type: t,
                                            title,
                                            content,
                                            created_at,
                                            page_number: page,
                                        },
                                        s6,
                                    ),
                                ),
                            },
                        },
                    },
                },
            },
        },
    }
}

pub open spec fn dec_ann_items(s: Seq<u64>, n: nat) -> Option<(Seq<AnnotationView>, Seq<u64>)>
    decreases n,
{
    if n == 0 {
        Some((seq![], s))
    } else {
        match dec_ann(s) {
            None => None,
            Some((a, r)) => match dec_ann_items(r, (n - 1) as nat) {
                None => None,
                Some((tail, r2)) => Some((seq![a] + tail, r2)),
            },
        }
    }
}

pub open spec fn dec_anns(s: Seq<u64>) -> Option<(Seq<AnnotationView>, Seq<u64>)> {
    match dec_u64(s) {
        None => None,
        Some((n, r)) => dec_ann_items(r, n as nat),
    }
}

pub open spec fn dec_tag(s: Seq<u64>) -> Option<(TagV, Seq<u64>)> {
    match dec_u128(s) {
        None => None,
        Some((id, s1)) => match dec_chars(s1) {
            None => None,
            Some((name, s2)) => match dec_color(s2) {
                Some((Some(c), s3)) => Some((TagV { id, name, color: c }, s3)),
                _ => None,
            },
        },
    }
}

pub open spec fn dec_tag_items(s: Seq<u64>, n: nat) -> Option<(Seq<TagV>, Seq<u64>)>
    decreases n,
{
    if n == 0 {
        Some((seq![], s))
    } else {
        match dec_tag(s) {
            None => None,
            Some((t, r)) => match dec_tag_items(r, (n - 1) as nat) {
                None => None,
                Some((tail, r2)) => Some((seq![t] + tail, r2)),
            },
        }
    }
}

pub open spec fn dec_tags(s: Seq<u64>) -> Option<(Seq<TagV>, Seq<u64>)> {
    match dec_u64(s) {
        None => None,
        Some((n, r)) => dec_tag_items(r, n as nat),
    }
}

pub open spec fn dec_str_items(s: Seq<u64>, n: nat) -> Option<(Seq<Seq<char>>, Seq<u64>)>
    decreases n,
{
    if n == 0 {
        Some((seq![], s))
    } else {
        match dec_chars(s) {
            None => None,
            Some((t, r)) => match dec_str_items(r, (n - 1) as nat) {
                None => None,
                Some((tail, r2)) => Some((seq![t] + tail, r2)),
            },
        }
    }
}

pub open spec fn dec_strs(s: Seq<u64>) -> Option<(Seq<Seq<char>>, Seq<u64>)> {
    match dec_u64(s) {
        None => None,
        Some((n, r)) => dec_str_items(r, n as nat),
    }
}

pub open spec fn dec_meta(s: Seq<u64>) -> Option<(MetadataView, Seq<u64>)> {
    match dec_chars(s) {
        None => None,
        Some((title, s1)) => match dec_strs(s1) {
            None => None,
            Some((keywords, s2)) => match dec_strs(s2) {
                None => None,
                Some((authors, s3)) => match dec_chars(s3) {
                    None => None,
                    Some((date, s4)) => match dec_chars(s4) {
                        None => None,
                        Some((path, s5)) => Some(
                            (MetadataView { title, keywords, authors, date, path }, s5),
                        ),
                    },
                },
            },
        },
    }
}

pub open spec fn dec_opt_meta(s: Seq<u64>) -> Option<(Option<MetadataView>, Seq<u64>)> {
    if s.len() >= 1 {
        if s[0] == 0 {
            Some((None, s.drop_first()))
        } else if s[0] == 1 {
            match dec_meta(s.drop_first()) {
                Some((m, r)) => Some((Some(m), r)),
                None => None,
            }
        } else {
            None
        }
    } else {
        None
    }
}

pub open spec fn dec_node(s: Seq<u64>) -> Option<(NodeV, Seq<u64>)> {
    match dec_u128(s) {
        None => None,
        Some((id, s1)) => match dec_chars(s1) {
            None => None,
            Some((title, s2)) => match dec_opt_meta(s2) {
                None => None,
                Some((metadata, s3)) => match dec_i64(s3) {
                    None => None,
                    Some((x, s4)) => match dec_i64(s4) {
                        None => None,
                        Some((y, s5)) => match dec_bool(s5) {
                            None => None,
                            Some((collapsed, s6)) => match dec_opt_chars(s6) {
                                None => None,
                                Some((path, s7)) => match dec_anns(s7) {
                                    None => None,
                                    Some((annotations, s8)) => match dec_tags(s8) {
                                        None => None,
                                        Some((tags, s9)) => match dec_color(s9) {
                                            None => None,
                                            Some((color, s10)) => Some(
                                                (
                                                    NodeV {
                                                        id,
                                                        title,
                                                        metadata,
                                                        x,
                                                        y,
                                                        collapsed,
                                                        path,
                                                        annotations,
                                                        tags,
                                                        color,
                                                    },
                                                    s10,
                                                ),
                                            ),
                                        },
                                    },
                                },
                            },
                        },
                    },
                },
            },
        },
    }
}

pub open spec fn dec_node_items(s: Seq<u64>, n: nat) -> Option<(Seq<NodeV>, Seq<u64>)>
    decreases n,
{
    if n == 0 {
        Some((seq![], s))
    } else {
        match dec_node(s) {
            None => None,
            Some((x, r)) => match dec_node_items(r, (n - 1) as nat) {
                None => None,
                Some((tail, r2)) => Some((seq![x] + tail, r2)),
            },
        }
    }
}

pub open spec fn word_edge_type(w: u64) -> Option<EdgeType> {
    if w == 0 {
        Some(EdgeType::Normal)
    } else if w == 1 {
        Some(EdgeType::References)
    } else {
        None
    }
}

pub open spec fn dec_edge(s: Seq<u64>) -> Option<(EdgeV, Seq<u64>)> {
    match dec_u128(s) {
        None => None,
        Some((id, s1)) => match dec_u128(s1) {
            None => None,
            Some((from, s2)) => match dec_u128(s2) {
                None => None,
                Some((to, s3)) => match dec_u64(s3) {
                    None => None,
                    Some((tw, s4)) => match word_edge_type(tw) {
                        None => None,
                        Some(edge_type) => match dec_color(s4) {
                            None => None,
                            Some((color, s5)) => match dec_anns(s5) {
                                None => None,
                                Some((annotations, s6)) => Some(
                                    (
                                        EdgeV { id, from, to, edge_type, color, annotations },
                                        s6,
                                    ),
                                ),
                            },
                        },
                    },
                },
            },
        },
    }
}

pub open spec fn dec_edge_items(s: Seq<u64>, n: nat) -> Option<(Seq<EdgeV>, Seq<u64>)>
    decreases n,
{
    if n == 0 {
        Some((seq![], s))
    } else {
        match dec_edge(s) {
            None => None,
            Some((x, r)) => match dec_edge_items(r, (n - 1) as nat) {
                None => None,
                Some((tail, r2)) => Some((seq![x] + tail, r2)),
            },
        }
    }
}

pub open spec fn dec_map(s: Seq<u64>) -> Option<(MindMapV, Seq<u64>)> {
    match dec_u64(s) {
        None => None,
        Some((nn, s1)) => match dec_node_items(s1, nn as nat) {
            None => None,
            Some((nodes, s2)) => match dec_u64(s2) {
                None => None,
                Some((ne, s3)) => match dec_edge_items(s3, ne as nat) {
                    None => None,
                    Some((edges, s4)) => Some((MindMapV { nodes, edges }, s4)),
                },
            },
        },
    }
}


// ---------------------------------------------------------------------
// Round trip: decoding an encoding yields the value back.
// ---------------------------------------------------------------------

/// Sequence lengths that fit the length words.
pub open spec fn small_chars(t: Seq<char>) -> bool {
    t.len() <= 0xffff_ffff_ffff_ffff
}

pub open spec fn small_opt_chars(o: Option<Seq<char>>) -> bool {
    match o {
        None => true,
        Some(t) => small_chars(t),
    }
}

pub open spec fn small_ann(a: AnnotationView) -> bool {
    small_chars(a.title) && small_chars(a.content) && small_chars(a.created_at)
}

pub open spec fn small_anns(s: Seq<AnnotationView>) -> bool {
    s.len() <= 0xffff_ffff_ffff_ffff && (forall|i: int| 0 <= i < s.len() ==> small_ann(#[trigger] s[i]))
}

pub open spec fn small_tag(t: TagV) -> bool {
    small_chars(t.name)
}

pub open spec fn small_tags(s: Seq<TagV>) -> bool {
    s.len() <= 0xffff_ffff_ffff_ffff && (forall|i: int| 0 <= i < s.len() ==> small_tag(#[trigger] s[i]))
}

pub open spec fn small_strs(s: Seq<Seq<char>>) -> bool {
    s.len() <= 0xffff_ffff_ffff_ffff && (forall|i: int|
        0 <= i < s.len() ==> small_chars(#[trigger] s[i]))
}

pub open spec fn small_meta(m: MetadataView) -> bool {
    small_chars(m.title) && small_strs(m.keywords) && small_strs(m.authors) && small_chars(m.date)
        && small_chars(m.path)
}

pub open spec fn small_opt_meta(o: Option<MetadataView>) -> bool {
    match o {
        None => true,
        Some(m) => small_meta(m),
    }
}

pub open spec fn small_node(n: NodeV) -> bool {
    small_chars(n.title) && small_opt_meta(n.metadata) && small_opt_chars(n.path) && small_anns(
        n.annotations,
    ) && small_tags(n.tags)
}

pub open spec fn small_nodes(s: Seq<NodeV>) -> bool {
    s.len() <= 0xffff_ffff_ffff_ffff && (forall|i: int|
        0 <= i < s.len() ==> small_node(#[trigger] s[i]))
}

pub open spec fn small_edge(e: EdgeV) -> bool {
    small_anns(e.annotations)
}

pub open spec fn small_edges(s: Seq<EdgeV>) -> bool {
    s.len() <= 0xffff_ffff_ffff_ffff && (forall|i: int|
        0 <= i < s.len() ==> small_edge(#[trigger] s[i]))
}

pub open spec fn small_map(m: MindMapV) -> bool {
    small_nodes(m.nodes) && small_edges(m.edges)
}

proof fn lemma_dec_enc_u64(x: u64, rest: Seq<u64>)
    ensures
        dec_u64(seq![x] + rest) == Some((x, rest)),
{
    let s = seq![x] + rest;
    assert(s[0] == x);
    assert(s.drop_first() =~= rest);
}

proof fn lemma_dec_enc_u128(x: u128, rest: Seq<u64>)
    ensures
        dec_u128(enc_u128(x) + rest) == Some((x, rest)),
{
    let s = enc_u128(x) + rest;
    let hi = (x / 0x1_0000_0000_0000_0000) as u64;
    let lo = (x % 0x1_0000_0000_0000_0000) as u64;
    assert(s[0] == hi && s[1] == lo);
    vstd::arithmetic::div_mod::lemma_fundamental_div_mod(x as int, 0x1_0000_0000_0000_0000);
    assert((hi as int) * 0x1_0000_0000_0000_0000 + (lo as int) == x as int);
    assert(s.drop_first().drop_first() =~= rest);
}

proof fn lemma_dec_enc_i64(x: i64, rest: Seq<u64>)
    ensures
        dec_i64(enc_i64(x) + rest) == Some((x, rest)),
{
    let s = enc_i64(x) + rest;
    assert(s.drop_first().drop_first() =~= rest);
    if x >= 0 {
        assert(s[0] == 0u64 && s[1] == x as u64);
    } else {
        assert(s[0] == 1u64 && s[1] == (-(x as int)) as u64);
    }
}

proof fn lemma_dec_enc_bool(b: bool, rest: Seq<u64>)
    ensures
        dec_bool(enc_bool(b) + rest) == Some((b, rest)),
{
    let s = enc_bool(b) + rest;
    assert(s.drop_first() =~= rest);
}

#[verifier::rlimit(100)]
/// Every `char` is a Unicode scalar value, and casting it to a word and
/// back is the identity.
proof fn lemma_char_facts(c: char)
    ensures
        is_char_word(c as u64),
        ((c as u64) as char) == c,
{
}

proof fn lemma_dec_enc_chars(t: Seq<char>, rest: Seq<u64>)
    requires
        small_chars(t),
    ensures
        dec_chars(enc_chars(t) + rest) == Some((t, rest)),
{
    let words = t.map_values(|c: char| c as u64);
    assert(words.len() == t.len());
    assert forall|k: int| 0 <= k < t.len() implies #[trigger] words[k] == t[k] as u64
        && is_char_word(words[k]) && word_char(words[k]) == t[k] by {
        assert(words[k] == t[k] as u64);
        lemma_char_facts(t[k]);
    }
    let s = enc_chars(t) + rest;
    let n = t.len() as int;
    assert(s[0] == t.len() as u64);
    let body = s.drop_first();
    assert(body =~= words + rest);
    assert(body.len() >= n);
    assert forall|k: int| 0 <= k < n implies is_char_word(#[trigger] body[k]) by {
        assert(body[k] == words[k]);
    }
    assert(body.take(n) =~= words);
    assert(body.take(n).map_values(|w: u64| word_char(w)) =~= t) by {
        assert forall|k: int| #![trigger body.take(n)[k]]
            0 <= k < n implies body.take(n).map_values(|w: u64| word_char(w))[k] == t[k] by {
            assert(body.take(n)[k] == words[k]);
            assert(word_char(words[k]) == t[k]);
        }
    }
    assert(body.skip(n) =~= rest);
}

#[verifier::rlimit(100)]
proof fn lemma_dec_enc_opt_chars(o: Option<Seq<char>>, rest: Seq<u64>)
    requires
        small_opt_chars(o),
    ensures
        dec_opt_chars(enc_opt_chars(o) + rest) == Some((o, rest)),
{
    match o {
        None => {
            let s = enc_opt_chars(o) + rest;
            assert(s[0] == 0u64);
            assert(s.drop_first() =~= rest);
        },
        Some(t) => {
            let s = enc_opt_chars(o) + rest;
            assert(s[0] == 1u64);
            assert(s.drop_first() =~= enc_chars(t) + rest);
            lemma_dec_enc_chars(t, rest);
        },
    }
}

proof fn lemma_dec_enc_color(o: Option<Rgba>, rest: Seq<u64>)
    ensures
        dec_color(enc_color(o) + rest) == Some((o, rest)),
{
    match o {
        None => {
            let s = enc_color(o) + rest;
            assert(s[0] == 0u64);
            assert(s.drop_first() =~= rest);
        },
        Some(c) => {
            let s = enc_color(o) + rest;
            assert(s[0] == 1u64 && s[1] == c.r as u64 && s[2] == c.g as u64 && s[3] == c.b as u64
                && s[4] == c.a as u64);
            assert(s.skip(5) =~= rest);
        },
    }
}

proof fn lemma_dec_enc_opt_u32(o: Option<u32>, rest: Seq<u64>)
    ensures
        dec_opt_u32(enc_opt_u32(o) + rest) == Some((o, rest)),
{
    match o {
        None => {
            let s = enc_opt_u32(o) + rest;
            assert(s[0] == 0u64);
            assert(s.drop_first() =~= rest);
        },
        Some(p) => {
            let s = enc_opt_u32(o) + rest;
            assert(s[0] == 1u64 && s[1] == p as u64);
            assert(s.drop_first().drop_first() =~= rest);
        },
    }
}

#[verifier::rlimit(100)]
proof fn lemma_dec_enc_ann(a: AnnotationView, rest: Seq<u64>)
    requires
        small_ann(a),
    ensures
        dec_ann(enc_ann(a) + rest) == Some((a, rest)),
{
    let tw = ann_type_word(a.annotation_type);
    let t5 = enc_opt_u32(a.page_number) + rest;
    let t4 = enc_chars(a.created_at) + t5;
    let t3 = enc_chars(a.content) + t4;
    let t2 = enc_chars(a.title) + t3;
    let t1 = seq![tw] + t2;
    assert(enc_ann(a) + rest =~= enc_u128(a.id) + t1);
    lemma_dec_enc_u128(a.id, t1);
    lemma_dec_enc_u64(tw, t2);
    assert(word_ann_type(tw) == Some(a.annotation_type));
    lemma_dec_enc_chars(a.title, t3);
    lemma_dec_enc_chars(a.content, t4);
    lemma_dec_enc_chars(a.created_at, t5);
    lemma_dec_enc_opt_u32(a.page_number, rest);
}

#[verifier::rlimit(100)]
#[verifier::spinoff_prover]
proof fn lemma_dec_enc_ann_items(s: Seq<AnnotationView>, rest: Seq<u64>)
    requires
        small_anns(s),
    ensures
        dec_ann_items(enc_ann_items(s) + rest, s.len()) == Some((s, rest)),
    decreases s.len(),
{
    if s.len() == 0 {
        assert(enc_ann_items(s) + rest =~= rest);
        assert(dec_ann_items(rest, 0) == Some((Seq::<AnnotationView>::empty(), rest)));
        assert(s =~= Seq::<AnnotationView>::empty());
    } else {
        let tail = enc_ann_items(s.drop_first()) + rest;
        vstd::seq_lib::lemma_concat_associative(enc_ann(s[0]), enc_ann_items(s.drop_first()), rest);
        assert(enc_ann_items(s) + rest == enc_ann(s[0]) + tail);
        assert(small_ann(s[0]));
        lemma_dec_enc_ann(s[0], tail);
        assert(small_anns(s.drop_first())) by {
            assert(forall|i: int|
                0 <= i < s.drop_first().len() ==> #[trigger] s.drop_first()[i] == s[i + 1]);
        }
        lemma_dec_enc_ann_items(s.drop_first(), rest);
        assert(seq![s[0]] + s.drop_first() =~= s);
    }
}

#[verifier::rlimit(100)]
#[verifier::spinoff_prover]
proof fn lemma_dec_enc_anns(s: Seq<AnnotationView>, rest: Seq<u64>)
    requires
        small_anns(s),
    ensures
        dec_anns(enc_anns(s) + rest) == Some((s, rest)),
{
    let tail = enc_ann_items(s) + rest;
    assert(enc_anns(s) + rest =~= seq![s.len() as u64] + tail);
    lemma_dec_enc_u64(s.len() as u64, tail);
    lemma_dec_enc_ann_items(s, rest);
}

#[verifier::rlimit(100)]
proof fn lemma_dec_enc_tag(t: TagV, rest: Seq<u64>)
    requires
        small_tag(t),
    ensures
        dec_tag(enc_tag(t) + rest) == Some((t, rest)),
{
    let t2 = enc_color(Some(t.color)) + rest;
    let t1 = enc_chars(t.name) + t2;
    assert(enc_tag(t) + rest =~= enc_u128(t.id) + t1);
    lemma_dec_enc_u128(t.id, t1);
    lemma_dec_enc_chars(t.name, t2);
    lemma_dec_enc_color(Some(t.color), rest);
}

#[verifier::rlimit(100)]
#[verifier::spinoff_prover]
proof fn lemma_dec_enc_tag_items(s: Seq<TagV>, rest: Seq<u64>)
    requires
        small_tags(s),
    ensures
        dec_tag_items(enc_tag_items(s) + rest, s.len()) == Some((s, rest)),
    decreases s.len(),
{
    if s.len() == 0 {
        assert(enc_tag_items(s) + rest =~= rest);
        assert(s =~= Seq::<TagV>::empty());
    } else {
        let tail = enc_tag_items(s.drop_first()) + rest;
        vstd::seq_lib::lemma_concat_associative(enc_tag(s[0]), enc_tag_items(s.drop_first()), rest);
        assert(enc_tag_items(s) + rest == enc_tag(s[0]) + tail);
        assert(small_tag(s[0]));
        lemma_dec_enc_tag(s[0], tail);
        assert(small_tags(s.drop_first())) by {
            assert(forall|i: int|
                0 <= i < s.drop_first().len() ==> #[trigger] s.drop_first()[i] == s[i + 1]);
        }
        lemma_dec_enc_tag_items(s.drop_first(), rest);
        assert(seq![s[0]] + s.drop_first() =~= s);
    }
}

#[verifier::rlimit(100)]
#[verifier::spinoff_prover]
proof fn lemma_dec_enc_tags(s: Seq<TagV>, rest: Seq<u64>)
    requires
        small_tags(s),
    ensures
        dec_tags(enc_tags(s) + rest) == Some((s, rest)),
{
    let tail = enc_tag_items(s) + rest;
    assert(enc_tags(s) + rest =~= seq![s.len() as u64] + tail);
    lemma_dec_enc_u64(s.len() as u64, tail);
    lemma_dec_enc_tag_items(s, rest);
}

#[verifier::rlimit(100)]
#[verifier::spinoff_prover]
proof fn lemma_dec_enc_str_items(s: Seq<Seq<char>>, rest: Seq<u64>)
    requires
        small_strs(s),
    ensures
        dec_str_items(enc_str_items(s) + rest, s.len()) == Some((s, rest)),
    decreases s.len(),
{
    if s.len() == 0 {
        assert(enc_str_items(s) + rest =~= rest);
        assert(s =~= Seq::<Seq<char>>::empty());
    } else {
        let tail = enc_str_items(s.drop_first()) + rest;
        vstd::seq_lib::lemma_concat_associative(enc_chars(s[0]), enc_str_items(s.drop_first()), rest);
        assert(enc_str_items(s) + rest == enc_chars(s[0]) + tail);
        assert(small_chars(s[0]));
        lemma_dec_enc_chars(s[0], tail);
        assert(small_strs(s.drop_first())) by {
            assert(forall|i: int|
                0 <= i < s.drop_first().len() ==> #[trigger] s.drop_first()[i] == s[i + 1]);
        }
        lemma_dec_enc_str_items(s.drop_first(), rest);
        assert(seq![s[0]] + s.drop_first() =~= s);
    }
}

#[verifier::rlimit(100)]
#[verifier::spinoff_prover]
proof fn lemma_dec_enc_strs(s: Seq<Seq<char>>, rest: Seq<u64>)
    requires
        small_strs(s),
    ensures
        dec_strs(enc_strs(s) + rest) == Some((s, rest)),
{
    let tail = enc_str_items(s) + rest;
    assert(enc_strs(s) + rest =~= seq![s.len() as u64] + tail);
    lemma_dec_enc_u64(s.len() as u64, tail);
    lemma_dec_enc_str_items(s, rest);
}

#[verifier::rlimit(100)]
#[verifier::spinoff_prover]
proof fn lemma_dec_enc_meta(m: MetadataView, rest: Seq<u64>)
    requires
        small_meta(m),
    ensures
        dec_meta(enc_meta(m) + rest) == Some((m, rest)),
{
    let t4 = enc_chars(m.path) + rest;
    let t3 = enc_chars(m.date) + t4;
    let t2 = enc_strs(m.authors) + t3;
    let t1 = enc_strs(m.keywords) + t2;
    assert(enc_meta(m) + rest =~= enc_chars(m.title) + t1);
    lemma_dec_enc_chars(m.title, t1);
    lemma_dec_enc_strs(m.keywords, t2);
    lemma_dec_enc_strs(m.authors, t3);
    lemma_dec_enc_chars(m.date, t4);
    lemma_dec_enc_chars(m.path, rest);
}

#[verifier::rlimit(100)]
proof fn lemma_dec_enc_opt_meta(o: Option<MetadataView>, rest: Seq<u64>)
    requires
        small_opt_meta(o),
    ensures
        dec_opt_meta(enc_opt_meta(o) + rest) == Some((o, rest)),
{
    match o {
        None => {
            let s = enc_opt_meta(o) + rest;
            assert(s[0] == 0u64);
            assert(s.drop_first() =~= rest);
        },
        Some(m) => {
            let s = enc_opt_meta(o) + rest;
            assert(s[0] == 1u64);
            assert(s.drop_first() =~= enc_meta(m) + rest);
            lemma_dec_enc_meta(m, rest);
        },
    }
}

#[verifier::rlimit(100)]
#[verifier::spinoff_prover]
proof fn lemma_dec_enc_node(n: NodeV, rest: Seq<u64>)
    requires
        small_node(n),
    ensures
        dec_node(enc_node(n) + rest) == Some((n, rest)),
{
    let p1 = enc_u128(n.id);
    let p2 = enc_chars(n.title);
    let p3 = enc_opt_meta(n.metadata);
    let p4 = enc_i64(n.x);
    let p5 = enc_i64(n.y);
    let p6 = enc_bool(n.collapsed);
    let p7 = enc_opt_chars(n.path);
    let p8 = enc_anns(n.annotations);
    let p9 = enc_tags(n.tags);
    let p10 = enc_color(n.color);
    let t9 = p10 + rest;
    let t8 = p9 + t9;
    let t7 = p8 + t8;
    let t6 = p7 + t7;
    let t5 = p6 + t6;
    let t4 = p5 + t5;
    let t3 = p4 + t4;
    let t2 = p3 + t3;
    let t1 = p2 + t2;
    vstd::seq_lib::lemma_concat_associative(
        p1 + p2 + p3 + p4 + p5 + p6 + p7 + p8 + p9,
        p10,
        rest,
    );
    vstd::seq_lib::lemma_concat_associative(p1 + p2 + p3 + p4 + p5 + p6 + p7 + p8, p9, t9);
    vstd::seq_lib::lemma_concat_associative(p1 + p2 + p3 + p4 + p5 + p6 + p7, p8, t8);
    vstd::seq_lib::lemma_concat_associative(p1 + p2 + p3 + p4 + p5 + p6, p7, t7);
    vstd::seq_lib::lemma_concat_associative(p1 + p2 + p3 + p4 + p5, p6, t6);
    vstd::seq_lib::lemma_concat_associative(p1 + p2 + p3 + p4, p5, t5);
    vstd::seq_lib::lemma_concat_associative(p1 + p2 + p3, p4, t4);
    vstd::seq_lib::lemma_concat_associative(p1 + p2, p3, t3);
    vstd::seq_lib::lemma_concat_associative(p1, p2, t2);
    assert(enc_node(n) + rest == p1 + t1);
    lemma_dec_enc_u128(n.id, t1);
    lemma_dec_enc_chars(n.title, t2);
    lemma_dec_enc_opt_meta(n.metadata, t3);
    lemma_dec_enc_i64(n.x, t4);
    lemma_dec_enc_i64(n.y, t5);
    lemma_dec_enc_bool(n.collapsed, t6);
    lemma_dec_enc_opt_chars(n.path, t7);
    lemma_dec_enc_anns(n.annotations, t8);
    lemma_dec_enc_tags(n.tags, t9);
    lemma_dec_enc_color(n.color, rest);
}

#[verifier::rlimit(100)]
#[verifier::spinoff_prover]
proof fn lemma_dec_enc_node_items(s: Seq<NodeV>, rest: Seq<u64>)
    requires
        small_nodes(s),
    ensures
        dec_node_items(enc_node_items(s) + rest, s.len()) == Some((s, rest)),
    decreases s.len(),
{
    if s.len() == 0 {
        assert(enc_node_items(s) + rest =~= rest);
        assert(s =~= Seq::<NodeV>::empty());
    } else {
        let tail = enc_node_items(s.drop_first()) + rest;
        vstd::seq_lib::lemma_concat_associative(enc_node(s[0]), enc_node_items(s.drop_first()), rest);
        assert(enc_node_items(s) + rest == enc_node(s[0]) + tail);
        assert(small_node(s[0]));
        lemma_dec_enc_node(s[0], tail);
        assert(small_nodes(s.drop_first())) by {
            assert(forall|i: int|
                0 <= i < s.drop_first().len() ==> #[trigger] s.drop_first()[i] == s[i + 1]);
        }
        lemma_dec_enc_node_items(s.drop_first(), rest);
        assert(seq![s[0]] + s.drop_first() =~= s);
    }
}

#[verifier::rlimit(100)]
#[verifier::spinoff_prover]
proof fn lemma_dec_enc_edge(e: EdgeV, rest: Seq<u64>)
    requires
        small_edge(e),
    ensures
        dec_edge(enc_edge(e) + rest) == Some((e, rest)),
{
    let tw = edge_type_word(e.edge_type);
    let p1 = enc_u128(e.id);
    let p2 = enc_u128(e.from);
    let p3 = enc_u128(e.to);
    let p4 = seq![tw];
    let p5 = enc_color(e.color);
    let p6 = enc_anns(e.annotations);
    let t5 = p6 + rest;
    let t4 = p5 + t5;
    let t3 = p4 + t4;
    let t2 = p3 + t3;
    let t1 = p2 + t2;
    vstd::seq_lib::lemma_concat_associative(p1 + p2 + p3 + p4 + p5, p6, rest);
    vstd::seq_lib::lemma_concat_associative(p1 + p2 + p3 + p4, p5, t5);
    vstd::seq_lib::lemma_concat_associative(p1 + p2 + p3, p4, t4);
    vstd::seq_lib::lemma_concat_associative(p1 + p2, p3, t3);
    vstd::seq_lib::lemma_concat_associative(p1, p2, t2);
    assert(enc_edge(e) + rest == p1 + t1);
    lemma_dec_enc_u128(e.id, t1);
    lemma_dec_enc_u128(e.from, t2);
    lemma_dec_enc_u128(e.to, t3);
    lemma_dec_enc_u64(tw, t4);
    assert(word_edge_type(tw) == Some(e.edge_type));
    lemma_dec_enc_color(e.color, t5);
    lemma_dec_enc_anns(e.annotations, rest);
}

#[verifier::rlimit(100)]
#[verifier::spinoff_prover]
proof fn lemma_dec_enc_edge_items(s: Seq<EdgeV>, rest: Seq<u64>)
    requires
        small_edges(s),
    ensures
        dec_edge_items(enc_edge_items(s) + rest, s.len()) == Some((s, rest)),
    decreases s.len(),
{
    if s.len() == 0 {
        assert(enc_edge_items(s) + rest =~= rest);
        assert(s =~= Seq::<EdgeV>::empty());
    } else {
        let tail = enc_edge_items(s.drop_first()) + rest;
        assert(enc_edge_items(s) + rest == enc_edge(s[0]) + tail) by {
            vstd::seq_lib::lemma_concat_associative(
                enc_edge(s[0]),
                enc_edge_items(s.drop_first()),
                rest,
            );
        }
        assert(dec_edge(enc_edge(s[0]) + tail) == Some((s[0], tail))) by {
            assert(small_edge(s[0]));
            lemma_dec_enc_edge(s[0], tail);
        }
        assert(dec_edge_items(tail, (s.len() - 1) as nat) == Some((s.drop_first(), rest))) by {
            assert(small_edges(s.drop_first())) by {
                assert(forall|i: int|
                    0 <= i < s.drop_first().len() ==> #[trigger] s.drop_first()[i] == s[i + 1]);
            }
            lemma_dec_enc_edge_items(s.drop_first(), rest);
        }
        assert(seq![s[0]] + s.drop_first() =~= s);
    }
}

/// The round trip: decoding the encoding of any graph value yields it
/// back exactly — the serialized form loses nothing: every node, edge,
/// annotation and tag, with its id and field values, is reproduced.
#[verifier::rlimit(100)]
#[verifier::spinoff_prover]
pub proof fn lemma_codec_round_trip(m: MindMapV, rest: Seq<u64>)
    requires
        small_map(m),
    ensures
        dec_map(enc_map(m) + rest) == Some((m, rest)),
{
    let t3 = enc_edge_items(m.edges) + rest;
    let t2 = seq![m.edges.len() as u64] + t3;
    let t1 = enc_node_items(m.nodes) + t2;
    assert(enc_map(m) + rest =~= seq![m.nodes.len() as u64] + t1);
    lemma_dec_enc_u64(m.nodes.len() as u64, t1);
    lemma_dec_enc_node_items(m.nodes, t2);
    lemma_dec_enc_u64(m.edges.len() as u64, t3);
    lemma_dec_enc_edge_items(m.edges, rest);
}


// ---------------------------------------------------------------------
// The executable encoder.
// ---------------------------------------------------------------------

/// The characters of a string, in order. Relies on `str::chars` followed
/// by `collect` into a vector.
#[verifier::external_body]
pub(crate) fn str_to_chars(s: &str) -> (r: Vec<char>)
    ensures
        r@ == s@,
{
    s.chars().collect()
}

/// A string built from characters, in order. Relies on `String`'s
/// `FromIterator` over `char`.
#[verifier::external_body]
pub(crate) fn chars_to_string(v: &Vec<char>) -> (r: String)
    ensures
        r@ == v@,
{
    v.iter().collect()
}

fn put_u64(out: &mut Vec<u64>, x: u64)
    ensures
        final(out)@ == old(out)@ + seq![x],
{
    out.push(x);
    proof {
        assert(final(out)@ =~= old(out)@ + seq![x]);
    }
}

fn put_u128(out: &mut Vec<u64>, x: u128)
    ensures
        final(out)@ == old(out)@ + enc_u128(x),
{
    out.push((x / 0x1_0000_0000_0000_0000) as u64);
    out.push((x % 0x1_0000_0000_0000_0000) as u64);
    proof {
        assert(final(out)@ =~= old(out)@ + enc_u128(x));
    }
}

fn put_i64(out: &mut Vec<u64>, x: i64)
    ensures
        final(out)@ == old(out)@ + enc_i64(x),
{
    if x >= 0 {
        out.push(0);
        out.push(x as u64);
    } else {
        out.push(1);
        let mag: u64 = (-(x as i128)) as u64;
        proof {
            assert(mag as int == -(x as int));
        }
        out.push(mag);
    }
    proof {
        assert(final(out)@ =~= old(out)@ + enc_i64(x));
    }
}

fn put_bool(out: &mut Vec<u64>, b: bool)
    ensures
        final(out)@ == old(out)@ + enc_bool(b),
{
    out.push(if b { 1 } else { 0 });
    proof {
        assert(final(out)@ =~= old(out)@ + enc_bool(b));
    }
}

fn put_str(out: &mut Vec<u64>, s: &String)
    ensures
        final(out)@ == old(out)@ + enc_chars(s@),
{
    let cs = str_to_chars(s.as_str());
    out.push(cs.len() as u64);
    let ghost mid = out@;
    let mut i: usize = 0;
    while i < cs.len()
        invariant
            i <= cs@.len(),
            cs@ == s@,
            out@ == mid + cs@.take(i as int).map_values(|c: char| c as u64),
        decreases cs@.len() - i,
    {
        out.push(cs[i] as u64);
        proof {
            assert(cs@.take(i as int + 1) =~= cs@.take(i as int).push(cs@[i as int]));
            assert(cs@.take(i as int + 1).map_values(|c: char| c as u64) =~= cs@.take(
                i as int,
            ).map_values(|c: char| c as u64).push(cs@[i as int] as u64));
            assert(out@ =~= mid + cs@.take(i as int + 1).map_values(|c: char| c as u64));
        }
        i = i + 1;
    }
    proof {
        assert(cs@.take(cs@.len() as int) =~= cs@);
        assert(out@ =~= old(out)@ + enc_chars(s@));
    }
}

fn put_opt_str(out: &mut Vec<u64>, o: &Option<String>)
    ensures
        final(out)@ == old(out)@ + enc_opt_chars(
            match *o {
                Some(s) => Some(s@),
                None => None,
            },
        ),
{
    match o {
        None => {
            out.push(0);
            proof {
                assert(final(out)@ =~= old(out)@ + seq![0u64]);
            }
        },
        Some(s) => {
            out.push(1);
            let ghost mid = out@;
            put_str(out, s);
            proof {
                assert(final(out)@ =~= old(out)@ + (seq![1u64] + enc_chars(s@)));
            }
        },
    }
}

fn put_color(out: &mut Vec<u64>, o: &Option<Rgba>)
    ensures
        final(out)@ == old(out)@ + enc_color(*o),
{
    match o {
        None => {
            out.push(0);
            proof {
                assert(final(out)@ =~= old(out)@ + enc_color(None));
            }
        },
        Some(c) => {
            out.push(1);
            out.push(c.r as u64);
            out.push(c.g as u64);
            out.push(c.b as u64);
            out.push(c.a as u64);
            proof {
                assert(final(out)@ =~= old(out)@ + enc_color(Some(*c)));
            }
        },
    }
}

fn put_opt_u32(out: &mut Vec<u64>, o: &Option<u32>)
    ensures
        final(out)@ == old(out)@ + enc_opt_u32(*o),
{
    match o {
        None => {
            out.push(0);
            proof {
                assert(final(out)@ =~= old(out)@ + enc_opt_u32(None));
            }
        },
        Some(p) => {
            out.push(1);
            out.push(*p as u64);
            proof {
                assert(final(out)@ =~= old(out)@ + enc_opt_u32(Some(*p)));
            }
        },
    }
}

fn put_ann(out: &mut Vec<u64>, a: &Annotation)
    ensures
        final(out)@ == old(out)@ + enc_ann(a@),
{
    let ghost o0 = out@;
    put_u128(out, a.id);
    let tw: u64 = match a.annotation_type {
        AnnotationType::TextNote => 0,
        AnnotationType::Question => 1,
        AnnotationType::Summary => 2,
        AnnotationType::Quote => 3,
        AnnotationType::Todo => 4,
        AnnotationType::Idea => 5,
        AnnotationType::Warning => 6,
    };
    put_u64(out, tw);
    put_str(out, &a.title);
    put_str(out, &a.content);
    put_str(out, &a.created_at);
    put_opt_u32(out, &a.page_number);
    proof {
        assert(tw == ann_type_word(a.annotation_type));
        assert(out@ =~= o0 + enc_ann(a@));
    }
}

fn put_anns(out: &mut Vec<u64>, v: &Vec<Annotation>)
    ensures
        final(out)@ == old(out)@ + enc_anns(anns_v(v@)),
{
    out.push(v.len() as u64);
    let ghost mid = out@;
    let mut i: usize = 0;
    while i < v.len()
        invariant
            i <= v@.len(),
            out@ == mid + enc_ann_items(anns_v(v@).take(i as int)),
        decreases v@.len() - i,
    {
        put_ann(out, &v[i]);
        proof {
            lemma_enc_ann_items_snoc(anns_v(v@), i as int);
        }
        i = i + 1;
    }
    proof {
        assert(anns_v(v@).take(v@.len() as int) =~= anns_v(v@));
        assert(anns_v(v@).len() == v@.len());
        assert(out@ =~= old(out)@ + enc_anns(anns_v(v@)));
    }
}

/// Encoding one more list item appends its encoding.
proof fn lemma_enc_ann_items_snoc(s: Seq<AnnotationView>, i: int)
    requires
        0 <= i < s.len(),
    ensures
        enc_ann_items(s.take(i + 1)) == enc_ann_items(s.take(i)) + enc_ann(s[i]),
    decreases i,
{
    if i == 0 {
        assert(s.take(1) =~= seq![s[0]]);
        assert(s.take(1).drop_first() =~= Seq::<AnnotationView>::empty());
        assert(s.take(0) =~= Seq::<AnnotationView>::empty());
        assert(enc_ann_items(s.take(1)) =~= enc_ann_items(s.take(0)) + enc_ann(s[0]));
    } else {
        lemma_enc_ann_items_snoc(s.drop_first(), i - 1);
        assert(s.take(i + 1).drop_first() =~= s.drop_first().take(i));
        assert(s.take(i).drop_first() =~= s.drop_first().take(i - 1));
        assert(s.take(i + 1)[0] == s[0] && s.take(i)[0] == s[0]);
        assert(s.drop_first()[i - 1] == s[i]);
        vstd::seq_lib::lemma_concat_associative(
            enc_ann(s[0]),
            enc_ann_items(s.drop_first().take(i - 1)),
            enc_ann(s[i]),
        );
    }
}

fn put_tag(out: &mut Vec<u64>, t: &Tag)
    ensures
        final(out)@ == old(out)@ + enc_tag(tag_v(*t)),
{
    let ghost o0 = out@;
    put_u128(out, t.id);
    put_str(out, &t.name);
    put_color(out, &Some(t.color));
    proof {
        assert(out@ =~= o0 + enc_tag(tag_v(*t)));
    }
}

proof fn lemma_enc_tag_items_snoc(s: Seq<TagV>, i: int)
    requires
        0 <= i < s.len(),
    ensures
        enc_tag_items(s.take(i + 1)) == enc_tag_items(s.take(i)) + enc_tag(s[i]),
    decreases i,
{
    if i == 0 {
        assert(s.take(1) =~= seq![s[0]]);
        assert(s.take(1).drop_first() =~= Seq::<TagV>::empty());
        assert(s.take(0) =~= Seq::<TagV>::empty());
        assert(enc_tag_items(s.take(1)) =~= enc_tag_items(s.take(0)) + enc_tag(s[0]));
    } else {
        lemma_enc_tag_items_snoc(s.drop_first(), i - 1);
        assert(s.take(i + 1).drop_first() =~= s.drop_first().take(i));
        assert(s.take(i).drop_first() =~= s.drop_first().take(i - 1));
        assert(s.take(i + 1)[0] == s[0] && s.take(i)[0] == s[0]);
        assert(s.drop_first()[i - 1] == s[i]);
        vstd::seq_lib::lemma_concat_associative(
            enc_tag(s[0]),
            enc_tag_items(s.drop_first().take(i - 1)),
            enc_tag(s[i]),
        );
    }
}

fn put_tags(out: &mut Vec<u64>, v: &Vec<Tag>)
    ensures
        final(out)@ == old(out)@ + enc_tags(tags_v(v@)),
{
    out.push(v.len() as u64);
    let ghost mid = out@;
    let mut i: usize = 0;
    while i < v.len()
        invariant
            i <= v@.len(),
            out@ == mid + enc_tag_items(tags_v(v@).take(i as int)),
        decreases v@.len() - i,
    {
        put_tag(out, &v[i]);
        proof {
            lemma_enc_tag_items_snoc(tags_v(v@), i as int);
        }
        i = i + 1;
    }
    proof {
        assert(tags_v(v@).take(v@.len() as int) =~= tags_v(v@));
        assert(tags_v(v@).len() == v@.len());
        assert(out@ =~= old(out)@ + enc_tags(tags_v(v@)));
    }
}

proof fn lemma_enc_str_items_snoc(s: Seq<Seq<char>>, i: int)
    requires
        0 <= i < s.len(),
    ensures
        enc_str_items(s.take(i + 1)) == enc_str_items(s.take(i)) + enc_chars(s[i]),
    decreases i,
{
    if i == 0 {
        assert(s.take(1) =~= seq![s[0]]);
        assert(s.take(1).drop_first() =~= Seq::<Seq<char>>::empty());
        assert(s.take(0) =~= Seq::<Seq<char>>::empty());
        assert(enc_str_items(s.take(1)) =~= enc_str_items(s.take(0)) + enc_chars(s[0]));
    } else {
        lemma_enc_str_items_snoc(s.drop_first(), i - 1);
        assert(s.take(i + 1).drop_first() =~= s.drop_first().take(i));
        assert(s.take(i).drop_first() =~= s.drop_first().take(i - 1));
        assert(s.take(i + 1)[0] == s[0] && s.take(i)[0] == s[0]);
        assert(s.drop_first()[i - 1] == s[i]);
        vstd::seq_lib::lemma_concat_associative(
            enc_chars(s[0]),
            enc_str_items(s.drop_first().take(i - 1)),
            enc_chars(s[i]),
        );
    }
}

fn put_strs(out: &mut Vec<u64>, v: &Vec<String>)
    ensures
        final(out)@ == old(out)@ + enc_strs(strings_view(v@)),
{
    out.push(v.len() as u64);
    let ghost mid = out@;
    let mut i: usize = 0;
    while i < v.len()
        invariant
            i <= v@.len(),
            out@ == mid + enc_str_items(strings_view(v@).take(i as int)),
        decreases v@.len() - i,
    {
        put_str(out, &v[i]);
        proof {
            lemma_enc_str_items_snoc(strings_view(v@), i as int);
        }
        i = i + 1;
    }
    proof {
        assert(strings_view(v@).take(v@.len() as int) =~= strings_view(v@));
        assert(strings_view(v@).len() == v@.len());
        assert(out@ =~= old(out)@ + enc_strs(strings_view(v@)));
    }
}

fn put_meta(out: &mut Vec<u64>, m: &Metadata)
    ensures
        final(out)@ == old(out)@ + enc_meta(m@),
{
    let ghost o0 = out@;
    put_str(out, &m.title);
    put_strs(out, &m.keywords);
    put_strs(out, &m.authors);
    put_str(out, &m.date);
    put_str(out, &m.path);
    proof {
        assert(out@ =~= o0 + enc_meta(m@));
    }
}

fn put_opt_meta(out: &mut Vec<u64>, o: &Option<Metadata>)
    ensures
        final(out)@ == old(out)@ + enc_opt_meta(
            match *o {
                Some(m) => Some(m@),
                None => None,
            },
        ),
{
    match o {
        None => {
            out.push(0);
            proof {
                assert(final(out)@ =~= old(out)@ + seq![0u64]);
            }
        },
        Some(m) => {
            out.push(1);
            put_meta(out, m);
            proof {
                assert(final(out)@ =~= old(out)@ + (seq![1u64] + enc_meta(m@)));
            }
        },
    }
}

#[verifier::rlimit(100)]
#[verifier::spinoff_prover]
fn put_node(out: &mut Vec<u64>, n: &Node)
    ensures
        final(out)@ == old(out)@ + enc_node(node_v(*n)),
{
    let ghost o0 = out@;
    put_u128(out, n.id);
    put_str(out, &n.title);
    put_opt_meta(out, &n.metadata);
    put_i64(out, n.x);
    put_i64(out, n.y);
    put_bool(out, n.collapsed);
    put_opt_str(out, &n.path);
    put_anns(out, &n.annotations);
    put_tags(out, &n.tags);
    put_color(out, &n.color);
    proof {
        assert(out@ =~= o0 + enc_node(node_v(*n)));
    }
}

proof fn lemma_enc_node_items_snoc(s: Seq<NodeV>, i: int)
    requires
        0 <= i < s.len(),
    ensures
        enc_node_items(s.take(i + 1)) == enc_node_items(s.take(i)) + enc_node(s[i]),
    decreases i,
{
    if i == 0 {
        assert(s.take(1) =~= seq![s[0]]);
        assert(s.take(1).drop_first() =~= Seq::<NodeV>::empty());
        assert(s.take(0) =~= Seq::<NodeV>::empty());
        assert(enc_node_items(s.take(1)) =~= enc_node_items(s.take(0)) + enc_node(s[0]));
    } else {
        lemma_enc_node_items_snoc(s.drop_first(), i - 1);
        assert(s.take(i + 1).drop_first() =~= s.drop_first().take(i));
        assert(s.take(i).drop_first() =~= s.drop_first().take(i - 1));
        assert(s.take(i + 1)[0] == s[0] && s.take(i)[0] == s[0]);
        assert(s.drop_first()[i - 1] == s[i]);
        vstd::seq_lib::lemma_concat_associative(
            enc_node(s[0]),
            enc_node_items(s.drop_first().take(i - 1)),
            enc_node(s[i]),
        );
    }
}

fn put_edge(out: &mut Vec<u64>, e: &Edge)
    ensures
        final(out)@ == old(out)@ + enc_edge(edge_v(*e)),
{
    let ghost o0 = out@;
    put_u128(out, e.id);
    put_u128(out, e.from);
    put_u128(out, e.to);
    let tw: u64 = match e.edge_type {
        EdgeType::Normal => 0,
        EdgeType::References => 1,
    };
    put_u64(out, tw);
    put_color(out, &e.color);
    put_anns(out, &e.annotations);
    proof {
        assert(tw == edge_type_word(e.edge_type));
        assert(out@ =~= o0 + enc_edge(edge_v(*e)));
    }
}

proof fn lemma_enc_edge_items_snoc(s: Seq<EdgeV>, i: int)
    requires
        0 <= i < s.len(),
    ensures
        enc_edge_items(s.take(i + 1)) == enc_edge_items(s.take(i)) + enc_edge(s[i]),
    decreases i,
{
    if i == 0 {
        assert(s.take(1) =~= seq![s[0]]);
        assert(s.take(1).drop_first() =~= Seq::<EdgeV>::empty());
        assert(s.take(0) =~= Seq::<EdgeV>::empty());
        assert(enc_edge_items(s.take(1)) =~= enc_edge_items(s.take(0)) + enc_edge(s[0]));
    } else {
        lemma_enc_edge_items_snoc(s.drop_first(), i - 1);
        assert(s.take(i + 1).drop_first() =~= s.drop_first().take(i));
        assert(s.take(i).drop_first() =~= s.drop_first().take(i - 1));
        assert(s.take(i + 1)[0] == s[0] && s.take(i)[0] == s[0]);
        assert(s.drop_first()[i - 1] == s[i]);
        vstd::seq_lib::lemma_concat_associative(
            enc_edge(s[0]),
            enc_edge_items(s.drop_first().take(i - 1)),
            enc_edge(s[i]),
        );
    }
}

/// Serialize a graph into its word form.
pub fn encode_map(m: &MindMap) -> (out: Vec<u64>)
    ensures
        out@ == enc_map(map_v(*m)),
{
    let mut out: Vec<u64> = Vec::new();
    out.push(m.nodes.len() as u64);
    let ghost mid = out@;
    let ghost nodes_m = map_v(*m).nodes;
    let mut i: usize = 0;
    while i < m.nodes.len()
        invariant
            i <= m.nodes@.len(),
            nodes_m == map_v(*m).nodes,
            nodes_m.len() == m.nodes@.len(),
            forall|k: int| 0 <= k < m.nodes@.len() ==> #[trigger] nodes_m[k] == node_v(m.nodes@[k]),
            out@ == mid + enc_node_items(nodes_m.take(i as int)),
        decreases m.nodes@.len() - i,
    {
        put_node(&mut out, &m.nodes[i]);
        proof {
            lemma_enc_node_items_snoc(nodes_m, i as int);
        }
        i = i + 1;
    }
    proof {
        assert(nodes_m.take(nodes_m.len() as int) =~= nodes_m);
    }
    out.push(m.edges.len() as u64);
    let ghost mid2 = out@;
    let ghost edges_m = map_v(*m).edges;
    let mut j: usize = 0;
    while j < m.edges.len()
        invariant
            j <= m.edges@.len(),
            edges_m == map_v(*m).edges,
            edges_m.len() == m.edges@.len(),
            forall|k: int| 0 <= k < m.edges@.len() ==> #[trigger] edges_m[k] == edge_v(m.edges@[k]),
            out@ == mid2 + enc_edge_items(edges_m.take(j as int)),
        decreases m.edges@.len() - j,
    {
        put_edge(&mut out, &m.edges[j]);
        proof {
            lemma_enc_edge_items_snoc(edges_m, j as int);
        }
        j = j + 1;
    }
    proof {
        assert(edges_m.take(edges_m.len() as int) =~= edges_m);
        assert(out@ =~= enc_map(map_v(*m)));
    }
    out
}


// ---------------------------------------------------------------------
// The executable decoder.
// ---------------------------------------------------------------------

pub assume_specification [ char::from_u32 ](v: u32) -> (r: Option<char>)
    ensures
        (r is Some) == (v < 0xD800 || (0xE000 <= v && v <= 0x10FFFF)),
        r matches Some(c) ==> c as u32 == v,
;

/// Mapping one more taken word appends one more character.
proof fn lemma_take_map_snoc(body: Seq<u64>, k: int)
    requires
        0 <= k < body.len(),
    ensures
        body.take(k + 1).map_values(|w: u64| word_char(w)) == body.take(k).map_values(
            |w: u64| word_char(w),
        ).push(word_char(body[k])),
{
    assert(body.take(k + 1) =~= body.take(k).push(body[k]));
    assert(body.take(k + 1).map_values(|w: u64| word_char(w)) =~= body.take(k).map_values(
        |w: u64| word_char(w),
    ).push(word_char(body[k])));
}

fn rd_u64(v: &Vec<u64>, i: usize) -> (r: Option<(u64, usize)>)
    requires
        i <= v@.len(),
    ensures
        match r {
            Some((x, j)) => i <= j <= v@.len() && dec_u64(v@.skip(i as int)) == Some(
                (x, v@.skip(j as int)),
            ),
            None => dec_u64(v@.skip(i as int)) is None,
        },
{
    if i < v.len() {
        proof {
            assert(v@.skip(i as int)[0] == v@[i as int]);
            assert(v@.skip(i as int).drop_first() =~= v@.skip(i as int + 1));
        }
        Some((v[i], i + 1))
    } else {
        None
    }
}

fn rd_u128(v: &Vec<u64>, i: usize) -> (r: Option<(u128, usize)>)
    requires
        i <= v@.len(),
    ensures
        match r {
            Some((x, j)) => i <= j <= v@.len() && dec_u128(v@.skip(i as int)) == Some(
                (x, v@.skip(j as int)),
            ),
            None => dec_u128(v@.skip(i as int)) is None,
        },
{
    if v.len() - i >= 2 {
        let hi = v[i];
        let lo = v[i + 1];
        let x: u128 = (hi as u128) * 0x1_0000_0000_0000_0000 + (lo as u128);
        proof {
            let s = v@.skip(i as int);
            assert(s[0] == v@[i as int] && s[1] == v@[i as int + 1]);
            assert(s.drop_first().drop_first() =~= v@.skip(i as int + 2));
        }
        Some((x, i + 2))
    } else {
        None
    }
}

fn rd_i64(v: &Vec<u64>, i: usize) -> (r: Option<(i64, usize)>)
    requires
        i <= v@.len(),
    ensures
        match r {
            Some((x, j)) => i <= j <= v@.len() && dec_i64(v@.skip(i as int)) == Some(
                (x, v@.skip(j as int)),
            ),
            None => dec_i64(v@.skip(i as int)) is None,
        },
{
    if v.len() - i >= 2 {
        let sign = v[i];
        let mag = v[i + 1];
        proof {
            let s = v@.skip(i as int);
            assert(s[0] == v@[i as int] && s[1] == v@[i as int + 1]);
            assert(s.drop_first().drop_first() =~= v@.skip(i as int + 2));
        }
        if sign == 0 && mag <= 0x7fff_ffff_ffff_ffff {
            Some((mag as i64, i + 2))
        } else if sign == 1 && 1 <= mag && mag <= 0x8000_0000_0000_0000 {
            let x: i64 = (-(mag as i128)) as i64;
            proof {
                assert(x as int == -(mag as int));
            }
            Some((x, i + 2))
        } else {
            None
        }
    } else {
        None
    }
}

fn rd_bool(v: &Vec<u64>, i: usize) -> (r: Option<(bool, usize)>)
    requires
        i <= v@.len(),
    ensures
        match r {
            Some((x, j)) => i <= j <= v@.len() && dec_bool(v@.skip(i as int)) == Some(
                (x, v@.skip(j as int)),
            ),
            None => dec_bool(v@.skip(i as int)) is None,
        },
{
    if i < v.len() && (v[i] == 0 || v[i] == 1) {
        proof {
            assert(v@.skip(i as int)[0] == v@[i as int]);
            assert(v@.skip(i as int).drop_first() =~= v@.skip(i as int + 1));
        }
        Some((v[i] == 1, i + 1))
    } else {
        proof {
            if i < v@.len() {
                assert(v@.skip(i as int)[0] == v@[i as int]);
            }
        }
        None
    }
}

#[verifier::rlimit(100)]
#[verifier::spinoff_prover]
fn rd_str(v: &Vec<u64>, i: usize) -> (r: Option<(String, usize)>)
    requires
        i <= v@.len(),
    ensures
        match r {
            Some((x, j)) => i <= j <= v@.len() && dec_chars(v@.skip(i as int)) == Some(
                (x@, v@.skip(j as int)),
            ),
            None => dec_chars(v@.skip(i as int)) is None,
        },
{
    if i >= v.len() {
        return None;
    }
    let n64 = v[i];
    proof {
        assert(v@.skip(i as int)[0] == v@[i as int]);
        assert(v@.skip(i as int).drop_first() =~= v@.skip(i as int + 1));
    }
    if n64 > (v.len() - (i + 1)) as u64 {
        proof {
            let s = v@.skip(i as int);
            assert(s.drop_first().len() < s[0] as int);
        }
        return None;
    }
    let n = n64 as usize;
    let vl = v.len();
    let ghost body = v@.skip(i as int + 1);
    let mut cs: Vec<char> = Vec::new();
    let mut k: usize = 0;
    let mut idx: usize = i + 1;
    while k < n
        invariant
            k <= n,
            idx == i + 1 + k,
            vl == v@.len(),
            i < v@.len(),
            n64 == v@[i as int],
            n as int == n64 as int,
            i + 1 + n <= vl,
            body == v@.skip(i as int + 1),
            n as int <= body.len(),
            forall|q: int| 0 <= q < k ==> is_char_word(#[trigger] body[q]),
            cs@ == body.take(k as int).map_values(|w: u64| word_char(w)),
        decreases n - k,
    {
        let w = v[idx];
        proof {
            assert(body[k as int] == v@[i as int + 1 + k as int]);
        }
        if w >= 0x110000 || (0xD800 <= w && w < 0xE000) {
            proof {
                let s = v@.skip(i as int);
                assert(s.drop_first() == body);
                assert(!is_char_word(body[k as int]));
            }
            return None;
        }
        let c = match char::from_u32(w as u32) {
            Some(c) => c,
            None => {
                proof {
                    assert(is_char_word(body[k as int]));
                }
                vstd::pervasive::unreached()
            },
        };
        cs.push(c);
        proof {
            lemma_char_facts(c);
            assert((c as u32) as u64 == c as u64 && (c as u32) == c as u32);
            assert(w as u32 == w);
            assert(c as u64 == body[k as int]);
            assert(word_char(body[k as int]) == c);
            lemma_take_map_snoc(body, k as int);
            assert(cs@ =~= body.take(k as int + 1).map_values(|w: u64| word_char(w)));
        }
        k = k + 1;
        idx = idx + 1;
    }
    let s = chars_to_string(&cs);
    proof {
        let sp = v@.skip(i as int);
        assert(sp.drop_first() == body);
        assert(body.skip(n as int) =~= v@.skip(i as int + 1 + n as int));
    }
    Some((s, i + 1 + n))
}

fn rd_opt_str(v: &Vec<u64>, i: usize) -> (r: Option<(Option<String>, usize)>)
    requires
        i <= v@.len(),
    ensures
        match r {
            Some((x, j)) => i <= j <= v@.len() && dec_opt_chars(v@.skip(i as int)) == Some(
                (
                    match x {
                        Some(s) => Some(s@),
                        None => None,
                    },
                    v@.skip(j as int),
                ),
            ),
            None => dec_opt_chars(v@.skip(i as int)) is None,
        },
{
    if i >= v.len() {
        return None;
    }
    proof {
        assert(v@.skip(i as int)[0] == v@[i as int]);
        assert(v@.skip(i as int).drop_first() =~= v@.skip(i as int + 1));
    }
    if v[i] == 0 {
        Some((None, i + 1))
    } else if v[i] == 1 {
        match rd_str(v, i + 1) {
            Some((s, j)) => Some((Some(s), j)),
            None => None,
        }
    } else {
        None
    }
}

fn rd_color(v: &Vec<u64>, i: usize) -> (r: Option<(Option<Rgba>, usize)>)
    requires
        i <= v@.len(),
    ensures
        match r {
            Some((x, j)) => i <= j <= v@.len() && dec_color(v@.skip(i as int)) == Some(
                (x, v@.skip(j as int)),
            ),
            None => dec_color(v@.skip(i as int)) is None,
        },
{
    if i >= v.len() {
        return None;
    }
    proof {
        assert(v@.skip(i as int)[0] == v@[i as int]);
        assert(v@.skip(i as int).drop_first() =~= v@.skip(i as int + 1));
    }
    if v[i] == 0 {
        Some((None, i + 1))
    } else if v[i] == 1 && v.len() - i >= 5 && v[i + 1] <= 255 && v[i + 2] <= 255 && v[i + 3]
        <= 255 && v[i + 4] <= 255 {
        proof {
            let s = v@.skip(i as int);
            assert(s[1] == v@[i as int + 1] && s[2] == v@[i as int + 2] && s[3] == v@[i as int + 3]
                && s[4] == v@[i as int + 4]);
            assert(s.skip(5) =~= v@.skip(i as int + 5));
        }
        let c = Rgba {
            r: v[i + 1] as u8,
            g: v[i + 2] as u8,
            b: v[i + 3] as u8,
            a: v[i + 4] as u8,
        };
        Some((Some(c), i + 5))
    } else {
        proof {
            let s = v@.skip(i as int);
            if i as int + 1 < v@.len() {
                assert(s[1] == v@[i as int + 1]);
            }
            if i as int + 2 < v@.len() {
                assert(s[2] == v@[i as int + 2]);
            }
            if i as int + 3 < v@.len() {
                assert(s[3] == v@[i as int + 3]);
            }
            if i as int + 4 < v@.len() {
                assert(s[4] == v@[i as int + 4]);
            }
        }
        None
    }
}

fn rd_opt_u32(v: &Vec<u64>, i: usize) -> (r: Option<(Option<u32>, usize)>)
    requires
        i <= v@.len(),
    ensures
        match r {
            Some((x, j)) => i <= j <= v@.len() && dec_opt_u32(v@.skip(i as int)) == Some(
                (x, v@.skip(j as int)),
            ),
            None => dec_opt_u32(v@.skip(i as int)) is None,
        },
{
    if i >= v.len() {
        return None;
    }
    proof {
        assert(v@.skip(i as int)[0] == v@[i as int]);
        assert(v@.skip(i as int).drop_first() =~= v@.skip(i as int + 1));
    }
    if v[i] == 0 {
        Some((None, i + 1))
    } else if v[i] == 1 && v.len() - i >= 2 && v[i + 1] <= 0xffff_ffff {
        proof {
            let s = v@.skip(i as int);
            assert(s[1] == v@[i as int + 1]);
            assert(s.drop_first().drop_first() =~= v@.skip(i as int + 2));
        }
        Some((Some(v[i + 1] as u32), i + 2))
    } else {
        proof {
            let s = v@.skip(i as int);
            if i as int + 1 < v@.len() {
                assert(s[1] == v@[i as int + 1]);
            }
        }
        None
    }
}

fn rd_ann(v: &Vec<u64>, i: usize) -> (r: Option<(Annotation, usize)>)
    requires
        i <= v@.len(),
    ensures
        match r {
            Some((a, j)) => i <= j <= v@.len() && dec_ann(v@.skip(i as int)) == Some(
                (a@, v@.skip(j as int)),
            ),
            None => dec_ann(v@.skip(i as int)) is None,
        },
{
    let (id, i1) = match rd_u128(v, i) {
        Some(p) => p,
        None => {
            return None;
        },
    };
    let (tw, i2) = match rd_u64(v, i1) {
        Some(p) => p,
        None => {
            return None;
        },
    };
    let annotation_type = if tw == 0 {
        AnnotationType::TextNote
    } else if tw == 1 {
        AnnotationType::Question
    } else if tw == 2 {
        AnnotationType::Summary
    } else if tw == 3 {
        AnnotationType::Quote
    } else if tw == 4 {
        AnnotationType::Todo
    } else if tw == 5 {
        AnnotationType::Idea
    } else if tw == 6 {
        AnnotationType::Warning
    } else {
        return None;
    };
    let (title, i3) = match rd_str(v, i2) {
        Some(p) => p,
        None => {
            return None;
        },
    };
    let (content, i4) = match rd_str(v, i3) {
        Some(p) => p,
        None => {
            return None;
        },
    };
    let (created_at, i5) = match rd_str(v, i4) {
        Some(p) => p,
        None => {
            return None;
        },
    };
    let (page_number, i6) = match rd_opt_u32(v, i5) {
        Some(p) => p,
        None => {
            return None;
        },
    };
    let a = Annotation { id, annotation_type, title, content, created_at, page_number };
    Some((a, i6))
}

/// Prepending one decoded item commutes with accumulating it.
proof fn lemma_glue_anns_step(
    a_old: Seq<AnnotationView>,
    a: AnnotationView,
    r: Option<(Seq<AnnotationView>, Seq<u64>)>,
)
    ensures
        glue_anns(
            a_old,
            match r {
                None => None,
                Some((t, rest)) => Some((seq![a] + t, rest)),
            },
        ) == glue_anns(a_old.push(a), r),
{
    match r {
        None => {},
        Some((t, rest)) => {
            assert(a_old + (seq![a] + t) =~= a_old.push(a) + t);
        },
    }
}

/// Prepends decoded items to a reader outcome.
pub open spec fn glue_anns(
    acc: Seq<AnnotationView>,
    r: Option<(Seq<AnnotationView>, Seq<u64>)>,
) -> Option<(Seq<AnnotationView>, Seq<u64>)> {
    match r {
        None => None,
        Some((t, rest)) => Some((acc + t, rest)),
    }
}

#[verifier::rlimit(100)]
#[verifier::spinoff_prover]
fn rd_anns(v: &Vec<u64>, i: usize) -> (r: Option<(Vec<Annotation>, usize)>)
    requires
        i <= v@.len(),
    ensures
        match r {
            Some((a, j)) => i <= j <= v@.len() && dec_anns(v@.skip(i as int)) == Some(
                (anns_v(a@), v@.skip(j as int)),
            ),
            None => dec_anns(v@.skip(i as int)) is None,
        },
{
    let (n, i1) = match rd_u64(v, i) {
        Some(p) => p,
        None => {
            return None;
        },
    };
    let mut acc: Vec<Annotation> = Vec::new();
    let mut cur: usize = i1;
    let mut k: u64 = 0;
    while k < n
        invariant
            i1 <= cur <= v@.len(),
            i <= v@.len(),
            k <= n,
            dec_u64(v@.skip(i as int)) == Some((n, v@.skip(i1 as int))),
            dec_ann_items(v@.skip(i1 as int), n as nat) == glue_anns(
                anns_v(acc@),
                dec_ann_items(v@.skip(cur as int), (n - k) as nat),
            ),
        decreases n - k,
    {
        let (a, next) = match rd_ann(v, cur) {
            Some(p) => p,
            None => {
                proof {
                    assert((n - k) as nat > 0);
                    assert(dec_ann(v@.skip(cur as int)) is None);
                    assert(dec_ann_items(v@.skip(cur as int), (n - k) as nat) is None);
                    assert(glue_anns(
                        anns_v(acc@),
                        dec_ann_items(v@.skip(cur as int), (n - k) as nat),
                    ) is None);
                    assert(dec_anns(v@.skip(i as int)) is None);
                }
                return None;
            },
        };
        proof {
            let a_old = anns_v(acc@);
            assert(anns_v(acc@.push(a)) =~= a_old.push(a@));
            lemma_glue_anns_step(
                a_old,
                a@,
                dec_ann_items(v@.skip(next as int), (n - k - 1) as nat),
            );
        }
        acc.push(a);
        cur = next;
        k = k + 1;
    }
    proof {
        assert(anns_v(acc@) + Seq::<AnnotationView>::empty() =~= anns_v(acc@));
    }
    Some((acc, cur))
}


pub open spec fn nodes_v(s: Seq<Node>) -> Seq<NodeV> {
    s.map_values(|n: Node| node_v(n))
}

pub open spec fn edges_v(s: Seq<Edge>) -> Seq<EdgeV> {
    s.map_values(|e: Edge| edge_v(e))
}

fn rd_tag(v: &Vec<u64>, i: usize) -> (r: Option<(Tag, usize)>)
    requires
        i <= v@.len(),
    ensures
        match r {
            Some((t, j)) => i <= j <= v@.len() && dec_tag(v@.skip(i as int)) == Some(
                (tag_v(t), v@.skip(j as int)),
            ),
            None => dec_tag(v@.skip(i as int)) is None,
        },
{
    let (id, i1) = match rd_u128(v, i) {
        Some(p) => p,
        None => {
            return None;
        },
    };
    let (name, i2) = match rd_str(v, i1) {
        Some(p) => p,
        None => {
            return None;
        },
    };
    let (color, i3) = match rd_color(v, i2) {
        Some(p) => p,
        None => {
            return None;
        },
    };
    match color {
        Some(c) => Some((Tag { id, name, color: c }, i3)),
        None => None,
    }
}

proof fn lemma_glue_tags_step(
    a_old: Seq<TagV>,
    a: TagV,
    r: Option<(Seq<TagV>, Seq<u64>)>,
)
    ensures
        glue_tags(
            a_old,
            match r {
                None => None,
                Some((t, rest)) => Some((seq![a] + t, rest)),
            },
        ) == glue_tags(a_old.push(a), r),
{
    match r {
        None => {},
        Some((t, rest)) => {
            assert(a_old + (seq![a] + t) =~= a_old.push(a) + t);
        },
    }
}

pub open spec fn glue_tags(acc: Seq<TagV>, r: Option<(Seq<TagV>, Seq<u64>)>) -> Option<
    (Seq<TagV>, Seq<u64>),
> {
    match r {
        None => None,
        Some((t, rest)) => Some((acc + t, rest)),
    }
}

#[verifier::rlimit(100)]
#[verifier::spinoff_prover]
fn rd_tags(v: &Vec<u64>, i: usize) -> (r: Option<(Vec<Tag>, usize)>)
    requires
        i <= v@.len(),
    ensures
        match r {
            Some((a, j)) => i <= j <= v@.len() && dec_tags(v@.skip(i as int)) == Some(
                (tags_v(a@), v@.skip(j as int)),
            ),
            None => dec_tags(v@.skip(i as int)) is None,
        },
{
    let (n, i1) = match rd_u64(v, i) {
        Some(p) => p,
        None => {
            return None;
        },
    };
    let mut acc: Vec<Tag> = Vec::new();
    let mut cur: usize = i1;
    let mut k: u64 = 0;
    while k < n
        invariant
            i1 <= cur <= v@.len(),
            i <= v@.len(),
            k <= n,
            dec_u64(v@.skip(i as int)) == Some((n, v@.skip(i1 as int))),
            dec_tag_items(v@.skip(i1 as int), n as nat) == glue_tags(
                tags_v(acc@),
                dec_tag_items(v@.skip(cur as int), (n - k) as nat),
            ),
        decreases n - k,
    {
        let (t, next) = match rd_tag(v, cur) {
            Some(p) => p,
            None => {
                proof {
                    assert(dec_tag(v@.skip(cur as int)) is None);
                    assert(dec_tag_items(v@.skip(cur as int), (n - k) as nat) is None);
                    assert(dec_tags(v@.skip(i as int)) is None);
                }
                return None;
            },
        };
        proof {
            let a_old = tags_v(acc@);
            assert(tags_v(acc@.push(t)) =~= a_old.push(tag_v(t)));
            lemma_glue_tags_step(
                a_old,
                tag_v(t),
                dec_tag_items(v@.skip(next as int), (n - k - 1) as nat),
            );
        }
        acc.push(t);
        cur = next;
        k = k + 1;
    }
    proof {
        assert(tags_v(acc@) + Seq::<TagV>::empty() =~= tags_v(acc@));
    }
    Some((acc, cur))
}

pub open spec fn glue_strs(acc: Seq<Seq<char>>, r: Option<(Seq<Seq<char>>, Seq<u64>)>) -> Option<
    (Seq<Seq<char>>, Seq<u64>),
> {
    match r {
        None => None,
        Some((t, rest)) => Some((acc + t, rest)),
    }
}

proof fn lemma_glue_strs_step(
    a_old: Seq<Seq<char>>,
    a: Seq<char>,
    r: Option<(Seq<Seq<char>>, Seq<u64>)>,
)
    ensures
        glue_strs(
            a_old,
            match r {
                None => None,
                Some((t, rest)) => Some((seq![a] + t, rest)),
            },
        ) == glue_strs(a_old.push(a), r),
{
    match r {
        None => {},
        Some((t, rest)) => {
            assert(a_old + (seq![a] + t) =~= a_old.push(a) + t);
        },
    }
}

#[verifier::rlimit(100)]
#[verifier::spinoff_prover]
fn rd_strs(v: &Vec<u64>, i: usize) -> (r: Option<(Vec<String>, usize)>)
    requires
        i <= v@.len(),
    ensures
        match r {
            Some((a, j)) => i <= j <= v@.len() && dec_strs(v@.skip(i as int)) == Some(
                (strings_view(a@), v@.skip(j as int)),
            ),
            None => dec_strs(v@.skip(i as int)) is None,
        },
{
    let (n, i1) = match rd_u64(v, i) {
        Some(p) => p,
        None => {
            return None;
        },
    };
    let mut acc: Vec<String> = Vec::new();
    let mut cur: usize = i1;
    let mut k: u64 = 0;
    while k < n
        invariant
            i1 <= cur <= v@.len(),
            i <= v@.len(),
            k <= n,
            dec_u64(v@.skip(i as int)) == Some((n, v@.skip(i1 as int))),
            dec_str_items(v@.skip(i1 as int), n as nat) == glue_strs(
                strings_view(acc@),
                dec_str_items(v@.skip(cur as int), (n - k) as nat),
            ),
        decreases n - k,
    {
        let (s, next) = match rd_str(v, cur) {
            Some(p) => p,
            None => {
                proof {
                    assert(dec_chars(v@.skip(cur as int)) is None);
                    assert(dec_str_items(v@.skip(cur as int), (n - k) as nat) is None);
                    assert(dec_strs(v@.skip(i as int)) is None);
                }
                return None;
            },
        };
        proof {
            let a_old = strings_view(acc@);
            assert(strings_view(acc@.push(s)) =~= a_old.push(s@));
            lemma_glue_strs_step(
                a_old,
                s@,
                dec_str_items(v@.skip(next as int), (n - k - 1) as nat),
            );
        }
        acc.push(s);
        cur = next;
        k = k + 1;
    }
    proof {
        assert(strings_view(acc@) + Seq::<Seq<char>>::empty() =~= strings_view(acc@));
    }
    Some((acc, cur))
}

#[verifier::rlimit(100)]
#[verifier::spinoff_prover]
fn rd_meta(v: &Vec<u64>, i: usize) -> (r: Option<(Metadata, usize)>)
    requires
        i <= v@.len(),
    ensures
        match r {
            Some((m, j)) => i <= j <= v@.len() && dec_meta(v@.skip(i as int)) == Some(
                (m@, v@.skip(j as int)),
            ),
            None => dec_meta(v@.skip(i as int)) is None,
        },
{
    let (title, i1) = match rd_str(v, i) {
        Some(p) => p,
        None => {
            return None;
        },
    };
    let (keywords, i2) = match rd_strs(v, i1) {
        Some(p) => p,
        None => {
            return None;
        },
    };
    let (authors, i3) = match rd_strs(v, i2) {
        Some(p) => p,
        None => {
            return None;
        },
    };
    let (date, i4) = match rd_str(v, i3) {
        Some(p) => p,
        None => {
            return None;
        },
    };
    let (path, i5) = match rd_str(v, i4) {
        Some(p) => p,
        None => {
            return None;
        },
    };
    let m = Metadata { title, keywords, authors, date, path };
    Some((m, i5))
}

fn rd_opt_meta(v: &Vec<u64>, i: usize) -> (r: Option<(Option<Metadata>, usize)>)
    requires
        i <= v@.len(),
    ensures
        match r {
            Some((m, j)) => i <= j <= v@.len() && dec_opt_meta(v@.skip(i as int)) == Some(
                (
                    match m {
                        Some(mm) => Some(mm@),
                        None => None,
                    },
                    v@.skip(j as int),
                ),
            ),
            None => dec_opt_meta(v@.skip(i as int)) is None,
        },
{
    if i >= v.len() {
        return None;
    }
    proof {
        assert(v@.skip(i as int)[0] == v@[i as int]);
        assert(v@.skip(i as int).drop_first() =~= v@.skip(i as int + 1));
    }
    if v[i] == 0 {
        Some((None, i + 1))
    } else if v[i] == 1 {
        match rd_meta(v, i + 1) {
            Some((m, j)) => Some((Some(m), j)),
            None => None,
        }
    } else {
        None
    }
}

#[verifier::rlimit(100)]
#[verifier::spinoff_prover]
fn rd_node(v: &Vec<u64>, i: usize) -> (r: Option<(Node, usize)>)
    requires
        i <= v@.len(),
    ensures
        match r {
            Some((n, j)) => i <= j <= v@.len() && dec_node(v@.skip(i as int)) == Some(
                (node_v(n), v@.skip(j as int)),
            ),
            None => dec_node(v@.skip(i as int)) is None,
        },
{
    let (id, i1) = match rd_u128(v, i) {
        Some(p) => p,
        None => {
            return None;
        },
    };
    let (title, i2) = match rd_str(v, i1) {
        Some(p) => p,
        None => {
            return None;
        },
    };
    let (metadata, i3) = match rd_opt_meta(v, i2) {
        Some(p) => p,
        None => {
            return None;
        },
    };
    let (x, i4) = match rd_i64(v, i3) {
        Some(p) => p,
        None => {
            return None;
        },
    };
    let (y, i5) = match rd_i64(v, i4) {
        Some(p) => p,
        None => {
            return None;
        },
    };
    let (collapsed, i6) = match rd_bool(v, i5) {
        Some(p) => p,
        None => {
            return None;
        },
    };
    let (path, i7) = match rd_opt_str(v, i6) {
        Some(p) => p,
        None => {
            return None;
        },
    };
    let (annotations, i8) = match rd_anns(v, i7) {
        Some(p) => p,
        None => {
            return None;
        },
    };
    let (tags, i9) = match rd_tags(v, i8) {
        Some(p) => p,
        None => {
            return None;
        },
    };
    let (color, i10) = match rd_color(v, i9) {
        Some(p) => p,
        None => {
            return None;
        },
    };
    let n = Node { id, title, metadata, x, y, collapsed, path, annotations, tags, color };
    Some((n, i10))
}

fn rd_edge(v: &Vec<u64>, i: usize) -> (r: Option<(Edge, usize)>)
    requires
        i <= v@.len(),
    ensures
        match r {
            Some((e, j)) => i <= j <= v@.len() && dec_edge(v@.skip(i as int)) == Some(
                (edge_v(e), v@.skip(j as int)),
            ),
            None => dec_edge(v@.skip(i as int)) is None,
        },
{
    let (id, i1) = match rd_u128(v, i) {
        Some(p) => p,
        None => {
            return None;
        },
    };
    let (from, i2) = match rd_u128(v, i1) {
        Some(p) => p,
        None => {
            return None;
        },
    };
    let (to, i3) = match rd_u128(v, i2) {
        Some(p) => p,
        None => {
            return None;
        },
    };
    let (tw, i4) = match rd_u64(v, i3) {
        Some(p) => p,
        None => {
            return None;
        },
    };
    let edge_type = if tw == 0 {
        EdgeType::Normal
    } else if tw == 1 {
        EdgeType::References
    } else {
        return None;
    };
    let (color, i5) = match rd_color(v, i4) {
        Some(p) => p,
        None => {
            return None;
        },
    };
    let (annotations, i6) = match rd_anns(v, i5) {
        Some(p) => p,
        None => {
            return None;
        },
    };
    let e = Edge { id, from, to, edge_type, color, annotations };
    Some((e, i6))
}

pub open spec fn glue_nodes(acc: Seq<NodeV>, r: Option<(Seq<NodeV>, Seq<u64>)>) -> Option<
    (Seq<NodeV>, Seq<u64>),
> {
    match r {
        None => None,
        Some((t, rest)) => Some((acc + t, rest)),
    }
}

proof fn lemma_glue_nodes_step(a_old: Seq<NodeV>, a: NodeV, r: Option<(Seq<NodeV>, Seq<u64>)>)
    ensures
        glue_nodes(
            a_old,
            match r {
                None => None,
                Some((t, rest)) => Some((seq![a] + t, rest)),
            },
        ) == glue_nodes(a_old.push(a), r),
{
    match r {
        None => {},
        Some((t, rest)) => {
            assert(a_old + (seq![a] + t) =~= a_old.push(a) + t);
        },
    }
}

pub open spec fn glue_edges(acc: Seq<EdgeV>, r: Option<(Seq<EdgeV>, Seq<u64>)>) -> Option<
    (Seq<EdgeV>, Seq<u64>),
> {
    match r {
        None => None,
        Some((t, rest)) => Some((acc + t, rest)),
    }
}

proof fn lemma_glue_edges_step(a_old: Seq<EdgeV>, a: EdgeV, r: Option<(Seq<EdgeV>, Seq<u64>)>)
    ensures
        glue_edges(
            a_old,
            match r {
                None => None,
                Some((t, rest)) => Some((seq![a] + t, rest)),
            },
        ) == glue_edges(a_old.push(a), r),
{
    match r {
        None => {},
        Some((t, rest)) => {
            assert(a_old + (seq![a] + t) =~= a_old.push(a) + t);
        },
    }
}

/// Deserialize a graph from its word form, requiring the whole input to
/// be consumed. `Some` exactly when the words decode as a graph document
/// with nothing left over, and the decoded value is exactly the decoding.
#[verifier::rlimit(100)]
#[verifier::spinoff_prover]
pub fn decode_map(v: &Vec<u64>) -> (r: Option<MindMap>)
    ensures
        match r {
            Some(m2) => ({
                &&& dec_map(v@) matches Some(p)
                &&& p.1.len() == 0
                &&& map_v(m2) == p.0
            }),
            None => !(dec_map(v@) matches Some(p) && p.1.len() == 0),
        },
{
    proof {
        assert(v@.skip(0) =~= v@);
    }
    let (nn, i1) = match rd_u64(v, 0) {
        Some(p) => p,
        None => {
            return None;
        },
    };
    let mut nodes: Vec<Node> = Vec::new();
    let mut cur: usize = i1;
    let mut k: u64 = 0;
    while k < nn
        invariant
            i1 <= cur <= v@.len(),
            k <= nn,
            dec_u64(v@.skip(0)) == Some((nn, v@.skip(i1 as int))),
            v@.skip(0) == v@,
            dec_node_items(v@.skip(i1 as int), nn as nat) == glue_nodes(
                nodes_v(nodes@),
                dec_node_items(v@.skip(cur as int), (nn - k) as nat),
            ),
        decreases nn - k,
    {
        let (n, next) = match rd_node(v, cur) {
            Some(p) => p,
            None => {
                proof {
                    assert(dec_node(v@.skip(cur as int)) is None);
                    assert(dec_node_items(v@.skip(cur as int), (nn - k) as nat) is None);
                    assert(dec_node_items(v@.skip(i1 as int), nn as nat) is None);
                    assert(dec_map(v@) is None);
                }
                return None;
            },
        };
        proof {
            let a_old = nodes_v(nodes@);
            assert(nodes_v(nodes@.push(n)) =~= a_old.push(node_v(n)));
            lemma_glue_nodes_step(
                a_old,
                node_v(n),
                dec_node_items(v@.skip(next as int), (nn - k - 1) as nat),
            );
        }
        nodes.push(n);
        cur = next;
        k = k + 1;
    }
    proof {
        assert(nodes_v(nodes@) + Seq::<NodeV>::empty() =~= nodes_v(nodes@));
        assert(dec_node_items(v@.skip(i1 as int), nn as nat) == Some(
            (nodes_v(nodes@), v@.skip(cur as int)),
        ));
    }
    let ghost nodes_done = v@.skip(cur as int);
    let (ne, j1) = match rd_u64(v, cur) {
        Some(p) => p,
        None => {
            return None;
        },
    };
    let mut edges: Vec<Edge> = Vec::new();
    let mut cur2: usize = j1;
    let mut k2: u64 = 0;
    while k2 < ne
        invariant
            j1 <= cur2 <= v@.len(),
            k2 <= ne,
            v@.skip(0) == v@,
            dec_u64(v@.skip(0)) == Some((nn, v@.skip(i1 as int))),
            dec_node_items(v@.skip(i1 as int), nn as nat) == Some(
                (nodes_v(nodes@), nodes_done),
            ),
            nodes_done == v@.skip(cur as int),
            cur <= v@.len(),
            dec_u64(v@.skip(cur as int)) == Some((ne, v@.skip(j1 as int))),
            dec_edge_items(v@.skip(j1 as int), ne as nat) == glue_edges(
                edges_v(edges@),
                dec_edge_items(v@.skip(cur2 as int), (ne - k2) as nat),
            ),
        decreases ne - k2,
    {
        let (e, next) = match rd_edge(v, cur2) {
            Some(p) => p,
            None => {
                proof {
                    assert(dec_edge(v@.skip(cur2 as int)) is None);
                    assert(dec_edge_items(v@.skip(cur2 as int), (ne - k2) as nat) is None);
                    assert(dec_edge_items(v@.skip(j1 as int), ne as nat) is None);
                    assert(dec_map(v@) is None);
                }
                return None;
            },
        };
        proof {
            let a_old = edges_v(edges@);
            assert(edges_v(edges@.push(e)) =~= a_old.push(edge_v(e)));
            lemma_glue_edges_step(
                a_old,
                edge_v(e),
                dec_edge_items(v@.skip(next as int), (ne - k2 - 1) as nat),
            );
        }
        edges.push(e);
        cur2 = next;
        k2 = k2 + 1;
    }
    proof {
        assert(edges_v(edges@) + Seq::<EdgeV>::empty() =~= edges_v(edges@));
        assert(dec_edge_items(v@.skip(j1 as int), ne as nat) == Some(
            (edges_v(edges@), v@.skip(cur2 as int)),
        ));
    }
    if cur2 != v.len() {
        proof {
            assert(v@.skip(cur2 as int).len() != 0);
        }
        return None;
    }
    let m = MindMap { nodes, edges };
    proof {
        assert(v@.skip(cur2 as int).len() == 0);
        assert(map_v(m) == (MindMapV { nodes: nodes_v(nodes@), edges: edges_v(edges@) }));
    }
    Some(m)
}

} // verus!
