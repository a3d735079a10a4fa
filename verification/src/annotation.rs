//! Annotations: typed notes that can be attached to nodes and edges.

use vstd::prelude::*;

verus! {

/// A 4-byte RGBA color, the plain value behind every override color in the
/// editor.
#[derive(Clone, Copy, Debug, PartialEq, Eq, Structural)]
pub struct Rgba {
    pub r: u8,
    pub g: u8,
    pub b: u8,
    pub a: u8,
}

/// The kind of an annotation; each kind has a fixed display name and color.
#[derive(Clone, Copy, Debug, PartialEq, Eq, Structural)]
pub enum AnnotationType {
    TextNote,
    Question,
    Summary,
    Quote,
    Todo,
    Idea,
    Warning,
}

impl AnnotationType {
    /// The fixed display name of this kind.
    pub fn name(&self) -> (r: &'static str)
        ensures
            self is TextNote ==> r@ == "Text Note"@,
            self is Question ==> r@ == "Question"@,
            self is Summary ==> r@ == "Summary"@,
            self is Quote ==> r@ == "Quote"@,
            self is Todo ==> r@ == "Todo"@,
            self is Idea ==> r@ == "Idea"@,
            self is Warning ==> r@ == "Warning"@,
    {
        match self {
            AnnotationType::TextNote => "Text Note",
            AnnotationType::Question => "Question",
            AnnotationType::Summary => "Summary",
            AnnotationType::Quote => "Quote",
            AnnotationType::Todo => "Todo",
            AnnotationType::Idea => "Idea",
            AnnotationType::Warning => "Warning",
        }
    }

    /// The fixed display color of this kind.
    pub fn color(&self) -> (r: Rgba)
        ensures
            r == self.display_color(),
    {
        match self {
            AnnotationType::TextNote => (Rgba { r: 220, g: 220, b: 220, a: 255 }),
            AnnotationType::Question => (Rgba { r: 140, g: 160, b: 255, a: 255 }),
            AnnotationType::Summary => (Rgba { r: 144, g: 238, b: 144, a: 255 }),
            AnnotationType::Quote => (Rgba { r: 255, g: 255, b: 0, a: 255 }),
            AnnotationType::Todo => (Rgba { r: 255, g: 128, b: 128, a: 255 }),
            AnnotationType::Idea => (Rgba { r: 255, g: 200, b: 100, a: 255 }),
            AnnotationType::Warning => (Rgba { r: 255, g: 100, b: 100, a: 255 }),
        }
    }

    /// The fixed per-kind color table.
    pub open spec fn display_color(self) -> Rgba {
        match self {
            AnnotationType::TextNote => Rgba { r: 220, g: 220, b: 220, a: 255 },
            AnnotationType::Question => Rgba { r: 140, g: 160, b: 255, a: 255 },
            AnnotationType::Summary => Rgba { r: 144, g: 238, b: 144, a: 255 },
            AnnotationType::Quote => Rgba { r: 255, g: 255, b: 0, a: 255 },
            AnnotationType::Todo => Rgba { r: 255, g: 128, b: 128, a: 255 },
            AnnotationType::Idea => Rgba { r: 255, g: 200, b: 100, a: 255 },
            AnnotationType::Warning => Rgba { r: 255, g: 100, b: 100, a: 255 },
        }
    }
}

/// A note attached to a node or an edge.
#[derive(Clone, Debug)]
pub struct Annotation {
    pub id: u128,
    pub annotation_type: AnnotationType,
    pub title: String,
    pub content: String,
    pub created_at: String,
    pub page_number: Option<u32>,
}

/// The mathematical value of an [`Annotation`].
pub ghost struct AnnotationView {
    pub id: u128,
    pub annotation_type: AnnotationType,
    pub title: Seq<char>,
    pub content: Seq<char>,
    pub created_at: Seq<char>,
    pub page_number: Option<u32>,
}

impl View for Annotation {
    type V = AnnotationView;

    open spec fn view(&self) -> AnnotationView {
        AnnotationView {
            id: self.id,
            annotation_type: self.annotation_type,
            title: self.title@,
            content: self.content@,
            created_at: self.created_at@,
            page_number: self.page_number,
        }
    }
}

} // verus!
