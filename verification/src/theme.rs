//! The editor's color theme, in its plain serializable form: every entry
//! is a 4-byte RGBA color. Reading and writing the theme document is the
//! surrounding application's concern.

use vstd::prelude::*;

use crate::annotation::Rgba;

verus! {

/// The theme as plain color values.
#[derive(Clone, Copy, Debug, PartialEq, Eq, Structural)]
pub struct SerializeableTheme {
    pub main_background: Rgba,
    pub main_foreground: Rgba,
    pub top_bar_background: Rgba,
    pub top_bar_text: Rgba,
    pub default_node_color: Rgba,
    pub node_text_color: Rgba,
    pub default_edge_color: Rgba,
    pub right_click_menu_background: Rgba,
    pub right_click_menu_item: Rgba,
    pub right_click_menu_item_text: Rgba,
    pub annotation_title: Rgba,
    pub annotation_body: Rgba,
    pub annotation_date: Rgba,
    pub popup_form_background: Rgba,
}

/// A gray color.
pub open spec fn spec_gray(v: u8) -> Rgba {
    Rgba { r: v, g: v, b: v, a: 255 }
}

fn gray(v: u8) -> (r: Rgba)
    ensures
        r == spec_gray(v),
{
    Rgba { r: v, g: v, b: v, a: 255 }
}

impl Default for SerializeableTheme {
    /// The built-in dark theme.
    fn default() -> (r: SerializeableTheme)
        ensures
            r.main_background == spec_gray(27),
            r.main_foreground == spec_gray(140),
            r.top_bar_background == spec_gray(27),
            r.top_bar_text == spec_gray(140),
            r.default_node_color == (Rgba { r: 140, g: 160, b: 255, a: 255 }),
            r.node_text_color == spec_gray(0),
            r.default_edge_color == spec_gray(160),
            r.right_click_menu_background == spec_gray(27),
            r.right_click_menu_item == spec_gray(60),
            r.right_click_menu_item_text == spec_gray(140),
            r.annotation_title == spec_gray(255),
            r.annotation_body == spec_gray(220),
            r.annotation_date == spec_gray(96),
            r.popup_form_background == spec_gray(10),
    {
        SerializeableTheme {
            main_background: gray(27),
            main_foreground: gray(140),
            top_bar_background: gray(27),
            top_bar_text: gray(140),
            default_node_color: Rgba { r: 140, g: 160, b: 255, a: 255 },
            node_text_color: gray(0),
            default_edge_color: gray(160),
            right_click_menu_background: gray(27),
            right_click_menu_item: gray(60),
            right_click_menu_item_text: gray(140),
            annotation_title: gray(255),
            annotation_body: gray(220),
            annotation_date: gray(96),
            popup_form_background: gray(10),
        }
    }
}

} // verus!
