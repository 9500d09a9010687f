//! The colours of the user interface.
use vstd::prelude::*;

use crate::style::{rgb, rgb_of, Color};

verus! {

/// The colours of the user interface.
#[derive(Debug, Clone, Copy)]
pub struct Palette {
    pub surface_alt: Color,
    pub current_line_bg: Color,
    pub header_bg: Color,
    pub header_fg: Color,
    pub header_match_bg: Color,
    pub header_match_fg: Color,
    pub header_dim_bg: Color,
    pub header_dim_fg: Color,
    pub header_focus_bg: Color,
    pub expanded_bg: Color,
    pub expanded_fg: Color,
    pub hunk_bg: Color,
    pub hunk_fg: Color,
    pub hunk_ctx_bg: Color,
    pub hunk_ctx_fg: Color,
    pub hunk_border: Color,
    pub selection_bg: Color,
    pub added_bg: Color,
    pub added_fg: Color,
    pub deleted_bg: Color,
    pub deleted_fg: Color,
    pub intraline_added_bg: Color,
    pub intraline_deleted_bg: Color,
    pub context_fg: Color,
    pub line_num: Color,
    pub annotation_bg: Color,
    pub annotation_fg: Color,
    pub todo_bg: Color,
    pub todo_fg: Color,
    pub resolved_bg: Color,
    pub resolved_fg: Color,
    pub annotation_marker: Color,
    pub status_bg: Color,
    pub status_fg: Color,
    pub search_bg: Color,
    pub search_fg: Color,
    pub help_bg: Color,
    pub help_fg: Color,
    pub border: Color,
}

/// The colours that are used.
pub open spec fn default_colors() -> Palette {
    Palette {
        surface_alt: rgb_of(34, 38, 46),
        current_line_bg: rgb_of(64, 72, 86),
        header_bg: rgb_of(38, 44, 60),
        header_fg: rgb_of(235, 238, 242),
        header_match_bg: rgb_of(220, 190, 90),
        header_match_fg: rgb_of(18, 18, 18),
        header_dim_bg: rgb_of(120, 120, 70),
        header_dim_fg: rgb_of(20, 20, 20),
        header_focus_bg: rgb_of(58, 66, 84),
        expanded_bg: rgb_of(96, 72, 40),
        expanded_fg: rgb_of(255, 245, 230),
        hunk_bg: rgb_of(54, 62, 92),
        hunk_fg: rgb_of(220, 228, 245),
        hunk_ctx_bg: rgb_of(36, 44, 70),
        hunk_ctx_fg: rgb_of(185, 205, 235),
        hunk_border: rgb_of(80, 88, 72),
        selection_bg: rgb_of(56, 66, 88),
        added_bg: rgb_of(20, 40, 28),
        added_fg: rgb_of(168, 234, 196),
        deleted_bg: rgb_of(48, 26, 26),
        deleted_fg: rgb_of(238, 170, 170),
        intraline_added_bg: rgb_of(28, 66, 38),
        intraline_deleted_bg: rgb_of(84, 34, 34),
        context_fg: rgb_of(220, 224, 230),
        line_num: rgb_of(120, 130, 140),
        annotation_bg: rgb_of(40, 76, 78),
        annotation_fg: rgb_of(230, 245, 245),
        todo_bg: rgb_of(115, 86, 26),
        todo_fg: rgb_of(255, 245, 210),
        resolved_bg: rgb_of(34, 40, 42),
        resolved_fg: rgb_of(160, 170, 180),
        annotation_marker: rgb_of(255, 208, 96),
        status_bg: rgb_of(22, 24, 28),
        status_fg: rgb_of(150, 160, 170),
        search_bg: rgb_of(40, 44, 56),
        search_fg: rgb_of(255, 225, 140),
        help_bg: rgb_of(30, 34, 42),
        help_fg: rgb_of(220, 230, 240),
        border: rgb_of(210, 175, 90),
    }
}

impl Default for Palette {
    fn default() -> (r: Self)
        ensures
            r == default_colors(),
    {
        Palette {
            surface_alt: rgb(34, 38, 46),
            current_line_bg: rgb(64, 72, 86),
            header_bg: rgb(38, 44, 60),
            header_fg: rgb(235, 238, 242),
            header_match_bg: rgb(220, 190, 90),
            header_match_fg: rgb(18, 18, 18),
            header_dim_bg: rgb(120, 120, 70),
            header_dim_fg: rgb(20, 20, 20),
            header_focus_bg: rgb(58, 66, 84),
            expanded_bg: rgb(96, 72, 40),
            expanded_fg: rgb(255, 245, 230),
            hunk_bg: rgb(54, 62, 92),
            hunk_fg: rgb(220, 228, 245),
            hunk_ctx_bg: rgb(36, 44, 70),
            hunk_ctx_fg: rgb(185, 205, 235),
            hunk_border: rgb(80, 88, 72),
            selection_bg: rgb(56, 66, 88),
            added_bg: rgb(20, 40, 28),
            added_fg: rgb(168, 234, 196),
            deleted_bg: rgb(48, 26, 26),
            deleted_fg: rgb(238, 170, 170),
            intraline_added_bg: rgb(28, 66, 38),
            intraline_deleted_bg: rgb(84, 34, 34),
            context_fg: rgb(220, 224, 230),
            line_num: rgb(120, 130, 140),
            annotation_bg: rgb(40, 76, 78),
            annotation_fg: rgb(230, 245, 245),
            todo_bg: rgb(115, 86, 26),
            todo_fg: rgb(255, 245, 210),
            resolved_bg: rgb(34, 40, 42),
            resolved_fg: rgb(160, 170, 180),
            annotation_marker: rgb(255, 208, 96),
            status_bg: rgb(22, 24, 28),
            status_fg: rgb(150, 160, 170),
            search_bg: rgb(40, 44, 56),
            search_fg: rgb(255, 225, 140),
            help_bg: rgb(30, 34, 42),
            help_fg: rgb(220, 230, 240),
            border: rgb(210, 175, 90),
        }
    }
}

} // verus!
