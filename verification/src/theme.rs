//! Named color palettes.

use crate::style::Color;
use vstd::prelude::*;

verus! {

/// Named UI palette. `default` is Catppuccin Mocha (proper RGB colors with a
/// selection wash); `legacy` keeps a 16-color ANSI look. Comments are dim
/// italic gray, strings green, keywords magenta italic, functions blue, types
/// cyan, numbers orange.
#[derive(Clone, Copy, Debug, PartialEq, Eq, Hash, Structural)]
pub struct Theme {
    pub border_focused: Color,
    pub border_unfocused: Color,
    pub hint: Color,
    pub error: Color,
    pub staged: Color,
    pub unstaged: Color,
    pub untracked: Color,
    pub conflicted: Color,
    pub both_staged: Color,
    pub hunk_header: Color,
    pub commit_id: Color,
    pub branch_current: Color,
    pub context: Color,
    /// Side-by-side tints: deleted lines get a red wash with a stronger
    /// background on exactly the changed words; added lines get a single
    /// very light green wash so syntax colors stay easily readable
    /// (green is never painted twice on the same cell).
    pub diff_del_bg: Color,
    pub diff_add_bg: Color,
    pub diff_del_word_bg: Color,
    /// Opaque editor background (LazyVim Normal bg). Every panel paints it
    /// so the terminal wallpaper never bleeds through the code view.
    pub bg: Color,
    /// Main editor foreground (LazyVim fg #c0caf5).
    pub fg: Color,
    /// Dim line numbers / gutter.
    pub line_nr: Color,
    /// Telescope-style selection wash.
    pub selection_bg: Color,
    /// Syntax groups.
    pub syntax_comment: Color,
    pub syntax_string: Color,
    pub syntax_keyword: Color,
    pub syntax_function: Color,
    pub syntax_type: Color,
    pub syntax_number: Color,
}

impl Theme {
    /// The out-of-the-box look.
    #[verifier::allow_in_spec]
    pub fn default_theme() -> Theme
        returns
            Theme::catppuccin(),
    {
        Theme::catppuccin()
    }

    /// 16-color ANSI palette for terminals without truecolor.
    #[verifier::allow_in_spec]
    pub fn legacy() -> Theme
        returns
            (Theme {
                border_focused: Color::White,
                border_unfocused: Color::DarkGray,
                hint: Color::DarkGray,
                error: Color::Red,
                staged: Color::Green,
                unstaged: Color::Yellow,
                untracked: Color::DarkGray,
                conflicted: Color::Red,
                both_staged: Color::Magenta,
                hunk_header: Color::Cyan,
                commit_id: Color::Yellow,
                branch_current: Color::Green,
                context: Color::DarkGray,
                diff_del_bg: Color::Rgb(55, 25, 32),
                diff_add_bg: Color::Rgb(22, 45, 30),
                diff_del_word_bg: Color::Rgb(78, 32, 42),
                bg: Color::Black,
                fg: Color::White,
                line_nr: Color::DarkGray,
                selection_bg: Color::Rgb(40, 42, 60),
                syntax_comment: Color::DarkGray,
                syntax_string: Color::Green,
                syntax_keyword: Color::Magenta,
                syntax_function: Color::Blue,
                syntax_type: Color::Cyan,
                syntax_number: Color::Yellow,
            }),
    {
        Theme {
            border_focused: Color::White,
            border_unfocused: Color::DarkGray,
            hint: Color::DarkGray,
            error: Color::Red,
            staged: Color::Green,
            unstaged: Color::Yellow,
            untracked: Color::DarkGray,
            conflicted: Color::Red,
            both_staged: Color::Magenta,
            hunk_header: Color::Cyan,
            commit_id: Color::Yellow,
            branch_current: Color::Green,
            context: Color::DarkGray,
            diff_del_bg: Color::Rgb(55, 25, 32),
            diff_add_bg: Color::Rgb(22, 45, 30),
            diff_del_word_bg: Color::Rgb(78, 32, 42),
            bg: Color::Black,
            fg: Color::White,
            line_nr: Color::DarkGray,
            selection_bg: Color::Rgb(40, 42, 60),
            syntax_comment: Color::DarkGray,
            syntax_string: Color::Green,
            syntax_keyword: Color::Magenta,
            syntax_function: Color::Blue,
            syntax_type: Color::Cyan,
            syntax_number: Color::Yellow,
        }
    }

    /// The Tokyo Night Storm palette.
    #[verifier::allow_in_spec]
    pub fn tokyo_night() -> Theme
        returns
            (Theme {
                border_focused: Color::Rgb(122, 162, 247),
                border_unfocused: Color::Rgb(59, 66, 97),
                hint: Color::Rgb(86, 95, 137),
                error: Color::Rgb(247, 118, 142),
                staged: Color::Rgb(158, 206, 106),
                unstaged: Color::Rgb(224, 175, 104),
                untracked: Color::Rgb(86, 95, 137),
                conflicted: Color::Rgb(247, 118, 142),
                both_staged: Color::Rgb(187, 154, 247),
                hunk_header: Color::Rgb(125, 207, 255),
                commit_id: Color::Rgb(224, 175, 104),
                branch_current: Color::Rgb(158, 206, 106),
                context: Color::Rgb(86, 95, 137),
                diff_del_bg: Color::Rgb(60, 32, 42),
                diff_add_bg: Color::Rgb(28, 48, 38),
                diff_del_word_bg: Color::Rgb(82, 38, 50),
                bg: Color::Rgb(36, 40, 59),
                fg: Color::Rgb(192, 202, 245),
                line_nr: Color::Rgb(59, 66, 97),
                selection_bg: Color::Rgb(40, 52, 94),
                syntax_comment: Color::Rgb(86, 95, 137),
                syntax_string: Color::Rgb(158, 206, 106),
                syntax_keyword: Color::Rgb(187, 154, 247),
                syntax_function: Color::Rgb(122, 162, 247),
                syntax_type: Color::Rgb(125, 207, 255),
                syntax_number: Color::Rgb(255, 158, 100),
            }),
    {
        Theme {
            border_focused: Color::Rgb(122, 162, 247),
            border_unfocused: Color::Rgb(59, 66, 97),
            hint: Color::Rgb(86, 95, 137),
            error: Color::Rgb(247, 118, 142),
            staged: Color::Rgb(158, 206, 106),
            unstaged: Color::Rgb(224, 175, 104),
            untracked: Color::Rgb(86, 95, 137),
            conflicted: Color::Rgb(247, 118, 142),
            both_staged: Color::Rgb(187, 154, 247),
            hunk_header: Color::Rgb(125, 207, 255),
            commit_id: Color::Rgb(224, 175, 104),
            branch_current: Color::Rgb(158, 206, 106),
            context: Color::Rgb(86, 95, 137),
            diff_del_bg: Color::Rgb(60, 32, 42),
            diff_add_bg: Color::Rgb(28, 48, 38),
            diff_del_word_bg: Color::Rgb(82, 38, 50),
            bg: Color::Rgb(36, 40, 59),
            fg: Color::Rgb(192, 202, 245),
            line_nr: Color::Rgb(59, 66, 97),
            selection_bg: Color::Rgb(40, 52, 94),
            syntax_comment: Color::Rgb(86, 95, 137),
            syntax_string: Color::Rgb(158, 206, 106),
            syntax_keyword: Color::Rgb(187, 154, 247),
            syntax_function: Color::Rgb(122, 162, 247),
            syntax_type: Color::Rgb(125, 207, 255),
            syntax_number: Color::Rgb(255, 158, 100),
        }
    }

    /// The Catppuccin Mocha palette.
    #[verifier::allow_in_spec]
    pub fn catppuccin() -> Theme
        returns
            (Theme {
                border_focused: Color::Rgb(137, 180, 250),
                border_unfocused: Color::Rgb(69, 71, 90),
                hint: Color::Rgb(108, 112, 134),
                error: Color::Rgb(243, 139, 168),
                staged: Color::Rgb(166, 227, 161),
                unstaged: Color::Rgb(249, 226, 175),
                untracked: Color::Rgb(108, 112, 134),
                conflicted: Color::Rgb(243, 139, 168),
                both_staged: Color::Rgb(203, 166, 247),
                hunk_header: Color::Rgb(137, 220, 235),
                commit_id: Color::Rgb(250, 179, 135),
                branch_current: Color::Rgb(166, 227, 161),
                context: Color::Rgb(108, 112, 134),
                diff_del_bg: Color::Rgb(58, 36, 48),
                diff_add_bg: Color::Rgb(30, 49, 42),
                diff_del_word_bg: Color::Rgb(79, 42, 56),
                bg: Color::Rgb(30, 30, 46),
                fg: Color::Rgb(205, 214, 244),
                line_nr: Color::Rgb(69, 71, 90),
                selection_bg: Color::Rgb(49, 50, 68),
                syntax_comment: Color::Rgb(108, 112, 134),
                syntax_string: Color::Rgb(166, 227, 161),
                syntax_keyword: Color::Rgb(203, 166, 247),
                syntax_function: Color::Rgb(137, 180, 250),
                syntax_type: Color::Rgb(137, 220, 235),
                syntax_number: Color::Rgb(250, 179, 135),
            }),
    {
        Theme {
            border_focused: Color::Rgb(137, 180, 250),
            border_unfocused: Color::Rgb(69, 71, 90),
            hint: Color::Rgb(108, 112, 134),
            error: Color::Rgb(243, 139, 168),
            staged: Color::Rgb(166, 227, 161),
            unstaged: Color::Rgb(249, 226, 175),
            untracked: Color::Rgb(108, 112, 134),
            conflicted: Color::Rgb(243, 139, 168),
            both_staged: Color::Rgb(203, 166, 247),
            hunk_header: Color::Rgb(137, 220, 235),
            commit_id: Color::Rgb(250, 179, 135),
            branch_current: Color::Rgb(166, 227, 161),
            context: Color::Rgb(108, 112, 134),
            diff_del_bg: Color::Rgb(58, 36, 48),
            diff_add_bg: Color::Rgb(30, 49, 42),
            diff_del_word_bg: Color::Rgb(79, 42, 56),
            bg: Color::Rgb(30, 30, 46),
            fg: Color::Rgb(205, 214, 244),
            line_nr: Color::Rgb(69, 71, 90),
            selection_bg: Color::Rgb(49, 50, 68),
            syntax_comment: Color::Rgb(108, 112, 134),
            syntax_string: Color::Rgb(166, 227, 161),
            syntax_keyword: Color::Rgb(203, 166, 247),
            syntax_function: Color::Rgb(137, 180, 250),
            syntax_type: Color::Rgb(137, 220, 235),
            syntax_number: Color::Rgb(250, 179, 135),
        }
    }
}

} // verus!
