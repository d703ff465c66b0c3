//! The verified core of a keyboard-driven git terminal interface.

pub mod answer_laws;
pub mod app;
pub mod app_access;
pub mod app_actions;
pub mod app_answers;
pub mod app_events;
pub mod app_keys;
pub mod app_laws;
pub mod app_modals;
pub mod app_model;
pub mod app_picker;
pub mod browser;
pub mod cli;
pub mod clipboard;
pub mod code_cells;
pub mod config;
pub mod config_laws;
pub mod config_text;
pub mod diff_laws;
pub mod diff_pane;
pub mod diff_rows;
pub mod draft;
pub mod edit_laws;
pub mod fuzzy;
pub mod jobs;
pub mod key_laws;
pub mod layout;
pub mod llm_form;
pub mod markdown;
pub mod markdown_events;
pub mod markdown_laws;
pub mod markdown_table;
pub mod markdown_wrap;
pub mod modal_browser;
pub mod modal_laws;
pub mod modal_pickers;
pub mod modals;
pub mod model;
pub mod panel_diff;
pub mod panel_laws;
pub mod panel_lists;
pub mod panels;
pub mod paths;
pub mod project_laws;
pub mod screen;
pub mod screen_laws;
pub mod session;
pub mod style;
pub mod syntax;
pub mod syntax_laws;
pub mod table_laws;
pub mod text;
pub mod text_laws;
pub mod theme;
pub mod toml_doc;
pub mod toml_highlight;
pub mod toml_laws;
pub mod tree;
pub mod tree_laws;
pub mod viewer;
pub mod viewer_laws;
pub mod width;
pub mod words;
pub mod workspace;
pub mod workspace_laws;
