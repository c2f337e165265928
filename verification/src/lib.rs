//! A syntax-aware file viewer in the spirit of `cat`: headers, a number
//! gutter, line ranges, squeezed blank lines, visible whitespace and light
//! highlighting, decided by verified functions over the file's text.
pub mod arguments;
pub mod display;
pub mod escapes;
pub mod highlight;
pub mod laws;
pub mod number;
pub mod options;
pub mod render;
pub mod style;
pub mod text;
pub mod views;

pub use display::{
    color_enabled, decorations_enabled, is_broken_pipe, should_page, show_grid, show_numbers,
    terminal_height,
};
pub use highlight::{
    color_keywords, highlight, highlight_code, highlight_config, highlight_json,
    highlight_markdown, language, visible_whitespace, Language,
};
pub use options::{
    parse_args, parse_color, parse_paging, parse_range, ColorChoice, EarlyExit, LineRange,
    Options, Paging,
};
pub use render::{input_names, render, render_inputs, write_header};
