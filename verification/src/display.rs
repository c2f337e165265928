//! What the options decide about the shape of the output: colors,
//! decorations, the number gutter and the pager.
use vstd::prelude::*;
use crate::number::parse_usize;
use crate::options::{ColorChoice, Options, OptionsModel, Paging};
use crate::text::{chars_are, chars_of, find, find_exec};
use crate::number::parse_usize_spec;

verus! {

/// Whether the style is `plain` or `numbers`, the styles without a grid.
pub open spec fn bare_style(style: Seq<char>) -> bool {
    style == "plain"@ || style == "numbers"@
}

/// Whether headers and separators are drawn: never for the `plain` and
/// `numbers` styles, else when colors are on or several files are shown.
pub open spec fn decorated(o: OptionsModel, many_files: bool, color: bool) -> bool {
    if bare_style(o.style) {
        false
    } else {
        color || many_files
    }
}

/// Whether line numbers are shown.
pub open spec fn numbers_shown(o: OptionsModel) -> bool {
    !o.plain && o.style != "plain"@ && (o.numbers || o.style == "default"@ || o.style == "full"@
        || o.style == "numbers"@)
}

/// Whether the `│` grid line is drawn after the numbers.
pub open spec fn grid_shown(o: OptionsModel) -> bool {
    !bare_style(o.style)
}

/// Whether the output is colored: never with `--plain` or the `plain`
/// style; with `--color=auto` only on a terminal and without `NO_COLOR`.
pub open spec fn colored(o: OptionsModel, stdout_is_terminal: bool, no_color: bool) -> bool {
    !o.plain && o.style != "plain"@ && match o.color {
        ColorChoice::Always => true,
        ColorChoice::Never => false,
        ColorChoice::Auto => stdout_is_terminal && !no_color,
    }
}

/// The number of newline bytes in `s`.
pub open spec fn newline_count(s: Seq<u8>) -> nat
    decreases s.len(),
{
    if s.len() == 0 {
        0
    } else {
        newline_count(s.drop_last()) + if s.last() == 10u8 {
            1nat
        } else {
            0nat
        }
    }
}

/// Whether the output goes through the pager: always with `--paging=always`;
/// with `auto` only on a terminal and when it has more lines than fit.
pub open spec fn paged(paging: Paging, is_terminal: bool, output: Seq<u8>, height: nat) -> bool {
    paging == Paging::Always || (paging == Paging::Auto && is_terminal && newline_count(output)
        > height)
}

/// The terminal height from the value of `LINES`, 24 when it is absent or
/// not a number.
pub open spec fn height_from(lines: Option<Seq<char>>) -> usize {
    match lines {
        Some(v) => match parse_usize_spec(v) {
            Some(h) => h,
            None => 24,
        },
        None => 24,
    }
}

/// Whether the style is `plain` or `numbers`.
fn is_bare_style(style: &String) -> (r: bool)
    ensures
        r == bare_style(style@),
{
    let s = chars_of(style.as_str());
    chars_are(&s, "plain") || chars_are(&s, "numbers")
}

/// Whether headers are drawn around the files.
pub fn decorations_enabled(options: &Options, many_files: bool, color: bool) -> (r: bool)
    ensures
        r == decorated(options@, many_files, color),
{
    if is_bare_style(&options.style) {
        false
    } else {
        color || many_files
    }
}

/// Whether line numbers are shown.
pub fn show_numbers(options: &Options) -> (r: bool)
    ensures
        r == numbers_shown(options@),
{
    let s = chars_of(options.style.as_str());
    !options.plain && !chars_are(&s, "plain") && (options.numbers || chars_are(&s, "default")
        || chars_are(&s, "full") || chars_are(&s, "numbers"))
}

/// Whether the grid line is drawn after the numbers.
pub fn show_grid(options: &Options) -> (r: bool)
    ensures
        r == grid_shown(options@),
{
    !is_bare_style(&options.style)
}

/// Whether the output is colored, given whether standard output is a
/// terminal and whether `NO_COLOR` is set.
pub fn color_enabled(options: &Options, stdout_is_terminal: bool, no_color: bool) -> (r: bool)
    ensures
        r == colored(options@, stdout_is_terminal, no_color),
{
    let s = chars_of(options.style.as_str());
    !options.plain && !chars_are(&s, "plain") && match options.color {
        ColorChoice::Always => true,
        ColorChoice::Never => false,
        ColorChoice::Auto => stdout_is_terminal && !no_color,
    }
}

/// The number of newline bytes in `output`.
pub fn count_newlines(output: &[u8]) -> (r: usize)
    ensures
        r == newline_count(output@),
{
    let mut n: usize = 0;
    let mut i: usize = 0;
    while i < output.len()
        invariant
            i <= output@.len(),
            n == newline_count(output@.take(i as int)),
            n <= i,
        decreases output.len() - i,
    {
        assert(output@.take(i + 1).drop_last() == output@.take(i as int));
        if output[i] == 10u8 {
            n = n + 1;
        }
        i = i + 1;
    }
    assert(output@.take(i as int) == output@);
    n
}

/// Whether the output is shown through the pager.
pub fn should_page(paging: Paging, is_terminal: bool, output: &[u8], height: usize) -> (r: bool)
    ensures
        r == paged(paging, is_terminal, output@, height as nat),
{
    match paging {
        Paging::Always => true,
        Paging::Never => false,
        Paging::Auto => is_terminal && count_newlines(output) > height,
    }
}

/// The terminal height from the value of the `LINES` variable.
pub fn terminal_height(lines: Option<String>) -> (r: usize)
    ensures
        r == height_from(match lines {
            Some(v) => Some(v@),
            None => None,
        }),
{
    match lines {
        Some(v) => match parse_usize(&chars_of(v.as_str())) {
            Some(h) => h,
            None => 24,
        },
        None => 24,
    }
}

/// Whether an error message reports a broken pipe (the reader of the
/// output went away), which ends the program quietly.
pub open spec fn broken_pipe(error: Seq<char>) -> bool {
    find(error, "Broken pipe"@) is Some
}

/// Whether an error message reports a broken pipe.
pub fn is_broken_pipe(error: &str) -> (r: bool)
    ensures
        r == broken_pipe(error@),
{
    let e = chars_of(error);
    let p = chars_of("Broken pipe");
    find_exec(&e, &p).is_some()
}

} // verus!
