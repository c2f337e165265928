//! Properties of the viewer as a whole, stated over the specifications of
//! its functions and proved.
use vstd::prelude::*;
use crate::display::{colored, decorated, grid_shown, numbers_shown, paged, newline_count};
use crate::highlight::{language_of, visible, visible_chars, visible_char};
use crate::options::{
    ColorChoice, LineRange, OptionsModel, Paging, default_options, line_range_of, parse_arguments,
    range_error,
    parse_from,
};
use crate::text::{find, find_from, lemma_find_from_bounds, lower, lower_char, split_once, repeat};
use crate::render::{
    formatted, formatted_line, gutter, kept_from, kept_lines, line_body, line_format, lines_of,
    out_of_range, rendered, shown_number, strip_cr, LineFormat, verbatim, document, document_upto,
    input_part, with_headers,
};
use crate::number::{
    all_digits, decimal, is_digit, law_decimal_parses_back, lemma_decimal_digits, lemma_decimal_len_mono,
    pad_left, unsigned_digits,
};
use crate::display::{broken_pipe, height_from};

verus! {

/// After `--`, every remaining argument is a file, verbatim and in order,
/// whatever it looks like.
pub open spec fn with_files(st: OptionsModel, rest: Seq<Seq<char>>) -> OptionsModel {
    OptionsModel { files: st.files + rest, ..st }
}

/// Once only files are expected, the remaining arguments are appended to
/// the files as they are.
pub proof fn law_positional_arguments(args: Seq<Seq<char>>, i: int, st: OptionsModel)
    requires
        0 <= i <= args.len(),
    ensures
        parse_from(args, i, st, true) == Ok::<OptionsModel, Seq<char>>(with_files(st, args.skip(i))),
    decreases args.len() - i,
{
    if i < args.len() {
        let st2 = OptionsModel { files: st.files.push(args[i]), ..st };
        law_positional_arguments(args, i + 1, st2);
        assert(st.files.push(args[i]) + args.skip(i + 1) =~= st.files + args.skip(i));
    } else {
        assert(st.files + args.skip(i) =~= st.files);
    }
}

/// `--` ends option parsing: the arguments after it become files exactly
/// as written, even those that start with `-`.
pub proof fn law_double_dash_ends_options(args: Seq<Seq<char>>, i: int, st: OptionsModel)
    requires
        0 <= i < args.len(),
        args[i] == "--"@,
    ensures
        parse_from(args, i, st, false) == Ok::<OptionsModel, Seq<char>>(with_files(st, args.skip(i + 1))),
{
    law_positional_arguments(args, i + 1, st);
}

/// Arguments that begin with `--` are all taken as files, with every other
/// option at its default.
pub proof fn law_leading_double_dash(rest: Seq<Seq<char>>)
    ensures
        parse_arguments(seq!["--"@] + rest) == Ok::<OptionsModel, Seq<char>>(
            with_files(default_options(), rest),
        ),
{
    let args = seq!["--"@] + rest;
    law_double_dash_ends_options(args, 0, default_options());
    assert(args.skip(1) =~= rest);
}

/// `--plain` and the `plain` style never color the output, and with
/// `--color=auto` neither does a pipe or a set `NO_COLOR`; `--color=always`
/// colors whenever plain output was not asked for.
pub proof fn law_color_choice(o: OptionsModel, stdout_is_terminal: bool, no_color: bool)
    ensures
        o.plain || o.style == "plain"@ ==> !colored(o, stdout_is_terminal, no_color),
        o.color == ColorChoice::Never ==> !colored(o, stdout_is_terminal, no_color),
        o.color == ColorChoice::Auto && (no_color || !stdout_is_terminal) ==> !colored(
            o,
            stdout_is_terminal,
            no_color,
        ),
        o.color == ColorChoice::Always && !o.plain && o.style != "plain"@ ==> colored(
            o,
            stdout_is_terminal,
            no_color,
        ),
{
}

/// The pager is used by default only for interactive output with more
/// lines than the terminal shows, and never with `--paging=never`.
pub proof fn law_pager_only_when_needed(paging: Paging, is_terminal: bool, output: Seq<u8>, height: nat)
    ensures
        paging == Paging::Auto && paged(paging, is_terminal, output, height) ==> is_terminal
            && newline_count(output) > height,
        paging == Paging::Never ==> !paged(paging, is_terminal, output, height),
        paging == Paging::Always ==> paged(paging, is_terminal, output, height),
{
}

/// The number-only view (`-n` selects the `numbers` style) has neither
/// headers nor grid, and shows numbers unless `--plain` is given.
pub proof fn law_number_only_view(o: OptionsModel, many_files: bool, color: bool)
    requires
        o.style == "numbers"@,
    ensures
        !decorated(o, many_files, color),
        !grid_shown(o),
        numbers_shown(o) == !o.plain,
{
    reveal_strlit("numbers");
    reveal_strlit("plain");
    assert("numbers"@ != "plain"@) by {
        assert("numbers"@.len() != "plain"@.len());
    }
}

/// A line range never ends before it starts.
pub proof fn law_line_range_ordered(value: Seq<char>)
    ensures
        line_range_of(value) matches Ok(r) ==> (r.end matches Some(e) ==> r.start <= e),
{
}

/// Undoes `visible`: `→` and three spaces become a tab, `·` a space, and
/// the final `¶` is dropped.
pub open spec fn unmark(s: Seq<char>) -> Seq<char>
    decreases s.len(),
{
    if s.len() == 0 {
        seq![]
    } else if s.last() == '·' {
        unmark(s.drop_last()).push(' ')
    } else if s.last() == ' ' && s.len() >= 4 {
        unmark(s.take(s.len() - 4)).push('\t')
    } else {
        unmark(s.drop_last()).push(s.last())
    }
}

/// Marking whitespace loses nothing: for a line without `→` or `·` of its
/// own, the marked line determines the line.
pub proof fn law_visible_whitespace_reversible(line: Seq<char>)
    requires
        forall|i: int| 0 <= i < line.len() ==> line[i] != '→' && line[i] != '·',
    ensures
        unmark(visible(line).drop_last()) == line,
        visible(line).last() == '¶',
    decreases line.len(),
{
    let v = visible(line);
    assert(v.drop_last() =~= visible_chars(line));
    if line.len() > 0 {
        let init = line.drop_last();
        let c = line.last();
        law_visible_whitespace_reversible(init);
        assert(visible(init).drop_last() =~= visible_chars(init));
        let x = visible_chars(init);
        let y = x + visible_char(c);
        assert(visible_chars(line) == y);
        if c == '\t' {
            assert(y.take(y.len() - 4) =~= x);
            assert(y.last() == ' ');
        } else if c == ' ' {
            assert(y.drop_last() =~= x);
        } else {
            assert(y.drop_last() =~= x);
            assert(y.last() == c);
        }
        assert(unmark(y) =~= line);
    }
}

/// Lower-casing twice is lower-casing once.
pub proof fn lemma_lower_idempotent(s: Seq<char>)
    ensures
        lower(lower(s)) == lower(s),
{
    assert forall|i: int| 0 <= i < s.len() implies lower_char(lower_char(s[i])) == lower_char(
        s[i],
    ) by {
        let c = s[i];
        if 'A' <= c <= 'Z' {
            let d = ((c as u32) + 32) as char;
            assert(d as u32 == (c as u32) + 32);
        }
    }
    assert(lower(lower(s)) =~= lower(s));
}

/// Language detection ignores ASCII case: `README.MD` is Markdown like
/// `readme.md`, and `--language RUST` selects Rust.
pub proof fn law_language_ignores_case(file: Seq<char>)
    ensures
        language_of(lower(file)) == language_of(file),
{
    lemma_lower_idempotent(file);
}

/// The lines of a file from index `i` on, each with its number.
pub open spec fn numbered_from(lines: Seq<Seq<char>>, i: int) -> Seq<(int, Seq<char>)> {
    Seq::new((lines.len() - i) as nat, |k: int| (i + k + 1, lines[i + k]))
}

/// Without a range and without squeezing, every line is shown with its number.
pub(crate) proof fn lemma_kept_all(lines: Seq<Seq<char>>, i: int, blank_run: bool)
    requires
        0 <= i <= lines.len(),
    ensures
        kept_from(lines, i, blank_run, None, false) == numbered_from(lines, i),
    decreases lines.len() - i,
{
    if i < lines.len() {
        lemma_kept_all(lines, i + 1, lines[i].len() == 0);
        assert(seq![(i + 1, lines[i])] + numbered_from(lines, i + 1) =~= numbered_from(lines, i));
    } else {
        assert(numbered_from(lines, i) =~= Seq::<(int, Seq<char>)>::empty());
    }
}

/// The last line number a range reaches in a file of `len` lines.
pub open spec fn range_last(r: LineRange, len: int) -> int {
    match r.end {
        Some(e) => if e < len {
            e as int
        } else {
            len
        },
        None => len,
    }
}

/// The lines from number `lo` to number `hi` (inclusive), each with its number.
pub open spec fn numbered_span(lines: Seq<Seq<char>>, lo: int, hi: int) -> Seq<(int, Seq<char>)> {
    Seq::new(if hi >= lo {
        (hi - lo + 1) as nat
    } else {
        0
    }, |k: int| (lo + k, lines[lo + k - 1]))
}

/// The lines of a file that a range selects, each with its number.
pub open spec fn range_lines(lines: Seq<Seq<char>>, r: LineRange) -> Seq<(int, Seq<char>)> {
    numbered_span(
        lines,
        if r.start < 1 {
            1
        } else {
            r.start as int
        },
        range_last(r, lines.len() as int),
    )
}

proof fn lemma_kept_range(lines: Seq<Seq<char>>, i: int, blank_run: bool, r: LineRange)
    requires
        0 <= i <= lines.len(),
    ensures
        kept_from(lines, i, blank_run, Some(r), false) == numbered_span(
            lines,
            if r.start < i + 1 {
                i + 1
            } else {
                r.start as int
            },
            range_last(r, lines.len() as int),
        ),
    decreases lines.len() - i,
{
    let hi = range_last(r, lines.len() as int);
    let lo = if r.start < i + 1 {
        i + 1
    } else {
        r.start as int
    };
    if i < lines.len() {
        let lo2 = if r.start < i + 2 {
            i + 2
        } else {
            r.start as int
        };
        lemma_kept_range(lines, i + 1, blank_run, r);
        lemma_kept_range(lines, i + 1, lines[i].len() == 0, r);
        if out_of_range(Some(r), i + 1) {
            if (i + 1) < r.start {
                assert(lo2 == lo);
            } else {
                assert(numbered_span(lines, lo2, hi) =~= Seq::<(int, Seq<char>)>::empty());
                assert(numbered_span(lines, lo, hi) =~= Seq::<(int, Seq<char>)>::empty());
            }
        } else {
            assert(lo == i + 1 && lo2 == i + 2);
            assert(seq![(i + 1, lines[i])] + numbered_span(lines, lo2, hi) =~= numbered_span(
                lines,
                lo,
                hi,
            ));
        }
    } else {
        assert(numbered_span(lines, lo, hi) =~= Seq::<(int, Seq<char>)>::empty());
    }
}

/// A line range shows exactly the lines whose numbers lie in the range
/// (clipped to the file), in order and each with its own number.
pub proof fn law_line_range_selects(lines: Seq<Seq<char>>, r: LineRange)
    ensures
        kept_lines(lines, Some(r), false) == range_lines(lines, r),
{
    lemma_kept_range(lines, 0, false, r);
}

/// Drops every blank entry that follows a blank entry (`previous_blank`
/// tells whether the entry before the first one was blank).
pub open spec fn squeezed(entries: Seq<(int, Seq<char>)>, previous_blank: bool) -> Seq<(int, Seq<char>)>
    decreases entries.len(),
{
    if entries.len() == 0 {
        seq![]
    } else if entries[0].1.len() == 0 && previous_blank {
        squeezed(entries.drop_first(), true)
    } else {
        seq![entries[0]] + squeezed(entries.drop_first(), entries[0].1.len() == 0)
    }
}

proof fn lemma_kept_squeeze(
    lines: Seq<Seq<char>>,
    i: int,
    blank_run: bool,
    any: bool,
    range: Option<LineRange>,
)
    requires
        0 <= i <= lines.len(),
    ensures
        kept_from(lines, i, blank_run, range, true) == squeezed(
            kept_from(lines, i, any, range, false),
            blank_run,
        ),
    decreases lines.len() - i,
{
    if i < lines.len() {
        lemma_kept_squeeze(lines, i + 1, blank_run, any, range);
        lemma_kept_squeeze(lines, i + 1, lines[i].len() == 0, lines[i].len() == 0, range);
        lemma_kept_blank_run_irrelevant(lines, i + 1, any, lines[i].len() == 0, range);
        if !out_of_range(range, i + 1) {
            let tail = kept_from(lines, i + 1, lines[i].len() == 0, range, false);
            assert((seq![(i + 1, lines[i])] + tail).drop_first() =~= tail);
        }
    }
}

/// Without squeezing, the blank-run flag plays no part.
proof fn lemma_kept_blank_run_irrelevant(
    lines: Seq<Seq<char>>,
    i: int,
    a: bool,
    b: bool,
    range: Option<LineRange>,
)
    ensures
        kept_from(lines, i, a, range, false) == kept_from(lines, i, b, range, false),
    decreases lines.len() - i,
{
    if 0 <= i < lines.len() {
        lemma_kept_blank_run_irrelevant(lines, i + 1, a, b, range);
        lemma_kept_blank_run_irrelevant(lines, i + 1, a, lines[i].len() == 0, range);
        lemma_kept_blank_run_irrelevant(lines, i + 1, b, lines[i].len() == 0, range);
    }
}

/// `--squeeze-blank` shows the lines it would show without squeezing,
/// except each blank line that directly follows a blank line.
pub proof fn law_squeeze_drops_repeated_blanks(lines: Seq<Seq<char>>, range: Option<LineRange>)
    ensures
        kept_lines(lines, range, true) == squeezed(kept_lines(lines, range, false), false),
{
    lemma_kept_squeeze(lines, 0, false, false, range);
}

/// After squeezing no two shown lines in a row are blank, and every
/// non-blank line is kept.
pub proof fn law_squeezed_has_no_blank_pairs(entries: Seq<(int, Seq<char>)>, previous_blank: bool)
    ensures
        ({
            let s = squeezed(entries, previous_blank);
            &&& forall|k: int| 0 <= k < s.len() - 1 ==> !(#[trigger] s[k].1.len() == 0 && s[k
                + 1].1.len() == 0)
            &&& previous_blank && s.len() > 0 ==> s[0].1.len() > 0
            &&& forall|j: int|
                0 <= j < entries.len() && entries[j].1.len() > 0 ==> s.contains(#[trigger] entries[j])
        }),
    decreases entries.len(),
{
    if entries.len() > 0 {
        let rest = entries.drop_first();
        law_squeezed_has_no_blank_pairs(rest, true);
        law_squeezed_has_no_blank_pairs(rest, entries[0].1.len() == 0);
        let s = squeezed(entries, previous_blank);
        assert forall|j: int|
            0 <= j < entries.len() && entries[j].1.len() > 0 implies s.contains(
            #[trigger] entries[j],
        ) by {
            let x = entries[j];
            if j > 0 {
                assert(x == rest[j - 1]);
                if !(entries[0].1.len() == 0 && previous_blank) {
                    let t = squeezed(rest, entries[0].1.len() == 0);
                    assert(t.contains(x));
                    let k = choose|k: int| 0 <= k < t.len() && t[k] == x;
                    assert(s[k + 1] == x);
                }
            } else {
                assert(s[0] == entries[0]);
            }
        }
        if !(entries[0].1.len() == 0 && previous_blank) {
            let t = squeezed(rest, entries[0].1.len() == 0);
            assert forall|k: int| 0 <= k < s.len() - 1 implies !(#[trigger] s[k].1.len() == 0
                && s[k + 1].1.len() == 0) by {
                if k > 0 {
                    assert(s[k] == t[k - 1] && s[k + 1] == t[k]);
                } else {
                    assert(s[1] == t[0]);
                }
            }
        }
    }
}

/// The lines joined, each followed by a newline.
pub open spec fn joined(lines: Seq<Seq<char>>) -> Seq<char>
    decreases lines.len(),
{
    if lines.len() == 0 {
        seq![]
    } else {
        joined(lines.drop_last()) + lines.last() + seq!['\n']
    }
}

proof fn lemma_joined_cons(x: Seq<char>, lines: Seq<Seq<char>>)
    ensures
        joined(seq![x] + lines) == x + seq!['\n'] + joined(lines),
    decreases lines.len(),
{
    let l = seq![x] + lines;
    if lines.len() == 0 {
        assert(l.drop_last() =~= Seq::<Seq<char>>::empty());
        assert(l.last() == x);
        assert(joined(l.drop_last()) == Seq::<char>::empty());
        assert(joined(lines) == Seq::<char>::empty());
        assert(joined(l) =~= x + seq!['\n'] + joined(lines));
    } else {
        assert(l.drop_last() =~= seq![x] + lines.drop_last());
        lemma_joined_cons(x, lines.drop_last());
        assert(l.last() == lines.last());
        assert(joined(l) == joined(seq![x] + lines.drop_last()) + lines.last() + seq!['\n']);
        assert(joined(lines) == joined(lines.drop_last()) + lines.last() + seq!['\n']);
        assert(joined(l) =~= x + seq!['\n'] + joined(lines));
    }
}

/// Without numbers, marks or colors, the formatted lines are the lines
/// themselves, each followed by a newline.
pub(crate) proof fn lemma_formatted_plain(entries: Seq<(int, Seq<char>)>, f: LineFormat)
    requires
        !f.numbers,
        !f.show_all,
        !f.color,
    ensures
        formatted(entries, f) == joined(entries.map_values(|e: (int, Seq<char>)| e.1)),
    decreases entries.len(),
{
    let m = entries.map_values(|e: (int, Seq<char>)| e.1);
    if entries.len() > 0 {
        lemma_formatted_plain(entries.drop_last(), f);
        assert(entries.drop_last().map_values(|e: (int, Seq<char>)| e.1) =~= m.drop_last());
        assert(gutter(shown_number(entries, f), f) =~= Seq::<char>::empty());
        assert(formatted_line(shown_number(entries, f), entries.last().1, f) =~= entries.last().1
            + seq!['\n']);
    } else {
        assert(m =~= Seq::<Seq<char>>::empty());
    }
}

/// Without numbers, marks, colors, range or squeezing (the `header` style
/// without `--plain`, say), the output is the lines of the file, each
/// followed by a newline.
pub proof fn law_line_by_line_rendering(content: Seq<char>, file: Seq<char>, o: OptionsModel)
    requires
        !o.plain,
        !numbers_shown(o),
        !o.show_all,
        o.line_range is None,
        !o.squeeze_blank,
    ensures
        rendered(content, file, o, false) == joined(lines_of(content)),
{
    let ls = lines_of(content);
    lemma_kept_all(ls, 0, false);
    let f = line_format(o, file, false, ls.len());
    lemma_formatted_plain(numbered_from(ls, 0), f);
    assert(numbered_from(ls, 0).map_values(|e: (int, Seq<char>)| e.1) =~= ls);
}

/// Where `find_from` finds nothing, the pattern does not occur from `j` on.
proof fn lemma_find_none_char(s: Seq<char>, c: char, j: int)
    requires
        0 <= j,
        find_from(s, seq![c], j) is None,
    ensures
        forall|m: int| j <= m < s.len() ==> s[m] != c,
    decreases s.len() - j,
{
    if j + 1 <= s.len() {
        if s[j] == c {
            assert(s.subrange(j, j + 1) =~= seq![c]);
        }
        lemma_find_none_char(s, c, j + 1);
    }
}

/// Joining the lines of a text gives the text back, when it has no carriage
/// return and is empty or ends with a newline.
pub proof fn law_lines_rejoin(s: Seq<char>)
    requires
        forall|i: int| 0 <= i < s.len() ==> s[i] != '\r',
        s.len() == 0 || s.last() == '\n',
    ensures
        joined(lines_of(s)) == s,
    decreases s.len(),
{
    if s.len() > 0 {
        lemma_find_from_bounds(s, seq!['\n'], 0);
        match find(s, seq!['\n']) {
            Some(k) => {
                let line = s.take(k);
                let rest = s.skip(k + 1);
                assert(s.subrange(k, k + 1)[0] == '\n');
                if line.len() > 0 {
                    assert(line.last() == s[k - 1]);
                }
                assert(strip_cr(line) == line);
                law_lines_rejoin(rest);
                lemma_joined_cons(line, lines_of(rest));
                assert(line + seq!['\n'] + rest =~= s);
            },
            None => {
                lemma_find_none_char(s, '\n', 0);
                assert(s[s.len() - 1] != '\n');
            },
        }
    }
}

/// `--plain` output is exactly the text of the file, whatever the text
/// holds and whatever the terminal and `NO_COLOR` say, unless a line range,
/// squeezing or whitespace marks were asked for.
pub proof fn law_plain_output_is_the_file(
    content: Seq<char>,
    file: Seq<char>,
    o: OptionsModel,
    stdout_is_terminal: bool,
    no_color: bool,
)
    requires
        o.plain,
        !o.show_all,
        o.line_range is None,
        !o.squeeze_blank,
    ensures
        rendered(content, file, o, colored(o, stdout_is_terminal, no_color)) == content,
{
}

/// The texts one after the other.
pub open spec fn concatenated(texts: Seq<Seq<char>>) -> Seq<char>
    decreases texts.len(),
{
    if texts.len() == 0 {
        seq![]
    } else {
        concatenated(texts.drop_last()) + texts.last()
    }
}

proof fn lemma_plain_document_upto(
    names: Seq<Seq<char>>,
    contents: Seq<Seq<char>>,
    k: int,
    o: OptionsModel,
)
    requires
        0 <= k <= names.len(),
        names.len() == contents.len(),
        verbatim(o, false),
    ensures
        document_upto(names, contents, k, o, false) == concatenated(contents.take(k)),
    decreases k,
{
    if k == 0 {
        assert(contents.take(0) =~= Seq::<Seq<char>>::empty());
    } else {
        lemma_plain_document_upto(names, contents, k - 1, o);
        assert(contents.take(k).drop_last() =~= contents.take(k - 1));
        assert(contents.take(k).last() == contents[k - 1]);
        assert(!with_headers(o, names.len(), false));
        assert(input_part(names, contents, k - 1, o, false) =~= contents[k - 1]);
    }
}

/// With `--plain` alone, several files come out as `cat` gives them: their
/// texts exactly, one after the other, with no header or separator.
pub proof fn law_plain_files_concatenate(
    names: Seq<Seq<char>>,
    contents: Seq<Seq<char>>,
    o: OptionsModel,
    stdout_is_terminal: bool,
    no_color: bool,
)
    requires
        names.len() == contents.len(),
        o.plain,
        !o.show_all,
        o.line_range is None,
        !o.squeeze_blank,
    ensures
        document(names, contents, o, colored(o, stdout_is_terminal, no_color)) == concatenated(
            contents,
        ),
{
    lemma_plain_document_upto(names, contents, names.len() as int, o);
    assert(contents.take(names.len() as int) =~= contents);
}

/// A text without the character `c` has no occurrence of it.
proof fn lemma_find_absent_char(s: Seq<char>, c: char, j: int)
    requires
        0 <= j,
        forall|m: int| 0 <= m < s.len() ==> s[m] != c,
    ensures
        find_from(s, seq![c], j) is None,
    decreases s.len() - j,
{
    if j + 1 <= s.len() {
        assert(s.subrange(j, j + 1)[0] == s[j]);
        assert(s.subrange(j, j + 1) != seq![c]);
        lemma_find_absent_char(s, c, j + 1);
    }
}

/// Line ranges written with numbers mean those numbers: `N:M` is lines N
/// to M (refused when M < N), `N` is line N alone, `N:` runs from N to the
/// end and `:M` from the first line to M (`:0` ends before it starts).
pub proof fn law_line_range_numbers(a: usize, b: usize)
    ensures
        line_range_of(decimal(a as nat) + seq![':'] + decimal(b as nat)) == (if b < a {
            Err::<LineRange, Seq<char>>(range_error(decimal(a as nat) + seq![':'] + decimal(b as nat)))
        } else {
            Ok(LineRange { start: a, end: Some(b) })
        }),
        line_range_of(decimal(a as nat)) == Ok::<LineRange, Seq<char>>(LineRange { start: a, end: Some(a) }),
        line_range_of(decimal(a as nat) + seq![':']) == Ok::<LineRange, Seq<char>>(LineRange { start: a, end: None }),
        b >= 1 ==> line_range_of(seq![':'] + decimal(b as nat)) == Ok::<LineRange, Seq<char>>(LineRange { start: 1, end: Some(b) }),
{
    let da = decimal(a as nat);
    let db = decimal(b as nat);
    law_decimal_parses_back(a);
    law_decimal_parses_back(b);
    lemma_decimal_digits(a as nat);
    lemma_decimal_digits(b as nat);
    assert forall|m: int| 0 <= m < da.len() implies da[m] != ':' by {
        assert(is_digit(da[m]));
    }
    let x = da + seq![':'] + db;
    assert forall|m: int| 0 <= m < da.len() implies x[m] != ':' by {
        assert(x[m] == da[m]);
    }
    crate::render::lemma_find_first_char(x, ':', 0, da.len() as int);
    assert(x.take(da.len() as int) =~= da);
    assert(x.skip(da.len() + 1int) =~= db);
    lemma_find_absent_char(da, ':', 0);
    let y = da + seq![':'];
    assert forall|m: int| 0 <= m < da.len() implies y[m] != ':' by {
        assert(y[m] == da[m]);
    }
    crate::render::lemma_find_first_char(y, ':', 0, da.len() as int);
    assert(y.take(da.len() as int) =~= da);
    assert(y.skip(da.len() + 1int) =~= Seq::<char>::empty());
    let z = seq![':'] + db;
    crate::render::lemma_find_first_char(z, ':', 0, 0);
    assert(z.take(0) =~= Seq::<char>::empty());
    assert(z.skip(1) =~= db);
}

/// The terminal height is the number in `LINES` when it holds one, and 24
/// when it is unset or holds no digit at all.
pub proof fn law_terminal_height(n: usize, v: Seq<char>)
    ensures
        height_from(Some(decimal(n as nat))) == n,
        height_from(None) == 24,
        (forall|i: int| 0 <= i < v.len() ==> !is_digit(#[trigger] v[i])) ==> height_from(Some(v)) == 24,
{
    law_decimal_parses_back(n);
    if forall|i: int| 0 <= i < v.len() ==> !is_digit(#[trigger] v[i]) {
        let d = unsigned_digits(v);
        if d.len() > 0 && all_digits(d) {
            if v.len() > 0 && v[0] == '+' {
                assert(d[0] == v[1]);
            } else {
                assert(d[0] == v[0]);
            }
            assert(is_digit(d[0]));
        }
    }
}

/// A pattern that occurs at `k` is found, at `k` or before.
proof fn lemma_find_some(s: Seq<char>, pat: Seq<char>, j: int, k: int)
    requires
        0 <= j <= k,
        k + pat.len() <= s.len(),
        s.subrange(k, k + pat.len()) == pat,
    ensures
        find_from(s, pat, j) matches Some(m) && m <= k,
    decreases k - j,
{
    if j < k && !(pat.len() == 0 || s.subrange(j, j + pat.len()) == pat) {
        lemma_find_some(s, pat, j + 1, k);
    }
}

/// An error is taken for a broken pipe exactly when its message contains
/// `Broken pipe`.
pub proof fn law_broken_pipe(before: Seq<char>, after: Seq<char>, error: Seq<char>)
    ensures
        broken_pipe(before + "Broken pipe"@ + after),
        broken_pipe(error) ==> exists|k: int|
            0 <= k && k + "Broken pipe"@.len() <= error.len() && #[trigger] error.subrange(
                k,
                k + "Broken pipe"@.len(),
            ) == "Broken pipe"@,
{
    let p = "Broken pipe"@;
    let s = before + p + after;
    assert(s.subrange(before.len() as int, before.len() + p.len() as int) =~= p);
    lemma_find_some(s, p, 0, before.len() as int);
    lemma_find_from_bounds(error, p, 0);
}

/// Which views decorate: without `--plain`, the `default`, `full` and
/// `header` styles draw headers when colors are on or several files are
/// shown, and number lines (the first two) with a grid; `--plain` and the
/// `plain` style draw neither headers nor numbers.
pub proof fn law_styles(o: OptionsModel, count: nat, color: bool)
    ensures
        !o.plain && (o.style == "default"@ || o.style == "full"@ || o.style == "header"@) ==> (
        with_headers(o, count, color) == (color || count > 1) && grid_shown(o)),
        !o.plain && (o.style == "default"@ || o.style == "full"@) ==> numbers_shown(o),
        !o.plain && o.style == "header"@ ==> numbers_shown(o) == o.numbers,
        o.plain || o.style == "plain"@ ==> !with_headers(o, count, color) && !numbers_shown(o),
{
    reveal_strlit("default");
    reveal_strlit("full");
    reveal_strlit("header");
    reveal_strlit("plain");
    reveal_strlit("numbers");
    assert("default"@.len() == 7 && "default"@[0] == 'd');
    assert("full"@.len() == 4);
    assert("header"@.len() == 6);
    assert("plain"@.len() == 5);
    assert("numbers"@.len() == 7 && "numbers"@[0] == 'n');
    if o.style == "default"@ {
        assert(o.style[0] == 'd');
    }
    if o.style == "numbers"@ {
        assert(o.style[0] == 'n');
    }
}

/// A line ended by `\r\n` is the same line as one ended by `\n`.
pub proof fn law_crlf_same_lines(line: Seq<char>, rest: Seq<char>)
    requires
        forall|i: int| 0 <= i < line.len() ==> line[i] != '\n' && line[i] != '\r',
    ensures
        lines_of(line + seq!['\r', '\n'] + rest) == seq![line] + lines_of(rest),
        lines_of(line + seq!['\n'] + rest) == seq![line] + lines_of(rest),
{
    let a = line + seq!['\r', '\n'] + rest;
    let n = line.len() as int;
    assert forall|m: int| 0 <= m <= n implies a[m] != '\n' by {
        if m < n {
            assert(a[m] == line[m]);
        }
    }
    crate::render::lemma_find_first_char(a, '\n', 0, n + 1);
    assert(a.take(n + 1) =~= line.push('\r'));
    assert(a.skip(n + 2) =~= rest);
    assert(strip_cr(line.push('\r')) =~= line);
    let b = line + seq!['\n'] + rest;
    assert forall|m: int| 0 <= m < n implies b[m] != '\n' by {
        assert(b[m] == line[m]);
    }
    crate::render::lemma_find_first_char(b, '\n', 0, n);
    assert(b.take(n) =~= line);
    assert(b.skip(n + 1) =~= rest);
    if n > 0 {
        assert(line.last() == line[n - 1]);
    }
    assert(strip_cr(line) == line);
}

proof fn lemma_kept_bounds(
    lines: Seq<Seq<char>>,
    i: int,
    blank_run: bool,
    range: Option<LineRange>,
    squeeze: bool,
)
    requires
        0 <= i <= lines.len(),
    ensures
        ({
            let ks = kept_from(lines, i, blank_run, range, squeeze);
            &&& ks.len() <= lines.len() - i
            &&& forall|k: int|
                0 <= k < ks.len() ==> i + 1 <= #[trigger] ks[k].0 <= lines.len() && ks[k].1
                    == lines[ks[k].0 - 1] && !out_of_range(range, ks[k].0)
            &&& forall|k1: int, k2: int| 0 <= k1 < k2 < ks.len() ==> ks[k1].0 < ks[k2].0
        }),
    decreases lines.len() - i,
{
    if i < lines.len() {
        lemma_kept_bounds(lines, i + 1, blank_run, range, squeeze);
        lemma_kept_bounds(lines, i + 1, lines[i].len() == 0, range, squeeze);
        let ks = kept_from(lines, i, blank_run, range, squeeze);
        if !out_of_range(range, i + 1) && !(squeeze && lines[i].len() == 0 && blank_run) {
            let t = kept_from(lines, i + 1, lines[i].len() == 0, range, squeeze);
            assert(ks == seq![(i + 1, lines[i])] + t);
            assert forall|k: int| 0 < k < ks.len() implies ks[k] == t[k - 1] by {}
        }
    }
}

/// Every shown line is a line of the file inside the range, shown with its
/// own number, in file order.
pub proof fn law_shown_lines_are_file_lines(
    lines: Seq<Seq<char>>,
    range: Option<LineRange>,
    squeeze: bool,
)
    ensures
        ({
            let ks = kept_lines(lines, range, squeeze);
            &&& ks.len() <= lines.len()
            &&& forall|k: int|
                0 <= k < ks.len() ==> 1 <= #[trigger] ks[k].0 <= lines.len() && ks[k].1 == lines[ks[k].0
                    - 1] && !out_of_range(range, ks[k].0)
            &&& forall|k1: int, k2: int| 0 <= k1 < k2 < ks.len() ==> ks[k1].0 < ks[k2].0
        }),
{
    lemma_kept_bounds(lines, 0, false, range, squeeze);
}

/// The number gutter is aligned: every shown number, right-aligned, fills
/// exactly the width of the file's line count.
pub proof fn law_gutter_is_aligned(content: Seq<char>, file: Seq<char>, o: OptionsModel, color: bool)
    ensures
        ({
            let ls = lines_of(content);
            let es = kept_lines(ls, o.line_range, o.squeeze_blank);
            let f = line_format(o, file, color, ls.len());
            forall|k: int|
                0 <= k < es.len() ==> #[trigger] pad_left(decimal(shown_number(es.take(k + 1), f)), f.width).len()
                    == f.width
        }),
{
    let ls = lines_of(content);
    let es = kept_lines(ls, o.line_range, o.squeeze_blank);
    let f = line_format(o, file, color, ls.len());
    let top: nat = if ls.len() == 0 {
        1
    } else {
        ls.len()
    };
    law_shown_lines_are_file_lines(ls, o.line_range, o.squeeze_blank);
    assert forall|k: int| 0 <= k < es.len() implies #[trigger] pad_left(
        decimal(shown_number(es.take(k + 1), f)),
        f.width,
    ).len() == f.width by {
        let n = shown_number(es.take(k + 1), f);
        assert(es.take(k + 1).last() == es[k]);
        assert(n <= top);
        lemma_decimal_len_mono(n, top);
        let d = decimal(n);
        if d.len() < f.width {
            assert(repeat(' ', (f.width - d.len()) as nat).len() == f.width - d.len());
        }
    }
}

proof fn lemma_find_extend(s: Seq<char>, t: Seq<char>, pat: Seq<char>, j: int)
    requires
        0 <= j,
        find_from(s, pat, j) is Some,
    ensures
        find_from(s + t, pat, j) == find_from(s, pat, j),
    decreases s.len() - j,
{
    lemma_find_from_bounds(s, pat, j);
    if j + pat.len() <= s.len() {
        assert((s + t).subrange(j, j + pat.len()) =~= s.subrange(j, j + pat.len()));
        if !(pat.len() == 0 || s.subrange(j, j + pat.len()) == pat) {
            lemma_find_extend(s, t, pat, j + 1);
        }
    }
}

/// A final newline is optional: a text that does not end with a line
/// ending has the same lines once a newline is added.
pub proof fn law_final_newline_optional(s: Seq<char>)
    requires
        s.len() > 0,
        s.last() != '\n',
        s.last() != '\r',
    ensures
        lines_of(s.push('\n')) == lines_of(s),
    decreases s.len(),
{
    let s2 = s.push('\n');
    assert(s2 == s + seq!['\n']);
    lemma_find_from_bounds(s, seq!['\n'], 0);
    match find(s, seq!['\n']) {
        Some(k) => {
            lemma_find_extend(s, seq!['\n'], seq!['\n'], 0);
            assert(s2.take(k) =~= s.take(k));
            let rest = s.skip(k + 1);
            assert(s2.skip(k + 1) =~= rest.push('\n'));
            if rest.len() == 0 {
                assert(s.last() == s.subrange(k, k + 1)[0]);
            } else {
                assert(rest.last() == s.last());
                law_final_newline_optional(rest);
            }
        },
        None => {
            lemma_find_none_char(s, '\n', 0);
            assert forall|m: int| 0 <= m < s.len() implies s2[m] != '\n' by {
                assert(s2[m] == s[m]);
            }
            crate::render::lemma_find_first_char(s2, '\n', 0, s.len() as int);
            assert(s2.take(s.len() as int) =~= s);
            assert(s2.skip(s.len() + 1int) =~= Seq::<char>::empty());
            assert(lines_of(Seq::<char>::empty()) == Seq::<Seq<char>>::empty());
            assert(seq![strip_cr(s)] + Seq::<Seq<char>>::empty() =~= seq![s]);
        },
    }
}

} // verus!
