//! Rendering a file: splitting it into lines, choosing which lines are
//! shown and how they are numbered, and formatting each shown line.
use vstd::prelude::*;
use vstd::utf8::encode_utf8;
use crate::display::{decorated, grid_shown, numbers_shown, show_grid, show_numbers, decorations_enabled};
use crate::highlight::{highlight, highlighted, visible, visible_whitespace};
use crate::number::{decimal, decimal_len, pad_left, push_padded};
use crate::options::{LineRange, Options, OptionsModel, opt_view, string_views};
use crate::style::Style;
use crate::text::{chars_of, find, find_from, lemma_find_from_bounds, owned, push_char, push_chars, push_str, repeat, split_once, string_of};

verus! {

/// A line without one trailing carriage return.
pub open spec fn strip_cr(line: Seq<char>) -> Seq<char> {
    if line.len() > 0 && line.last() == '\r' {
        line.drop_last()
    } else {
        line
    }
}

/// `str::lines`: the text split at each `\n`, a `\r` right before a `\n`
/// dropped, and no empty line after a final `\n`.
pub open spec fn lines_of(s: Seq<char>) -> Seq<Seq<char>>
    decreases s.len(),
{
    if s.len() == 0 {
        seq![]
    } else {
        match split_once(s, seq!['\n']) {
            Some((line, rest)) => {
                proof {
                    lemma_find_from_bounds(s, seq!['\n'], 0);
                }
                seq![strip_cr(line)] + lines_of(rest)
            },
            None => seq![s],
        }
    }
}

/// Whether line `n` (counted from 1) lies outside the range.
pub open spec fn out_of_range(range: Option<LineRange>, n: int) -> bool {
    match range {
        Some(r) => n < r.start || (r.end matches Some(e) && n > e),
        None => false,
    }
}

/// The shown lines from index `i` on, each with its number in the file:
/// lines outside the range are dropped and, with `squeeze`, so is a blank
/// line that follows a shown blank line (`blank_run`).
pub open spec fn kept_from(
    lines: Seq<Seq<char>>,
    i: int,
    blank_run: bool,
    range: Option<LineRange>,
    squeeze: bool,
) -> Seq<(int, Seq<char>)>
    decreases lines.len() - i,
{
    if i < 0 || i >= lines.len() {
        seq![]
    } else if out_of_range(range, i + 1) {
        kept_from(lines, i + 1, blank_run, range, squeeze)
    } else if squeeze && lines[i].len() == 0 && blank_run {
        kept_from(lines, i + 1, blank_run, range, squeeze)
    } else {
        seq![(i + 1, lines[i])] + kept_from(lines, i + 1, lines[i].len() == 0, range, squeeze)
    }
}

/// The shown lines of a file, each with its number in the file.
pub open spec fn kept_lines(lines: Seq<Seq<char>>, range: Option<LineRange>, squeeze: bool) -> Seq<
    (int, Seq<char>),
> {
    kept_from(lines, 0, false, range, squeeze)
}

/// How shown lines are formatted.
pub struct LineFormat {
    pub numbers: bool,
    pub grid: bool,
    pub color: bool,
    pub show_all: bool,
    pub width: nat,
    pub language: Seq<char>,
    pub source_numbers: bool,
}

/// The gutter before a line: the number right-aligned to the width, then
/// `" │ "` (or a space without the grid), dimmed when colored.
pub open spec fn gutter(n: nat, f: LineFormat) -> Seq<char> {
    if !f.numbers {
        seq![]
    } else {
        let field = pad_left(decimal(n), f.width);
        let sep = if f.grid {
            seq![' ', '│', ' ']
        } else {
            seq![' ']
        };
        if f.color {
            Style::Dim.code() + field + sep + Style::Reset.code()
        } else {
            field + sep
        }
    }
}

/// The text of a shown line: whitespace made visible with `show_all`,
/// highlighted when colored.
pub open spec fn line_body(line: Seq<char>, f: LineFormat) -> Seq<char> {
    let l = if f.show_all {
        visible(line)
    } else {
        line
    };
    if f.color {
        highlighted(l, f.language)
    } else {
        l
    }
}

/// One formatted line, with its gutter and its newline.
pub open spec fn formatted_line(n: nat, line: Seq<char>, f: LineFormat) -> Seq<char> {
    gutter(n, f) + line_body(line, f) + seq!['\n']
}

/// The number shown for the last of `entries`: its number in the file when
/// a range is given, else its position among the shown lines.
pub open spec fn shown_number(entries: Seq<(int, Seq<char>)>, f: LineFormat) -> nat {
    if f.source_numbers {
        entries.last().0 as nat
    } else {
        entries.len()
    }
}

/// The shown lines, formatted one after the other.
pub open spec fn formatted(entries: Seq<(int, Seq<char>)>, f: LineFormat) -> Seq<char>
    decreases entries.len(),
{
    if entries.len() == 0 {
        seq![]
    } else {
        formatted(entries.drop_last(), f) + formatted_line(
            shown_number(entries, f),
            entries.last().1,
            f,
        )
    }
}

/// The name that selects the syntax: `--language`, else `--file-name`,
/// else the file's own name.
pub open spec fn syntax_name(o: OptionsModel, file: Seq<char>) -> Seq<char> {
    match o.language {
        Some(l) => l,
        None => match o.file_name {
            Some(n) => n,
            None => file,
        },
    }
}

/// The width of the number gutter: the digits of the line count (at least 1).
pub open spec fn gutter_width(line_count: nat) -> nat {
    decimal(if line_count == 0 {
        1
    } else {
        line_count
    }).len()
}

/// The line format that the options select for a file of `line_count` lines.
pub open spec fn line_format(o: OptionsModel, file: Seq<char>, color: bool, line_count: nat) -> LineFormat {
    LineFormat {
        numbers: numbers_shown(o),
        grid: grid_shown(o),
        color,
        show_all: o.show_all,
        width: gutter_width(line_count),
        language: syntax_name(o, file),
        source_numbers: o.line_range is Some,
    }
}

/// Whether a file is written exactly as it is: `--plain` without a line
/// range, squeezing, whitespace marks or colors.
pub open spec fn verbatim(o: OptionsModel, color: bool) -> bool {
    o.plain && !o.show_all && !o.squeeze_blank && o.line_range is None && !color
}

/// The shown lines of a file, formatted one after the other.
pub open spec fn rendered_lines(content: Seq<char>, file: Seq<char>, o: OptionsModel, color: bool) -> Seq<
    char,
> {
    let lines = lines_of(content);
    formatted(
        kept_lines(lines, o.line_range, o.squeeze_blank),
        line_format(o, file, color, lines.len()),
    )
}

/// The rendered text of a file: the text itself when it is written
/// verbatim, else its shown lines, formatted.
pub open spec fn rendered(content: Seq<char>, file: Seq<char>, o: OptionsModel, color: bool) -> Seq<char> {
    if verbatim(o, color) {
        content
    } else {
        rendered_lines(content, file, o, color)
    }
}

/// The separator of a header: 24 box-drawing dashes.
pub open spec fn rule() -> Seq<char> {
    repeat('─', 24)
}

/// The header line of a file.
pub open spec fn header(file: Seq<char>, color: bool) -> Seq<char> {
    if color {
        Style::Dim.code() + seq!['─', '─', ' '] + Style::Bold.code() + Style::Cyan.code() + file
            + Style::Reset.code() + seq![' '] + Style::Dim.code() + rule() + Style::Reset.code()
            + seq!['\n']
    } else {
        seq!['─', '─', ' '] + file + seq![' '] + rule() + seq!['\n']
    }
}

/// The views of a list of lines.
pub open spec fn line_views(v: Seq<Vec<char>>) -> Seq<Seq<char>> {
    v.map_values(|l: Vec<char>| l@)
}

/// The UTF-8 encoding of a concatenation is the concatenation of the encodings.
pub proof fn lemma_encode_concat(a: Seq<char>, b: Seq<char>)
    ensures
        encode_utf8(a + b) == encode_utf8(a) + encode_utf8(b),
    decreases a.len(),
{
    if a.len() > 0 {
        assert((a + b).drop_first() == a.drop_first() + b);
        lemma_encode_concat(a.drop_first(), b);
        assert(encode_utf8(a + b) == vstd::utf8::encode_scalar((a + b)[0] as u32) + encode_utf8(
            (a + b).drop_first(),
        ));
    } else {
        assert(a + b == b);
    }
}

/// Appends the UTF-8 encoding of `s` to `out`.
pub fn append_utf8(out: &mut Vec<u8>, s: &str)
    ensures
        final(out)@ == old(out)@ + encode_utf8(s@),
{
    let bytes = s.as_bytes();
    let ghost start = out@;
    let mut i: usize = 0;
    while i < bytes.len()
        invariant
            i <= bytes@.len(),
            bytes@ == encode_utf8(s@),
            out@ == start + bytes@.take(i as int),
        decreases bytes.len() - i,
    {
        out.push(bytes[i]);
        assert(bytes@.take(i + 1) == bytes@.take(i as int).push(bytes@[i as int]));
        i = i + 1;
    }
    assert(bytes@.take(i as int) == bytes@);
}

/// `find` of a single character, when it first occurs at `k`.
pub proof fn lemma_find_first_char(s: Seq<char>, c: char, j: int, k: int)
    requires
        0 <= j <= k < s.len(),
        s[k] == c,
        forall|m: int| j <= m < k ==> s[m] != c,
    ensures
        find_from(s, seq![c], j) == Some(k),
    decreases k - j,
{
    if j < k {
        assert(s.subrange(j, j + 1)[0] != seq![c][0]);
        lemma_find_first_char(s, c, j + 1, k);
    } else {
        assert(s.subrange(k, k + 1) =~= seq![c]);
    }
}

/// `find` of a single character that does not occur from `j` on.
pub proof fn lemma_find_no_char(s: Seq<char>, c: char, j: int)
    requires
        0 <= j,
        forall|m: int| j <= m < s.len() ==> s[m] != c,
    ensures
        find_from(s, seq![c], j) is None,
    decreases s.len() - j,
{
    if j + 1 <= s.len() {
        assert(s.subrange(j, j + 1)[0] != seq![c][0]);
        lemma_find_no_char(s, c, j + 1);
    }
}

/// The characters `v[from..to]` without one trailing `\r`.
fn line_without_cr(v: &Vec<char>, from: usize, to: usize) -> (r: Vec<char>)
    requires
        from <= to <= v.len(),
    ensures
        r@ == strip_cr(v@.subrange(from as int, to as int)),
{
    let end: usize = if to > from && v[to - 1] == '\r' {
        to - 1
    } else {
        to
    };
    let mut r: Vec<char> = Vec::new();
    let mut i: usize = from;
    while i < end
        invariant
            from <= i <= end <= to <= v.len(),
            r@ == v@.subrange(from as int, i as int),
        decreases end - i,
    {
        r.push(v[i]);
        assert(v@.subrange(from as int, i + 1) == v@.subrange(from as int, i as int).push(v@[i as int]));
        i = i + 1;
    }
    assert(v@.subrange(from as int, to as int).drop_last() =~= v@.subrange(from as int, (to - 1) as int)
        || to == from);
    r
}

/// `str::lines` on characters.
pub fn split_lines(content: &Vec<char>) -> (r: Vec<Vec<char>>)
    ensures
        line_views(r@) == lines_of(content@),
{
    let mut out: Vec<Vec<char>> = Vec::new();
    let mut start: usize = 0;
    let mut i: usize = 0;
    assert(content@.skip(0) == content@);
    assert(line_views(out@) =~= Seq::<Seq<char>>::empty());
    while i < content.len()
        invariant
            start <= i <= content@.len(),
            forall|m: int| start <= m < i ==> content@[m] != '\n',
            lines_of(content@) == line_views(out@) + lines_of(content@.skip(start as int)),
        decreases content.len() - i,
    {
        if content[i] == '\n' {
            let line = line_without_cr(content, start, i);
            let ghost rest = content@.skip(start as int);
            proof {
                assert forall|m: int| 0 <= m < i - start implies rest[m] != '\n' by {
                    assert(rest[m] == content@[start + m]);
                }
                lemma_find_first_char(rest, '\n', 0, i - start);
                assert(rest.take(i - start) =~= content@.subrange(start as int, i as int));
                assert(rest.skip(i - start + 1) =~= content@.skip(i + 1));
                assert(line_views(out@.push(line)) =~= line_views(out@).push(line@));
            }
            out.push(line);
            start = i + 1;
        }
        i = i + 1;
    }
    let ghost rest = content@.skip(start as int);
    if start < content.len() {
        proof {
            assert forall|m: int| 0 <= m < rest.len() implies rest[m] != '\n' by {
                assert(rest[m] == content@[start + m]);
            }
            lemma_find_no_char(rest, '\n', 0);
        }
        let last = line_without_cr_none(content, start);
        proof {
            assert(line_views(out@.push(last)) =~= line_views(out@).push(last@));
        }
        out.push(last);
    } else {
        assert(rest.len() == 0);
    }
    assert(lines_of(content@) =~= line_views(out@));
    out
}

/// The characters `v[from..]`.
fn line_without_cr_none(v: &Vec<char>, from: usize) -> (r: Vec<char>)
    requires
        from <= v.len(),
    ensures
        r@ == v@.skip(from as int),
{
    let mut r: Vec<char> = Vec::new();
    let mut i: usize = from;
    while i < v.len()
        invariant
            from <= i <= v.len(),
            r@ == v@.subrange(from as int, i as int),
        decreases v.len() - i,
    {
        r.push(v[i]);
        assert(v@.subrange(from as int, i + 1) == v@.subrange(from as int, i as int).push(v@[i as int]));
        i = i + 1;
    }
    assert(v@.subrange(from as int, v.len() as int) == v@.skip(from as int));
    r
}

/// Appends one formatted line: the gutter, the (marked, highlighted) text
/// and a newline.
fn push_line(out: &mut String, number: usize, line: &Vec<char>, f: &LineSettings)
    ensures
        final(out)@ == old(out)@ + formatted_line(number as nat, line@, f.format()),
{
    let ghost fm = f.format();
    if f.numbers {
        if f.color {
            push_str(out, Style::Dim.as_str());
        }
        push_padded(out, number, f.width);
        if f.grid {
            push_char(out, ' ');
            push_char(out, '│');
            push_char(out, ' ');
        } else {
            push_char(out, ' ');
        }
        if f.color {
            push_str(out, Style::Reset.as_str());
        }
    }
    let ghost after_gutter = out@;
    let raw = string_of(line, 0, line.len());
    assert(line@.subrange(0, line@.len() as int) == line@);
    let marked = if f.show_all {
        visible_whitespace(raw.as_str())
    } else {
        raw
    };
    let body = if f.color {
        highlight(marked.as_str(), f.language.as_str())
    } else {
        marked
    };
    push_str(out, body.as_str());
    push_char(out, '\n');
    proof {
        if fm.numbers {
            let field = pad_left(decimal(number as nat), fm.width);
            let sep = if fm.grid {
                seq![' ', '│', ' ']
            } else {
                seq![' ']
            };
            if fm.color {
                assert(after_gutter =~= old(out)@ + (Style::Dim.code() + field + sep
                    + Style::Reset.code()));
            } else {
                assert(after_gutter =~= old(out)@ + (field + sep));
            }
        } else {
            assert(after_gutter =~= old(out)@ + gutter(number as nat, fm));
        }
        assert(body@ == line_body(line@, fm));
        assert(out@ =~= old(out)@ + formatted_line(number as nat, line@, fm));
    }
}

/// The executable form of a `LineFormat`.
struct LineSettings {
    numbers: bool,
    grid: bool,
    color: bool,
    show_all: bool,
    width: usize,
    language: String,
    source_numbers: bool,
}

impl LineSettings {
    /// The format these settings stand for.
    spec fn format(&self) -> LineFormat {
        LineFormat {
            numbers: self.numbers,
            grid: self.grid,
            color: self.color,
            show_all: self.show_all,
            width: self.width as nat,
            language: self.language@,
            source_numbers: self.source_numbers,
        }
    }
}

/// The name that selects the syntax, as text.
fn syntax_name_exec(options: &Options, file: &str) -> (r: String)
    ensures
        r@ == syntax_name(options@, file@),
{
    match &options.language {
        Some(l) => l.clone(),
        None => match &options.file_name {
            Some(n) => n.clone(),
            None => owned(file),
        },
    }
}

/// Whether line `n` lies inside the range.
fn in_range(range: Option<LineRange>, n: usize) -> (r: bool)
    ensures
        r == !out_of_range(range, n as int),
{
    match range {
        Some(r) => {
            if n < r.start {
                false
            } else {
                match r.end {
                    Some(e) => n <= e,
                    None => true,
                }
            }
        },
        None => true,
    }
}

/// Renders `content` (the text of `file`) as the options ask: `--plain`
/// alone writes the text exactly as it is; otherwise the line range,
/// squeezed blank lines, numbers with a gutter as wide as the line count,
/// visible whitespace and highlighting when `color` is on apply line by
/// line. Writing to a vector never fails, so the result is always `Ok`.
pub fn render(output: &mut Vec<u8>, content: &str, file: &str, options: &Options, color: bool) -> (r:
    Result<(), String>)
    ensures
        r is Ok,
        final(output)@ == old(output)@ + encode_utf8(rendered(content@, file@, options@, color)),
        verbatim(options@, color) ==> final(output)@ == old(output)@ + encode_utf8(content@),
{
    if options.plain && !options.show_all && !options.squeeze_blank && options.line_range.is_none()
        && !color {
        append_utf8(output, content);
        return Ok(());
    }
    let chars = chars_of(content);
    let lines = split_lines(&chars);
    let ghost ls = line_views(lines@);
    let count: usize = if lines.len() == 0 {
        1
    } else {
        lines.len()
    };
    let settings = LineSettings {
        numbers: show_numbers(options),
        grid: show_grid(options),
        color,
        show_all: options.show_all,
        width: decimal_len(count),
        language: syntax_name_exec(options, file),
        source_numbers: options.line_range.is_some(),
    };
    let ghost f = line_format(options@, file@, color, ls.len());
    assert(settings.format() == f);
    let range = options.line_range;
    let squeeze = options.squeeze_blank;
    let mut text = String::new();
    let mut blank_run = false;
    let mut display: usize = 0;
    let ghost mut emitted: Seq<(int, Seq<char>)> = seq![];
    let mut i: usize = 0;
    while i < lines.len()
        invariant
            i <= lines@.len(),
            ls == line_views(lines@),
            range == options@.line_range,
            squeeze == options@.squeeze_blank,
            settings.format() == f,
            settings.source_numbers == (range is Some),
            kept_lines(ls, range, squeeze) == emitted + kept_from(ls, i as int, blank_run, range, squeeze),
            text@ == formatted(emitted, f),
            display == emitted.len(),
            display <= i,
        decreases lines.len() - i,
    {
        let n: usize = i + 1;
        let blank = lines[i].len() == 0;
        assert(ls[i as int] == lines@[i as int]@);
        if !in_range(range, n) {
        } else if squeeze && blank && blank_run {
        } else {
            blank_run = blank;
            display = display + 1;
            let number: usize = if settings.source_numbers {
                n
            } else {
                display
            };
            let ghost entry = (n as int, ls[i as int]);
            let ghost next = emitted.push(entry);
            assert(next.drop_last() =~= emitted);
            push_line(&mut text, number, &lines[i], &settings);
            proof {
                assert(shown_number(next, f) == number as nat);
                assert(emitted + (seq![entry] + kept_from(ls, i + 1, blank_run, range, squeeze))
                    =~= next + kept_from(ls, i + 1, blank_run, range, squeeze));
                emitted = next;
            }
        }
        i = i + 1;
    }
    assert(kept_from(ls, i as int, blank_run, range, squeeze) == Seq::<(int, Seq<char>)>::empty());
    assert(emitted + Seq::<(int, Seq<char>)>::empty() =~= emitted);
    append_utf8(output, text.as_str());
    Ok(())
}

/// Writes the header line of a file. Writing to a vector never fails, so
/// the result is always `Ok`.
pub fn write_header(output: &mut Vec<u8>, file: &str, color: bool) -> (r: Result<(), String>)
    ensures
        r is Ok,
        final(output)@ == old(output)@ + encode_utf8(header(file@, color)),
{
    let mut text = String::new();
    if color {
        push_str(&mut text, Style::Dim.as_str());
    }
    push_char(&mut text, '─');
    push_char(&mut text, '─');
    push_char(&mut text, ' ');
    if color {
        push_str(&mut text, Style::Bold.as_str());
        push_str(&mut text, Style::Cyan.as_str());
    }
    push_str(&mut text, file);
    if color {
        push_str(&mut text, Style::Reset.as_str());
    }
    push_char(&mut text, ' ');
    if color {
        push_str(&mut text, Style::Dim.as_str());
    }
    let ghost before_rule = text@;
    let mut k: usize = 0;
    while k < 24
        invariant
            k <= 24,
            text@ == before_rule + repeat('─', k as nat),
        decreases 24 - k,
    {
        push_char(&mut text, '─');
        assert(repeat('─', (k + 1) as nat) =~= repeat('─', k as nat).push('─'));
        k = k + 1;
    }
    if color {
        push_str(&mut text, Style::Reset.as_str());
    }
    push_char(&mut text, '\n');
    assert(text@ =~= header(file@, color));
    append_utf8(output, text.as_str());
    Ok(())
}

/// The inputs to show: the files given, or standard input (`-`) when none is.
pub open spec fn input_names_of(o: OptionsModel) -> Seq<Seq<char>> {
    if o.files.len() == 0 {
        seq!["-"@]
    } else {
        o.files
    }
}

/// Whether headers are drawn for a set of inputs.
pub open spec fn with_headers(o: OptionsModel, input_count: nat, color: bool) -> bool {
    !o.plain && decorated(o, input_count > 1, color)
}

/// The output for input `idx`: with headers, a blank line before every
/// header but the first and the header itself, then the rendered text.
pub open spec fn input_part(
    names: Seq<Seq<char>>,
    contents: Seq<Seq<char>>,
    idx: int,
    o: OptionsModel,
    color: bool,
) -> Seq<char> {
    let head = if with_headers(o, names.len(), color) {
        (if idx > 0 {
            seq!['\n']
        } else {
            seq![]
        }) + header(
            match o.file_name {
                Some(n) => n,
                None => names[idx],
            },
            color,
        )
    } else {
        seq![]
    };
    head + rendered(contents[idx], names[idx], o, color)
}

/// The output for the first `k` inputs.
pub open spec fn document_upto(
    names: Seq<Seq<char>>,
    contents: Seq<Seq<char>>,
    k: int,
    o: OptionsModel,
    color: bool,
) -> Seq<char>
    decreases k,
{
    if k <= 0 {
        seq![]
    } else {
        document_upto(names, contents, k - 1, o, color) + input_part(names, contents, k - 1, o, color)
    }
}

/// The output for all inputs.
pub open spec fn document(names: Seq<Seq<char>>, contents: Seq<Seq<char>>, o: OptionsModel, color: bool) -> Seq<
    char,
> {
    document_upto(names, contents, names.len() as int, o, color)
}

/// The inputs to read: the files given, or `-` (standard input) when none is.
pub fn input_names(options: &Options) -> (r: Vec<String>)
    ensures
        string_views(r@) == input_names_of(options@),
{
    if options.files.len() == 0 {
        let r = vec![owned("-")];
        assert(string_views(r@) =~= seq!["-"@]);
        r
    } else {
        let r = options.files.clone();
        assert(string_views(r@) =~= string_views(options.files@));
        r
    }
}

/// Renders all inputs (`contents[i]` is the text of `names[i]`) into one
/// output: with decorations, each file gets a header, separated from the
/// previous file by a blank line.
pub fn render_inputs(names: &Vec<String>, contents: &Vec<String>, options: &Options, color: bool) -> (r: Vec<u8>)
    requires
        names.len() == contents.len(),
    ensures
        r@ == encode_utf8(document(string_views(names@), string_views(contents@), options@, color)),
{
    let ghost ns = string_views(names@);
    let ghost cs = string_views(contents@);
    let decorations = !options.plain && decorations_enabled(options, names.len() > 1, color);
    let mut out: Vec<u8> = Vec::new();
    let mut idx: usize = 0;
    assert(out@ =~= encode_utf8(Seq::<char>::empty()));
    while idx < names.len()
        invariant
            idx <= names@.len(),
            names@.len() == contents@.len(),
            ns == string_views(names@),
            cs == string_views(contents@),
            decorations == with_headers(options@, ns.len(), color),
            out@ == encode_utf8(document_upto(ns, cs, idx as int, options@, color)),
        decreases names.len() - idx,
    {
        let ghost before = document_upto(ns, cs, idx as int, options@, color);
        let ghost head_text: Seq<char> = seq![];
        assert(before + head_text =~= before);
        if decorations {
            if idx > 0 {
                let mut nl = String::new();
                push_char(&mut nl, '\n');
                assert(nl@ =~= seq!['\n']);
                append_utf8(&mut out, nl.as_str());
                proof {
                    lemma_encode_concat(before, seq!['\n']);
                    head_text = seq!['\n'];
                }
                assert(out@ == encode_utf8(before + head_text));
            }
            assert(out@ == encode_utf8(before + head_text));
            let shown = match &options.file_name {
                Some(n) => n.as_str(),
                None => names[idx].as_str(),
            };
            let _ = write_header(&mut out, shown, color);
            proof {
                lemma_encode_concat(before + head_text, header(shown@, color));
                assert(before + head_text + header(shown@, color) =~= before + (head_text + header(
                    shown@,
                    color,
                )));
                head_text = head_text + header(shown@, color);
            }
            assert(out@ == encode_utf8(before + head_text));
        }
        assert(out@ == encode_utf8(before + head_text));
        let _ = render(&mut out, contents[idx].as_str(), names[idx].as_str(), options, color);
        proof {
            lemma_encode_concat(before + head_text, rendered(cs[idx as int], ns[idx as int], options@, color));
            assert(input_part(ns, cs, idx as int, options@, color) =~= head_text + rendered(
                cs[idx as int],
                ns[idx as int],
                options@,
                color,
            ));
            assert(before + head_text + rendered(cs[idx as int], ns[idx as int], options@, color)
                =~= before + input_part(ns, cs, idx as int, options@, color));
        }
        idx = idx + 1;
    }
    out
}

} // verus!
