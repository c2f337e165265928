//! Laws on what the output looks like: how each language highlights its
//! lines, the extensions that select a language, how a colored line is put
//! together from its gutter, its whitespace marks and its highlighting, and
//! how the outputs of two files are joined.
use vstd::prelude::*;
use crate::display::{grid_shown, numbers_shown};
use crate::highlight::{
    colored_keywords, colored_words, is_word_char, extension_language, highlighted, language_of, named_language, rust_keywords,
    shell_keywords, visible, Language,
};
use crate::number::decimal;
use crate::options::OptionsModel;
use crate::render::{
    document, document_upto, gutter_width, header, input_part, kept_lines, lemma_find_first_char,
    lines_of, rendered, with_headers,
};
use crate::style::Style;
use crate::text::{char_is_whitespace, find, find_from, has_prefix, split_once, trim_start};

verus! {

/// Whether a language is highlighted as a configuration file.
pub open spec fn config_language(l: Language) -> bool {
    l == Language::Toml || l == Language::Yaml
}

/// TOML and YAML files are highlighted alike: every line of one comes out
/// as the same line of the other would.
pub proof fn law_config_languages_alike(line: Seq<char>, f1: Seq<char>, f2: Seq<char>)
    requires
        config_language(language_of(f1)),
        config_language(language_of(f2)),
    ensures
        highlighted(line, f1) == highlighted(line, f2),
{
}

/// Leading white space is what `trim_start` drops.
proof fn lemma_trim_blank(ws: Seq<char>, rest: Seq<char>)
    requires
        forall|i: int| 0 <= i < ws.len() ==> char_is_whitespace(#[trigger] ws[i]),
        rest.len() > 0,
        !char_is_whitespace(rest[0]),
    ensures
        trim_start(ws + rest) == rest,
    decreases ws.len(),
{
    if ws.len() == 0 {
        assert(ws + rest =~= rest);
    } else {
        assert((ws + rest)[0] == ws[0]);
        assert((ws + rest).drop_first() =~= ws.drop_first() + rest);
        lemma_trim_blank(ws.drop_first(), rest);
    }
}

/// In a TOML or YAML file, a comment line (white space, then `#`) is
/// dimmed green as a whole, whatever it holds.
pub proof fn law_config_comment(ws: Seq<char>, rest: Seq<char>, file: Seq<char>)
    requires
        config_language(language_of(file)),
        forall|i: int| 0 <= i < ws.len() ==> char_is_whitespace(#[trigger] ws[i]),
    ensures
        highlighted(ws + seq!['#'] + rest, file) == Style::Dim.code() + Style::Green.code() + ws
            + seq!['#'] + rest + Style::Reset.code(),
{
    let r = seq!['#'] + rest;
    assert(r[0] == '#');
    lemma_trim_blank(ws, r);
    assert(ws + seq!['#'] + rest =~= ws + r);
    assert(r.take(1) =~= seq!['#']);
}

/// In a TOML or YAML file, a line `key=value` whose key holds no `=` and
/// begins with neither white space nor `#` shows a cyan key, the `=`, and a
/// yellow value.
pub proof fn law_config_key_value(key: Seq<char>, value: Seq<char>, file: Seq<char>)
    requires
        config_language(language_of(file)),
        key.len() > 0,
        !char_is_whitespace(key[0]),
        key[0] != '#',
        forall|i: int| 0 <= i < key.len() ==> key[i] != '=',
    ensures
        highlighted(key + seq!['='] + value, file) == Style::Cyan.code() + key + Style::Reset.code()
            + seq!['='] + Style::Yellow.code() + value + Style::Reset.code(),
{
    let line = key + seq!['='] + value;
    assert(line[0] == key[0]);
    assert(trim_start(line) == line);
    assert(!has_prefix(line, seq!['#'])) by {
        if has_prefix(line, seq!['#']) {
            assert(line.take(1)[0] == line[0]);
        }
    }
    assert forall|m: int| 0 <= m < key.len() implies line[m] != '=' by {
        assert(line[m] == key[m]);
    }
    lemma_find_first_char(line, '=', 0, key.len() as int);
    assert(find(line, seq!['=']) == Some(key.len() as int));
    assert(line.take(key.len() as int) =~= key);
    assert(line.skip(key.len() + 1int) =~= value);
    assert(split_once(line, seq!['=']) == Some((key, value)));
}

/// In a Markdown file, a heading line (`#...`) is bold cyan, a fence line
/// (`` ```... ``) is magenta, and every other line is left as it is.
pub proof fn law_markdown_lines(rest: Seq<char>, line: Seq<char>, file: Seq<char>)
    requires
        language_of(file) == Language::Markdown,
    ensures
        highlighted(seq!['#'] + rest, file) == Style::Bold.code() + Style::Cyan.code() + seq!['#']
            + rest + Style::Reset.code(),
        highlighted(seq!['`', '`', '`'] + rest, file) == Style::Magenta.code() + seq!['`', '`', '`']
            + rest + Style::Reset.code(),
        (line.len() == 0 || (line[0] != '#' && line[0] != '`')) ==> highlighted(line, file) == line,
{
    let h = seq!['#'] + rest;
    assert(h.take(1) =~= seq!['#']);
    let f = seq!['`', '`', '`'] + rest;
    assert(f.take(3) =~= seq!['`', '`', '`']);
    assert(!has_prefix(f, seq!['#'])) by {
        if has_prefix(f, seq!['#']) {
            assert(f.take(1)[0] == f[0]);
        }
    }
    if line.len() == 0 || (line[0] != '#' && line[0] != '`') {
        if has_prefix(line, seq!['#']) {
            assert(line.take(1)[0] == line[0]);
        }
        if has_prefix(line, seq!['`', '`', '`']) {
            assert(line.take(3)[0] == line[0]);
        }
    }
}

/// In a Rust or shell file, a line `code // comment` whose code part holds
/// no `/` shows its code with keywords colored, then the comment, marker
/// included, dimmed green.
pub proof fn law_code_comment(code: Seq<char>, comment: Seq<char>, file: Seq<char>)
    requires
        language_of(file) == Language::Rust || language_of(file) == Language::Shell,
        forall|i: int| 0 <= i < code.len() ==> code[i] != '/',
    ensures
        highlighted(code + seq!['/', '/'] + comment, file) == colored_keywords(
            code,
            if language_of(file) == Language::Rust {
                rust_keywords()
            } else {
                shell_keywords()
            },
        ) + Style::Dim.code() + Style::Green.code() + seq!['/', '/'] + comment + Style::Reset.code(),
{
    let line = code + seq!['/', '/'] + comment;
    let n = code.len() as int;
    assert(line.subrange(n, n + 2) =~= seq!['/', '/']);
    assert forall|j: int| 0 <= j < n implies #[trigger] line.subrange(j, j + 2) != seq!['/', '/'] by {
        assert(line.subrange(j, j + 2)[0] == code[j]);
    }
    lemma_find_pair(line, seq!['/', '/'], 0, n);
    assert(line.take(n) =~= code);
    assert(line.skip(n + 2) =~= comment);
}

/// The first place where a two-character pattern occurs.
proof fn lemma_find_pair(s: Seq<char>, pat: Seq<char>, j: int, k: int)
    requires
        pat.len() == 2,
        0 <= j <= k,
        k + 2 <= s.len(),
        s.subrange(k, k + 2) == pat,
        forall|m: int| j <= m < k ==> #[trigger] s.subrange(m, m + 2) != pat,
    ensures
        find_from(s, pat, j) == Some(k),
    decreases k - j,
{
    if j < k {
        lemma_find_pair(s, pat, j + 1, k);
    }
}

/// Reading a run of word characters only extends the current word.
proof fn lemma_word_run(word: Seq<char>, run: Seq<char>, tail: Seq<char>, keywords: Seq<Seq<char>>)
    requires
        forall|i: int| 0 <= i < run.len() ==> is_word_char(#[trigger] run[i]),
    ensures
        colored_words(word, run + tail, keywords) == colored_words(word + run, tail, keywords),
    decreases run.len(),
{
    if run.len() == 0 {
        assert(run + tail =~= tail);
        assert(word + run =~= word);
    } else {
        let r = run.drop_first();
        assert((run + tail)[0] == run[0]);
        assert((run + tail).drop_first() =~= r + tail);
        assert(is_word_char(run[0]));
        lemma_word_run(word.push(run[0]), r, tail, keywords);
        assert(word.push(run[0]) + r =~= word + run);
    }
}

/// Keyword coloring goes word by word: a leading word (a run of letters,
/// digits and `_`) is wrapped in blue exactly when it is a keyword, and the
/// character that ends it, and everything after, is colored on its own.
pub proof fn law_keyword_words(
    word: Seq<char>,
    c: char,
    rest: Seq<char>,
    keywords: Seq<Seq<char>>,
)
    requires
        forall|i: int| 0 <= i < word.len() ==> is_word_char(#[trigger] word[i]),
        !is_word_char(c),
    ensures
        colored_keywords(word + seq![c] + rest, keywords) == (if keywords.contains(word) {
            Style::Blue.code() + word + Style::Reset.code()
        } else {
            word
        }) + seq![c] + colored_keywords(rest, keywords),
{
    lemma_word_run(seq![], word, seq![c] + rest, keywords);
    assert(word + seq![c] + rest =~= word + (seq![c] + rest));
    assert(Seq::<char>::empty() + word =~= word);
    let t = seq![c] + rest;
    assert(t[0] == c);
    assert(t.drop_first() =~= rest);
}

/// Two files in one output: with headers, each file's header line comes
/// before its text and a blank line separates the files; without headers,
/// the texts follow each other directly.
pub proof fn law_two_files(
    n0: Seq<char>,
    c0: Seq<char>,
    n1: Seq<char>,
    c1: Seq<char>,
    o: OptionsModel,
    color: bool,
)
    ensures
        ({
            let names = seq![n0, n1];
            let contents = seq![c0, c1];
            let s0 = match o.file_name {
                Some(n) => n,
                None => n0,
            };
            let s1 = match o.file_name {
                Some(n) => n,
                None => n1,
            };
            document(names, contents, o, color) == if with_headers(o, 2, color) {
                header(s0, color) + rendered(c0, n0, o, color) + seq!['\n'] + header(s1, color)
                    + rendered(c1, n1, o, color)
            } else {
                rendered(c0, n0, o, color) + rendered(c1, n1, o, color)
            }
        }),
{
    let names = seq![n0, n1];
    let contents = seq![c0, c1];
    assert(names.len() == 2);
    assert(document_upto(names, contents, 0, o, color) == Seq::<char>::empty());
    let d1 = document_upto(names, contents, 1, o, color);
    assert(d1 == Seq::<char>::empty() + input_part(names, contents, 0, o, color));
    let d2 = document_upto(names, contents, 2, o, color);
    assert(d2 == d1 + input_part(names, contents, 1, o, color));
    if with_headers(o, 2, color) {
        assert(d2 =~= header(match o.file_name {
            Some(n) => n,
            None => n0,
        }, color) + rendered(c0, n0, o, color) + seq!['\n'] + header(match o.file_name {
            Some(n) => n,
            None => n1,
        }, color) + rendered(c1, n1, o, color));
    } else {
        assert(d2 =~= rendered(c0, n0, o, color) + rendered(c1, n1, o, color));
    }
}

/// The file extensions the viewer documents in its language list.
pub open spec fn documented_extensions() -> Seq<Seq<char>> {
    seq![
        "rs"@,
        "toml"@,
        "yaml"@,
        "yml"@,
        "json"@,
        "md"@,
        "markdown"@,
        "sh"@,
        "bash"@,
        "zsh"@,
        "fish"@,
    ]
}

/// Every documented extension selects a highlighted language, and where
/// the extension is also a language name (`yml`, `md`, `sh`, ...), it
/// selects the language of that name.
pub proof fn law_documented_extensions(e: Seq<char>)
    requires
        documented_extensions().contains(e),
    ensures
        extension_language(e) != Language::Plain,
        named_language(e) matches Some(l) ==> extension_language(e) == l,
{
    reveal_strlit("rs");
    reveal_strlit("rust");
    reveal_strlit("toml");
    reveal_strlit("yaml");
    reveal_strlit("yml");
    reveal_strlit("json");
    reveal_strlit("md");
    reveal_strlit("markdown");
    reveal_strlit("sh");
    reveal_strlit("shell");
    reveal_strlit("bash");
    reveal_strlit("zsh");
    reveal_strlit("fish");
    reveal_strlit("plain");
    reveal_strlit("text");
    let d = documented_extensions();
    let i = choose|i: int| 0 <= i < d.len() && d[i] == e;
    assert(0 <= i < 11);
    if i == 0 {
        assert(e == "rs"@);
        assert(e.len() == 2 && e[0] == 'r' && e[1] == 's');
    } else if i == 1 {
        assert(e == "toml"@);
        assert(e.len() == 4 && e[0] == 't' && e[1] == 'o');
    } else if i == 2 {
        assert(e == "yaml"@);
        assert(e.len() == 4 && e[0] == 'y' && e[1] == 'a');
    } else if i == 3 {
        assert(e == "yml"@);
        assert(e.len() == 3 && e[0] == 'y' && e[1] == 'm');
    } else if i == 4 {
        assert(e == "json"@);
        assert(e.len() == 4 && e[0] == 'j' && e[1] == 's');
    } else if i == 5 {
        assert(e == "md"@);
        assert(e.len() == 2 && e[0] == 'm' && e[1] == 'd');
    } else if i == 6 {
        assert(e == "markdown"@);
        assert(e.len() == 8 && e[0] == 'm' && e[1] == 'a');
    } else if i == 7 {
        assert(e == "sh"@);
        assert(e.len() == 2 && e[0] == 's' && e[1] == 'h');
    } else if i == 8 {
        assert(e == "bash"@);
        assert(e.len() == 4 && e[0] == 'b' && e[1] == 'a');
    } else if i == 9 {
        assert(e == "zsh"@);
        assert(e.len() == 3 && e[0] == 'z' && e[1] == 's');
    } else {
        assert(e == "fish"@);
        assert(e.len() == 4 && e[0] == 'f' && e[1] == 'i');
    }
}

/// The name that selects the syntax of a file: `--language`, else
/// `--file-name`, else the file's own name.
pub open spec fn syntax_of(o: OptionsModel, file: Seq<char>) -> Seq<char> {
    match o.language {
        Some(l) => l,
        None => match o.file_name {
            Some(n) => n,
            None => file,
        },
    }
}

/// A colored file of one line (without a range) is the dimmed gutter `1 │ `
/// (or `1 ` without the grid) when numbers are shown, then the line, its
/// white space marked with `--show-all`, highlighted for its syntax, then a
/// newline: marking and highlighting both apply.
pub proof fn law_one_line_colored(line: Seq<char>, file: Seq<char>, o: OptionsModel)
    requires
        forall|i: int| 0 <= i < line.len() ==> line[i] != '\n',
        line.len() == 0 || line.last() != '\r',
        o.line_range is None,
    ensures
        rendered(line + seq!['\n'], file, o, true) == (if numbers_shown(o) {
            Style::Dim.code() + seq!['1'] + (if grid_shown(o) {
                seq![' ', '│', ' ']
            } else {
                seq![' ']
            }) + Style::Reset.code()
        } else {
            seq![]
        }) + highlighted(
            if o.show_all {
                visible(line)
            } else {
                line
            },
            syntax_of(o, file),
        ) + seq!['\n'],
{
    let s = line + seq!['\n'];
    assert forall|m: int| 0 <= m < line.len() implies s[m] != '\n' by {
        assert(s[m] == line[m]);
    }
    lemma_find_first_char(s, '\n', 0, line.len() as int);
    assert(s.take(line.len() as int) =~= line);
    assert(s.skip(line.len() + 1int) =~= Seq::<char>::empty());
    assert(find(s, seq!['\n']) == Some(line.len() as int));
    assert(split_once(s, seq!['\n']) == Some((line, Seq::<char>::empty())));
    assert(lines_of(Seq::<char>::empty()) == Seq::<Seq<char>>::empty());
    assert(crate::render::strip_cr(line) == line);
    let ls = lines_of(s);
    assert(ls =~= seq![line]);
    assert(crate::render::kept_from(ls, 1, line.len() == 0, None, o.squeeze_blank)
        == Seq::<(int, Seq<char>)>::empty());
    let ks = kept_lines(ls, o.line_range, o.squeeze_blank);
    assert(ks =~= seq![(1int, line)]);
    assert(decimal(1) =~= seq!['1']) by {
        assert(((1nat + 48) as u32) as char == '1');
    }
    assert(gutter_width(1) == 1);
    assert(ks.drop_last() =~= Seq::<(int, Seq<char>)>::empty());
    let f = crate::render::line_format(o, file, true, 1);
    assert(f.language == syntax_of(o, file));
    assert(crate::render::shown_number(ks, f) == 1);
    assert(crate::number::pad_left(decimal(1), 1) == seq!['1']);
    assert(crate::render::formatted(ks.drop_last(), f) == Seq::<char>::empty());
    assert(crate::render::formatted(ks, f) =~= crate::render::formatted_line(1, line, f));
    assert(rendered(s, file, o, true) == crate::render::formatted(ks, f));
}

} // verus!
