//! Language detection, light syntax highlighting and whitespace marking of
//! single lines.
use vstd::prelude::*;
use crate::style::Style;
use crate::text::{
    char_is_alphanumeric, chars_are, chars_eq, chars_of, has_prefix, is_alphanumeric, lower,
    lower_exec, push_char, push_chars, push_str, replace_all, replace_exec, split_once,
    split_once_exec, starts_with, owned, string_of, trim_start, trim_start_index,
};

verus! {

/// The syntaxes the viewer knows.
#[derive(Clone, Copy, Debug, PartialEq, Eq, Structural)]
pub enum Language {
    Rust,
    Toml,
    Yaml,
    Json,
    Markdown,
    Shell,
    Plain,
}

/// What `Path::new(path).extension()` gives for `path`, as text.
pub uninterp spec fn path_extension(path: Seq<char>) -> Option<Seq<char>>;

/// No character of `s` is `c`.
pub open spec fn lacks(s: Seq<char>, c: char) -> bool {
    forall|i: int| 0 <= i < s.len() ==> s[i] != c
}

/// The `.` at `k` is the last one of `path`, it is not the first character
/// of its component, something follows it, and nothing in the path could
/// be a separator or a prefix on any platform but `/` (no `\`, no `:`, no
/// leading `//`).
pub open spec fn dotted_at(path: Seq<char>, k: int) -> bool {
    &&& 1 <= k < path.len() - 1
    &&& path[k] == '.'
    &&& path[k - 1] != '/'
    &&& lacks(path.skip(k + 1), '.')
    &&& lacks(path.skip(k + 1), '/')
    &&& lacks(path, '\\')
    &&& lacks(path, ':')
    &&& !has_prefix(path, seq!['/', '/'])
}

/// What the documentation of `Path::extension` settles plainly:
/// `Some(None)` for a path without any `.`, `Some(Some(x))` for a path that
/// ends in `.x` as `dotted_at` describes, and `None` where the component
/// rules of `Path` are left to decide.
pub open spec fn evident_extension(path: Seq<char>) -> Option<Option<Seq<char>>> {
    if lacks(path, '.') {
        Some(None)
    } else if exists|k: int| dotted_at(path, k) {
        let k = choose|k: int| dotted_at(path, k);
        Some(Some(path.skip(k + 1)))
    } else {
        None
    }
}

/// Calls `std::path::Path::extension` on `path`. The contract ties the
/// result to the name `path_extension`, and states what the documentation
/// gives plainly: no extension without a `.`, the text after the last `.`
/// of a simple final component (`evident_extension`), and never a `.` in an
/// extension. The component rules of `Path` in general are not restated.
#[verifier::external_body]
fn extension_of(path: &str) -> (r: Option<String>)
    ensures
        match path_extension(path@) {
            Some(e) => r matches Some(x) && x@ == e,
            None => r is None,
        },
        evident_extension(path@) matches Some(e) ==> match e {
            Some(x) => r matches Some(y) && y@ == x,
            None => r is None,
        },
        r matches Some(y) ==> lacks(y@, '.'),
{
    std::path::Path::new(path).extension().and_then(|e| e.to_str()).map(|e| e.to_owned())
}

/// Appends the escape sequence of `style` to `out`.
pub fn push_style(out: &mut String, style: Style)
    ensures
        final(out)@ == old(out)@ + style.code(),
{
    push_str(out, style.as_str());
}

/// The views of a list of string slices.
pub open spec fn views(keywords: Seq<&str>) -> Seq<Seq<char>> {
    keywords.map_values(|k: &str| k@)
}

/// The language that an explicit name selects (`rust`, `md`, `text`, ...).
pub open spec fn named_language(name: Seq<char>) -> Option<Language> {
    if name == "rust"@ {
        Some(Language::Rust)
    } else if name == "toml"@ {
        Some(Language::Toml)
    } else if name == "yaml"@ || name == "yml"@ {
        Some(Language::Yaml)
    } else if name == "json"@ {
        Some(Language::Json)
    } else if name == "markdown"@ || name == "md"@ {
        Some(Language::Markdown)
    } else if name == "shell"@ || name == "sh"@ || name == "bash"@ || name == "zsh"@ || name
        == "fish"@ {
        Some(Language::Shell)
    } else if name == "plain"@ || name == "text"@ {
        Some(Language::Plain)
    } else {
        None
    }
}

/// The language of a file extension (already lower-case).
pub open spec fn extension_language(ext: Seq<char>) -> Language {
    if ext == "rs"@ {
        Language::Rust
    } else if ext == "toml"@ {
        Language::Toml
    } else if ext == "yaml"@ || ext == "yml"@ {
        Language::Yaml
    } else if ext == "json"@ {
        Language::Json
    } else if ext == "md"@ || ext == "markdown"@ {
        Language::Markdown
    } else if ext == "sh"@ || ext == "bash"@ || ext == "zsh"@ || ext == "fish"@ {
        Language::Shell
    } else {
        Language::Plain
    }
}

/// The language of a file name or language name: an explicit name first,
/// then the extension of the lower-cased name, else plain text.
pub open spec fn language_of(file: Seq<char>) -> Language {
    let name = lower(file);
    match named_language(name) {
        Some(l) => l,
        None => match path_extension(name) {
            Some(e) => extension_language(e),
            None => Language::Plain,
        },
    }
}

/// A character that belongs to a word (`char::is_alphanumeric` or `_`).
pub open spec fn is_word_char(c: char) -> bool {
    char_is_alphanumeric(c) || c == '_'
}

/// A finished word: wrapped in blue when it is a keyword.
pub open spec fn flushed(word: Seq<char>, keywords: Seq<Seq<char>>) -> Seq<char> {
    if keywords.contains(word) {
        Style::Blue.code() + word + Style::Reset.code()
    } else {
        word
    }
}

/// Keyword coloring of `rest`, with `word` the part of a word already read.
pub open spec fn colored_words(word: Seq<char>, rest: Seq<char>, keywords: Seq<Seq<char>>) -> Seq<
    char,
>
    decreases rest.len(),
{
    if rest.len() == 0 {
        flushed(word, keywords)
    } else if is_word_char(rest[0]) {
        colored_words(word.push(rest[0]), rest.drop_first(), keywords)
    } else {
        flushed(word, keywords) + seq![rest[0]] + colored_words(seq![], rest.drop_first(), keywords)
    }
}

/// `line` with every maximal run of word characters that is a keyword
/// wrapped in blue.
pub open spec fn colored_keywords(line: Seq<char>, keywords: Seq<Seq<char>>) -> Seq<char> {
    colored_words(seq![], line, keywords)
}

/// A comment tail `marker + comment`, dimmed green.
pub open spec fn comment_tail(marker: Seq<char>, comment: Seq<char>) -> Seq<char> {
    Style::Dim.code() + Style::Green.code() + marker + comment + Style::Reset.code()
}

/// Highlighting for code: keywords before the first `//` (else the first
/// `#`) are colored, and the comment after it is dimmed green.
pub open spec fn code_highlighted(line: Seq<char>, keywords: Seq<Seq<char>>) -> Seq<char> {
    match split_once(line, seq!['/', '/']) {
        Some((code, comment)) => colored_keywords(code, keywords) + comment_tail(
            seq!['/', '/'],
            comment,
        ),
        None => match split_once(line, seq!['#']) {
            Some((code, comment)) => colored_keywords(code, keywords) + comment_tail(
                seq!['#'],
                comment,
            ),
            None => colored_keywords(line, keywords),
        },
    }
}

/// `key sep value` with a cyan key and a yellow value.
pub open spec fn key_value(key: Seq<char>, sep: char, value: Seq<char>) -> Seq<char> {
    Style::Cyan.code() + key + Style::Reset.code() + seq![sep] + Style::Yellow.code() + value
        + Style::Reset.code()
}

/// Highlighting for TOML and YAML: comment lines dimmed green, else the
/// first `=` (or else the first `:`) separates a key from a value.
pub open spec fn config_highlighted(line: Seq<char>) -> Seq<char> {
    if has_prefix(trim_start(line), seq!['#']) {
        Style::Dim.code() + Style::Green.code() + line + Style::Reset.code()
    } else {
        match split_once(line, seq!['=']) {
            Some((key, value)) => key_value(key, '=', value),
            None => match split_once(line, seq![':']) {
                Some((key, value)) => key_value(key, ':', value),
                None => line,
            },
        }
    }
}

/// `word` wrapped in magenta.
pub open spec fn magenta(word: Seq<char>) -> Seq<char> {
    Style::Magenta.code() + word + Style::Reset.code()
}

/// Highlighting for JSON: `true`, then `false`, then `null` replaced by
/// magenta copies of themselves.
pub open spec fn json_highlighted(line: Seq<char>) -> Seq<char> {
    let t = seq!['t', 'r', 'u', 'e'];
    let f = seq!['f', 'a', 'l', 's', 'e'];
    let n = seq!['n', 'u', 'l', 'l'];
    replace_all(replace_all(replace_all(line, t, magenta(t)), f, magenta(f)), n, magenta(n))
}

/// Highlighting for Markdown: headings bold cyan, fences magenta.
pub open spec fn markdown_highlighted(line: Seq<char>) -> Seq<char> {
    if has_prefix(line, seq!['#']) {
        Style::Bold.code() + Style::Cyan.code() + line + Style::Reset.code()
    } else if has_prefix(line, seq!['`', '`', '`']) {
        Style::Magenta.code() + line + Style::Reset.code()
    } else {
        line
    }
}

/// The Rust keywords that are colored.
pub open spec fn rust_keywords() -> Seq<Seq<char>> {
    seq![
        "fn"@,
        "let"@,
        "mut"@,
        "pub"@,
        "use"@,
        "mod"@,
        "struct"@,
        "enum"@,
        "impl"@,
        "match"@,
        "if"@,
        "else"@,
        "return"@,
        "const"@,
        "trait"@,
    ]
}

/// The shell keywords that are colored.
pub open spec fn shell_keywords() -> Seq<Seq<char>> {
    seq![
        "if"@,
        "then"@,
        "fi"@,
        "for"@,
        "in"@,
        "do"@,
        "done"@,
        "case"@,
        "esac"@,
        "function"@,
        "export"@,
    ]
}

/// `line` highlighted for the language of `file`.
pub open spec fn highlighted(line: Seq<char>, file: Seq<char>) -> Seq<char> {
    match language_of(file) {
        Language::Rust => code_highlighted(line, rust_keywords()),
        Language::Toml | Language::Yaml => config_highlighted(line),
        Language::Json => json_highlighted(line),
        Language::Markdown => markdown_highlighted(line),
        Language::Shell => code_highlighted(line, shell_keywords()),
        Language::Plain => line,
    }
}

/// How one character is shown with `--show-all`.
pub open spec fn visible_char(c: char) -> Seq<char> {
    if c == '\t' {
        seq!['→', ' ', ' ', ' ']
    } else if c == ' ' {
        seq!['·']
    } else {
        seq![c]
    }
}

/// The characters of `s`, each shown as `visible_char` shows it.
pub open spec fn visible_chars(s: Seq<char>) -> Seq<char>
    decreases s.len(),
{
    if s.len() == 0 {
        seq![]
    } else {
        visible_chars(s.drop_last()) + visible_char(s.last())
    }
}

/// A line with tabs, spaces and its end made visible.
pub open spec fn visible(line: Seq<char>) -> Seq<char> {
    visible_chars(line) + seq!['¶']
}

/// Whether `name` spells `lit`.
fn is_named(name: &Vec<char>, lit: &str) -> (r: bool)
    ensures
        r == (name@ == lit@),
{
    chars_are(name, lit)
}

/// The language of a file name or language name: explicit names such as
/// `rust`, `md` or `text` first (ignoring ASCII case), then the extension.
pub fn language(file: &str) -> (r: Language)
    ensures
        r == language_of(file@),
        named_language(lower(file@)) is None ==> (evident_extension(lower(file@)) matches Some(e)
            ==> r == match e {
            Some(x) => extension_language(x),
            None => Language::Plain,
        }),
{
    let name = lower_exec(&chars_of(file));
    if is_named(&name, "rust") {
        return Language::Rust;
    }
    if is_named(&name, "toml") {
        return Language::Toml;
    }
    if is_named(&name, "yaml") || is_named(&name, "yml") {
        return Language::Yaml;
    }
    if is_named(&name, "json") {
        return Language::Json;
    }
    if is_named(&name, "markdown") || is_named(&name, "md") {
        return Language::Markdown;
    }
    if is_named(&name, "shell") || is_named(&name, "sh") || is_named(&name, "bash") || is_named(
        &name,
        "zsh",
    ) || is_named(&name, "fish") {
        return Language::Shell;
    }
    if is_named(&name, "plain") || is_named(&name, "text") {
        return Language::Plain;
    }
    let lowered = string_of(&name, 0, name.len());
    assert(name@.subrange(0, name@.len() as int) == name@);
    match extension_of(lowered.as_str()) {
        Some(ext) => {
            let e = chars_of(ext.as_str());
            if is_named(&e, "rs") {
                Language::Rust
            } else if is_named(&e, "toml") {
                Language::Toml
            } else if is_named(&e, "yaml") || is_named(&e, "yml") {
                Language::Yaml
            } else if is_named(&e, "json") {
                Language::Json
            } else if is_named(&e, "md") || is_named(&e, "markdown") {
                Language::Markdown
            } else if is_named(&e, "sh") || is_named(&e, "bash") || is_named(&e, "zsh") || is_named(
                &e,
                "fish",
            ) {
                Language::Shell
            } else {
                Language::Plain
            }
        },
        None => Language::Plain,
    }
}

/// Whether `word` is one of `keywords`.
fn is_keyword(word: &Vec<char>, keywords: &Vec<Vec<char>>, ghost_keywords: Ghost<Seq<Seq<char>>>) -> (r:
    bool)
    requires
        keywords@.len() == ghost_keywords@.len(),
        forall|i: int| 0 <= i < keywords@.len() ==> #[trigger] keywords@[i]@ == ghost_keywords@[i],
    ensures
        r == ghost_keywords@.contains(word@),
{
    let mut i: usize = 0;
    while i < keywords.len()
        invariant
            i <= keywords@.len(),
            keywords@.len() == ghost_keywords@.len(),
            forall|j: int| 0 <= j < keywords@.len() ==> #[trigger] keywords@[j]@ == ghost_keywords@[j],
            forall|j: int| 0 <= j < i ==> ghost_keywords@[j] != word@,
        decreases keywords.len() - i,
    {
        if chars_eq(&keywords[i], word) {
            assert(ghost_keywords@[i as int] == word@);
            return true;
        }
        i = i + 1;
    }
    false
}

/// Appends a finished word, colored blue when it is a keyword.
fn push_word(
    out: &mut String,
    word: &Vec<char>,
    keywords: &Vec<Vec<char>>,
    ghost_keywords: Ghost<Seq<Seq<char>>>,
)
    requires
        keywords@.len() == ghost_keywords@.len(),
        forall|i: int| 0 <= i < keywords@.len() ==> #[trigger] keywords@[i]@ == ghost_keywords@[i],
    ensures
        final(out)@ == old(out)@ + flushed(word@, ghost_keywords@),
{
    if is_keyword(word, keywords, ghost_keywords) {
        push_style(out, Style::Blue);
        push_chars(out, word, 0, word.len());
        push_style(out, Style::Reset);
    } else {
        push_chars(out, word, 0, word.len());
    }
    assert(word@.subrange(0, word@.len() as int) == word@);
}

/// Colors the keywords of a line: every maximal run of alphanumeric
/// characters and `_` that is one of `keywords` is wrapped in blue.
pub fn color_keywords(line: &str, keywords: &[&str]) -> (r: String)
    ensures
        r@ == colored_keywords(line@, views(keywords@)),
{
    let ghost kws = views(keywords@);
    let mut kw: Vec<Vec<char>> = Vec::new();
    let mut k: usize = 0;
    while k < keywords.len()
        invariant
            k <= keywords@.len(),
            kws == views(keywords@),
            kw@.len() == k,
            forall|i: int| 0 <= i < k ==> #[trigger] kw@[i]@ == kws[i],
        decreases keywords.len() - k,
    {
        kw.push(chars_of(keywords[k]));
        k = k + 1;
    }
    let chars = chars_of(line);
    let mut out = String::new();
    let mut word: Vec<char> = Vec::new();
    let mut i: usize = 0;
    assert(chars@.skip(0) == chars@);
    while i < chars.len()
        invariant
            i <= chars@.len(),
            chars@ == line@,
            kw@.len() == kws.len(),
            forall|j: int| 0 <= j < kw@.len() ==> #[trigger] kw@[j]@ == kws[j],
            colored_keywords(line@, kws) == out@ + colored_words(word@, chars@.skip(i as int), kws),
        decreases chars.len() - i,
    {
        let c = chars[i];
        assert(chars@.skip(i as int)[0] == c);
        assert(chars@.skip(i as int).drop_first() == chars@.skip(i + 1));
        if is_alphanumeric(c) || c == '_' {
            word.push(c);
        } else {
            push_word(&mut out, &word, &kw, Ghost(kws));
            push_char(&mut out, c);
            word = Vec::new();
            assert(word@ == Seq::<char>::empty());
        }
        i = i + 1;
    }
    assert(chars@.skip(i as int).len() == 0);
    push_word(&mut out, &word, &kw, Ghost(kws));
    out
}

/// Appends `marker + comment` dimmed green.
fn push_comment(out: &mut String, marker: &Vec<char>, comment: &String)
    ensures
        final(out)@ == old(out)@ + comment_tail(marker@, comment@),
{
    push_style(out, Style::Dim);
    push_style(out, Style::Green);
    push_chars(out, marker, 0, marker.len());
    assert(marker@.subrange(0, marker@.len() as int) == marker@);
    push_str(out, comment.as_str());
    push_style(out, Style::Reset);
}

/// Highlights a line of code: keywords before the first `//` (or else the
/// first `#`) are colored and the comment after it is dimmed green.
pub fn highlight_code(line: &str, keywords: &[&str]) -> (r: String)
    ensures
        r@ == code_highlighted(line@, views(keywords@)),
{
    let chars = chars_of(line);
    let slashes = vec!['/', '/'];
    assert(slashes@ == seq!['/', '/']);
    match split_once_exec(&chars, &slashes) {
        Some((code, comment)) => {
            let mut out = color_keywords(code.as_str(), keywords);
            push_comment(&mut out, &slashes, &comment);
            out
        },
        None => {
            let hash = vec!['#'];
            assert(hash@ == seq!['#']);
            match split_once_exec(&chars, &hash) {
                Some((code, comment)) => {
                    let mut out = color_keywords(code.as_str(), keywords);
                    push_comment(&mut out, &hash, &comment);
                    out
                },
                None => color_keywords(line, keywords),
            }
        },
    }
}

/// Appends `key sep value` with a cyan key and a yellow value.
fn push_key_value(out: &mut String, key: &String, sep: char, value: &String)
    ensures
        final(out)@ == old(out)@ + key_value(key@, sep, value@),
{
    push_style(out, Style::Cyan);
    push_str(out, key.as_str());
    push_style(out, Style::Reset);
    push_char(out, sep);
    push_style(out, Style::Yellow);
    push_str(out, value.as_str());
    push_style(out, Style::Reset);
}

/// `line` between two styles and a reset.
fn wrapped(line: &str, first: Style, second: Option<Style>) -> (r: String)
    ensures
        r@ == first.code() + match second {
            Some(s) => s.code(),
            None => Seq::<char>::empty(),
        } + line@ + Style::Reset.code(),
{
    let mut out = String::new();
    push_style(&mut out, first);
    match second {
        Some(s) => push_style(&mut out, s),
        None => {},
    }
    push_str(&mut out, line);
    push_style(&mut out, Style::Reset);
    out
}

/// Highlights a TOML or YAML line: comment lines are dimmed green, else
/// the key before the first `=` (or else `:`) is cyan and the value yellow.
pub fn highlight_config(line: &str) -> (r: String)
    ensures
        r@ == config_highlighted(line@),
{
    let chars = chars_of(line);
    let start = trim_start_index(&chars);
    let ghost t = chars@.skip(start as int);
    if start < chars.len() {
        assert(t[0] == chars@[start as int]);
        assert(t.take(1) =~= seq![t[0]]);
    }
    if start < chars.len() && chars[start] == '#' {
        assert(has_prefix(trim_start(line@), seq!['#']));
        return wrapped(line, Style::Dim, Some(Style::Green));
    }
    if start < chars.len() {
        assert(t.take(1)[0] != seq!['#'][0]);
    }
    assert(!has_prefix(trim_start(line@), seq!['#']));
    let eq = vec!['='];
    assert(eq@ == seq!['=']);
    match split_once_exec(&chars, &eq) {
        Some((key, value)) => {
            let mut out = String::new();
            push_key_value(&mut out, &key, '=', &value);
            out
        },
        None => {
            let colon = vec![':'];
            assert(colon@ == seq![':']);
            match split_once_exec(&chars, &colon) {
                Some((key, value)) => {
                    let mut out = String::new();
                    push_key_value(&mut out, &key, ':', &value);
                    out
                },
                None => owned(line),
            }
        },
    }
}

/// Replaces every occurrence of `word` by a magenta copy of itself.
fn magenta_words(line: &str, word: &str) -> (r: String)
    requires
        word@.len() > 0,
    ensures
        r@ == replace_all(line@, word@, magenta(word@)),
{
    let chars = chars_of(line);
    let pat = chars_of(word);
    let colored = wrapped(word, Style::Magenta, None);
    assert(colored@ == magenta(word@));
    replace_exec(&chars, &pat, colored.as_str())
}

/// Highlights a JSON line: `true`, `false` and `null` become magenta.
pub fn highlight_json(line: &str) -> (r: String)
    ensures
        r@ == json_highlighted(line@),
{
    proof {
        reveal_strlit("true");
        reveal_strlit("false");
        reveal_strlit("null");
    }
    assert("true"@ == seq!['t', 'r', 'u', 'e']);
    assert("false"@ == seq!['f', 'a', 'l', 's', 'e']);
    assert("null"@ == seq!['n', 'u', 'l', 'l']);
    let a = magenta_words(line, "true");
    let b = magenta_words(a.as_str(), "false");
    magenta_words(b.as_str(), "null")
}

/// Highlights a Markdown line: headings bold cyan, code fences magenta.
pub fn highlight_markdown(line: &str) -> (r: String)
    ensures
        r@ == markdown_highlighted(line@),
{
    let chars = chars_of(line);
    let hash = vec!['#'];
    assert(hash@ == seq!['#']);
    if starts_with(&chars, &hash) {
        return wrapped(line, Style::Bold, Some(Style::Cyan));
    }
    let fence = vec!['`', '`', '`'];
    assert(fence@ == seq!['`', '`', '`']);
    if starts_with(&chars, &fence) {
        return wrapped(line, Style::Magenta, None);
    }
    owned(line)
}

/// The Rust keywords, as string slices.
fn rust_keyword_list() -> (r: Vec<&'static str>)
    ensures
        views(r@) == rust_keywords(),
{
    let r = vec![
        "fn",
        "let",
        "mut",
        "pub",
        "use",
        "mod",
        "struct",
        "enum",
        "impl",
        "match",
        "if",
        "else",
        "return",
        "const",
        "trait",
    ];
    assert(views(r@) =~= rust_keywords());
    r
}

/// The shell keywords, as string slices.
fn shell_keyword_list() -> (r: Vec<&'static str>)
    ensures
        views(r@) == shell_keywords(),
{
    let r = vec![
        "if",
        "then",
        "fi",
        "for",
        "in",
        "do",
        "done",
        "case",
        "esac",
        "function",
        "export",
    ];
    assert(views(r@) =~= shell_keywords());
    r
}

/// Highlights a line for the language of `file` (a file name or a language name).
pub fn highlight(line: &str, file: &str) -> (r: String)
    ensures
        r@ == highlighted(line@, file@),
{
    match language(file) {
        Language::Rust => {
            let kw = rust_keyword_list();
            highlight_code(line, kw.as_slice())
        },
        Language::Toml | Language::Yaml => highlight_config(line),
        Language::Json => highlight_json(line),
        Language::Markdown => highlight_markdown(line),
        Language::Shell => {
            let kw = shell_keyword_list();
            highlight_code(line, kw.as_slice())
        },
        Language::Plain => owned(line),
    }
}

/// Makes whitespace visible: a tab becomes `→` and three spaces, a space
/// becomes `·`, and `¶` marks the end of the line.
pub fn visible_whitespace(line: &str) -> (r: String)
    ensures
        r@ == visible(line@),
{
    let chars = chars_of(line);
    let mut out = String::new();
    let mut i: usize = 0;
    while i < chars.len()
        invariant
            i <= chars@.len(),
            out@ == visible_chars(chars@.take(i as int)),
        decreases chars.len() - i,
    {
        let c = chars[i];
        if c == '\t' {
            push_char(&mut out, '→');
            push_char(&mut out, ' ');
            push_char(&mut out, ' ');
            push_char(&mut out, ' ');
        } else if c == ' ' {
            push_char(&mut out, '·');
        } else {
            push_char(&mut out, c);
        }
        assert(chars@.take(i + 1).drop_last() == chars@.take(i as int));
        assert(out@ == visible_chars(chars@.take(i + 1)));
        i = i + 1;
    }
    assert(chars@.take(i as int) == chars@);
    push_char(&mut out, '¶');
    out
}

} // verus!
