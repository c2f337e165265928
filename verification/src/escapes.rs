//! Colors only add escape sequences: a model of what a terminal shows, the
//! removal of the style codes from a text, and the proofs that a
//! highlighted line, a colored header and a colored rendering come back to
//! their uncolored text either way.
use vstd::prelude::*;
use crate::highlight::{
    code_highlighted, colored_keywords, colored_words, comment_tail, config_highlighted, flushed,
    highlighted, json_highlighted, key_value, language_of, magenta, markdown_highlighted,
    Language,
};
use crate::highlight::{lacks, visible, visible_char, visible_chars};
use crate::laws::{
    joined, law_shown_lines_are_file_lines, lemma_formatted_plain, lemma_kept_all, numbered_from,
};
use crate::number::{decimal, digit_char, pad_left};
use crate::options::OptionsModel;
use crate::render::{
    formatted, formatted_line, gutter, header, kept_lines, line_body, line_format, lines_of, rendered, rendered_lines, verbatim, document, document_upto,
    input_part, with_headers,
    rule, shown_number, strip_cr, LineFormat,
};
use crate::style::Style;
use crate::text::{find, has_prefix, lemma_find_from_bounds, repeat, replace_all, replace_from, split_once};

verus! {

/// The escape character.
pub open spec fn esc() -> char {
    '\x1b'
}

/// Whether a text holds no escape character.
pub open spec fn clean(s: Seq<char>) -> bool {
    forall|i: int| 0 <= i < s.len() ==> s[i] != esc()
}

/// A terminal reading `c` in state `in_escape`: an escape character starts
/// a sequence, and `m` ends it.
pub open spec fn step(in_escape: bool, c: char) -> bool {
    if in_escape {
        c != 'm'
    } else {
        c == esc()
    }
}

/// The visible characters of `s` for a terminal that starts in state
/// `in_escape`: everything but the escape sequences.
pub open spec fn visible_from(s: Seq<char>, in_escape: bool) -> Seq<char>
    decreases s.len(),
{
    if s.len() == 0 {
        seq![]
    } else {
        (if !in_escape && s[0] != esc() {
            seq![s[0]]
        } else {
            seq![]
        }) + visible_from(s.drop_first(), step(in_escape, s[0]))
    }
}

/// The state of the terminal after `s`.
pub open spec fn state_after(s: Seq<char>, in_escape: bool) -> bool
    decreases s.len(),
{
    if s.len() == 0 {
        in_escape
    } else {
        state_after(s.drop_first(), step(in_escape, s[0]))
    }
}

/// Characters that may stand inside an escape sequence.
pub open spec fn sequence_char(c: char) -> bool {
    c == '[' || ('0' <= c <= '9') || c == 'm'
}

/// Every character read inside an escape sequence is `[`, a digit or `m`.
pub open spec fn tame_from(s: Seq<char>, in_escape: bool) -> bool
    decreases s.len(),
{
    if s.len() == 0 {
        true
    } else {
        (in_escape ==> sequence_char(s[0])) && tame_from(s.drop_first(), step(in_escape, s[0]))
    }
}

/// The style whose escape sequence begins `s`, if any.
pub open spec fn leading_code(s: Seq<char>) -> Option<Style> {
    if has_prefix(s, Style::Reset.code()) {
        Some(Style::Reset)
    } else if has_prefix(s, Style::Dim.code()) {
        Some(Style::Dim)
    } else if has_prefix(s, Style::Bold.code()) {
        Some(Style::Bold)
    } else if has_prefix(s, Style::Cyan.code()) {
        Some(Style::Cyan)
    } else if has_prefix(s, Style::Blue.code()) {
        Some(Style::Blue)
    } else if has_prefix(s, Style::Green.code()) {
        Some(Style::Green)
    } else if has_prefix(s, Style::Yellow.code()) {
        Some(Style::Yellow)
    } else if has_prefix(s, Style::Magenta.code()) {
        Some(Style::Magenta)
    } else {
        None
    }
}

/// `s` with every occurrence of the escape sequences of the eight styles
/// removed, read from left to right.
pub open spec fn strip_codes(s: Seq<char>) -> Seq<char>
    decreases s.len(),
{
    if s.len() == 0 {
        seq![]
    } else {
        match leading_code(s) {
            Some(st) => {
                proof {
                    lemma_code_facts(st);
                }
                strip_codes(s.skip(st.code().len() as int))
            },
            None => seq![s[0]] + strip_codes(s.drop_first()),
        }
    }
}

/// `s` is made of characters other than the escape character and of whole
/// escape sequences of the eight styles.
pub open spec fn well_coded(s: Seq<char>) -> bool
    decreases s.len(),
{
    if s.len() == 0 {
        true
    } else {
        match leading_code(s) {
            Some(st) => {
                proof {
                    lemma_code_facts(st);
                }
                well_coded(s.skip(st.code().len() as int))
            },
            None => s[0] != esc() && well_coded(s.drop_first()),
        }
    }
}

/// The escape sequence of a style: at least four characters, an escape
/// character first and none after it.
pub proof fn lemma_code_facts(st: Style)
    ensures
        st.code().len() >= 4,
        st.code()[0] == esc(),
        forall|i: int| 1 <= i < st.code().len() ==> sequence_char(#[trigger] st.code()[i]),
{
}

/// A text that does not match a pattern at one place does not begin with it.
proof fn lemma_not_prefix(x: Seq<char>, p: Seq<char>, m: int)
    requires
        0 <= m < p.len(),
        m < x.len(),
        x[m] != p[m],
    ensures
        !has_prefix(x, p),
{
    if has_prefix(x, p) {
        assert(x.take(p.len() as int)[m] == x[m]);
    }
}

/// Two different styles have escape sequences that differ at the third or
/// the fourth character.
proof fn lemma_codes_differ(a: Style, b: Style)
    requires
        a != b,
    ensures
        a.code()[2] != b.code()[2] || a.code()[3] != b.code()[3],
{
}

/// The escape sequence of a style, followed by anything, is read as that
/// style.
proof fn lemma_leading_code_of(st: Style, s: Seq<char>)
    ensures
        leading_code(st.code() + s) == Some(st),
{
    let x = st.code() + s;
    lemma_code_facts(st);
    assert(x.take(st.code().len() as int) =~= st.code());
    assert(x[2] == st.code()[2]);
    assert(x[3] == st.code()[3]);
    assert forall|other: Style| other != st implies !has_prefix(x, #[trigger] other.code()) by {
        lemma_codes_differ(st, other);
        lemma_code_facts(other);
        if st.code()[2] != other.code()[2] {
            lemma_not_prefix(x, other.code(), 2);
        } else {
            lemma_not_prefix(x, other.code(), 3);
        }
    }
}

/// A text that does not begin with the escape character begins with no
/// escape sequence.
proof fn lemma_no_leading_code(s: Seq<char>)
    requires
        s.len() > 0,
        s[0] != esc(),
    ensures
        leading_code(s) is None,
{
    assert forall|st: Style| !has_prefix(s, #[trigger] st.code()) by {
        lemma_code_facts(st);
        lemma_not_prefix(s, st.code(), 0);
    }
}

/// Removing codes from a text that begins with a code drops that code.
proof fn lemma_strip_code_first(st: Style, s: Seq<char>)
    ensures
        strip_codes(st.code() + s) == strip_codes(s),
        well_coded(st.code() + s) == well_coded(s),
{
    lemma_leading_code_of(st, s);
    lemma_code_facts(st);
    assert((st.code() + s).skip(st.code().len() as int) =~= s);
}

/// Removing codes keeps a first character that is no escape character.
proof fn lemma_strip_char_first(c: char, s: Seq<char>)
    requires
        c != esc(),
    ensures
        strip_codes(seq![c] + s) == seq![c] + strip_codes(s),
        well_coded(seq![c] + s) == well_coded(s),
{
    lemma_no_leading_code(seq![c] + s);
    assert((seq![c] + s).drop_first() =~= s);
}

/// Removing codes keeps a clean beginning.
proof fn lemma_strip_clean_first(t: Seq<char>, s: Seq<char>)
    requires
        clean(t),
    ensures
        strip_codes(t + s) == t + strip_codes(s),
        well_coded(t + s) == well_coded(s),
    decreases t.len(),
{
    if t.len() == 0 {
        assert(t + s =~= s);
    } else {
        let r = t.drop_first();
        assert(clean(r));
        lemma_strip_clean_first(r, s);
        assert(t + s =~= seq![t[0]] + (r + s));
        lemma_strip_char_first(t[0], r + s);
        assert(seq![t[0]] + (r + strip_codes(s)) =~= t + strip_codes(s));
    }
}

/// Removing codes from a well-coded beginning gives its own result.
proof fn lemma_strip_concat(a: Seq<char>, b: Seq<char>)
    requires
        well_coded(a),
    ensures
        strip_codes(a + b) == strip_codes(a) + strip_codes(b),
        well_coded(a + b) == well_coded(b),
    decreases a.len(),
{
    if a.len() == 0 {
        assert(a + b =~= b);
    } else {
        match leading_code(a) {
            Some(st) => {
                lemma_code_facts(st);
                let n = st.code().len() as int;
                assert(a.take(n) =~= st.code());
                let r = a.skip(n);
                assert(a =~= st.code() + r);
                lemma_strip_concat(r, b);
                lemma_strip_code_first(st, r);
                assert(a + b =~= st.code() + (r + b));
                lemma_strip_code_first(st, r + b);
            },
            None => {
                let r = a.drop_first();
                assert(a =~= seq![a[0]] + r);
                lemma_strip_concat(r, b);
                lemma_strip_char_first(a[0], r);
                assert(a + b =~= seq![a[0]] + (r + b));
                lemma_strip_char_first(a[0], r + b);
                assert(seq![a[0]] + (strip_codes(r) + strip_codes(b)) =~= seq![a[0]] + strip_codes(r)
                    + strip_codes(b));
            },
        }
    }
}

/// `s` without its escape sequences.
pub open spec fn without_escapes(s: Seq<char>) -> Seq<char> {
    visible_from(s, false)
}

/// `s` shows `t`, leaves the terminal outside an escape sequence and has
/// only well-formed sequences.
pub open spec fn shows(s: Seq<char>, t: Seq<char>) -> bool {
    &&& visible_from(s, false) == t
    &&& !state_after(s, false)
    &&& tame_from(s, false)
    &&& well_coded(s)
    &&& strip_codes(s) == t
}

proof fn lemma_concat(a: Seq<char>, b: Seq<char>, q: bool)
    ensures
        visible_from(a + b, q) == visible_from(a, q) + visible_from(b, state_after(a, q)),
        state_after(a + b, q) == state_after(b, state_after(a, q)),
        tame_from(a + b, q) == (tame_from(a, q) && tame_from(b, state_after(a, q))),
    decreases a.len(),
{
    if a.len() == 0 {
        assert(a + b =~= b);
    } else {
        assert((a + b).drop_first() =~= a.drop_first() + b);
        assert((a + b)[0] == a[0]);
        lemma_concat(a.drop_first(), b, step(q, a[0]));
    }
}

/// Pieces that each show their text show the concatenation of the texts.
proof fn lemma_shows_concat(a: Seq<char>, ta: Seq<char>, b: Seq<char>, tb: Seq<char>)
    requires
        shows(a, ta),
        shows(b, tb),
    ensures
        shows(a + b, ta + tb),
{
    lemma_concat(a, b, false);
    lemma_strip_concat(a, b);
}

/// A text without escape characters shows itself.
proof fn lemma_clean_shows(s: Seq<char>)
    requires
        clean(s),
    ensures
        shows(s, s),
    decreases s.len(),
{
    lemma_strip_clean_first(s, seq![]);
    assert(s + Seq::<char>::empty() =~= s);
    if s.len() == 0 {
        assert(visible_from(s, false) =~= s);
    } else {
        let r = s.drop_first();
        assert(clean(r));
        lemma_clean_shows(r);
        assert(s[0] != esc());
        assert(!step(false, s[0]));
        assert(visible_from(s, false) == seq![s[0]] + visible_from(r, false));
        assert(seq![s[0]] + r =~= s);
    }
}

/// An escape sequence of the viewer shows nothing.
proof fn lemma_style_shows_nothing(st: Style)
    ensures
        shows(st.code(), seq![]),
{
    let c = st.code();
    lemma_strip_code_first(st, seq![]);
    assert(c + Seq::<char>::empty() =~= c);
    reveal_with_fuel(visible_from, 6);
    reveal_with_fuel(state_after, 6);
    reveal_with_fuel(tame_from, 6);
    assert(c.drop_first().drop_first().drop_first().drop_first().drop_first() =~= seq![]
        || c.drop_first().drop_first().drop_first().drop_first() =~= seq![]);
    assert(visible_from(c, false) =~= seq![]);
}

/// The parts around the first occurrence of a pattern, with the pattern
/// between them, give the text back.
proof fn lemma_split_rejoin(s: Seq<char>, pat: Seq<char>)
    ensures
        split_once(s, pat) matches Some((a, b)) ==> a + pat + b == s,
{
    lemma_find_from_bounds(s, pat, 0);
    if let Some(k) = find(s, pat) {
        assert(s.take(k) + pat + s.skip(k + pat.len()) =~= s);
    }
}

proof fn lemma_flushed_shows(word: Seq<char>, keywords: Seq<Seq<char>>)
    requires
        clean(word),
    ensures
        shows(flushed(word, keywords), word),
{
    lemma_clean_shows(word);
    if keywords.contains(word) {
        lemma_style_shows_nothing(Style::Blue);
        lemma_style_shows_nothing(Style::Reset);
        lemma_shows_concat(Style::Blue.code(), seq![], word, word);
        lemma_shows_concat(Style::Blue.code() + word, seq![] + word, Style::Reset.code(), seq![]);
        assert(Seq::<char>::empty() + word + Seq::<char>::empty() =~= word);
    }
}

proof fn lemma_colored_words_shows(word: Seq<char>, rest: Seq<char>, keywords: Seq<Seq<char>>)
    requires
        clean(word),
        clean(rest),
    ensures
        shows(colored_words(word, rest, keywords), word + rest),
    decreases rest.len(),
{
    if rest.len() == 0 {
        lemma_flushed_shows(word, keywords);
        assert(word + rest =~= word);
    } else {
        let r = rest.drop_first();
        assert(clean(r));
        if crate::highlight::is_word_char(rest[0]) {
            assert(clean(word.push(rest[0])));
            lemma_colored_words_shows(word.push(rest[0]), r, keywords);
            assert(word.push(rest[0]) + r =~= word + rest);
        } else {
            lemma_flushed_shows(word, keywords);
            lemma_clean_shows(seq![rest[0]]);
            lemma_colored_words_shows(seq![], r, keywords);
            lemma_shows_concat(flushed(word, keywords), word, seq![rest[0]], seq![rest[0]]);
            lemma_shows_concat(
                flushed(word, keywords) + seq![rest[0]],
                word + seq![rest[0]],
                colored_words(seq![], r, keywords),
                seq![] + r,
            );
            assert(word + seq![rest[0]] + (Seq::<char>::empty() + r) =~= word + rest);
        }
    }
}

proof fn lemma_wrapped_shows(styles: Seq<char>, first: Style, second: Style, body: Seq<char>)
    requires
        clean(body),
        styles == first.code() + second.code(),
    ensures
        shows(styles + body + Style::Reset.code(), body),
{
    lemma_style_shows_nothing(first);
    lemma_style_shows_nothing(second);
    lemma_style_shows_nothing(Style::Reset);
    lemma_clean_shows(body);
    lemma_shows_concat(first.code(), seq![], second.code(), seq![]);
    lemma_shows_concat(styles, seq![] + seq![], body, body);
    lemma_shows_concat(styles + body, seq![] + seq![] + body, Style::Reset.code(), seq![]);
    assert(Seq::<char>::empty() + seq![] + body + seq![] =~= body);
}

proof fn lemma_code_shows(line: Seq<char>, keywords: Seq<Seq<char>>)
    requires
        clean(line),
    ensures
        shows(code_highlighted(line, keywords), line),
{
    let slashes = seq!['/', '/'];
    let hash = seq!['#'];
    lemma_split_rejoin(line, slashes);
    lemma_split_rejoin(line, hash);
    lemma_colored_words_shows(seq![], line, keywords);
    assert(Seq::<char>::empty() + line =~= line);
    match split_once(line, slashes) {
        Some((code, comment)) => {
            lemma_comment_shows(line, code, slashes, comment, keywords);
        },
        None => match split_once(line, hash) {
            Some((code, comment)) => {
                lemma_comment_shows(line, code, hash, comment, keywords);
            },
            None => {},
        },
    }
}

proof fn lemma_comment_shows(
    line: Seq<char>,
    code: Seq<char>,
    marker: Seq<char>,
    comment: Seq<char>,
    keywords: Seq<Seq<char>>,
)
    requires
        clean(line),
        code + marker + comment == line,
        clean(marker),
    ensures
        shows(colored_keywords(code, keywords) + comment_tail(marker, comment), line),
{
    assert forall|i: int| 0 <= i < code.len() implies code[i] != esc() by {
        assert(code[i] == line[i]);
    }
    assert forall|i: int| 0 <= i < comment.len() implies comment[i] != esc() by {
        assert(comment[i] == line[code.len() + marker.len() + i]);
    }
    lemma_colored_words_shows(seq![], code, keywords);
    assert(Seq::<char>::empty() + code =~= code);
    let mc = marker + comment;
    assert(clean(mc));
    lemma_wrapped_shows(Style::Dim.code() + Style::Green.code(), Style::Dim, Style::Green, mc);
    assert(comment_tail(marker, comment) =~= Style::Dim.code() + Style::Green.code() + mc
        + Style::Reset.code());
    lemma_shows_concat(colored_keywords(code, keywords), code, comment_tail(marker, comment), mc);
    assert(code + mc =~= line);
}

proof fn lemma_key_value_shows(line: Seq<char>, key: Seq<char>, sep: char, value: Seq<char>)
    requires
        clean(line),
        key + seq![sep] + value == line,
    ensures
        shows(key_value(key, sep, value), line),
{
    assert forall|i: int| 0 <= i < key.len() implies key[i] != esc() by {
        assert(key[i] == line[i]);
    }
    assert forall|i: int| 0 <= i < value.len() implies value[i] != esc() by {
        assert(value[i] == line[key.len() + 1 + i]);
    }
    assert(sep == line[key.len() as int]);
    lemma_style_shows_nothing(Style::Cyan);
    lemma_style_shows_nothing(Style::Yellow);
    lemma_style_shows_nothing(Style::Reset);
    lemma_clean_shows(key);
    lemma_clean_shows(value);
    lemma_clean_shows(seq![sep]);
    let a = Style::Cyan.code() + key;
    lemma_shows_concat(Style::Cyan.code(), seq![], key, key);
    lemma_shows_concat(a, seq![] + key, Style::Reset.code(), seq![]);
    let b = a + Style::Reset.code();
    lemma_shows_concat(b, seq![] + key + seq![], seq![sep], seq![sep]);
    let c = b + seq![sep];
    lemma_shows_concat(c, seq![] + key + seq![] + seq![sep], Style::Yellow.code(), seq![]);
    let d = c + Style::Yellow.code();
    lemma_shows_concat(d, seq![] + key + seq![] + seq![sep] + seq![], value, value);
    let e = d + value;
    lemma_shows_concat(
        e,
        seq![] + key + seq![] + seq![sep] + seq![] + value,
        Style::Reset.code(),
        seq![],
    );
    assert(Seq::<char>::empty() + key + seq![] + seq![sep] + seq![] + value + seq![] =~= line);
    assert(key_value(key, sep, value) == e + Style::Reset.code());
}

proof fn lemma_config_shows(line: Seq<char>)
    requires
        clean(line),
    ensures
        shows(config_highlighted(line), line),
{
    lemma_split_rejoin(line, seq!['=']);
    lemma_split_rejoin(line, seq![':']);
    lemma_wrapped_shows(Style::Dim.code() + Style::Green.code(), Style::Dim, Style::Green, line);
    lemma_clean_shows(line);
    match split_once(line, seq!['=']) {
        Some((key, value)) => {
            assert(key + seq!['='] + value == line);
            lemma_key_value_shows(line, key, '=', value);
        },
        None => match split_once(line, seq![':']) {
            Some((key, value)) => {
                assert(key + seq![':'] + value == line);
                lemma_key_value_shows(line, key, ':', value);
            },
            None => {},
        },
    }
}

proof fn lemma_markdown_shows(line: Seq<char>)
    requires
        clean(line),
    ensures
        shows(markdown_highlighted(line), line),
{
    lemma_wrapped_shows(Style::Bold.code() + Style::Cyan.code(), Style::Bold, Style::Cyan, line);
    lemma_clean_shows(line);
    lemma_style_shows_nothing(Style::Magenta);
    lemma_style_shows_nothing(Style::Reset);
    lemma_shows_concat(Style::Magenta.code(), seq![], line, line);
    lemma_shows_concat(Style::Magenta.code() + line, seq![] + line, Style::Reset.code(), seq![]);
    assert(Seq::<char>::empty() + line + seq![] =~= line);
}

/// A word that can be replaced by its magenta copy without touching an
/// escape sequence: no escape, no `m`, and a first character that cannot
/// stand inside a sequence.
pub open spec fn safe_word(pat: Seq<char>) -> bool {
    &&& pat.len() > 0
    &&& clean(pat)
    &&& forall|i: int| 0 <= i < pat.len() ==> pat[i] != 'm'
    &&& !sequence_char(pat[0])
}

/// Inside an escape sequence, a text without `m` keeps the terminal inside
/// it and shows nothing.
proof fn lemma_no_m_inside(s: Seq<char>)
    requires
        forall|i: int| 0 <= i < s.len() ==> s[i] != 'm',
    ensures
        visible_from(s, true) == Seq::<char>::empty(),
        state_after(s, true),
    decreases s.len(),
{
    if s.len() > 0 {
        lemma_no_m_inside(s.drop_first());
    }
}

proof fn lemma_magenta_shows(pat: Seq<char>)
    requires
        safe_word(pat),
    ensures
        shows(magenta(pat), pat),
{
    lemma_style_shows_nothing(Style::Magenta);
    lemma_style_shows_nothing(Style::Reset);
    lemma_clean_shows(pat);
    lemma_shows_concat(Style::Magenta.code(), seq![], pat, pat);
    lemma_shows_concat(Style::Magenta.code() + pat, seq![] + pat, Style::Reset.code(), seq![]);
    assert(Seq::<char>::empty() + pat + seq![] =~= pat);
}

proof fn lemma_replace_shows(s: Seq<char>, pat: Seq<char>, i: int, q: bool)
    requires
        safe_word(pat),
        0 <= i <= s.len(),
        tame_from(s.skip(i), q),
    ensures
        ({
            let out = replace_from(s, pat, magenta(pat), i);
            &&& visible_from(out, q) == visible_from(s.skip(i), q)
            &&& state_after(out, q) == state_after(s.skip(i), q)
            &&& tame_from(out, q)
        }),
    decreases s.len() - i,
{
    let rest = s.skip(i);
    if i + pat.len() > s.len() {
    } else if s.subrange(i, i + pat.len()) == pat {
        let n = i + pat.len();
        assert(rest[0] == pat[0]);
        assert(!q);
        assert(rest =~= pat + s.skip(n));
        lemma_concat(pat, s.skip(n), false);
        lemma_clean_shows(pat);
        lemma_replace_shows(s, pat, n, false);
        lemma_magenta_shows(pat);
        lemma_concat(magenta(pat), replace_from(s, pat, magenta(pat), n), false);
    } else {
        assert(rest =~= seq![s[i]] + s.skip(i + 1));
        lemma_concat(seq![s[i]], s.skip(i + 1), q);
        reveal_with_fuel(visible_from, 2);
        reveal_with_fuel(state_after, 2);
        reveal_with_fuel(tame_from, 2);
        let qn = step(q, s[i]);
        assert(state_after(seq![s[i]], q) == qn);
        assert(tame_from(s.skip(i + 1), qn));
        lemma_replace_shows(s, pat, i + 1, qn);
        lemma_concat(seq![s[i]], replace_from(s, pat, magenta(pat), i + 1), q);
    }
}

/// Replacing a safe word by its magenta copy keeps what a text shows.
proof fn lemma_replace_all_shows(s: Seq<char>, t: Seq<char>, pat: Seq<char>)
    requires
        safe_word(pat),
        shows(s, t),
    ensures
        shows(replace_all(s, pat, magenta(pat)), t),
{
    assert(s.skip(0) =~= s);
    lemma_replace_shows(s, pat, 0, false);
    lemma_replace_codes(s, pat, 0);
}

/// Where no match of a pattern can begin, replacing copies the text.
proof fn lemma_replace_skip(s: Seq<char>, pat: Seq<char>, rep: Seq<char>, i: int, n: int)
    requires
        0 <= i,
        0 <= n,
        i + n <= s.len(),
        pat.len() > 0,
        forall|j: int| i <= j < i + n ==> s[j] != pat[0],
    ensures
        replace_from(s, pat, rep, i) == s.subrange(i, i + n) + replace_from(s, pat, rep, i + n),
    decreases n,
{
    if n == 0 {
        assert(s.subrange(i, i) =~= Seq::<char>::empty());
        assert(Seq::<char>::empty() + replace_from(s, pat, rep, i) =~= replace_from(s, pat, rep, i));
    } else if i + pat.len() > s.len() {
        assert(s.skip(i) =~= s.subrange(i, i + n) + s.skip(i + n));
    } else {
        assert(s.subrange(i, i + pat.len())[0] == s[i]);
        lemma_replace_skip(s, pat, rep, i + 1, n - 1);
        assert(seq![s[i]] + (s.subrange(i + 1, i + n) + replace_from(s, pat, rep, i + n))
            =~= s.subrange(i, i + n) + replace_from(s, pat, rep, i + n));
    }
}

/// Replacing a safe word by its magenta copy keeps a text well coded and
/// keeps what removing the codes gives.
proof fn lemma_replace_codes(s: Seq<char>, pat: Seq<char>, i: int)
    requires
        safe_word(pat),
        0 <= i <= s.len(),
        well_coded(s.skip(i)),
    ensures
        ({
            let out = replace_from(s, pat, magenta(pat), i);
            &&& well_coded(out)
            &&& strip_codes(out) == strip_codes(s.skip(i))
        }),
    decreases s.len() - i,
{
    let rest = s.skip(i);
    let rep = magenta(pat);
    if i + pat.len() > s.len() {
    } else {
        match leading_code(rest) {
            Some(st) => {
                lemma_code_facts(st);
                let n = st.code().len() as int;
                assert(rest.take(n) =~= st.code());
                assert forall|j: int| i <= j < i + n implies s[j] != pat[0] by {
                    assert(s[j] == st.code()[j - i]);
                }
                lemma_replace_skip(s, pat, rep, i, n);
                assert(s.subrange(i, i + n) =~= st.code());
                assert(s.skip(i + n) =~= rest.skip(n));
                lemma_replace_codes(s, pat, i + n);
                lemma_strip_code_first(st, replace_from(s, pat, rep, i + n));
                assert(rest =~= st.code() + s.skip(i + n));
                lemma_strip_code_first(st, s.skip(i + n));
            },
            None => {
                assert(rest[0] == s[i]);
                assert(rest.drop_first() =~= s.skip(i + 1));
                if s.subrange(i, i + pat.len()) == pat {
                    let m = i + pat.len();
                    assert(rest =~= pat + s.skip(m));
                    lemma_strip_clean_first(pat, s.skip(m));
                    lemma_replace_codes(s, pat, m);
                    let x = replace_from(s, pat, rep, m);
                    lemma_strip_code_first(Style::Reset, x);
                    lemma_strip_clean_first(pat, Style::Reset.code() + x);
                    lemma_strip_code_first(Style::Magenta, pat + (Style::Reset.code() + x));
                    assert(rep + x =~= Style::Magenta.code() + (pat + (Style::Reset.code() + x)));
                } else {
                    lemma_replace_codes(s, pat, i + 1);
                    lemma_strip_char_first(s[i], replace_from(s, pat, rep, i + 1));
                    assert(rest =~= seq![s[i]] + s.skip(i + 1));
                    lemma_strip_char_first(s[i], s.skip(i + 1));
                }
            },
        }
    }
}

proof fn lemma_json_shows(line: Seq<char>)
    requires
        clean(line),
    ensures
        shows(json_highlighted(line), line),
{
    let t = seq!['t', 'r', 'u', 'e'];
    let f = seq!['f', 'a', 'l', 's', 'e'];
    let n = seq!['n', 'u', 'l', 'l'];
    assert(safe_word(t));
    assert(safe_word(f));
    assert(safe_word(n));
    lemma_clean_shows(line);
    lemma_replace_all_shows(line, line, t);
    let a = replace_all(line, t, magenta(t));
    lemma_replace_all_shows(a, line, f);
    let b = replace_all(a, f, magenta(f));
    lemma_replace_all_shows(b, line, n);
}

/// Keyword coloring only adds escape sequences, whatever the keywords: for
/// a line without escape characters, removing the sequences gives the line
/// back, both as a terminal shows it and by deleting the eight style codes
/// from the text.
pub proof fn law_keyword_coloring_keeps_text(line: Seq<char>, keywords: Seq<Seq<char>>)
    requires
        clean(line),
    ensures
        without_escapes(colored_keywords(line, keywords)) == line,
        strip_codes(colored_keywords(line, keywords)) == line,
{
    lemma_colored_words_shows(seq![], line, keywords);
    assert(Seq::<char>::empty() + line =~= line);
}

/// Code highlighting (keywords and comments) only adds escape sequences,
/// whatever the keywords: what a terminal shows, and the text without the
/// eight style codes, is the line.
pub proof fn law_code_highlighting_keeps_text(line: Seq<char>, keywords: Seq<Seq<char>>)
    requires
        clean(line),
    ensures
        without_escapes(code_highlighted(line, keywords)) == line,
        strip_codes(code_highlighted(line, keywords)) == line,
{
    lemma_code_shows(line, keywords);
}

/// Replacing a pattern whose first character does not occur changes
/// nothing.
proof fn lemma_replace_absent(s: Seq<char>, pat: Seq<char>, rep: Seq<char>)
    requires
        pat.len() > 0,
        lacks(s, pat[0]),
    ensures
        replace_all(s, pat, rep) == s,
{
    lemma_replace_skip(s, pat, rep, 0, s.len() as int);
    assert(s.subrange(0, s.len() as int) =~= s);
    assert(s.skip(s.len() as int) =~= Seq::<char>::empty());
    assert(s + Seq::<char>::empty() =~= s);
}

/// Replacing a pattern that occurs once, between texts without its first
/// character, replaces that occurrence.
proof fn lemma_replace_once(a: Seq<char>, pat: Seq<char>, b: Seq<char>, rep: Seq<char>)
    requires
        pat.len() > 0,
        lacks(a, pat[0]),
        lacks(b, pat[0]),
    ensures
        replace_all(a + pat + b, pat, rep) == a + rep + b,
{
    let s = a + pat + b;
    let n = a.len() as int;
    let m = n + pat.len();
    assert forall|j: int| 0 <= j < n implies s[j] != pat[0] by {
        assert(s[j] == a[j]);
    }
    lemma_replace_skip(s, pat, rep, 0, n);
    assert(s.subrange(0, n) =~= a);
    assert(s.subrange(n, m) =~= pat);
    assert forall|j: int| m <= j < s.len() implies s[j] != pat[0] by {
        assert(s[j] == b[j - m]);
    }
    lemma_replace_skip(s, pat, rep, m, s.len() - m);
    assert(s.subrange(m, s.len() as int) =~= b);
    assert(s.skip(s.len() as int) =~= Seq::<char>::empty());
    assert(replace_from(s, pat, rep, n) == rep + replace_from(s, pat, rep, m));
    assert(a + (rep + (b + Seq::<char>::empty())) =~= a + rep + b);
}

/// Whether a text holds none of the first letters of the JSON literals.
pub open spec fn no_literal_letters(s: Seq<char>) -> bool {
    lacks(s, 't') && lacks(s, 'f') && lacks(s, 'n')
}

proof fn lemma_lacks_concat(a: Seq<char>, b: Seq<char>, c: char)
    requires
        lacks(a, c),
        lacks(b, c),
    ensures
        lacks(a + b, c),
{
    assert forall|i: int| 0 <= i < (a + b).len() implies (a + b)[i] != c by {
        if i >= a.len() {
            assert((a + b)[i] == b[i - a.len()]);
        }
    }
}

/// In a JSON file, a `true`, `false` or `null` between texts without the
/// letters `t`, `f` and `n` is shown magenta, and nothing else changes.
pub proof fn law_json_literal(before: Seq<char>, word: Seq<char>, after: Seq<char>, file: Seq<char>)
    requires
        language_of(file) == Language::Json,
        word == seq!['t', 'r', 'u', 'e'] || word == seq!['f', 'a', 'l', 's', 'e'] || word == seq![
            'n',
            'u',
            'l',
            'l',
        ],
        no_literal_letters(before),
        no_literal_letters(after),
    ensures
        highlighted(before + word + after, file) == before + Style::Magenta.code() + word
            + Style::Reset.code() + after,
{
    let t = seq!['t', 'r', 'u', 'e'];
    let f = seq!['f', 'a', 'l', 's', 'e'];
    let n = seq!['n', 'u', 'l', 'l'];
    let mw = magenta(word);
    assert(Style::Magenta.code() =~= seq!['\x1b', '[', '3', '5', 'm']);
    assert(Style::Reset.code() =~= seq!['\x1b', '[', '0', 'm']);
    assert(lacks(Style::Magenta.code(), 't') && lacks(Style::Magenta.code(), 'f') && lacks(
        Style::Magenta.code(),
        'n',
    ));
    assert(lacks(Style::Reset.code(), 't') && lacks(Style::Reset.code(), 'f') && lacks(
        Style::Reset.code(),
        'n',
    ));
    let line = before + word + after;
    let out = before + mw + after;
    assert(before + mw + after =~= before + Style::Magenta.code() + word + Style::Reset.code() + after);
    if word == t {
        assert(lacks(t, 'f') && lacks(t, 'n'));
        lemma_replace_once(before, t, after, mw);
        lemma_lacks_concat(Style::Magenta.code(), t, 'f');
        lemma_lacks_concat(Style::Magenta.code() + t, Style::Reset.code(), 'f');
        lemma_lacks_concat(before, mw, 'f');
        lemma_lacks_concat(before + mw, after, 'f');
        lemma_replace_absent(out, f, magenta(f));
        lemma_lacks_concat(Style::Magenta.code(), t, 'n');
        lemma_lacks_concat(Style::Magenta.code() + t, Style::Reset.code(), 'n');
        lemma_lacks_concat(before, mw, 'n');
        lemma_lacks_concat(before + mw, after, 'n');
        lemma_replace_absent(out, n, magenta(n));
    } else if word == f {
        assert(lacks(f, 't') && lacks(f, 'n'));
        lemma_lacks_concat(before, f, 't');
        lemma_lacks_concat(before + f, after, 't');
        lemma_replace_absent(line, t, magenta(t));
        lemma_replace_once(before, f, after, mw);
        lemma_lacks_concat(Style::Magenta.code(), f, 'n');
        lemma_lacks_concat(Style::Magenta.code() + f, Style::Reset.code(), 'n');
        lemma_lacks_concat(before, mw, 'n');
        lemma_lacks_concat(before + mw, after, 'n');
        lemma_replace_absent(out, n, magenta(n));
    } else {
        assert(word == n);
        assert(lacks(n, 't') && lacks(n, 'f'));
        lemma_lacks_concat(before, n, 't');
        lemma_lacks_concat(before + n, after, 't');
        lemma_replace_absent(line, t, magenta(t));
        lemma_lacks_concat(before, n, 'f');
        lemma_lacks_concat(before + n, after, 'f');
        lemma_replace_absent(line, f, magenta(f));
        lemma_replace_once(before, n, after, mw);
    }
}

/// A highlighted line shows the line.
proof fn lemma_highlighted_shows(line: Seq<char>, file: Seq<char>)
    requires
        clean(line),
    ensures
        shows(highlighted(line, file), line),
{
    match language_of(file) {
        Language::Rust => lemma_code_shows(line, crate::highlight::rust_keywords()),
        Language::Toml | Language::Yaml => lemma_config_shows(line),
        Language::Json => lemma_json_shows(line),
        Language::Markdown => lemma_markdown_shows(line),
        Language::Shell => lemma_code_shows(line, crate::highlight::shell_keywords()),
        Language::Plain => lemma_clean_shows(line),
    }
}

/// Highlighting only adds escape sequences: for a line without escape
/// characters of its own, removing the sequences gives the line back, for
/// every language, both as a terminal shows it and by deleting every
/// occurrence of the eight style codes from the text.
pub proof fn law_highlighting_keeps_text(line: Seq<char>, file: Seq<char>)
    requires
        clean(line),
    ensures
        without_escapes(highlighted(line, file)) == line,
        strip_codes(highlighted(line, file)) == line,
{
    lemma_highlighted_shows(line, file);
}

/// The digits of a number are no escape characters.
proof fn lemma_decimal_clean(n: nat)
    ensures
        clean(decimal(n)),
    decreases n,
{
    let d = (n % 10) as nat;
    assert(digit_char(d) as u32 == d + 48);
    if n >= 10 {
        lemma_decimal_clean(n / 10);
        assert forall|i: int| 0 <= i < decimal(n).len() implies decimal(n)[i] != esc() by {
            if i < decimal(n / 10).len() {
                assert(decimal(n)[i] == decimal(n / 10)[i]);
            }
        }
    }
}

/// Marking whitespace adds no escape character.
proof fn lemma_visible_chars_clean(s: Seq<char>)
    requires
        clean(s),
    ensures
        clean(visible_chars(s)),
    decreases s.len(),
{
    if s.len() > 0 {
        let init = s.drop_last();
        assert(clean(init));
        lemma_visible_chars_clean(init);
        assert(s.last() == s[s.len() - 1]);
        let a = visible_chars(init);
        let b = visible_char(s.last());
        assert forall|i: int| 0 <= i < (a + b).len() implies (a + b)[i] != esc() by {
            if i >= a.len() {
                assert((a + b)[i] == b[i - a.len()]);
            }
        }
    }
}

/// The lines of a text without escape characters have none either.
proof fn lemma_lines_clean(s: Seq<char>)
    requires
        clean(s),
    ensures
        forall|k: int| 0 <= k < lines_of(s).len() ==> clean(#[trigger] lines_of(s)[k]),
    decreases s.len(),
{
    if s.len() > 0 {
        lemma_find_from_bounds(s, seq!['\n'], 0);
        match split_once(s, seq!['\n']) {
            Some((line, rest)) => {
                let k = find(s, seq!['\n']).unwrap();
                assert(line == s.take(k));
                assert(rest == s.skip(k + 1));
                assert(clean(line));
                assert(clean(strip_cr(line)));
                assert(clean(rest));
                lemma_lines_clean(rest);
                let ls = lines_of(s);
                assert(ls == seq![strip_cr(line)] + lines_of(rest));
                assert forall|j: int| 0 <= j < ls.len() implies clean(#[trigger] ls[j]) by {
                    if j > 0 {
                        assert(ls[j] == lines_of(rest)[j - 1]);
                    }
                }
            },
            None => {},
        }
    }
}

/// A colored gutter shows the uncolored one.
proof fn lemma_gutter_shows(n: nat, fc: LineFormat, fp: LineFormat)
    requires
        fc == (LineFormat { color: true, ..fp }),
        !fp.color,
    ensures
        shows(gutter(n, fc), gutter(n, fp)),
{
    if !fp.numbers {
        lemma_clean_shows(seq![]);
    } else {
        let field = pad_left(decimal(n), fp.width);
        let sep = if fp.grid {
            seq![' ', '│', ' ']
        } else {
            seq![' ']
        };
        lemma_decimal_clean(n);
        let body = field + sep;
        assert(clean(body)) by {
            assert forall|i: int| 0 <= i < body.len() implies body[i] != esc() by {
                let dg = decimal(n);
                if dg.len() < fp.width {
                    let pad = repeat(' ', (fp.width - dg.len()) as nat);
                    assert(field == pad + dg);
                    if i < pad.len() {
                        assert(body[i] == pad[i]);
                    } else if i < field.len() {
                        assert(body[i] == dg[i - pad.len()]);
                    } else {
                        assert(body[i] == sep[i - field.len()]);
                    }
                } else {
                    if i < field.len() {
                        assert(body[i] == dg[i]);
                    } else {
                        assert(body[i] == sep[i - field.len()]);
                    }
                }
            }
        }
        lemma_clean_shows(body);
        lemma_style_shows_nothing(Style::Dim);
        lemma_style_shows_nothing(Style::Reset);
        lemma_shows_concat(Style::Dim.code(), seq![], body, body);
        lemma_shows_concat(Style::Dim.code() + body, seq![] + body, Style::Reset.code(), seq![]);
        assert(Style::Dim.code() + field + sep + Style::Reset.code() =~= Style::Dim.code() + body
            + Style::Reset.code());
        assert(Seq::<char>::empty() + body + seq![] =~= body);
    }
}

/// A colored line shows the uncolored one.
proof fn lemma_formatted_line_shows(n: nat, line: Seq<char>, fc: LineFormat, fp: LineFormat)
    requires
        fc == (LineFormat { color: true, ..fp }),
        !fp.color,
        clean(line),
    ensures
        shows(formatted_line(n, line, fc), formatted_line(n, line, fp)),
{
    let l = if fp.show_all {
        visible(line)
    } else {
        line
    };
    if fp.show_all {
        lemma_visible_chars_clean(line);
        let v = visible_chars(line);
        assert forall|i: int| 0 <= i < l.len() implies l[i] != esc() by {
            if i < v.len() {
                assert(l[i] == v[i]);
            }
        }
    }
    assert(line_body(line, fp) == l);
    assert(line_body(line, fc) == highlighted(l, fp.language));
    lemma_gutter_shows(n, fc, fp);
    lemma_highlighted_shows(l, fp.language);
    lemma_clean_shows(seq!['\n']);
    lemma_shows_concat(gutter(n, fc), gutter(n, fp), line_body(line, fc), l);
    lemma_shows_concat(
        gutter(n, fc) + line_body(line, fc),
        gutter(n, fp) + l,
        seq!['\n'],
        seq!['\n'],
    );
}

/// Colored formatting shows the uncolored formatting, line after line.
proof fn lemma_formatted_shows(entries: Seq<(int, Seq<char>)>, fc: LineFormat, fp: LineFormat)
    requires
        fc == (LineFormat { color: true, ..fp }),
        !fp.color,
        forall|k: int| 0 <= k < entries.len() ==> clean(#[trigger] entries[k].1),
    ensures
        shows(formatted(entries, fc), formatted(entries, fp)),
    decreases entries.len(),
{
    if entries.len() == 0 {
        lemma_clean_shows(seq![]);
    } else {
        let init = entries.drop_last();
        assert forall|k: int| 0 <= k < init.len() implies clean(#[trigger] init[k].1) by {
            assert(init[k] == entries[k]);
        }
        lemma_formatted_shows(init, fc, fp);
        assert(entries.last() == entries[entries.len() - 1]);
        let n = shown_number(entries, fp);
        assert(shown_number(entries, fc) == n);
        lemma_formatted_line_shows(n, entries.last().1, fc, fp);
        lemma_shows_concat(
            formatted(init, fc),
            formatted(init, fp),
            formatted_line(n, entries.last().1, fc),
            formatted_line(n, entries.last().1, fp),
        );
    }
}

/// Colors only add escape sequences: for a file without escape characters
/// of its own, removing them from the colored rendering (on a terminal, or
/// by deleting the style codes) gives the uncolored rendering, whatever the
/// options. (Uncolored `--plain` output is the text
/// itself, while colored output goes line by line, so there the law needs
/// the lines to rejoin to the text.)
pub proof fn law_color_only_adds_escapes(content: Seq<char>, file: Seq<char>, o: OptionsModel)
    requires
        clean(content),
        verbatim(o, false) ==> joined(lines_of(content)) == content,
    ensures
        without_escapes(rendered(content, file, o, true)) == rendered(content, file, o, false),
        strip_codes(rendered(content, file, o, true)) == rendered(content, file, o, false),
{
    if verbatim(o, false) {
        lemma_lines_color_only_adds_escapes(content, file, o);
        let ls = lines_of(content);
        lemma_kept_all(ls, 0, false);
        let f = line_format(o, file, false, ls.len());
        lemma_formatted_plain(numbered_from(ls, 0), f);
        assert(numbered_from(ls, 0).map_values(|e: (int, Seq<char>)| e.1) =~= ls);
    } else {
        lemma_lines_color_only_adds_escapes(content, file, o);
    }
}

/// Colored lines show the uncolored lines.
proof fn lemma_lines_color_only_adds_escapes(content: Seq<char>, file: Seq<char>, o: OptionsModel)
    requires
        clean(content),
    ensures
        shows(rendered_lines(content, file, o, true), rendered_lines(content, file, o, false)),
{
    let ls = lines_of(content);
    let es = kept_lines(ls, o.line_range, o.squeeze_blank);
    let fc = line_format(o, file, true, ls.len());
    let fp = line_format(o, file, false, ls.len());
    lemma_lines_clean(content);
    law_shown_lines_are_file_lines(ls, o.line_range, o.squeeze_blank);
    assert forall|k: int| 0 <= k < es.len() implies clean(#[trigger] es[k].1) by {
        assert(es[k].1 == ls[es[k].0 - 1]);
    }
    lemma_formatted_shows(es, fc, fp);
}

/// A colored header shows the uncolored header: for a name without escape
/// characters, removing the escape sequences (on a terminal, or by deleting
/// the style codes) gives the plain header.
pub proof fn law_header_color_only_adds_escapes(file: Seq<char>)
    requires
        clean(file),
    ensures
        without_escapes(header(file, true)) == header(file, false),
        strip_codes(header(file, true)) == header(file, false),
{
    lemma_header_shows(file);
}

/// A colored header shows the plain header.
proof fn lemma_header_shows(file: Seq<char>)
    requires
        clean(file),
    ensures
        shows(header(file, true), header(file, false)),
{
    let lead = seq!['─', '─', ' '];
    let space = seq![' '];
    let nl = seq!['\n'];
    let r = rule();
    assert(clean(r));
    lemma_clean_shows(lead);
    lemma_clean_shows(space);
    lemma_clean_shows(nl);
    lemma_clean_shows(r);
    lemma_clean_shows(file);
    lemma_style_shows_nothing(Style::Dim);
    lemma_style_shows_nothing(Style::Bold);
    lemma_style_shows_nothing(Style::Cyan);
    lemma_style_shows_nothing(Style::Reset);
    let e = Seq::<char>::empty();
    let p1 = Style::Dim.code() + lead;
    lemma_shows_concat(Style::Dim.code(), e, lead, lead);
    let p2 = p1 + Style::Bold.code();
    lemma_shows_concat(p1, e + lead, Style::Bold.code(), e);
    let p3 = p2 + Style::Cyan.code();
    lemma_shows_concat(p2, e + lead + e, Style::Cyan.code(), e);
    let p4 = p3 + file;
    lemma_shows_concat(p3, e + lead + e + e, file, file);
    let p5 = p4 + Style::Reset.code();
    lemma_shows_concat(p4, e + lead + e + e + file, Style::Reset.code(), e);
    let p6 = p5 + space;
    lemma_shows_concat(p5, e + lead + e + e + file + e, space, space);
    let p7 = p6 + Style::Dim.code();
    lemma_shows_concat(p6, e + lead + e + e + file + e + space, Style::Dim.code(), e);
    let p8 = p7 + r;
    lemma_shows_concat(p7, e + lead + e + e + file + e + space + e, r, r);
    let p9 = p8 + Style::Reset.code();
    lemma_shows_concat(p8, e + lead + e + e + file + e + space + e + r, Style::Reset.code(), e);
    lemma_shows_concat(p9, e + lead + e + e + file + e + space + e + r + e, nl, nl);
    assert(e + lead + e + e + file + e + space + e + r + e + nl =~= header(file, false));
    assert(p9 + nl == header(file, true));
}


/// Every name and every text is free of escape characters.
pub open spec fn inputs_clean(names: Seq<Seq<char>>, contents: Seq<Seq<char>>) -> bool {
    forall|i: int| 0 <= i < names.len() ==> clean(#[trigger] names[i]) && clean(contents[i])
}

/// Colored inputs, with their headers, show the uncolored ones.
proof fn lemma_document_shows(
    names: Seq<Seq<char>>,
    contents: Seq<Seq<char>>,
    k: int,
    o: OptionsModel,
)
    requires
        0 <= k <= names.len(),
        names.len() == contents.len(),
        with_headers(o, names.len(), false),
        inputs_clean(names, contents),
        o.file_name matches Some(n) ==> clean(n),
    ensures
        shows(document_upto(names, contents, k, o, true), document_upto(names, contents, k, o, false)),
    decreases k,
{
    if k == 0 {
        lemma_clean_shows(seq![]);
    } else {
        let idx = k - 1;
        lemma_document_shows(names, contents, idx, o);
        assert(clean(names[idx]) && clean(contents[idx]));
        let shown = match o.file_name {
            Some(n) => n,
            None => names[idx],
        };
        lemma_header_shows(shown);
        let nl: Seq<char> = if idx > 0 {
            seq!['\n']
        } else {
            seq![]
        };
        lemma_clean_shows(nl);
        lemma_shows_concat(nl, nl, header(shown, true), header(shown, false));
        lemma_lines_color_only_adds_escapes(contents[idx], names[idx], o);
        assert(rendered(contents[idx], names[idx], o, true) == rendered_lines(
            contents[idx],
            names[idx],
            o,
            true,
        ));
        assert(rendered(contents[idx], names[idx], o, false) == rendered_lines(
            contents[idx],
            names[idx],
            o,
            false,
        ));
        lemma_shows_concat(
            nl + header(shown, true),
            nl + header(shown, false),
            rendered(contents[idx], names[idx], o, true),
            rendered(contents[idx], names[idx], o, false),
        );
        assert(with_headers(o, names.len(), true));
        assert(input_part(names, contents, idx, o, true) == nl + header(shown, true) + rendered(
            contents[idx],
            names[idx],
            o,
            true,
        ));
        assert(input_part(names, contents, idx, o, false) == nl + header(shown, false) + rendered(
            contents[idx],
            names[idx],
            o,
            false,
        ));
        lemma_shows_concat(
            document_upto(names, contents, idx, o, true),
            document_upto(names, contents, idx, o, false),
            input_part(names, contents, idx, o, true),
            input_part(names, contents, idx, o, false),
        );
    }
}

/// Colors only add escape sequences to the output of several inputs too:
/// when headers are drawn without colors (several files, a decorated
/// style, no `--plain`), removing the escape sequences from the colored
/// output (on a terminal, or by deleting the style codes) gives the
/// uncolored output, blank separator lines and headers included, for names
/// and texts without escape characters of their own.
pub proof fn law_document_color_only_adds_escapes(
    names: Seq<Seq<char>>,
    contents: Seq<Seq<char>>,
    o: OptionsModel,
)
    requires
        names.len() == contents.len(),
        with_headers(o, names.len(), false),
        inputs_clean(names, contents),
        o.file_name matches Some(n) ==> clean(n),
    ensures
        without_escapes(document(names, contents, o, true)) == document(names, contents, o, false),
        strip_codes(document(names, contents, o, true)) == document(names, contents, o, false),
{
    lemma_document_shows(names, contents, names.len() as int, o);
}

} // verus!
