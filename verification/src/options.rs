//! Command-line options: their model, their parsing and the display
//! decisions that follow from them.
use vstd::prelude::*;
use crate::number::{parse_usize, parse_usize_spec};
use crate::text::{chars_are, chars_of, has_prefix, owned, push_chars, push_str, split_once, split_once_exec, starts_with, string_of};

verus! {

/// When to color the output.
#[derive(Clone, Copy, Debug, PartialEq, Eq, Structural)]
pub enum ColorChoice {
    Always,
    Auto,
    Never,
}

/// When to page the output through `less`.
#[derive(Clone, Copy, Debug, PartialEq, Eq, Structural)]
pub enum Paging {
    Always,
    Auto,
    Never,
}

/// An inclusive range of line numbers; `end` is open when absent.
#[derive(Clone, Copy, Debug, PartialEq, Eq, Structural)]
pub struct LineRange {
    pub start: usize,
    pub end: Option<usize>,
}

/// An option that ends argument parsing with an informational request
/// instead of rendering files.
#[derive(Clone, Copy, Debug, PartialEq, Eq, Structural)]
pub enum EarlyExit {
    Help,
    Version,
    ListLanguages,
    ListThemes,
}

/// The options of one invocation.
#[derive(Debug)]
pub struct Options {
    pub files: Vec<String>,
    pub numbers: bool,
    pub show_all: bool,
    pub squeeze_blank: bool,
    pub plain: bool,
    pub color: ColorChoice,
    pub style: String,
    pub language: Option<String>,
    pub file_name: Option<String>,
    pub line_range: Option<LineRange>,
    pub paging: Paging,
    pub early_exit: Option<EarlyExit>,
}

/// The options as mathematical values.
pub struct OptionsModel {
    pub files: Seq<Seq<char>>,
    pub numbers: bool,
    pub show_all: bool,
    pub squeeze_blank: bool,
    pub plain: bool,
    pub color: ColorChoice,
    pub style: Seq<char>,
    pub language: Option<Seq<char>>,
    pub file_name: Option<Seq<char>>,
    pub line_range: Option<LineRange>,
    pub paging: Paging,
    pub early_exit: Option<EarlyExit>,
}

/// The view of an optional string.
pub open spec fn opt_view(o: Option<String>) -> Option<Seq<char>> {
    match o {
        Some(s) => Some(s@),
        None => None,
    }
}

/// The views of a list of strings.
pub open spec fn string_views(v: Seq<String>) -> Seq<Seq<char>> {
    v.map_values(|s: String| s@)
}

impl View for Options {
    type V = OptionsModel;

    open spec fn view(&self) -> OptionsModel {
        OptionsModel {
            files: string_views(self.files@),
            numbers: self.numbers,
            show_all: self.show_all,
            squeeze_blank: self.squeeze_blank,
            plain: self.plain,
            color: self.color,
            style: self.style@,
            language: opt_view(self.language),
            file_name: opt_view(self.file_name),
            line_range: self.line_range,
            paging: self.paging,
            early_exit: self.early_exit,
        }
    }
}

/// The options before any argument is read.
pub open spec fn default_options() -> OptionsModel {
    OptionsModel {
        files: seq![],
        numbers: false,
        show_all: false,
        squeeze_blank: false,
        plain: false,
        color: ColorChoice::Auto,
        style: "default"@,
        language: None,
        file_name: None,
        line_range: None,
        paging: Paging::Auto,
        early_exit: None,
    }
}

impl Default for Options {
    fn default() -> (r: Self)
        ensures
            r@ == default_options(),
    {
        let r = Options {
            files: Vec::new(),
            numbers: false,
            show_all: false,
            squeeze_blank: false,
            plain: false,
            color: ColorChoice::Auto,
            style: owned("default"),
            language: None,
            file_name: None,
            line_range: None,
            paging: Paging::Auto,
            early_exit: None,
        };
        assert(r@.files =~= Seq::<Seq<char>>::empty());
        r
    }
}

/// `--color` values.
pub open spec fn color_choice(value: Seq<char>) -> Result<ColorChoice, Seq<char>> {
    if value == "always"@ {
        Ok(ColorChoice::Always)
    } else if value == "auto"@ {
        Ok(ColorChoice::Auto)
    } else if value == "never"@ {
        Ok(ColorChoice::Never)
    } else {
        Err("invalid color choice: "@ + value + " (use always, auto, or never)"@)
    }
}

/// `--paging` values.
pub open spec fn paging_choice(value: Seq<char>) -> Result<Paging, Seq<char>> {
    if value == "always"@ {
        Ok(Paging::Always)
    } else if value == "auto"@ {
        Ok(Paging::Auto)
    } else if value == "never"@ {
        Ok(Paging::Never)
    } else {
        Err("invalid paging choice: "@ + value + " (use always, auto, or never)"@)
    }
}

/// The error for a malformed line range.
pub open spec fn range_error(value: Seq<char>) -> Seq<char> {
    "invalid line range: "@ + value
}

/// `--line-range` values: `N:M`, `N:`, `:M` or `N` (meaning `N:N`); an
/// empty start means 1, an empty end means "to the last line", and the end
/// may not come before the start.
pub open spec fn line_range_of(value: Seq<char>) -> Result<LineRange, Seq<char>> {
    let (start, end) = match split_once(value, seq![':']) {
        Some(parts) => parts,
        None => (value, value),
    };
    let start_value = if start.len() == 0 {
        Some(1usize)
    } else {
        parse_usize_spec(start)
    };
    match start_value {
        None => Err(range_error(value)),
        Some(s) => {
            if end.len() == 0 {
                Ok(LineRange { start: s, end: None })
            } else {
                match parse_usize_spec(end) {
                    None => Err(range_error(value)),
                    Some(e) => if e < s {
                        Err(range_error(value))
                    } else {
                        Ok(LineRange { start: s, end: Some(e) })
                    },
                }
            }
        },
    }
}

/// Parses a `--color` value.
pub fn parse_color(value: &str) -> (r: Result<ColorChoice, String>)
    ensures
        match r {
            Ok(c) => color_choice(value@) == Ok::<ColorChoice, Seq<char>>(c),
            Err(e) => color_choice(value@) == Err::<ColorChoice, Seq<char>>(e@),
        },
{
    let v = chars_of(value);
    if chars_are(&v, "always") {
        Ok(ColorChoice::Always)
    } else if chars_are(&v, "auto") {
        Ok(ColorChoice::Auto)
    } else if chars_are(&v, "never") {
        Ok(ColorChoice::Never)
    } else {
        let mut e = owned("invalid color choice: ");
        push_str(&mut e, value);
        push_str(&mut e, " (use always, auto, or never)");
        Err(e)
    }
}

/// Parses a `--paging` value.
pub fn parse_paging(value: &str) -> (r: Result<Paging, String>)
    ensures
        match r {
            Ok(p) => paging_choice(value@) == Ok::<Paging, Seq<char>>(p),
            Err(e) => paging_choice(value@) == Err::<Paging, Seq<char>>(e@),
        },
{
    let v = chars_of(value);
    if chars_are(&v, "always") {
        Ok(Paging::Always)
    } else if chars_are(&v, "auto") {
        Ok(Paging::Auto)
    } else if chars_are(&v, "never") {
        Ok(Paging::Never)
    } else {
        let mut e = owned("invalid paging choice: ");
        push_str(&mut e, value);
        push_str(&mut e, " (use always, auto, or never)");
        Err(e)
    }
}

/// The error for a malformed line range, as text.
fn range_error_exec(value: &str) -> (r: String)
    ensures
        r@ == range_error(value@),
{
    let mut e = owned("invalid line range: ");
    push_str(&mut e, value);
    e
}

/// Parses a `--line-range` value such as `20:60`, `5:`, `:9` or `7`.
pub fn parse_range(value: &str) -> (r: Result<LineRange, String>)
    ensures
        match r {
            Ok(range) => line_range_of(value@) == Ok::<LineRange, Seq<char>>(range),
            Err(e) => line_range_of(value@) == Err::<LineRange, Seq<char>>(e@),
        },
{
    let v = chars_of(value);
    let colon = vec![':'];
    assert(colon@ == seq![':']);
    let (start, end) = match split_once_exec(&v, &colon) {
        Some(parts) => parts,
        None => (owned(value), owned(value)),
    };
    let start_chars = chars_of(start.as_str());
    let end_chars = chars_of(end.as_str());
    let start_value = if start_chars.len() == 0 {
        Some(1usize)
    } else {
        parse_usize(&start_chars)
    };
    match start_value {
        None => Err(range_error_exec(value)),
        Some(s) => {
            if end_chars.len() == 0 {
                Ok(LineRange { start: s, end: None })
            } else {
                match parse_usize(&end_chars) {
                    None => Err(range_error_exec(value)),
                    Some(e) => if e < s {
                        Err(range_error_exec(value))
                    } else {
                        Ok(LineRange { start: s, end: Some(e) })
                    },
                }
            }
        },
    }
}

/// Options that take a value.
#[derive(Clone, Copy, Debug, PartialEq, Eq, Structural)]
pub enum ValueOption {
    Language,
    FileName,
    LineRange,
    Style,
    Paging,
    Color,
}

/// The long name of an option that takes a value.
pub open spec fn value_option_name(k: ValueOption) -> Seq<char> {
    match k {
        ValueOption::Language => "--language"@,
        ValueOption::FileName => "--file-name"@,
        ValueOption::LineRange => "--line-range"@,
        ValueOption::Style => "--style"@,
        ValueOption::Paging => "--paging"@,
        ValueOption::Color => "--color"@,
    }
}

/// The error when the value of an option is missing.
pub open spec fn missing_value(k: ValueOption) -> Seq<char> {
    "missing value after "@ + value_option_name(k)
}

/// The option that an argument names, when its value is the next argument.
pub open spec fn value_option_named(a: Seq<char>) -> Option<ValueOption> {
    if a == "-l"@ || a == "--language"@ {
        Some(ValueOption::Language)
    } else if a == "--file-name"@ {
        Some(ValueOption::FileName)
    } else if a == "-r"@ || a == "--line-range"@ {
        Some(ValueOption::LineRange)
    } else if a == "--style"@ {
        Some(ValueOption::Style)
    } else if a == "--paging"@ {
        Some(ValueOption::Paging)
    } else if a == "--color"@ {
        Some(ValueOption::Color)
    } else {
        None
    }
}

/// The option and value of an argument of the form `--name=value`.
pub open spec fn value_option_inline(a: Seq<char>) -> Option<(ValueOption, Seq<char>)> {
    if has_prefix(a, "--language="@) {
        Some((ValueOption::Language, a.skip("--language="@.len() as int)))
    } else if has_prefix(a, "--file-name="@) {
        Some((ValueOption::FileName, a.skip("--file-name="@.len() as int)))
    } else if has_prefix(a, "--line-range="@) {
        Some((ValueOption::LineRange, a.skip("--line-range="@.len() as int)))
    } else if has_prefix(a, "--style="@) {
        Some((ValueOption::Style, a.skip("--style="@.len() as int)))
    } else if has_prefix(a, "--paging="@) {
        Some((ValueOption::Paging, a.skip("--paging="@.len() as int)))
    } else if has_prefix(a, "--color="@) {
        Some((ValueOption::Color, a.skip("--color="@.len() as int)))
    } else {
        None
    }
}

/// The options after `k` was given the value `v`.
pub open spec fn with_value(st: OptionsModel, k: ValueOption, v: Seq<char>) -> Result<
    OptionsModel,
    Seq<char>,
> {
    match k {
        ValueOption::Language => Ok(OptionsModel { language: Some(v), ..st }),
        ValueOption::FileName => Ok(OptionsModel { file_name: Some(v), ..st }),
        ValueOption::LineRange => match line_range_of(v) {
            Ok(r) => Ok(OptionsModel { line_range: Some(r), ..st }),
            Err(e) => Err(e),
        },
        ValueOption::Style => Ok(OptionsModel { style: v, ..st }),
        ValueOption::Paging => match paging_choice(v) {
            Ok(p) => Ok(OptionsModel { paging: p, ..st }),
            Err(e) => Err(e),
        },
        ValueOption::Color => match color_choice(v) {
            Ok(c) => Ok(OptionsModel { color: c, ..st }),
            Err(e) => Err(e),
        },
    }
}

/// The options after a flag without a value, when `a` is one.
pub open spec fn with_switch(st: OptionsModel, a: Seq<char>) -> Option<OptionsModel> {
    if a == "-n"@ || a == "--number"@ {
        Some(OptionsModel { numbers: true, style: "numbers"@, ..st })
    } else if a == "-A"@ || a == "--show-all"@ {
        Some(OptionsModel { show_all: true, ..st })
    } else if a == "-s"@ || a == "--squeeze-blank"@ {
        Some(OptionsModel { squeeze_blank: true, ..st })
    } else if a == "-p"@ || a == "--plain"@ {
        Some(OptionsModel { plain: true, ..st })
    } else if a == "-pp"@ {
        Some(OptionsModel { plain: true, paging: Paging::Never, ..st })
    } else if a == "-P"@ {
        Some(OptionsModel { paging: Paging::Never, ..st })
    } else {
        None
    }
}

/// The informational request that an argument makes, if any.
pub open spec fn exit_request(a: Seq<char>) -> Option<EarlyExit> {
    if a == "-L"@ || a == "--list-languages"@ {
        Some(EarlyExit::ListLanguages)
    } else if a == "--list-themes"@ {
        Some(EarlyExit::ListThemes)
    } else if a == "-h"@ || a == "--help"@ {
        Some(EarlyExit::Help)
    } else if a == "-V"@ || a == "--version"@ {
        Some(EarlyExit::Version)
    } else {
        None
    }
}

/// The options after `st` with `a` added to the files.
pub open spec fn with_file(st: OptionsModel, a: Seq<char>) -> OptionsModel {
    OptionsModel { files: st.files.push(a), ..st }
}

/// Parsing `args` from index `i` on, starting from `st`; after `--`
/// (`positional`) every argument is a file.
pub open spec fn parse_from(args: Seq<Seq<char>>, i: int, st: OptionsModel, positional: bool) -> Result<
    OptionsModel,
    Seq<char>,
>
    decreases args.len() - i,
{
    if i < 0 || i >= args.len() {
        Ok(st)
    } else {
        let a = args[i];
        if positional {
            parse_from(args, i + 1, with_file(st, a), true)
        } else if a == "--"@ {
            parse_from(args, i + 1, st, true)
        } else {
            match with_switch(st, a) {
                Some(s2) => parse_from(args, i + 1, s2, false),
                None => match value_option_named(a) {
                    Some(k) => if i + 1 < args.len() {
                        match with_value(st, k, args[i + 1]) {
                            Ok(s2) => parse_from(args, i + 2, s2, false),
                            Err(e) => Err(e),
                        }
                    } else {
                        Err(missing_value(k))
                    },
                    None => match value_option_inline(a) {
                        Some((k, v)) => match with_value(st, k, v) {
                            Ok(s2) => parse_from(args, i + 1, s2, false),
                            Err(e) => Err(e),
                        },
                        None => match exit_request(a) {
                            Some(x) => Ok(OptionsModel { early_exit: Some(x), ..st }),
                            None => if has_prefix(a, "-"@) && a != "-"@ {
                                Err("unknown option: "@ + a)
                            } else {
                                parse_from(args, i + 1, with_file(st, a), false)
                            },
                        },
                    },
                },
            }
        }
    }
}

/// The options that the arguments select, or the error they cause.
pub open spec fn parse_arguments(args: Seq<Seq<char>>) -> Result<OptionsModel, Seq<char>> {
    parse_from(args, 0, default_options(), false)
}

/// Applies a flag without a value, when `a` is one.
fn apply_switch(options: &mut Options, a: &Vec<char>) -> (r: bool)
    ensures
        match with_switch(old(options)@, a@) {
            Some(s2) => r && final(options)@ == s2,
            None => !r && final(options)@ == old(options)@,
        },
{
    if chars_are(a, "-n") || chars_are(a, "--number") {
        options.numbers = true;
        options.style = owned("numbers");
        true
    } else if chars_are(a, "-A") || chars_are(a, "--show-all") {
        options.show_all = true;
        true
    } else if chars_are(a, "-s") || chars_are(a, "--squeeze-blank") {
        options.squeeze_blank = true;
        true
    } else if chars_are(a, "-p") || chars_are(a, "--plain") {
        options.plain = true;
        true
    } else if chars_are(a, "-pp") {
        options.plain = true;
        options.paging = Paging::Never;
        true
    } else if chars_are(a, "-P") {
        options.paging = Paging::Never;
        true
    } else {
        false
    }
}

/// The option that `a` names, when its value is the next argument.
fn named_value_option(a: &Vec<char>) -> (r: Option<ValueOption>)
    ensures
        r == value_option_named(a@),
{
    if chars_are(a, "-l") || chars_are(a, "--language") {
        Some(ValueOption::Language)
    } else if chars_are(a, "--file-name") {
        Some(ValueOption::FileName)
    } else if chars_are(a, "-r") || chars_are(a, "--line-range") {
        Some(ValueOption::LineRange)
    } else if chars_are(a, "--style") {
        Some(ValueOption::Style)
    } else if chars_are(a, "--paging") {
        Some(ValueOption::Paging)
    } else if chars_are(a, "--color") {
        Some(ValueOption::Color)
    } else {
        None
    }
}

/// The rest of `a` after `prefix`, when `a` starts with it.
fn after_prefix(a: &Vec<char>, prefix: &str) -> (r: Option<String>)
    ensures
        has_prefix(a@, prefix@) ==> (r matches Some(v) && v@ == a@.skip(prefix@.len() as int)),
        !has_prefix(a@, prefix@) ==> r is None,
{
    let p = chars_of(prefix);
    if starts_with(a, &p) {
        let v = string_of(a, p.len(), a.len());
        assert(a@.subrange(p@.len() as int, a@.len() as int) == a@.skip(p@.len() as int));
        Some(v)
    } else {
        None
    }
}

/// The option and value of an argument of the form `--name=value`.
fn inline_value_option(a: &Vec<char>) -> (r: Option<(ValueOption, String)>)
    ensures
        match value_option_inline(a@) {
            Some((k, v)) => r matches Some(p) && p.0 == k && p.1@ == v,
            None => r is None,
        },
{
    if let Some(v) = after_prefix(a, "--language=") {
        return Some((ValueOption::Language, v));
    }
    if let Some(v) = after_prefix(a, "--file-name=") {
        return Some((ValueOption::FileName, v));
    }
    if let Some(v) = after_prefix(a, "--line-range=") {
        return Some((ValueOption::LineRange, v));
    }
    if let Some(v) = after_prefix(a, "--style=") {
        return Some((ValueOption::Style, v));
    }
    if let Some(v) = after_prefix(a, "--paging=") {
        return Some((ValueOption::Paging, v));
    }
    if let Some(v) = after_prefix(a, "--color=") {
        return Some((ValueOption::Color, v));
    }
    None
}

/// The informational request that `a` makes, if any.
fn requested_exit(a: &Vec<char>) -> (r: Option<EarlyExit>)
    ensures
        r == exit_request(a@),
{
    if chars_are(a, "-L") || chars_are(a, "--list-languages") {
        Some(EarlyExit::ListLanguages)
    } else if chars_are(a, "--list-themes") {
        Some(EarlyExit::ListThemes)
    } else if chars_are(a, "-h") || chars_are(a, "--help") {
        Some(EarlyExit::Help)
    } else if chars_are(a, "-V") || chars_are(a, "--version") {
        Some(EarlyExit::Version)
    } else {
        None
    }
}

/// The error when the value of `k` is missing, as text.
fn missing_value_exec(k: ValueOption) -> (r: String)
    ensures
        r@ == missing_value(k),
{
    let mut e = owned("missing value after ");
    match k {
        ValueOption::Language => push_str(&mut e, "--language"),
        ValueOption::FileName => push_str(&mut e, "--file-name"),
        ValueOption::LineRange => push_str(&mut e, "--line-range"),
        ValueOption::Style => push_str(&mut e, "--style"),
        ValueOption::Paging => push_str(&mut e, "--paging"),
        ValueOption::Color => push_str(&mut e, "--color"),
    }
    e
}

/// Gives option `k` the value `v`.
fn apply_value(options: &mut Options, k: ValueOption, v: String) -> (r: Result<(), String>)
    ensures
        match with_value(old(options)@, k, v@) {
            Ok(s2) => r is Ok && final(options)@ == s2,
            Err(e) => r matches Err(x) && x@ == e,
        },
{
    match k {
        ValueOption::Language => {
            options.language = Some(v);
            Ok(())
        },
        ValueOption::FileName => {
            options.file_name = Some(v);
            Ok(())
        },
        ValueOption::LineRange => match parse_range(v.as_str()) {
            Ok(range) => {
                options.line_range = Some(range);
                Ok(())
            },
            Err(e) => Err(e),
        },
        ValueOption::Style => {
            options.style = v;
            Ok(())
        },
        ValueOption::Paging => match parse_paging(v.as_str()) {
            Ok(p) => {
                options.paging = p;
                Ok(())
            },
            Err(e) => Err(e),
        },
        ValueOption::Color => match parse_color(v.as_str()) {
            Ok(c) => {
                options.color = c;
                Ok(())
            },
            Err(e) => Err(e),
        },
    }
}

/// Parses the command-line arguments (without the program name).
///
/// Options may come in any order and later ones win; `--` makes every
/// following argument a file; `-` alone is a file (standard input). An
/// informational option (`--help`, `--version`, `--list-languages`,
/// `--list-themes`) stops parsing and is recorded in `early_exit`.
pub fn parse_args(args: Vec<String>) -> (r: Result<Options, String>)
    ensures
        match r {
            Ok(o) => parse_arguments(string_views(args@)) == Ok::<OptionsModel, Seq<char>>(o@),
            Err(e) => parse_arguments(string_views(args@)) == Err::<OptionsModel, Seq<char>>(e@),
        },
{
    let ghost views = string_views(args@);
    let mut options = Options::default();
    let mut positional_only = false;
    let mut i: usize = 0;
    while i < args.len()
        invariant
            i <= args@.len(),
            views == string_views(args@),
            parse_arguments(views) == parse_from(views, i as int, options@, positional_only),
        decreases args.len() - i,
    {
        let arg = args[i].clone();
        let a = chars_of(arg.as_str());
        assert(a@ == views[i as int]);
        let ghost before = options@;
        if positional_only {
            options.files.push(arg);
            assert(options@.files =~= before.files.push(a@));
            assert(options@ == with_file(before, a@));
            i = i + 1;
        } else if chars_are(&a, "--") {
            positional_only = true;
            i = i + 1;
        } else if apply_switch(&mut options, &a) {
            i = i + 1;
        } else {
            match named_value_option(&a) {
                Some(k) => {
                    if i + 1 < args.len() {
                        let v = args[i + 1].clone();
                        assert(v@ == views[i + 1]);
                        match apply_value(&mut options, k, v) {
                            Ok(()) => {
                                i = i + 2;
                            },
                            Err(e) => {
                                return Err(e);
                            },
                        }
                    } else {
                        return Err(missing_value_exec(k));
                    }
                },
                None => match inline_value_option(&a) {
                    Some((k, v)) => match apply_value(&mut options, k, v) {
                        Ok(()) => {
                            i = i + 1;
                        },
                        Err(e) => {
                            return Err(e);
                        },
                    },
                    None => match requested_exit(&a) {
                        Some(x) => {
                            options.early_exit = Some(x);
                            return Ok(options);
                        },
                        None => {
                            proof {
                                reveal_strlit("-");
                                assert("-"@ =~= seq!['-']);
                                if a@.len() > 0 {
                                    assert(a@.take(1) =~= seq![a@[0]]);
                                    if a@[0] != '-' {
                                        assert(a@.take(1)[0] != seq!['-'][0]);
                                    }
                                }
                            }
                            if a.len() > 0 && a[0] == '-' && !chars_are(&a, "-") {
                                assert(has_prefix(a@, "-"@));
                                let mut e = owned("unknown option: ");
                                push_str(&mut e, arg.as_str());
                                return Err(e);
                            }
                            assert(!(has_prefix(a@, "-"@) && a@ != "-"@));
                            options.files.push(arg);
                            assert(options@.files =~= before.files.push(a@));
                            assert(options@ == with_file(before, a@));
                            i = i + 1;
                        },
                    },
                },
            }
        }
    }
    Ok(options)
}

} // verus!
