//! Laws of argument parsing: the two spellings of an option value, and
//! arguments that are no options.
use vstd::prelude::*;
use crate::display::{colored, newline_count, paged};
use crate::laws::with_files;
use crate::options::{
    default_options, exit_request, parse_arguments, parse_from, value_option_inline,
    value_option_name, value_option_named, with_switch, with_value, ColorChoice, EarlyExit, OptionsModel,
    ValueOption,
};
use crate::text::has_prefix;

verus! {

/// The literals of the argument grammar, character by character.
proof fn reveal_grammar()
    ensures
        "--"@ == seq!['-', '-'],
        "-"@ == seq!['-'],
        "-n"@ == seq!['-', 'n'],
        "--number"@ == seq!['-', '-', 'n', 'u', 'm', 'b', 'e', 'r'],
        "-A"@ == seq!['-', 'A'],
        "--show-all"@ == seq!['-', '-', 's', 'h', 'o', 'w', '-', 'a', 'l', 'l'],
        "-s"@ == seq!['-', 's'],
        "--squeeze-blank"@ == seq!['-', '-', 's', 'q', 'u', 'e', 'e', 'z', 'e', '-', 'b', 'l', 'a', 'n', 'k'],
        "-p"@ == seq!['-', 'p'],
        "--plain"@ == seq!['-', '-', 'p', 'l', 'a', 'i', 'n'],
        "-pp"@ == seq!['-', 'p', 'p'],
        "-P"@ == seq!['-', 'P'],
        "-l"@ == seq!['-', 'l'],
        "--language"@ == seq!['-', '-', 'l', 'a', 'n', 'g', 'u', 'a', 'g', 'e'],
        "--file-name"@ == seq!['-', '-', 'f', 'i', 'l', 'e', '-', 'n', 'a', 'm', 'e'],
        "-r"@ == seq!['-', 'r'],
        "--line-range"@ == seq!['-', '-', 'l', 'i', 'n', 'e', '-', 'r', 'a', 'n', 'g', 'e'],
        "--style"@ == seq!['-', '-', 's', 't', 'y', 'l', 'e'],
        "--paging"@ == seq!['-', '-', 'p', 'a', 'g', 'i', 'n', 'g'],
        "--color"@ == seq!['-', '-', 'c', 'o', 'l', 'o', 'r'],
        "--language="@ == seq!['-', '-', 'l', 'a', 'n', 'g', 'u', 'a', 'g', 'e', '='],
        "--file-name="@ == seq!['-', '-', 'f', 'i', 'l', 'e', '-', 'n', 'a', 'm', 'e', '='],
        "--line-range="@ == seq!['-', '-', 'l', 'i', 'n', 'e', '-', 'r', 'a', 'n', 'g', 'e', '='],
        "--style="@ == seq!['-', '-', 's', 't', 'y', 'l', 'e', '='],
        "--paging="@ == seq!['-', '-', 'p', 'a', 'g', 'i', 'n', 'g', '='],
        "--color="@ == seq!['-', '-', 'c', 'o', 'l', 'o', 'r', '='],
        "-L"@ == seq!['-', 'L'],
        "--list-languages"@ == seq!['-', '-', 'l', 'i', 's', 't', '-', 'l', 'a', 'n', 'g', 'u', 'a', 'g', 'e', 's'],
        "--list-themes"@ == seq!['-', '-', 'l', 'i', 's', 't', '-', 't', 'h', 'e', 'm', 'e', 's'],
        "-h"@ == seq!['-', 'h'],
        "--help"@ == seq!['-', '-', 'h', 'e', 'l', 'p'],
        "-V"@ == seq!['-', 'V'],
        "--version"@ == seq!['-', '-', 'v', 'e', 'r', 's', 'i', 'o', 'n'],
{
    reveal_strlit("--");
    reveal_strlit("-");
    reveal_strlit("-n");
    reveal_strlit("--number");
    reveal_strlit("-A");
    reveal_strlit("--show-all");
    reveal_strlit("-s");
    reveal_strlit("--squeeze-blank");
    reveal_strlit("-p");
    reveal_strlit("--plain");
    reveal_strlit("-pp");
    reveal_strlit("-P");
    reveal_strlit("-l");
    reveal_strlit("--language");
    reveal_strlit("--file-name");
    reveal_strlit("-r");
    reveal_strlit("--line-range");
    reveal_strlit("--style");
    reveal_strlit("--paging");
    reveal_strlit("--color");
    reveal_strlit("--language=");
    reveal_strlit("--file-name=");
    reveal_strlit("--line-range=");
    reveal_strlit("--style=");
    reveal_strlit("--paging=");
    reveal_strlit("--color=");
    reveal_strlit("-L");
    reveal_strlit("--list-languages");
    reveal_strlit("--list-themes");
    reveal_strlit("-h");
    reveal_strlit("--help");
    reveal_strlit("-V");
    reveal_strlit("--version");
}

/// Parsing from index `i` depends only on the arguments from `j <= i` on.
proof fn lemma_parse_shift(args: Seq<Seq<char>>, j: int, i: int, st: OptionsModel, positional: bool)
    requires
        0 <= j <= i <= args.len(),
    ensures
        parse_from(args, i, st, positional) == parse_from(args.skip(j), i - j, st, positional),
    decreases args.len() - i,
{
    let t = args.skip(j);
    if i < args.len() {
        let a = args[i];
        assert(t[i - j] == a);
        if positional {
            lemma_parse_shift(args, j, i + 1, OptionsModel { files: st.files.push(a), ..st }, true);
        } else if a == "--"@ {
            lemma_parse_shift(args, j, i + 1, st, true);
        } else {
            match with_switch(st, a) {
                Some(s2) => lemma_parse_shift(args, j, i + 1, s2, false),
                None => match value_option_named(a) {
                    Some(k) => if i + 1 < args.len() {
                        assert(t[i - j + 1] == args[i + 1]);
                        match with_value(st, k, args[i + 1]) {
                            Ok(s2) => lemma_parse_shift(args, j, i + 2, s2, false),
                            Err(e) => {},
                        }
                    },
                    None => match value_option_inline(a) {
                        Some((k, v)) => match with_value(st, k, v) {
                            Ok(s2) => lemma_parse_shift(args, j, i + 1, s2, false),
                            Err(e) => {},
                        },
                        None => match exit_request(a) {
                            Some(x) => {},
                            None => if !(has_prefix(a, "-"@) && a != "-"@) {
                                lemma_parse_shift(
                                    args,
                                    j,
                                    i + 1,
                                    OptionsModel { files: st.files.push(a), ..st },
                                    false,
                                );
                            },
                        },
                    },
                },
            }
        }
    }
}

/// A character of a prefix is the character of the text at that place.
proof fn lemma_prefix_char(a: Seq<char>, p: Seq<char>, idx: int)
    ensures
        has_prefix(a, p) && 0 <= idx < p.len() ==> a[idx] == p[idx],
{
    if has_prefix(a, p) && 0 <= idx < p.len() {
        assert(a.take(p.len() as int)[idx] == a[idx]);
    }
}

/// How `--name=value` is read: as the option `k` with the value `v`.
proof fn lemma_inline_argument(k: ValueOption, v: Seq<char>, st: OptionsModel)
    ensures
        ({
            let a = value_option_name(k) + seq!['='] + v;
            &&& a != "--"@
            &&& with_switch(st, a) is None
            &&& value_option_named(a) is None
            &&& value_option_inline(a) == Some((k, v))
        }),
{
    reveal_grammar();
    let name = value_option_name(k);
    let a = name + seq!['='] + v;
    let n = name.len() as int;
    assert(a[n] == '=');
    assert(a.skip(n + 1) =~= v);
    assert(a.take(n + 1) =~= name + seq!['=']);
    assert(a[2] == name[2]);
    assert(a[3] == name[3]);
    let p = match k {
        ValueOption::Language => "--language="@,
        ValueOption::FileName => "--file-name="@,
        ValueOption::LineRange => "--line-range="@,
        ValueOption::Style => "--style="@,
        ValueOption::Paging => "--paging="@,
        ValueOption::Color => "--color="@,
    };
    assert(p =~= name + seq!['=']);
    assert(has_prefix(a, p));
    lemma_prefix_char(a, "--language="@, 2);
    lemma_prefix_char(a, "--language="@, 3);
    lemma_prefix_char(a, "--file-name="@, 2);
    lemma_prefix_char(a, "--line-range="@, 2);
    lemma_prefix_char(a, "--line-range="@, 3);
    lemma_prefix_char(a, "--style="@, 2);
    lemma_prefix_char(a, "--paging="@, 2);
}

/// How `--name` is read: as the option `k`, whose value comes next.
proof fn lemma_named_argument(k: ValueOption, st: OptionsModel)
    ensures
        ({
            let name = value_option_name(k);
            &&& name != "--"@
            &&& with_switch(st, name) is None
            &&& value_option_named(name) == Some(k)
        }),
{
    reveal_grammar();
    assert(value_option_name(k).len() > 2);
}

/// `--name=value` and `--name value` mean the same for every option that
/// takes a value: whatever follows, both parse to the same options or fail
/// with the same message.
pub proof fn law_inline_value_same_as_separate(k: ValueOption, v: Seq<char>, rest: Seq<Seq<char>>)
    ensures
        parse_arguments(seq![value_option_name(k) + seq!['='] + v] + rest) == parse_arguments(
            seq![value_option_name(k), v] + rest,
        ),
{
    let name = value_option_name(k);
    let a = name + seq!['='] + v;
    let inline = seq![a] + rest;
    let split = seq![name, v] + rest;
    let st = default_options();
    assert(inline[0] == a);
    assert(split[0] == name);
    assert(split[1] == v);
    lemma_inline_argument(k, v, st);
    lemma_named_argument(k, st);
    match with_value(st, k, v) {
        Ok(s2) => {
            lemma_parse_shift(inline, 1, 1, s2, false);
            lemma_parse_shift(split, 2, 2, s2, false);
            assert(inline.skip(1) =~= rest);
            assert(split.skip(2) =~= rest);
        },
        Err(e) => {},
    }
}

/// The switches that only turn a flag on.
pub enum Flag {
    ShowAll,
    SqueezeBlank,
    Plain,
}

/// The short spelling of a flag's switch.
pub open spec fn short_switch(flag: Flag) -> Seq<char> {
    match flag {
        Flag::ShowAll => seq!['-', 'A'],
        Flag::SqueezeBlank => seq!['-', 's'],
        Flag::Plain => seq!['-', 'p'],
    }
}

/// The long spelling of a flag's switch.
pub open spec fn long_switch(flag: Flag) -> Seq<char> {
    match flag {
        Flag::ShowAll => seq!['-', '-', 's', 'h', 'o', 'w', '-', 'a', 'l', 'l'],
        Flag::SqueezeBlank => seq![
            '-', '-', 's', 'q', 'u', 'e', 'e', 'z', 'e', '-', 'b', 'l', 'a', 'n', 'k'
        ],
        Flag::Plain => seq!['-', '-', 'p', 'l', 'a', 'i', 'n'],
    }
}

/// The options with the flag turned on.
pub open spec fn flag_set(o: OptionsModel, flag: Flag) -> OptionsModel {
    match flag {
        Flag::ShowAll => OptionsModel { show_all: true, ..o },
        Flag::SqueezeBlank => OptionsModel { squeeze_blank: true, ..o },
        Flag::Plain => OptionsModel { plain: true, ..o },
    }
}

/// A parse result with the flag turned on, errors unchanged.
pub open spec fn with_flag(r: Result<OptionsModel, Seq<char>>, flag: Flag) -> Result<
    OptionsModel,
    Seq<char>,
> {
    match r {
        Ok(o) => Ok(flag_set(o, flag)),
        Err(e) => Err(e),
    }
}

/// A switch does the same with the flag on, and keeps it on.
proof fn lemma_switch_commutes(st: OptionsModel, a: Seq<char>, flag: Flag)
    ensures
        match with_switch(st, a) {
            Some(s2) => with_switch(flag_set(st, flag), a) == Some(flag_set(s2, flag)),
            None => with_switch(flag_set(st, flag), a) is None,
        },
{
}

/// A value does the same with the flag on, and keeps it on.
proof fn lemma_value_commutes(st: OptionsModel, k: ValueOption, v: Seq<char>, flag: Flag)
    ensures
        with_value(flag_set(st, flag), k, v) == with_flag(with_value(st, k, v), flag),
{
}

/// Starting with a flag already on gives the same as turning it on at the
/// end: no argument turns a flag off or reads it.
#[verifier::rlimit(100)]
#[verifier::spinoff_prover]
proof fn lemma_flag_commutes(args: Seq<Seq<char>>, i: int, st: OptionsModel, positional: bool, flag: Flag)
    requires
        0 <= i <= args.len(),
    ensures
        parse_from(args, i, flag_set(st, flag), positional) == with_flag(
            parse_from(args, i, st, positional),
            flag,
        ),
    decreases args.len() - i,
{
    let fs = flag_set(st, flag);
    if i < args.len() {
        let a = args[i];
        if positional {
            let st2 = OptionsModel { files: st.files.push(a), ..st };
            lemma_flag_commutes(args, i + 1, st2, true, flag);
            assert(OptionsModel { files: fs.files.push(a), ..fs } == flag_set(st2, flag));
        } else if a == "--"@ {
            lemma_flag_commutes(args, i + 1, st, true, flag);
        } else {
            match with_switch(st, a) {
                Some(s2) => {
                    lemma_switch_commutes(st, a, flag);
                    lemma_flag_commutes(args, i + 1, s2, false, flag);
                },
                None => {
                    lemma_switch_commutes(st, a, flag);
                    match value_option_named(a) {
                        Some(k) => if i + 1 < args.len() {
                            lemma_value_commutes(st, k, args[i + 1], flag);
                            match with_value(st, k, args[i + 1]) {
                                Ok(s2) => {
                                    lemma_flag_commutes(args, i + 2, s2, false, flag);
                                },
                                Err(e) => {
                                },
                            }
                        },
                        None => match value_option_inline(a) {
                            Some((k, v)) => match with_value(st, k, v) {
                                Ok(s2) => {
                                    lemma_value_commutes(st, k, v, flag);
                                    lemma_flag_commutes(args, i + 1, s2, false, flag);
                                },
                                Err(e) => {
                                    lemma_value_commutes(st, k, v, flag);
                                },
                            },
                            None => match exit_request(a) {
                                Some(x) => {},
                                None => if !(has_prefix(a, "-"@) && a != "-"@) {
                                    let st2 = OptionsModel { files: st.files.push(a), ..st };
                                    lemma_flag_commutes(args, i + 1, st2, false, flag);
                                    assert(OptionsModel { files: fs.files.push(a), ..fs } == flag_set(
                                        st2,
                                        flag,
                                    ));
                                },
                            },
                        },
                    }
                },
            }
        }
    }
}

/// A flag switch, short or long, turns its flag on and changes nothing
/// else: the arguments after it parse as they would alone, with the flag
/// set on the result (or the same error).
pub proof fn law_flag_switches(flag: Flag, rest: Seq<Seq<char>>)
    ensures
        parse_arguments(seq![short_switch(flag)] + rest) == with_flag(parse_arguments(rest), flag),
        parse_arguments(seq![long_switch(flag)] + rest) == with_flag(parse_arguments(rest), flag),
{
    reveal_grammar();
    let st = default_options();
    let a1 = seq![short_switch(flag)] + rest;
    let a2 = seq![long_switch(flag)] + rest;
    assert(a1[0] == short_switch(flag));
    assert(a2[0] == long_switch(flag));
    assert(with_switch(st, short_switch(flag)) == Some(flag_set(st, flag)));
    assert(with_switch(st, long_switch(flag)) == Some(flag_set(st, flag)));
    lemma_parse_shift(a1, 1, 1, flag_set(st, flag), false);
    lemma_parse_shift(a2, 1, 1, flag_set(st, flag), false);
    assert(a1.skip(1) =~= rest);
    assert(a2.skip(1) =~= rest);
    lemma_flag_commutes(rest, 0, st, false, flag);
}

/// `-n` and `--number` are the same switch, and so are `-l` and
/// `--language`, and `-r` and `--line-range`; alone, `-n` selects the
/// numbers view and nothing else.
pub proof fn law_short_and_long_spellings(v: Seq<char>, rest: Seq<Seq<char>>)
    ensures
        parse_arguments(seq!["-n"@] + rest) == parse_arguments(seq!["--number"@] + rest),
        parse_arguments(seq!["-l"@, v] + rest) == parse_arguments(seq!["--language"@, v] + rest),
        parse_arguments(seq!["-r"@, v] + rest) == parse_arguments(seq!["--line-range"@, v] + rest),
        parse_arguments(seq!["-n"@]) == Ok::<OptionsModel, Seq<char>>(
            OptionsModel { numbers: true, style: "numbers"@, ..default_options() },
        ),
{
    reveal_grammar();
    let st = default_options();
    let n1 = seq!["-n"@] + rest;
    let n2 = seq!["--number"@] + rest;
    assert(n1[0] == "-n"@);
    assert(n2[0] == "--number"@);
    let l1 = seq!["-l"@, v] + rest;
    let l2 = seq!["--language"@, v] + rest;
    assert(l1[0] == "-l"@ && l1[1] == v);
    assert(l2[0] == "--language"@ && l2[1] == v);
    let r1 = seq!["-r"@, v] + rest;
    let r2 = seq!["--line-range"@, v] + rest;
    assert(r1[0] == "-r"@ && r1[1] == v);
    assert(r2[0] == "--line-range"@ && r2[1] == v);
    let single = seq!["-n"@];
    assert(single[0] == "-n"@);
    let sn = OptionsModel { numbers: true, style: "numbers"@, ..st };
    assert(parse_from(single, 1, sn, false) == Ok::<OptionsModel, Seq<char>>(sn));
    lemma_parse_shift(n1, 1, 1, sn, false);
    lemma_parse_shift(n2, 1, 1, sn, false);
    assert(n1.skip(1) =~= rest);
    assert(n2.skip(1) =~= rest);
    match with_value(st, ValueOption::Language, v) {
        Ok(s2) => {
            lemma_parse_shift(l1, 2, 2, s2, false);
            lemma_parse_shift(l2, 2, 2, s2, false);
            assert(l1.skip(2) =~= rest);
            assert(l2.skip(2) =~= rest);
        },
        Err(e) => {},
    }
    match with_value(st, ValueOption::LineRange, v) {
        Ok(s2) => {
            lemma_parse_shift(r1, 2, 2, s2, false);
            lemma_parse_shift(r2, 2, 2, s2, false);
            assert(r1.skip(2) =~= rest);
            assert(r2.skip(2) =~= rest);
        },
        Err(e) => {},
    }
}

/// The options that `--name value` alone gives.
proof fn lemma_value_alone(k: ValueOption, v: Seq<char>)
    ensures
        parse_arguments(seq![value_option_name(k), v]) == with_value(default_options(), k, v),
{
    let args = seq![value_option_name(k), v];
    let st = default_options();
    assert(args[0] == value_option_name(k));
    assert(args[1] == v);
    lemma_named_argument(k, st);
    match with_value(st, k, v) {
        Ok(s2) => {
            assert(parse_from(args, 2, s2, false) == Ok::<OptionsModel, Seq<char>>(s2));
        },
        Err(e) => {},
    }
}

/// The words of `--color` do what they say: `always` colors whatever the
/// terminal and `NO_COLOR`, `never` never colors, `auto` colors exactly on
/// a terminal without `NO_COLOR`; any other word is refused.
pub proof fn law_color_words(v: Seq<char>)
    ensures
        parse_arguments(seq!["--color"@, "always"@]) matches Ok(o) && forall|t: bool, nc: bool|
            #[trigger] colored(o, t, nc),
        parse_arguments(seq!["--color"@, "never"@]) matches Ok(o) && forall|t: bool, nc: bool|
            !#[trigger] colored(o, t, nc),
        parse_arguments(seq!["--color"@, "auto"@]) matches Ok(o) && forall|t: bool, nc: bool|
            #[trigger] colored(o, t, nc) == (t && !nc),
        v != "always"@ && v != "never"@ && v != "auto"@ ==> parse_arguments(seq!["--color"@, v]) is Err,
{
    reveal_grammar();
    reveal_strlit("always");
    reveal_strlit("never");
    reveal_strlit("auto");
    reveal_strlit("default");
    reveal_strlit("plain");
    lemma_value_alone(ValueOption::Color, "always"@);
    lemma_value_alone(ValueOption::Color, "never"@);
    lemma_value_alone(ValueOption::Color, "auto"@);
    lemma_value_alone(ValueOption::Color, v);
    let d = default_options();
    assert(d.style.len() == 7 && "plain"@.len() == 5);
    assert(d.style != "plain"@);
    let oa = OptionsModel { color: ColorChoice::Always, ..d };
    let on = OptionsModel { color: ColorChoice::Auto, ..d };
    assert forall|t: bool, nc: bool| #[trigger] colored(oa, t, nc) by {}
    assert forall|t: bool, nc: bool| #[trigger] colored(on, t, nc) == (t && !nc) by {}
}

/// The words of `--paging` do what they say: `always` pages any output,
/// `never` none, `auto` exactly a terminal's output with more lines than
/// its height; any other word is refused.
pub proof fn law_paging_words(v: Seq<char>)
    ensures
        parse_arguments(seq!["--paging"@, "always"@]) matches Ok(o) && forall|
            t: bool,
            out: Seq<u8>,
            h: nat,
        | #[trigger] paged(o.paging, t, out, h),
        parse_arguments(seq!["--paging"@, "never"@]) matches Ok(o) && forall|
            t: bool,
            out: Seq<u8>,
            h: nat,
        | !#[trigger] paged(o.paging, t, out, h),
        parse_arguments(seq!["--paging"@, "auto"@]) matches Ok(o) && forall|
            t: bool,
            out: Seq<u8>,
            h: nat,
        | #[trigger] paged(o.paging, t, out, h) == (t && newline_count(out) > h),
        v != "always"@ && v != "never"@ && v != "auto"@ ==> parse_arguments(seq!["--paging"@, v]) is Err,
{
    reveal_grammar();
    reveal_strlit("always");
    reveal_strlit("never");
    reveal_strlit("auto");
    lemma_value_alone(ValueOption::Paging, "always"@);
    lemma_value_alone(ValueOption::Paging, "never"@);
    lemma_value_alone(ValueOption::Paging, "auto"@);
    lemma_value_alone(ValueOption::Paging, v);
}

/// An argument `-x...` whose second character starts no option of the
/// viewer is refused as an unknown option, whatever follows it.
pub proof fn law_unknown_option(a: Seq<char>, rest: Seq<Seq<char>>)
    requires
        a.len() >= 2,
        a[0] == '-',
        a[1] != 'n' && a[1] != 'A' && a[1] != 's' && a[1] != 'p' && a[1] != 'P' && a[1] != 'l'
            && a[1] != 'r' && a[1] != 'L' && a[1] != 'h' && a[1] != 'V' && a[1] != '-',
    ensures
        parse_arguments(seq![a] + rest) == Err::<OptionsModel, Seq<char>>("unknown option: "@ + a),
{
    reveal_grammar();
    let args = seq![a] + rest;
    assert(args[0] == a);
    let st = default_options();
    assert(a != "--"@);
    assert(with_switch(st, a) is None);
    assert(value_option_named(a) is None);
    lemma_prefix_char(a, "--language="@, 1);
    lemma_prefix_char(a, "--file-name="@, 1);
    lemma_prefix_char(a, "--line-range="@, 1);
    lemma_prefix_char(a, "--style="@, 1);
    lemma_prefix_char(a, "--paging="@, 1);
    lemma_prefix_char(a, "--color="@, 1);
    assert(value_option_inline(a) is None);
    assert(exit_request(a) is None);
    assert(a.take(1) =~= "-"@);
    assert(has_prefix(a, "-"@));
    assert(a != "-"@);
}

/// The informational options stop parsing: whatever follows them, the
/// result is the request alone, with every option at its default.
pub proof fn law_informational_options(rest: Seq<Seq<char>>)
    ensures
        parse_arguments(seq!["-h"@] + rest) == parse_arguments(seq!["--help"@] + rest),
        parse_arguments(seq!["--help"@] + rest) == Ok::<OptionsModel, Seq<char>>(
            OptionsModel { early_exit: Some(EarlyExit::Help), ..default_options() },
        ),
        parse_arguments(seq!["-V"@] + rest) == parse_arguments(seq!["--version"@] + rest),
        parse_arguments(seq!["--version"@] + rest) == Ok::<OptionsModel, Seq<char>>(
            OptionsModel { early_exit: Some(EarlyExit::Version), ..default_options() },
        ),
        parse_arguments(seq!["-L"@] + rest) == parse_arguments(seq!["--list-languages"@] + rest),
        parse_arguments(seq!["--list-languages"@] + rest) == Ok::<OptionsModel, Seq<char>>(
            OptionsModel { early_exit: Some(EarlyExit::ListLanguages), ..default_options() },
        ),
        parse_arguments(seq!["--list-themes"@] + rest) == Ok::<OptionsModel, Seq<char>>(
            OptionsModel { early_exit: Some(EarlyExit::ListThemes), ..default_options() },
        ),
{
    reveal_grammar();
    let st = default_options();
    let lits = seq!["-h"@, "--help"@, "-V"@, "--version"@, "-L"@, "--list-languages"@, "--list-themes"@];
    assert forall|i: int| 0 <= i < lits.len() implies ({
        let args = seq![#[trigger] lits[i]] + rest;
        &&& args[0] == lits[i]
        &&& lits[i] != "--"@
        &&& with_switch(st, lits[i]) is None
        &&& value_option_named(lits[i]) is None
    }) by {
        let args = seq![lits[i]] + rest;
        assert(args[0] == lits[i]);
        lemma_prefix_char(lits[i], "--language="@, 2);
        lemma_prefix_char(lits[i], "--file-name="@, 2);
        lemma_prefix_char(lits[i], "--line-range="@, 2);
        lemma_prefix_char(lits[i], "--style="@, 2);
        lemma_prefix_char(lits[i], "--paging="@, 2);
        lemma_prefix_char(lits[i], "--color="@, 2);
    }
    assert(lits[0] == "-h"@);
    assert(lits[1] == "--help"@);
    assert(lits[2] == "-V"@);
    assert(lits[3] == "--version"@);
    assert(lits[4] == "-L"@);
    assert(lits[5] == "--list-languages"@);
    assert(lits[6] == "--list-themes"@);
    assert forall|i: int| 0 <= i < lits.len() implies value_option_inline(#[trigger] lits[i]) is None by {
        lemma_prefix_char(lits[i], "--language="@, 2);
        lemma_prefix_char(lits[i], "--language="@, 10);
        lemma_prefix_char(lits[i], "--file-name="@, 2);
        lemma_prefix_char(lits[i], "--line-range="@, 2);
        lemma_prefix_char(lits[i], "--line-range="@, 3);
        lemma_prefix_char(lits[i], "--style="@, 2);
        lemma_prefix_char(lits[i], "--paging="@, 2);
        lemma_prefix_char(lits[i], "--color="@, 2);
    }
}

/// An argument that is no option: `-` (standard input) or anything that
/// does not begin with `-`.
pub open spec fn plain_argument(a: Seq<char>) -> bool {
    !has_prefix(a, "-"@) || a == "-"@
}

proof fn lemma_plain_arguments_from(args: Seq<Seq<char>>, i: int, st: OptionsModel)
    requires
        0 <= i <= args.len(),
        forall|m: int| 0 <= m < args.len() ==> plain_argument(#[trigger] args[m]),
    ensures
        parse_from(args, i, st, false) == Ok::<OptionsModel, Seq<char>>(with_files(st, args.skip(i))),
    decreases args.len() - i,
{
    reveal_grammar();
    if i < args.len() {
        let a = args[i];
        assert(plain_argument(a));
        if a.len() > 0 && a[0] == '-' {
            assert(a.take(1) =~= seq!['-']);
            assert(a == "-"@);
        }
        assert(a != "--"@);
        assert(with_switch(st, a) is None);
        assert(value_option_named(a) is None);
        assert(value_option_inline(a) is None);
        assert(exit_request(a) is None);
        let st2 = OptionsModel { files: st.files.push(a), ..st };
        lemma_plain_arguments_from(args, i + 1, st2);
        assert(st2.files + args.skip(i + 1) =~= st.files + args.skip(i));
    } else {
        assert(st.files + args.skip(i) =~= st.files);
    }
}

/// Arguments that are no options all become files, in order and with
/// repetitions kept, and every other option keeps its default.
pub proof fn law_plain_arguments_are_files(args: Seq<Seq<char>>)
    requires
        forall|m: int| 0 <= m < args.len() ==> plain_argument(#[trigger] args[m]),
    ensures
        parse_arguments(args) == Ok::<OptionsModel, Seq<char>>(with_files(default_options(), args)),
{
    lemma_plain_arguments_from(args, 0, default_options());
    assert(args.skip(0) =~= args);
}

} // verus!
