use fat::{input_names, parse_args, render, render_inputs, write_header, LineRange, Options};

fn shown(content: &str, file: &str, options: &Options, color: bool) -> String {
    let mut out = Vec::new();
    render(&mut out, content, file, options, color).unwrap();
    String::from_utf8(out).unwrap()
}

fn plain() -> Options {
    Options { plain: true, ..Options::default() }
}

#[test]
fn default_view_has_numbers_and_grid() {
    assert_eq!(shown("a\nb\n", "x.txt", &Options::default(), false), "1 │ a\n2 │ b\n");
}

#[test]
fn plain_output_is_the_text() {
    assert_eq!(shown("a\n\nb c\n", "x.txt", &plain(), false), "a\n\nb c\n");
    assert_eq!(shown("", "x.txt", &plain(), false), "");
}

#[test]
fn plain_output_keeps_line_endings() {
    assert_eq!(shown("a\r\nb", "x.txt", &plain(), false), "a\r\nb");
    assert_eq!(shown("a", "x.txt", &plain(), false), "a");
    assert_eq!(shown("a\n\n", "x.txt", &plain(), false), "a\n\n");
    assert_eq!(shown("\r\n\tx", "x.rs", &plain(), false), "\r\n\tx");
}

#[test]
fn line_by_line_output_normalises_line_endings() {
    let header = Options { style: "header".to_string(), ..Options::default() };
    assert_eq!(shown("a\r\nb", "x.txt", &header, false), "a\nb\n");
    assert_eq!(shown("a\nb", "x.txt", &header, false), shown("a\nb\n", "x.txt", &header, false));
    let ranged = Options { line_range: Some(LineRange { start: 1, end: None }), ..plain() };
    assert_eq!(shown("a\r\nb", "x.txt", &ranged, false), "a\nb\n");
}

#[test]
fn gutter_is_as_wide_as_the_line_count() {
    let content: String = (1..=10).map(|n| format!("{n}\n")).collect();
    let expected: String = (1..=10).map(|n| format!("{n:>2} │ {n}\n")).collect();
    assert_eq!(shown(&content, "x.txt", &Options::default(), false), expected);
}

#[test]
fn line_range_keeps_source_numbers() {
    let o = Options { line_range: Some(LineRange { start: 2, end: Some(3) }), ..Options::default() };
    assert_eq!(shown("a\nb\nc\nd\n", "x.txt", &o, false), "2 │ b\n3 │ c\n");
    let o = Options { line_range: Some(LineRange { start: 3, end: None }), ..plain() };
    assert_eq!(shown("a\nb\nc\nd\n", "x.txt", &o, false), "c\nd\n");
    let o = Options { line_range: Some(LineRange { start: 9, end: None }), ..Options::default() };
    assert_eq!(shown("a\nb\n", "x.txt", &o, false), "");
}

#[test]
fn line_range_width_counts_all_lines() {
    let content: String = (1..=12).map(|n| format!("{n}\n")).collect();
    let o = Options { line_range: Some(LineRange { start: 1, end: Some(2) }), ..Options::default() };
    assert_eq!(shown(&content, "x.txt", &o, false), " 1 │ 1\n 2 │ 2\n");
}

#[test]
fn squeeze_drops_repeated_blank_lines() {
    let o = Options { squeeze_blank: true, ..plain() };
    assert_eq!(shown("a\n\n\n\nb\n\n", "x.txt", &o, false), "a\n\nb\n\n");
    let o = Options { squeeze_blank: true, ..Options::default() };
    assert_eq!(shown("\n\nx\n", "x.txt", &o, false), "1 │ \n2 │ x\n");
}

#[test]
fn number_style_has_no_grid() {
    let o = parse_args(vec!["-n".to_string()]).unwrap();
    assert_eq!(shown("one\ntwo\n", "x.txt", &o, false), "1 one\n2 two\n");
}

#[test]
fn header_style_has_no_numbers() {
    let o = Options { style: "header".to_string(), ..Options::default() };
    assert_eq!(shown("one\n", "x.txt", &o, false), "one\n");
}

#[test]
fn show_all_marks_whitespace() {
    let o = Options { show_all: true, ..Options::default() };
    assert_eq!(shown("a\tb c\n", "x.txt", &o, false), "1 │ a→   b·c¶\n");
}

#[test]
fn colored_rust_line() {
    assert_eq!(
        shown("fn main() {} // hi\n", "main.rs", &Options::default(), true),
        "\x1b[2m1 │ \x1b[0m\x1b[34mfn\x1b[0m main() {} \x1b[2m\x1b[32m// hi\x1b[0m\n"
    );
}

#[test]
fn colored_numbers_without_grid() {
    let o = Options { style: "numbers".to_string(), ..Options::default() };
    assert_eq!(shown("x\n", "a.txt", &o, true), "\x1b[2m1 \x1b[0mx\n");
}

#[test]
fn language_option_beats_file_name_and_file() {
    let o = Options {
        language: Some("json".to_string()),
        file_name: Some("a.rs".to_string()),
        plain: false,
        style: "header".to_string(),
        ..Options::default()
    };
    assert_eq!(shown("fn true\n", "x.md", &o, true), "fn \x1b[35mtrue\x1b[0m\n");
    let o = Options { file_name: Some("a.rs".to_string()), style: "header".to_string(), ..Options::default() };
    assert_eq!(shown("fn true\n", "x.md", &o, true), "\x1b[34mfn\x1b[0m true\n");
}

#[test]
fn header_line_plain_and_colored() {
    let mut out = Vec::new();
    write_header(&mut out, "note.rs", false).unwrap();
    assert_eq!(String::from_utf8(out).unwrap(), "── note.rs ────────────────────────\n");
    let mut out = Vec::new();
    write_header(&mut out, "note.rs", true).unwrap();
    assert_eq!(
        String::from_utf8(out).unwrap(),
        "\x1b[2m── \x1b[1m\x1b[36mnote.rs\x1b[0m \x1b[2m────────────────────────\x1b[0m\n"
    );
}

#[test]
fn standard_input_when_no_file_is_named() {
    assert_eq!(input_names(&Options::default()), ["-"]);
    let o = Options { files: vec!["b".to_string(), "a".to_string()], ..Options::default() };
    assert_eq!(input_names(&o), ["b", "a"]);
}

#[test]
fn several_files_get_headers_and_blank_separators() {
    let names = vec!["a.txt".to_string(), "b.txt".to_string()];
    let contents = vec!["x\n".to_string(), "y\n".to_string()];
    let out = render_inputs(&names, &contents, &Options::default(), false);
    assert_eq!(
        String::from_utf8(out).unwrap(),
        "── a.txt ────────────────────────\n1 │ x\n\n── b.txt ────────────────────────\n1 │ y\n"
    );
}

#[test]
fn one_file_without_color_has_no_header() {
    let names = vec!["a.txt".to_string()];
    let contents = vec!["x\n".to_string()];
    let out = render_inputs(&names, &contents, &Options::default(), false);
    assert_eq!(String::from_utf8(out).unwrap(), "1 │ x\n");
}

#[test]
fn file_name_option_names_every_header() {
    let names = vec!["-".to_string()];
    let contents = vec!["k = 1\n".to_string()];
    let o = Options { file_name: Some("conf.toml".to_string()), ..Options::default() };
    let out = render_inputs(&names, &contents, &o, true);
    assert_eq!(
        String::from_utf8(out).unwrap(),
        "\x1b[2m── \x1b[1m\x1b[36mconf.toml\x1b[0m \x1b[2m────────────────────────\x1b[0m\n\x1b[2m1 │ \x1b[0m\x1b[36mk \x1b[0m=\x1b[33m 1\x1b[0m\n"
    );
}

#[test]
fn plain_switch_drops_headers_for_many_files() {
    let names = vec!["a".to_string(), "b".to_string()];
    let contents = vec!["x".to_string(), "y".to_string()];
    let out = render_inputs(&names, &contents, &plain(), false);
    assert_eq!(String::from_utf8(out).unwrap(), "xy");
    let contents = vec!["x\r\n".to_string(), "".to_string(), "y".to_string()];
    let names = vec!["a".to_string(), "b".to_string(), "c".to_string()];
    let out = render_inputs(&names, &contents, &plain(), false);
    assert_eq!(String::from_utf8(out).unwrap(), "x\r\ny");
}

fn without_escapes(s: &str) -> String {
    let mut out = String::new();
    let mut inside = false;
    for c in s.chars() {
        if inside {
            inside = c != 'm';
        } else if c == '\x1b' {
            inside = true;
        } else {
            out.push(c);
        }
    }
    out
}

#[test]
fn color_only_adds_escapes() {
    let content = "fn main() {\n\tlet x = 1; // one\n}\n\n\n# key = true\n```\n";
    let variants = [
        Options::default(),
        Options { show_all: true, ..Options::default() },
        Options { style: "numbers".to_string(), squeeze_blank: true, ..Options::default() },
        Options { line_range: Some(LineRange { start: 2, end: Some(6) }), ..Options::default() },
        Options { style: "header".to_string(), ..Options::default() },
    ];
    for file in ["a.rs", "a.toml", "a.yml", "a.json", "a.md", "a.sh", "a.txt"] {
        for o in &variants {
            assert_eq!(without_escapes(&shown(content, file, o, true)), shown(content, file, o, false));
        }
    }
}

#[test]
fn colored_header_shows_plain_header() {
    for name in ["a.rs", "-", "dir/notes file.md", ""] {
        let mut colored = Vec::new();
        write_header(&mut colored, name, true).unwrap();
        let mut plain = Vec::new();
        write_header(&mut plain, name, false).unwrap();
        assert_eq!(without_escapes(&String::from_utf8(colored).unwrap()), String::from_utf8(plain).unwrap());
    }
}
