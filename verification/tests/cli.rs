use fat::{language, parse_args, render, visible_whitespace, ColorChoice, Language, Options};

#[test]
fn parses_regular_options() {
    let options = parse_args(vec!["-n".into(), "--color=never".into(), "note.rs".into()]).unwrap();
    assert!(options.numbers);
    assert_eq!(options.color, ColorChoice::Never);
    assert_eq!(options.files, ["note.rs"]);
}

#[test]
fn stops_parsing_after_double_dash() {
    let options = parse_args(vec!["--".into(), "-draft.md".into()]).unwrap();
    assert_eq!(options.files, ["-draft.md"]);
}

#[test]
fn marks_whitespace() {
    assert_eq!(visible_whitespace("a\tb c"), "a→   b·c¶");
}

#[test]
fn detects_common_extensions() {
    assert!(matches!(language("src/main.rs"), Language::Rust));
    assert!(matches!(language("settings.toml"), Language::Toml));
    assert!(matches!(language("input"), Language::Plain));
}

#[test]
fn squeeze_blank_numbers_rendered_lines() {
    let mut output = Vec::new();
    let options = Options {
        numbers: true,
        squeeze_blank: true,
        ..Options::default()
    };
    render(&mut output, "one\n\n\ntwo\n", "note.txt", &options, false).unwrap();
    assert_eq!(
        String::from_utf8(output).unwrap(),
        "1 │ one\n2 │ \n3 │ two\n"
    );
}
