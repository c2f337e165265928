use fat::{parse_args, parse_color, parse_paging, parse_range, ColorChoice, EarlyExit, LineRange, Options, Paging};

fn args(list: &[&str]) -> Vec<String> {
    list.iter().map(|a| a.to_string()).collect()
}

#[test]
fn default_options_are_documented_defaults() {
    let o = Options::default();
    assert!(o.files.is_empty());
    assert!(!o.numbers && !o.show_all && !o.squeeze_blank && !o.plain);
    assert_eq!(o.color, ColorChoice::Auto);
    assert_eq!(o.paging, Paging::Auto);
    assert_eq!(o.style, "default");
    assert_eq!(o.language, None);
    assert_eq!(o.file_name, None);
    assert_eq!(o.line_range, None);
    assert_eq!(o.early_exit, None);
}

#[test]
fn number_switch_selects_numbers_style() {
    let o = parse_args(args(&["--number"])).unwrap();
    assert!(o.numbers);
    assert_eq!(o.style, "numbers");
}

#[test]
fn switches_set_their_flags() {
    let o = parse_args(args(&["-A", "-s", "-p", "-P"])).unwrap();
    assert!(o.show_all && o.squeeze_blank && o.plain);
    assert_eq!(o.paging, Paging::Never);
    let o = parse_args(args(&["-pp"])).unwrap();
    assert!(o.plain);
    assert_eq!(o.paging, Paging::Never);
}

#[test]
fn values_in_next_argument_and_inline() {
    let o = parse_args(args(&["-l", "rust", "--file-name", "x.toml", "--style", "full", "--paging", "always", "--color", "always", "-r", "2:4"])).unwrap();
    assert_eq!(o.language.as_deref(), Some("rust"));
    assert_eq!(o.file_name.as_deref(), Some("x.toml"));
    assert_eq!(o.style, "full");
    assert_eq!(o.paging, Paging::Always);
    assert_eq!(o.color, ColorChoice::Always);
    assert_eq!(o.line_range, Some(LineRange { start: 2, end: Some(4) }));
    let o = parse_args(args(&["--language=md", "--file-name=a b", "--style=header", "--paging=never", "--color=never", "--line-range=3:"])).unwrap();
    assert_eq!(o.language.as_deref(), Some("md"));
    assert_eq!(o.file_name.as_deref(), Some("a b"));
    assert_eq!(o.style, "header");
    assert_eq!(o.paging, Paging::Never);
    assert_eq!(o.color, ColorChoice::Never);
    assert_eq!(o.line_range, Some(LineRange { start: 3, end: None }));
}

#[test]
fn later_options_override_earlier_ones() {
    let o = parse_args(args(&["--color=always", "--color=never", "--style=full", "-n"])).unwrap();
    assert_eq!(o.color, ColorChoice::Never);
    assert_eq!(o.style, "numbers");
}

#[test]
fn files_keep_their_order_and_dash_is_a_file() {
    let o = parse_args(args(&["b.rs", "-", "a.rs", "--", "--color=never", "-n"])).unwrap();
    assert_eq!(o.files, ["b.rs", "-", "a.rs", "--color=never", "-n"]);
    assert_eq!(o.color, ColorChoice::Auto);
    assert!(!o.numbers);
}

#[test]
fn a_second_double_dash_is_a_file() {
    let o = parse_args(args(&["--", "--"])).unwrap();
    assert_eq!(o.files, ["--"]);
}

#[test]
fn unknown_option_is_refused() {
    assert_eq!(parse_args(args(&["--bogus"])).unwrap_err(), "unknown option: --bogus");
    assert_eq!(parse_args(args(&["-x", "a"])).unwrap_err(), "unknown option: -x");
}

#[test]
fn missing_values_are_reported() {
    assert_eq!(parse_args(args(&["-l"])).unwrap_err(), "missing value after --language");
    assert_eq!(parse_args(args(&["--file-name"])).unwrap_err(), "missing value after --file-name");
    assert_eq!(parse_args(args(&["-r"])).unwrap_err(), "missing value after --line-range");
    assert_eq!(parse_args(args(&["--style"])).unwrap_err(), "missing value after --style");
    assert_eq!(parse_args(args(&["--paging"])).unwrap_err(), "missing value after --paging");
    assert_eq!(parse_args(args(&["--color"])).unwrap_err(), "missing value after --color");
}

#[test]
fn invalid_values_are_reported() {
    assert_eq!(
        parse_args(args(&["--color=blue"])).unwrap_err(),
        "invalid color choice: blue (use always, auto, or never)"
    );
    assert_eq!(
        parse_args(args(&["--paging", "sometimes"])).unwrap_err(),
        "invalid paging choice: sometimes (use always, auto, or never)"
    );
    assert_eq!(parse_args(args(&["-r", "5:2"])).unwrap_err(), "invalid line range: 5:2");
}

#[test]
fn informational_options_stop_parsing() {
    assert_eq!(parse_args(args(&["-h", "--bogus"])).unwrap().early_exit, Some(EarlyExit::Help));
    assert_eq!(parse_args(args(&["--version"])).unwrap().early_exit, Some(EarlyExit::Version));
    assert_eq!(parse_args(args(&["-L"])).unwrap().early_exit, Some(EarlyExit::ListLanguages));
    assert_eq!(parse_args(args(&["--list-themes"])).unwrap().early_exit, Some(EarlyExit::ListThemes));
    assert_eq!(parse_args(args(&["--color=blue", "-h"])).unwrap_err(), "invalid color choice: blue (use always, auto, or never)");
}

#[test]
fn color_and_paging_words() {
    assert_eq!(parse_color("always"), Ok(ColorChoice::Always));
    assert_eq!(parse_color("auto"), Ok(ColorChoice::Auto));
    assert_eq!(parse_color("never"), Ok(ColorChoice::Never));
    assert_eq!(parse_color("Always"), Err("invalid color choice: Always (use always, auto, or never)".to_string()));
    assert_eq!(parse_paging("always"), Ok(Paging::Always));
    assert_eq!(parse_paging("auto"), Ok(Paging::Auto));
    assert_eq!(parse_paging("never"), Ok(Paging::Never));
    assert_eq!(parse_paging(""), Err("invalid paging choice:  (use always, auto, or never)".to_string()));
}

#[test]
fn line_range_forms() {
    assert_eq!(parse_range("2:3"), Ok(LineRange { start: 2, end: Some(3) }));
    assert_eq!(parse_range(":4"), Ok(LineRange { start: 1, end: Some(4) }));
    assert_eq!(parse_range("5:"), Ok(LineRange { start: 5, end: None }));
    assert_eq!(parse_range("7"), Ok(LineRange { start: 7, end: Some(7) }));
    assert_eq!(parse_range(""), Ok(LineRange { start: 1, end: None }));
    assert_eq!(parse_range("+2:+2"), Ok(LineRange { start: 2, end: Some(2) }));
    assert_eq!(parse_range("3:3"), Ok(LineRange { start: 3, end: Some(3) }));
}

#[test]
fn line_range_errors() {
    assert_eq!(parse_range("x"), Err("invalid line range: x".to_string()));
    assert_eq!(parse_range("1:y"), Err("invalid line range: 1:y".to_string()));
    assert_eq!(parse_range("-1:2"), Err("invalid line range: -1:2".to_string()));
    assert_eq!(parse_range("4:3"), Err("invalid line range: 4:3".to_string()));
    assert_eq!(parse_range("1:2:3"), Err("invalid line range: 1:2:3".to_string()));
    assert_eq!(
        parse_range("99999999999999999999999"),
        Err("invalid line range: 99999999999999999999999".to_string())
    );
}

#[test]
fn inline_and_separate_values_parse_alike() {
    let keys = ["language", "file-name", "line-range", "style", "paging", "color"];
    let values = ["", "rust", "2:3", "always", "x=y", "--", "-n"];
    for k in keys {
        for v in values {
            for rest in [vec![], vec!["a.rs".to_string()], vec!["--bogus".to_string()], vec!["-l".to_string()]] {
                let mut inline = vec![format!("--{k}={v}")];
                inline.extend(rest.clone());
                let mut split = vec![format!("--{k}"), v.to_string()];
                split.extend(rest.clone());
                let a = parse_args(inline).map(|o| format!("{o:?}"));
                let b = parse_args(split).map(|o| format!("{o:?}"));
                assert_eq!(a, b, "--{k}={v} {rest:?}");
            }
        }
    }
}

#[test]
fn plain_arguments_are_all_files() {
    let o = parse_args(args(&["b.rs", "-", "a b", "b.rs", "", "x=-n"])).unwrap();
    assert_eq!(o.files, ["b.rs", "-", "a b", "b.rs", "", "x=-n"]);
    let d = Options::default();
    assert_eq!(
        format!("{:?}", Options { files: o.files.clone(), ..Options::default() }),
        format!("{o:?}")
    );
    assert_eq!(d.style, o.style);
}
