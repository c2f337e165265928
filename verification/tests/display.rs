use fat::{
    color_enabled, decorations_enabled, is_broken_pipe, should_page, show_grid, show_numbers,
    terminal_height, ColorChoice, Options, Paging,
};

fn styled(style: &str) -> Options {
    Options { style: style.to_string(), ..Options::default() }
}

#[test]
fn automatic_color_needs_a_terminal_and_no_no_color() {
    let o = Options::default();
    assert!(color_enabled(&o, true, false));
    assert!(!color_enabled(&o, true, true));
    assert!(!color_enabled(&o, false, false));
}

#[test]
fn forced_color_choices() {
    let always = Options { color: ColorChoice::Always, ..Options::default() };
    assert!(color_enabled(&always, false, true));
    let never = Options { color: ColorChoice::Never, ..Options::default() };
    assert!(!color_enabled(&never, true, false));
    let plain = Options { color: ColorChoice::Always, plain: true, ..Options::default() };
    assert!(!color_enabled(&plain, true, false));
    let plain_style = Options { color: ColorChoice::Always, ..styled("plain") };
    assert!(!color_enabled(&plain_style, true, false));
}

#[test]
fn decorations_follow_the_style() {
    assert!(!decorations_enabled(&styled("numbers"), true, true));
    assert!(!decorations_enabled(&styled("plain"), true, true));
    assert!(decorations_enabled(&styled("default"), true, false));
    assert!(decorations_enabled(&styled("full"), false, true));
    assert!(!decorations_enabled(&styled("header"), false, false));
    assert!(decorations_enabled(&styled("fancy"), false, true));
}

#[test]
fn numbers_and_grid_follow_the_style() {
    assert!(show_numbers(&styled("default")));
    assert!(show_numbers(&styled("full")));
    assert!(show_numbers(&styled("numbers")));
    assert!(!show_numbers(&styled("header")));
    assert!(!show_numbers(&styled("plain")));
    assert!(show_numbers(&Options { numbers: true, ..styled("header") }));
    assert!(!show_numbers(&Options { numbers: true, ..styled("plain") }));
    assert!(!show_numbers(&Options { plain: true, ..styled("full") }));
    assert!(show_grid(&styled("default")));
    assert!(show_grid(&styled("header")));
    assert!(!show_grid(&styled("numbers")));
    assert!(!show_grid(&styled("plain")));
}

#[test]
fn pager_only_for_long_terminal_output() {
    assert!(should_page(Paging::Always, false, b"", 24));
    assert!(!should_page(Paging::Never, true, b"\n\n\n\n", 0));
    assert!(should_page(Paging::Auto, true, b"a\nb\nc\n", 2));
    assert!(!should_page(Paging::Auto, true, b"a\nb\nc", 2));
    assert!(!should_page(Paging::Auto, false, b"a\nb\nc\n", 2));
}

#[test]
fn terminal_height_from_lines() {
    assert_eq!(terminal_height(None), 24);
    assert_eq!(terminal_height(Some("40".to_string())), 40);
    assert_eq!(terminal_height(Some("+7".to_string())), 7);
    assert_eq!(terminal_height(Some("abc".to_string())), 24);
    assert_eq!(terminal_height(Some("".to_string())), 24);
    assert_eq!(terminal_height(Some(" 40".to_string())), 24);
}

#[test]
fn broken_pipe_messages() {
    assert!(is_broken_pipe("Broken pipe (os error 32)"));
    assert!(is_broken_pipe("write failed: Broken pipe"));
    assert!(!is_broken_pipe("broken pipe"));
    assert!(!is_broken_pipe("cannot read x: No such file or directory (os error 2)"));
}
