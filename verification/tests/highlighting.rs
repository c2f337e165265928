use fat::{
    color_keywords, highlight, highlight_code, highlight_config, highlight_json,
    highlight_markdown, language, visible_whitespace, Language,
};

fn strip_escapes(s: &str) -> String {
    let mut out = String::new();
    let mut inside = false;
    for c in s.chars() {
        if inside {
            inside = c != 'm';
        } else if c == '\x1b' {
            inside = true;
        } else {
            out.push(c);
        }
    }
    out
}

#[test]
fn language_names_and_extensions() {
    assert_eq!(language("Rust"), Language::Rust);
    assert_eq!(language("yml"), Language::Yaml);
    assert_eq!(language("TEXT"), Language::Plain);
    assert_eq!(language("fish"), Language::Shell);
    assert_eq!(language("a/b.JSON"), Language::Json);
    assert_eq!(language("archive.tar.md"), Language::Markdown);
    assert_eq!(language("Cargo.TOML"), Language::Toml);
    assert_eq!(language("run.zsh"), Language::Shell);
    assert_eq!(language("notes.markdown"), Language::Markdown);
    assert_eq!(language("Makefile"), Language::Plain);
}

#[test]
fn hidden_file_has_no_extension() {
    assert_eq!(language(".sh"), Language::Plain);
    assert_eq!(language("dir.rs/file"), Language::Plain);
}

#[test]
fn language_ignores_case() {
    assert_eq!(language("MAIN.RS"), language("main.rs"));
    assert_eq!(language("MarkDown"), language("markdown"));
}

#[test]
fn keywords_are_whole_words() {
    assert_eq!(
        color_keywords("fn foo_bar(fn1, fn)", &["fn", "foo"]),
        "\x1b[34mfn\x1b[0m foo_bar(fn1, \x1b[34mfn\x1b[0m)"
    );
    assert_eq!(color_keywords("", &["fn"]), "");
}

#[test]
fn unicode_letters_join_words() {
    assert_eq!(color_keywords("éfn fn", &["fn"]), "éfn \x1b[34mfn\x1b[0m");
    assert_eq!(color_keywords("fn→fn", &["fn"]), "\x1b[34mfn\x1b[0m→\x1b[34mfn\x1b[0m");
}

#[test]
fn code_comments_are_dimmed() {
    assert_eq!(
        highlight_code("let x = 1; // note # here", &["let"]),
        "\x1b[34mlet\x1b[0m x = 1; \x1b[2m\x1b[32m// note # here\x1b[0m"
    );
    assert_eq!(
        highlight("if x; then echo # c", "run.sh"),
        "\x1b[34mif\x1b[0m x; \x1b[34mthen\x1b[0m echo \x1b[2m\x1b[32m# c\x1b[0m"
    );
    assert_eq!(highlight_code("plain words", &["let"]), "plain words");
}

#[test]
fn config_keys_values_and_comments() {
    assert_eq!(highlight_config("name = fat"), "\x1b[36mname \x1b[0m=\x1b[33m fat\x1b[0m");
    assert_eq!(highlight_config("a: b=c"), "\x1b[36ma: b\x1b[0m=\x1b[33mc\x1b[0m");
    assert_eq!(highlight_config("key: value"), "\x1b[36mkey\x1b[0m:\x1b[33m value\x1b[0m");
    assert_eq!(highlight_config(" \t# c = 1"), "\x1b[2m\x1b[32m \t# c = 1\x1b[0m");
    assert_eq!(highlight_config("\u{3000}# wide"), "\x1b[2m\x1b[32m\u{3000}# wide\x1b[0m");
    assert_eq!(highlight_config("[section]"), "[section]");
}

#[test]
fn json_literals_are_magenta() {
    assert_eq!(
        highlight_json("{\"a\": true, \"b\": null, \"c\": false}"),
        "{\"a\": \x1b[35mtrue\x1b[0m, \"b\": \x1b[35mnull\x1b[0m, \"c\": \x1b[35mfalse\x1b[0m}"
    );
    assert_eq!(highlight_json("truetrue"), "\x1b[35mtrue\x1b[0m\x1b[35mtrue\x1b[0m");
    assert_eq!(highlight_json("[1, 2]"), "[1, 2]");
}

#[test]
fn markdown_headings_and_fences() {
    assert_eq!(highlight_markdown("# Title"), "\x1b[1m\x1b[36m# Title\x1b[0m");
    assert_eq!(highlight_markdown("```rust"), "\x1b[35m```rust\x1b[0m");
    assert_eq!(highlight_markdown("``not a fence"), "``not a fence");
    assert_eq!(highlight_markdown(" # indented"), " # indented");
}

#[test]
fn plain_text_is_unchanged() {
    assert_eq!(highlight("fn true # x", "notes.txt"), "fn true # x");
}

#[test]
fn highlighting_keeps_the_visible_text() {
    let lines = ["fn main() { let x = 1; } // done", "name = \"fat\"", "{\"ok\": true}", "# Head", "```", "for i in 1 2; do echo $i; done # loop"];
    for file in ["a.rs", "a.toml", "a.yaml", "a.json", "a.md", "a.sh", "a.txt"] {
        for line in lines {
            assert_eq!(strip_escapes(&highlight(line, file)), line);
        }
    }
}

#[test]
fn whitespace_marks() {
    assert_eq!(visible_whitespace(""), "¶");
    assert_eq!(visible_whitespace("  "), "··¶");
    assert_eq!(visible_whitespace("\t\t"), "→   →   ¶");
    assert_eq!(visible_whitespace("a\u{a0}b"), "a\u{a0}b¶");
}

#[test]
fn whitespace_set_is_std_whitespace() {
    for u in 0u32..=0x10FFFF {
        if let Some(c) = char::from_u32(u) {
            assert_eq!(fat::text::is_whitespace(c), c.is_whitespace(), "U+{u:04X}");
        }
    }
}

#[test]
fn keyword_coloring_keeps_the_text() {
    let line = "fn fn_x(_fn: é) -> fn { if else } // fn";
    for keywords in [&["fn"][..], &["fn", "if", "else", "x"][..], &[][..], &["", "é", "//"][..]] {
        assert_eq!(strip_escapes(&color_keywords(line, keywords)), line);
        assert_eq!(strip_escapes(&highlight_code(line, keywords)), line);
    }
}

#[test]
fn deleting_style_codes_gives_the_line() {
    let codes = ["\x1b[0m", "\x1b[2m", "\x1b[1m", "\x1b[36m", "\x1b[34m", "\x1b[32m", "\x1b[33m", "\x1b[35m"];
    let lines = ["fn main() { let x = true; } // done", "key = null", "# Head", "```js", "x: [false]", "if a; then b; fi # c"];
    for file in ["a.rs", "a.toml", "a.yaml", "a.json", "a.md", "a.sh", "a.txt"] {
        for line in lines {
            let mut out = highlight(line, file);
            for code in codes {
                out = out.replace(code, "");
            }
            assert_eq!(out, line);
        }
    }
}
