use hurlin::ansi::{highlight, host_or_empty, hostname, HighlightFile, Hyperlink, ScopeColor};
use hurlin::report::cycle_report;
use hurlin::text::{concat2, decimal_text, Render};

#[test]
fn numbers_are_written_in_decimal() {
    for n in [0, 1, 9, 10, 91, 100, 8080, 65535, u64::MAX] {
        assert_eq!(decimal_text(n), format!("{n}"));
        assert_eq!(n.render(), format!("{n}"));
    }
}

#[test]
fn texts_are_joined() {
    assert_eq!(concat2("ab", "cd"), "abcd");
    assert_eq!(concat2("", ""), "");
}

#[test]
fn a_link_is_wrapped_in_escapes() {
    let link = Hyperlink::new("https://a.example", "text");
    assert_eq!(
        link.render(),
        "\x1b]8;;https://a.example\x1b\\text\x1b]8;;\x1b\\"
    );
}

#[test]
fn a_link_to_a_file_names_the_host() {
    let link = Hyperlink::from_path_on("box", "/a/b.hurl");
    assert_eq!(
        link.render(),
        "\x1b]8;;file://box/a/b.hurl\x1b\\/a/b.hurl\x1b]8;;\x1b\\"
    );
    let link = Hyperlink::from_path_named_on("box", "/a/b.hurl", "b");
    assert_eq!(
        link.render(),
        "\x1b]8;;file://box/a/b.hurl\x1b\\b\x1b]8;;\x1b\\"
    );
}

#[test]
fn a_link_to_a_file_on_this_machine_names_it() {
    let host = gethostname::gethostname().into_string().unwrap_or_default();
    assert_eq!(hostname(), host);
    let link = Hyperlink::from_path("/a".to_string());
    assert_eq!(
        link.render(),
        format!("\x1b]8;;file://{host}/a\x1b\\/a\x1b]8;;\x1b\\")
    );
    let link = Hyperlink::from_path_named("/a", "name");
    assert_eq!(
        link.render(),
        format!("\x1b]8;;file://{host}/a\x1b\\name\x1b]8;;\x1b\\")
    );
}

#[test]
fn a_machine_without_a_name_is_empty() {
    assert_eq!(host_or_empty(None), "");
    assert_eq!(host_or_empty(Some("box".to_string())), "box");
}

#[test]
fn the_name_of_a_file_is_highlighted() {
    assert_eq!(
        HighlightFile("/a/b.hurl", 91u64).render(),
        "/a/\x1b[91mb.hurl\x1b[0m"
    );
    assert_eq!(
        HighlightFile("b.hurl", "31;1").render(),
        "/\x1b[31;1mb.hurl\x1b[0m"
    );
}

#[test]
fn a_path_without_a_file_is_left_alone() {
    assert_eq!(HighlightFile("/", 91u64).render(), "/");
    assert_eq!(HighlightFile("/a/..", 91u64).render(), "/a/..");
    assert_eq!(highlight("p", None, Some("d".to_string()), "1"), "p");
    assert_eq!(highlight("p", Some("f".to_string()), None, "1"), "p");
    assert_eq!(
        highlight("p", Some("f".to_string()), Some("d".to_string()), "1"),
        "d/\x1b[1mf\x1b[0m"
    );
}

#[test]
fn a_text_is_coloured() {
    assert_eq!(
        ScopeColor::new("93;1", "hello").render(),
        "\x1b[93;1mhello\x1b[0m"
    );
}

#[test]
fn a_cycle_is_reported_file_by_file() {
    let chain = vec!["/c/b.hurl".to_string(), "/c/a.hurl".to_string()];
    let lines = cycle_report("h", "/c/a.hurl", &chain);
    assert_eq!(
        lines,
        vec![
            "\x1b[93;1mcycle detected in import chain:\x1b[0m".to_string(),
            "\x1b[37mAttempted to import\x1b[0m \x1b]8;;file://h/c/a.hurl\x1b\\/c/\x1b[91ma.hurl\x1b[0m\x1b]8;;\x1b\\".to_string(),
            "\x1b[37m...which is imported by\x1b[0m \x1b]8;;file://h/c/b.hurl\x1b\\/c/b.hurl\x1b]8;;\x1b\\".to_string(),
            "\x1b[37m...which is imported by\x1b[0m \x1b]8;;file://h/c/a.hurl\x1b\\/c/\x1b[91ma.hurl\x1b[0m\x1b]8;;\x1b\\".to_string(),
        ]
    );
}
