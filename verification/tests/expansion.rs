use std::cell::RefCell;

use mori::generator::evaluate_generator_macro;
use mori::lines::get_line_number;
use mori::pipeline::{html_output_path, is_markdown_file};
use mori::scanner::evaluate_macros;

fn upper_echo(inner: &str) -> String {
    inner.trim().to_uppercase()
}

#[test]
fn no_macros_is_identity() {
    let text = "plain text, no markers at all\nsecond line } { half-markers";
    let out = evaluate_macros(text, upper_echo);
    assert_eq!(out, text);
}

#[test]
fn empty_text_is_identity() {
    let out = evaluate_macros("", upper_echo);
    assert_eq!(out, "");
}

#[test]
fn unterminated_marker_left_untouched() {
    let text = "{{ 2+2";
    let out = evaluate_macros(text, upper_echo);
    assert_eq!(out, text);
}

#[test]
fn unterminated_second_marker_keeps_tail() {
    let text = "a {{x}} b {{ open";
    let out = evaluate_macros(text, upper_echo);
    assert_eq!(out, "a X b {{ open");
}

#[test]
fn single_macro_replaced() {
    let out = evaluate_macros("A {{ b }} C", upper_echo);
    assert_eq!(out, "A B C");
}

#[test]
fn first_close_wins_no_nesting() {
    // the first `}}` after a `{{` closes it, whatever stands between
    let out = evaluate_macros("{{ a {{ b }} tail", upper_echo);
    assert_eq!(out, "A {{ B tail");
}

#[test]
fn adjacent_macros_both_replaced() {
    let out = evaluate_macros("{{a}}{{b}}", upper_echo);
    assert_eq!(out, "AB");
}

#[test]
fn macros_resolved_in_document_order() {
    let seen: RefCell<Vec<String>> = RefCell::new(Vec::new());
    let recorder = |inner: &str| -> String {
        seen.borrow_mut().push(inner.to_string());
        let n = seen.borrow().len();
        format!("<{n}>")
    };
    let out = evaluate_macros("a {{one}} b {{two}} c", recorder);
    assert_eq!(out, "a <1> b <2> c");
    assert_eq!(seen.into_inner(), vec!["one".to_string(), "two".to_string()]);
}

#[test]
fn replacement_text_is_not_rescanned() {
    // a replacement that looks like a later macro must not be replaced again,
    // nor steal that macro's substitution
    let resolver = |inner: &str| -> String {
        if inner == "a" {
            "{{b}}".to_string()
        } else {
            "B".to_string()
        }
    };
    let out = evaluate_macros("{{a}} and {{b}}", resolver);
    assert_eq!(out, "{{b}} and B");
}

#[test]
fn empty_inner_text_is_resolved() {
    let out = evaluate_macros("x{{}}y", |_inner: &str| "-".to_string());
    assert_eq!(out, "x-y");
}

#[test]
fn generator_trims_tabs_and_newlines() {
    let out = evaluate_generator_macro("\n\tmarkdown content\t\n", "p.md");
    assert_eq!(out, "{{ return md_to_html(\"p.md\") }}");
}

#[test]
fn generator_content_rewrite() {
    let out = evaluate_generator_macro(" markdown content ", "posts/a.md");
    assert_eq!(out, "{{ return md_to_html(\"posts/a.md\") }}");
}

#[test]
fn generator_field_rewrite() {
    let out = evaluate_generator_macro(" markdown title ", "posts/a.md");
    assert_eq!(out, "{{ return get_field(\"posts/a.md\", \"title\") }}");
}

#[test]
fn generator_unrecognized_is_inert() {
    let out = evaluate_generator_macro(" return 1 + 1 ", "posts/a.md");
    assert_eq!(out, "{{ return 1 + 1 }}");
}

#[test]
fn generator_prefix_is_case_and_space_sensitive() {
    // no trailing space after `markdown`: not the shorthand
    let out = evaluate_generator_macro("markdown", "p.md");
    assert_eq!(out, "{{markdown}}");
    let out = evaluate_generator_macro("Markdown content", "p.md");
    assert_eq!(out, "{{Markdown content}}");
}

#[test]
fn generator_content_beats_field_rule() {
    // `markdown content` also starts with `markdown `; the content rule wins
    let out = evaluate_generator_macro("markdown content", "p.md");
    assert_eq!(out, "{{ return md_to_html(\"p.md\") }}");
}

#[test]
fn line_of_offset_zero_is_one() {
    assert_eq!(get_line_number("abc", 0), 1);
    assert_eq!(get_line_number("", 0), 1);
}

#[test]
fn line_counts_newlines_strictly_before() {
    let text = "a\nbb\nccc\n";
    assert_eq!(get_line_number(text, 1), 1); // the first newline itself
    assert_eq!(get_line_number(text, 2), 2); // just after the first newline
    assert_eq!(get_line_number(text, 5), 3); // just after the second newline
    assert_eq!(get_line_number(text, 100), 4); // past the end: every newline counts
}

#[test]
fn html_path_replaces_extension() {
    assert_eq!(html_output_path("dir/foo.md"), "dir/foo.html");
    assert_eq!(html_output_path("foo.md"), "foo.html");
    assert_eq!(html_output_path("a/b.c/notes.md"), "a/b.c/notes.html");
}

#[test]
fn markdown_files_recognized_by_extension() {
    assert!(is_markdown_file("dir/notes.md"));
    assert!(is_markdown_file("a.md"));
    assert!(!is_markdown_file("a.mdx"));
    assert!(!is_markdown_file("md"));
    assert!(!is_markdown_file("template.html"));
}

#[test]
fn html_path_keeps_dotless_and_hidden_names() {
    assert_eq!(html_output_path("dir/noext"), "dir/noext.html");
    assert_eq!(html_output_path("dir/.hidden"), "dir/.hidden.html");
    assert_eq!(html_output_path("a.tar.gz"), "a.tar.html");
}
