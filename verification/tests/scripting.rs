use mlua::Lua;

use mori::pipeline::expand_document;
use mori::render::md_to_html;
use mori::script::{evaluate_lua_macro, expand_scripts, init_lua, ExpansionOutcome};

fn lua_with_host() -> Lua {
    let lua = Lua::new();
    assert!(init_lua(&lua));
    lua
}

#[test]
fn well_formed_macro_expands() {
    let lua = lua_with_host();
    let (out, diags) = expand_scripts("A {{ return \"B\" }} C", &lua);
    assert_eq!(out, "A B C");
    assert!(diags.is_empty());
}

#[test]
fn numeric_result_is_coerced_to_text() {
    let lua = lua_with_host();
    let (out, diags) = expand_scripts("x {{ return 2+2 }} y", &lua);
    assert_eq!(out, "x 4 y");
    assert!(diags.is_empty());
}

#[test]
fn failing_macro_left_verbatim_with_line_cited() {
    let lua = lua_with_host();
    let text = "first line\n{{ bork( }} rest";
    let (out, diags) = expand_scripts(text, &lua);
    assert_eq!(out, text);
    assert_eq!(diags.len(), 1);
    assert_eq!(diags[0].line, 2);
    assert_eq!(diags[0].macro_text, "{{ bork( }}");
    assert!(!diags[0].message.is_empty());
}

#[test]
fn failures_reported_in_document_order() {
    let lua = lua_with_host();
    let text = "{{ one( }}\n{{ return \"ok\" }}\n{{ two( }}";
    let (out, diags) = expand_scripts(text, &lua);
    assert_eq!(out, "{{ one( }}\nok\n{{ two( }}");
    assert_eq!(diags.len(), 2);
    assert_eq!(diags[0].line, 1);
    assert_eq!(diags[0].macro_text, "{{ one( }}");
    assert_eq!(diags[1].line, 3);
    assert_eq!(diags[1].macro_text, "{{ two( }}");
}

#[test]
fn unterminated_marker_survives_script_pass() {
    let lua = lua_with_host();
    let (out, diags) = expand_scripts("{{ 2+2", &lua);
    assert_eq!(out, "{{ 2+2");
    assert!(diags.is_empty());
}

#[test]
fn evaluate_lua_macro_success() {
    let lua = lua_with_host();
    match evaluate_lua_macro(" return \"hi\" ", &lua, 7) {
        ExpansionOutcome::Expanded(s) => assert_eq!(s, "hi"),
        ExpansionOutcome::Failed(_, _) => panic!("expected success"),
    }
}

#[test]
fn evaluate_lua_macro_failure_echoes_macro() {
    let lua = lua_with_host();
    match evaluate_lua_macro(" nope( ", &lua, 7) {
        ExpansionOutcome::Expanded(_) => panic!("expected failure"),
        ExpansionOutcome::Failed(text, d) => {
            assert_eq!(text, "{{ nope( }}");
            assert_eq!(d.line, 7);
            assert_eq!(d.macro_text, "{{ nope( }}");
            assert!(!d.message.is_empty());
        },
    }
}

#[test]
fn renderer_converts_markdown() {
    let html = md_to_html("# Hi").expect("rendering failed");
    assert_eq!(html.trim(), "<h1>Hi</h1>");
}

#[test]
fn renderer_consumes_frontmatter() {
    let html = md_to_html("---\ntitle: t\n---\n\n# Body").expect("rendering failed");
    assert!(!html.contains("title"));
    assert!(html.contains("<h1>Body</h1>"));
}

#[test]
fn renderer_accepts_inline_math() {
    let html = md_to_html("the value $x+1$ grows").expect("rendering failed");
    assert!(html.contains("math"));
}

#[test]
fn scripts_reach_renderer_by_name() {
    let lua = lua_with_host();
    let (out, diags) = expand_scripts("{{ return md_to_html(\"# Hi\") }}", &lua);
    assert_eq!(out.trim(), "<h1>Hi</h1>");
    assert!(diags.is_empty());
}

#[test]
fn two_pass_content_macro_renders_context() {
    let lua = lua_with_host();
    // pass one binds the macro to the context path; pass two hands that very
    // string to the renderer binding
    let (out, diags) = expand_document("before {{ markdown content }} after", "*emphatic*", &lua);
    assert_eq!(out, "before <p><em>emphatic</em></p> after");
    assert!(diags.is_empty());
}

#[test]
fn two_pass_field_macro_fails_soft_without_lookup() {
    let lua = lua_with_host();
    // no `get_field` host binding is installed: the rewritten macro fails in
    // pass two and is left verbatim, with one diagnostic
    let (out, diags) = expand_document("{{ markdown title }}", "p.md", &lua);
    assert_eq!(out, "{{ return get_field(\"p.md\", \"title\") }}");
    assert_eq!(diags.len(), 1);
    assert_eq!(diags[0].line, 1);
    assert_eq!(diags[0].macro_text, "{{ return get_field(\"p.md\", \"title\") }}");
}

#[test]
fn lua_standard_library_is_available() {
    let lua = lua_with_host();
    let (out, diags) = expand_scripts("x {{ return string.upper(\"ab\") }} y", &lua);
    assert_eq!(out, "x AB y");
    assert!(diags.is_empty());
}

#[test]
fn interpreter_state_persists_across_macros() {
    let lua = lua_with_host();
    let (out, diags) = expand_scripts("{{ x = \"v\" return \"set\" }}|{{ return x }}", &lua);
    assert_eq!(out, "set|v");
    assert!(diags.is_empty());
}
