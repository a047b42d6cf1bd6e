use sting::breadcrumb::{breadcrumb_trail, breadcrumbs};
use sting::config::{get_configs, parse_configs, title, ConfigMap};
use sting::page::{assemble, page_parent, parse};
use sting::style::rewrite;

fn defaults_with(pairs: &[(&str, &str)]) -> ConfigMap {
    let mut m = ConfigMap::new();
    for (k, v) in pairs {
        m.insert(k, v);
    }
    m
}

#[test]
fn split_without_separator_keeps_text() {
    let defaults = defaults_with(&[("site", "Mine")]);
    let mut s = String::from("hello\n--\nworld: x");
    let configs = get_configs(&mut s, &defaults, "dir");
    assert_eq!(s, "hello\n--\nworld: x");
    assert_eq!(configs.len(), 1);
    assert_eq!(configs.get("site"), Some("Mine".to_string()));
    assert_eq!(configs.get("title"), None);
}

#[test]
fn front_matter_key_value_and_body() {
    let defaults = ConfigMap::new();
    let mut s = String::from("key: value\n---\nBody");
    let configs = get_configs(&mut s, &defaults, "");
    assert_eq!(s, "Body");
    assert_eq!(configs.get("key"), Some("value".to_string()));
    let out = parse(
        "key: value\n---\nBody".to_string(),
        &"{!sting_replace}".to_string(),
        &defaults,
        "index.html",
    );
    assert_eq!(out, "<base href=\"//\"><p>Body</p>");
}

#[test]
fn only_first_separator_splits() {
    let defaults = ConfigMap::new();
    let mut s = String::from("a: 1\n---\nx\n---\ny");
    let configs = get_configs(&mut s, &defaults, "");
    assert_eq!(s, "x\n---\ny");
    assert_eq!(configs.get("a"), Some("1".to_string()));
}

#[test]
fn escaped_box_token_stays_literal() {
    assert_eq!(rewrite("\\{box}"), "{box}");
    assert_eq!(rewrite("{box}"), "<div class=\"box\">\n\n");
}

#[test]
fn all_tokens_rewritten() {
    assert_eq!(
        rewrite("{box}{title}T{end}{body}B{end}{end-box}"),
        "<div class=\"box\">\n\n<div class=\"title\">\n\nT</div><div class=\"body\">\n\nB</div></div>"
    );
    assert_eq!(rewrite("a \\{end} b \\{end-box}"), "a {end} b {end-box}");
}

#[test]
fn rewrite_without_tokens_is_identity() {
    let s = "plain *text* with {braces} and \\ backslash";
    assert_eq!(rewrite(s), s);
    assert_eq!(rewrite(&rewrite(s)), s);
}

#[test]
fn title_of_directory_segment() {
    assert_eq!(title("my_cool_page"), "My Cool Page");
    assert_eq!(title("docs/my-cool_page"), "My Cool Page");
}

#[test]
fn root_page_breadcrumb() {
    let defaults = defaults_with(&[("breadcrumbs_root_message", "Welcome")]);
    let trail = breadcrumb_trail("index.html", &defaults);
    assert_eq!(trail.len(), 1);
    assert_eq!(trail[0].label, "Welcome");
    assert_eq!(trail[0].link, None);
    assert_eq!(
        breadcrumbs("index.html", &defaults),
        "<ul class=\"breadcrumbs\"><li>Welcome</li></ul>"
    );
    assert_eq!(
        breadcrumbs("index.html", &ConfigMap::new()),
        "<ul class=\"breadcrumbs\"><li></li></ul>"
    );
}

#[test]
fn nested_page_breadcrumb() {
    let defaults = ConfigMap::new();
    let trail = breadcrumb_trail("a/b/page.html", &defaults);
    assert_eq!(trail.len(), 3);
    assert_eq!(trail[0].label, "Home");
    assert_eq!(trail[0].link, Some("/".to_string()));
    assert_eq!(trail[1].label, "A");
    assert_eq!(trail[1].link, Some("/a".to_string()));
    assert_eq!(trail[2].label, "B");
    assert_eq!(trail[2].link, None);
    assert_eq!(
        breadcrumbs("a/b/page.html", &defaults),
        "<ul class=\"breadcrumbs\"><li><a href=\"/\">Home</a></li><li><a href=\"/a\">A</a></li><li>B</li></ul>"
    );
}

#[test]
fn deep_breadcrumb_links() {
    let trail = breadcrumb_trail("x/my_dir/z/index.html", &ConfigMap::new());
    assert_eq!(trail.len(), 4);
    assert_eq!(trail[2].label, "My Dir");
    assert_eq!(trail[2].link, Some("/x/my_dir".to_string()));
    assert_eq!(trail[3].link, None);
}

#[test]
fn front_matter_overrides_defaults() {
    let defaults = defaults_with(&[("k", "default"), ("title", "Site")]);
    let mut s = String::from("k: front\n---\nbody");
    let configs = get_configs(&mut s, &defaults, "some_dir");
    assert_eq!(configs.get("k"), Some("front".to_string()));
    assert_eq!(configs.get("title"), Some("Some Dir".to_string()));
    let mut s2 = String::from("title: Mine\n---\nbody");
    let configs2 = get_configs(&mut s2, &defaults, "some_dir");
    assert_eq!(configs2.get("title"), Some("Mine".to_string()));
}

#[test]
fn line_without_delimiter_has_empty_value() {
    let m = parse_configs("flag\nname: a: b", None, None);
    assert_eq!(m.get("flag"), Some(String::new()));
    assert_eq!(m.get("name"), Some("a: b".to_string()));
    assert_eq!(m.len(), 2);
}

#[test]
fn markdown_error_is_whole_page() {
    let configs = ConfigMap::new();
    let out = assemble(
        Err("bad input (1:1)".to_string()),
        "<html>{!sting_replace}</html>",
        &configs,
        "a/index.html",
        "",
    );
    assert_eq!(out, "bad input (1:1)");
}

#[test]
fn template_placeholders_filled() {
    let configs = defaults_with(&[("title", "T"), ("x", "1")]);
    let out = assemble(
        Ok("<p>x</p>".to_string()),
        "<title>{!sting_config_title}</title>{!sting_breadcrumbs}{!sting_replace}{!sting_config_x}{!sting_config_x}",
        &configs,
        "a/page.html",
        "<ul></ul>",
    );
    assert_eq!(out, "<title>T</title><ul></ul><base href=\"/a/\"><p>x</p>11");
}

#[test]
fn full_page_with_directory_title() {
    let defaults = defaults_with(&[("site", "S")]);
    let out = parse(
        "x: 1\n---\n# Hi".to_string(),
        &"{!sting_config_title}|{!sting_config_x}|{!sting_config_site}|{!sting_breadcrumbs}|{!sting_replace}".to_string(),
        &defaults,
        "my_dir/index.html",
    );
    assert_eq!(
        out,
        "My Dir|1|S|<ul class=\"breadcrumbs\"><li><a href=\"/\">Home</a></li><li>My Dir</li></ul>|<base href=\"/my_dir/\"><h1>Hi</h1>"
    );
}

#[test]
fn page_without_front_matter_gets_no_title() {
    let out = parse(
        "{box}hi{end-box}".to_string(),
        &"{!sting_config_title}{!sting_replace}".to_string(),
        &ConfigMap::new(),
        "my_dir/index.html",
    );
    assert!(out.starts_with("{!sting_config_title}<base href=\"/my_dir/\"><div class=\"box\">"));
}

#[test]
fn parent_of_page_path() {
    assert_eq!(page_parent("a/b/page.html"), "a/b");
    assert_eq!(page_parent("page.html"), "");
}

#[test]
fn insert_overwrites_in_place() {
    let mut m = defaults_with(&[("a", "1"), ("b", "2")]);
    m.insert("a", "3");
    assert_eq!(m.len(), 2);
    assert_eq!(m.get("a"), Some("3".to_string()));
    assert_eq!(m.get("b"), Some("2".to_string()));
}
