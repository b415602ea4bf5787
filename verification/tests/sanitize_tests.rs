use secureblog::policy::SecurityPolicy;
use secureblog::sanitize::sanitize_html;

fn sanitize_str(input: &str, policy: &SecurityPolicy) -> String {
    let out = sanitize_html(input.as_bytes(), policy);
    String::from_utf8(out).unwrap()
}

#[test]
fn test_sanitize_html_removes_script() {
    let policy = SecurityPolicy::default();
    let dirty = r#"<p>Hello</p><script>alert('xss')</script>"#;
    let clean = sanitize_str(dirty, &policy);
    assert!(!clean.contains("script"));
    assert!(clean.contains("Hello"));
}

#[test]
fn test_sanitize_html_removes_event_handlers() {
    let policy = SecurityPolicy::default();
    let dirty = r#"<div onclick="alert('xss')">Click me</div>"#;
    let clean = sanitize_str(dirty, &policy);
    assert!(!clean.contains("onclick"));
    assert!(clean.contains("Click me"));
}

#[test]
fn test_sanitize_html_removes_javascript_urls() {
    let policy = SecurityPolicy::default();
    let dirty = r#"<a href="javascript:alert('xss')">Link</a>"#;
    let clean = sanitize_str(dirty, &policy);
    assert!(!clean.contains("javascript:"));
}

#[test]
fn test_sanitize_keeps_safe_markup() {
    let policy = SecurityPolicy::default();
    let input = r#"<p>Hi <a href="https://example.com/x">there</a></p>"#;
    let clean = sanitize_str(input, &policy);
    assert_eq!(clean, r#"<p>Hi <a href="https://example.com/x">there</a></p>"#);
}

#[test]
fn test_sanitize_keeps_relative_and_fragment_urls() {
    let policy = SecurityPolicy::default();
    let input = r##"<a href="/posts/one.html">one</a><a href="#top">top</a>"##;
    let clean = sanitize_str(input, &policy);
    assert!(clean.contains(r#"href="/posts/one.html""#));
    assert!(clean.contains(r##"href="#top""##));
}

#[test]
fn test_sanitize_drops_unknown_tags_keeps_children() {
    let policy = SecurityPolicy::default();
    let clean = sanitize_str("<form><p>x</p></form>", &policy);
    assert_eq!(clean, "<p>x</p>");
}

#[test]
fn test_sanitize_drops_script_content_entirely() {
    let policy = SecurityPolicy::default();
    let clean = sanitize_str("<p>a</p><script>var x = 1;</script><p>b</p>", &policy);
    assert_eq!(clean, "<p>a</p><p>b</p>");
}

#[test]
fn test_sanitize_uppercase_script_also_removed() {
    let policy = SecurityPolicy::default();
    let clean = sanitize_str("<SCRIPT>alert(1)</SCRIPT><P>ok</P>", &policy);
    let lower = clean.to_ascii_lowercase();
    assert!(!lower.contains("<script"));
    assert!(clean.contains("ok"));
}

#[test]
fn test_sanitize_escapes_stray_lt() {
    let policy = SecurityPolicy::default();
    let clean = sanitize_str("1 < 2", &policy);
    assert_eq!(clean, "1 &lt; 2");
}

#[test]
fn test_sanitize_empty_input() {
    let policy = SecurityPolicy::default();
    let clean = sanitize_str("", &policy);
    assert_eq!(clean, "");
}

#[test]
fn test_sanitize_strips_style_attr_under_policy() {
    let policy = SecurityPolicy {
        no_javascript: true,
        no_inline_styles: true,
        no_external: true,
        max_file_size: 1024,
    };
    let clean = sanitize_str(r#"<p style="color:red">x</p>"#, &policy);
    assert_eq!(clean, "<p>x</p>");
    let lax = SecurityPolicy::default();
    let kept = sanitize_str(r#"<p style="color:red">x</p>"#, &lax);
    assert_eq!(kept, r#"<p style="color:red">x</p>"#);
}

#[test]
fn test_sanitize_idempotent() {
    let policy = SecurityPolicy::default();
    let inputs = [
        r#"<p>Hello</p><script>alert(1)</script>"#,
        r#"<div onclick="x()">y</div>1 < 2 &amp; more"#,
        r#"<a href="javascript:boom()">z</a><a href="https://a.b/c?d=1">w</a>"#,
        r#"<ul><li>one</li><li>two</li></ul><form><input></form>"#,
        "plain text with <odd <<markup</",
    ];
    for input in inputs {
        let once = sanitize_str(input, &policy);
        let twice = sanitize_str(&once, &policy);
        assert_eq!(twice, once);
    }
}

#[test]
fn test_end_to_end_scenario_default_policy() {
    let policy = SecurityPolicy::default();
    let clean = sanitize_str("<p>Hello</p><script>alert(1)</script>", &policy);
    assert!(clean.contains("<p>Hello</p>"));
    assert!(!clean.contains("script"));
}
