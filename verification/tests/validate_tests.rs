use secureblog::policy::SecurityPolicy;
use secureblog::validate::{validate_output, FileEntry};
use secureblog::patterns::{check_rule, RuleId};

fn entry(path: &str, content: &str) -> FileEntry {
    FileEntry { path: path.as_bytes().to_vec(), content: content.as_bytes().to_vec() }
}

fn path_of(v: &secureblog::validate::Violation) -> String {
    String::from_utf8(v.file_path.clone()).unwrap()
}

#[test]
fn test_validate_clean_tree_passes() {
    let policy = SecurityPolicy::default();
    let files = vec![
        entry("index.html", "<p>hello</p>"),
        entry("style.css", "body { color: black; }"),
        entry("logo.png", "\u{1}binary"),
    ];
    assert!(validate_output(&files, &policy).is_ok());
}

#[test]
fn test_validate_empty_tree_passes() {
    let policy = SecurityPolicy::default();
    let files: Vec<FileEntry> = Vec::new();
    assert!(validate_output(&files, &policy).is_ok());
}

#[test]
fn test_validate_reports_script_in_html() {
    let policy = SecurityPolicy::default();
    let files = vec![
        entry("ok.html", "<p>fine</p>"),
        entry("bad.html", "<p>x</p><script>alert(1)</script>"),
    ];
    let violations = validate_output(&files, &policy).unwrap_err();
    assert!(!violations.is_empty());
    assert!(violations.iter().any(|v| path_of(v) == "bad.html"));
    assert!(violations.iter().all(|v| path_of(v) != "ok.html"));
}

#[test]
fn test_validate_js_file_is_single_violation() {
    let policy = SecurityPolicy::default();
    let files = vec![entry("app.js", "console.log(1)"), entry("index.html", "<p>ok</p>")];
    let violations = validate_output(&files, &policy).unwrap_err();
    assert_eq!(violations.len(), 1);
    assert_eq!(path_of(&violations[0]), "app.js");
    assert_eq!(violations[0].description, "javascript file in output");
}

#[test]
fn test_validate_js_file_allowed_when_policy_off() {
    let policy = SecurityPolicy {
        no_javascript: false,
        no_inline_styles: false,
        no_external: false,
        max_file_size: 1024,
    };
    let files = vec![entry("app.js", "console.log(1)")];
    assert!(validate_output(&files, &policy).is_ok());
}

#[test]
fn test_validate_event_handler_pattern() {
    let policy = SecurityPolicy::default();
    let files = vec![entry("p.html", "<div onclick = \"x()\">y</div>")];
    let violations = validate_output(&files, &policy).unwrap_err();
    assert!(violations.iter().any(|v| v.description == "event handler attribute"));
}

#[test]
fn test_validate_external_resource_in_html() {
    let policy = SecurityPolicy::default();
    let files = vec![entry("p.html", r#"<img src="http://evil.example/x.png">"#)];
    let violations = validate_output(&files, &policy).unwrap_err();
    assert!(violations.iter().any(|v| v.description == "external resource url"));
}

#[test]
fn test_validate_same_origin_resource_passes() {
    let policy = SecurityPolicy::default();
    let files = vec![entry("p.html", r##"<img src="/images/x.png"><a href="#top">t</a>"##)];
    assert!(validate_output(&files, &policy).is_ok());
}

#[test]
fn test_validate_css_script_syntax() {
    let policy = SecurityPolicy::default();
    let files = vec![entry("s.css", "a { background: url(javascript:alert(1)); }")];
    let violations = validate_output(&files, &policy).unwrap_err();
    assert_eq!(violations.len(), 1);
    assert_eq!(violations[0].description, "script syntax in css");
}

#[test]
fn test_validate_css_expression_and_behavior() {
    let policy = SecurityPolicy::default();
    let files = vec![entry("s.css", "a { width: expression (evil()); behavior : x; }")];
    let violations = validate_output(&files, &policy).unwrap_err();
    assert_eq!(violations.len(), 1);
    assert_eq!(violations[0].description, "script syntax in css");
}

#[test]
fn test_validate_css_external_import() {
    let policy = SecurityPolicy::default();
    let files = vec![entry("s.css", "@import \"https://cdn.example/a.css\";")];
    let violations = validate_output(&files, &policy).unwrap_err();
    assert!(violations.iter().any(|v| v.description == "external css import"));
}

#[test]
fn test_validate_inline_style_policy() {
    let strict = SecurityPolicy {
        no_javascript: true,
        no_inline_styles: true,
        no_external: true,
        max_file_size: 1024,
    };
    let files = vec![entry("p.html", r#"<p style="color:red">x</p>"#)];
    let violations = validate_output(&files, &strict).unwrap_err();
    assert!(violations.iter().any(|v| v.description == "inline style attribute"));
    let lax = SecurityPolicy::default();
    let files2 = vec![entry("p.html", r#"<p style="color:red">x</p>"#)];
    assert!(validate_output(&files2, &lax).is_ok());
}

#[test]
fn test_validate_collects_all_violations() {
    let policy = SecurityPolicy::default();
    let files = vec![
        entry("a.html", "<iframe src=x>"),
        entry("b.js", "x"),
        entry("c.css", "@import 'http://x.y/z.css'"),
    ];
    let violations = validate_output(&files, &policy).unwrap_err();
    assert!(violations.iter().any(|v| path_of(v) == "a.html"));
    assert!(violations.iter().any(|v| path_of(v) == "b.js"));
    assert!(violations.iter().any(|v| path_of(v) == "c.css"));
}

#[test]
fn test_js_pattern_detection() {
    assert!(check_rule(RuleId::ScriptTag, b"<script>"));
    assert!(check_rule(RuleId::JsUrl, b"javascript:void(0)"));
    assert!(check_rule(RuleId::EventHandlerAttr, b"onclick='alert()'"));
    assert!(check_rule(RuleId::IframeTag, b"<iframe src="));
    assert!(!check_rule(RuleId::ScriptTag, b"<scriptural>"));
    assert!(!check_rule(RuleId::EvalCall, b"medieval times"));
    assert!(check_rule(RuleId::EvalCall, b"eval (x)"));
    assert!(check_rule(RuleId::InnerHtmlAssign, b"el.innerHTML = payload"));
    assert!(check_rule(RuleId::DocumentWrite, b"document.write(x)"));
    assert!(check_rule(RuleId::WindowLocation, b"window.location = u"));
}

#[test]
fn test_pattern_catalog_order_and_descriptions() {
    let rules = secureblog::patterns::pattern_catalog();
    assert_eq!(rules.len(), 14);
    assert_eq!(rules[0].description, "script element");
    assert_eq!(rules[1].description, "javascript: url");
    assert_eq!(rules[13].description, "window.location access");
}
