use secureblog::digest::sha256_hex;
use secureblog::policy::SecurityPolicy;
use secureblog::validate::validate_output;
use secureblog::manifest::build_manifest;
use secureblog::validate::FileEntry;

fn entry(path: &str, content: &[u8]) -> FileEntry {
    FileEntry { path: path.as_bytes().to_vec(), content: content.to_vec() }
}

#[test]
fn test_sha256_hex_known_vector() {
    let hex = String::from_utf8(sha256_hex(b"abc")).unwrap();
    assert_eq!(hex, "ba7816bf8f01cfea414140de5dae2223b00361a396177a9cb410ff61f20015ad");
}

#[test]
fn test_sha256_hex_empty_input() {
    let hex = String::from_utf8(sha256_hex(b"")).unwrap();
    assert_eq!(hex, "e3b0c44298fc1c149afbf4c8996fb92427ae41e4649b934ca495991b7852b855");
}

#[test]
fn test_sha256_hex_depends_on_input() {
    assert_ne!(sha256_hex(b"abc"), sha256_hex(b"abd"));
    assert_eq!(sha256_hex(b"abc"), sha256_hex(b"abc"));
}

#[test]
fn test_manifest_single_known_file() {
    let files = vec![entry("index.html", b"<p>Hello</p>")];
    let m = build_manifest(&files, "2024-01-01T00:00:00Z".to_string());
    assert_eq!(m.entries.len(), 1);
    let e = &m.entries[0];
    assert_eq!(e.relative_path, b"index.html".to_vec());
    assert_eq!(e.size_bytes, 12);
    assert_eq!(
        String::from_utf8(e.digest.clone()).unwrap(),
        "d0a26d23e9d8e0538fd47e7bc502d26cf6c320e8daaec7c8521d4769530f5900"
    );
    assert_eq!(m.format_version, "1.0");
    assert_eq!(m.generator_id, "secureblog-rs");
    assert_eq!(m.generated_at, "2024-01-01T00:00:00Z");
}

#[test]
fn test_manifest_entry_count_matches_tree() {
    let files = vec![
        entry("a.html", b"a"),
        entry("sub/b.css", b"b"),
        entry("c.bin", b"\x00\x01"),
    ];
    let m = build_manifest(&files, "t".to_string());
    assert_eq!(m.entries.len(), files.len());
    for (i, f) in files.iter().enumerate() {
        assert_eq!(m.entries[i].relative_path, f.path);
        assert_eq!(m.entries[i].size_bytes, f.content.len() as u64);
        assert_eq!(m.entries[i].digest, sha256_hex(&f.content));
    }
}

#[test]
fn test_manifest_deterministic_across_runs() {
    let files = vec![entry("a.html", b"same bytes"), entry("b.css", b"more bytes")];
    let m1 = build_manifest(&files, "2024-01-01T00:00:00Z".to_string());
    let m2 = build_manifest(&files, "2030-12-31T23:59:59Z".to_string());
    assert_eq!(m1.entries.len(), m2.entries.len());
    for i in 0..m1.entries.len() {
        assert_eq!(m1.entries[i].relative_path, m2.entries[i].relative_path);
        assert_eq!(m1.entries[i].size_bytes, m2.entries[i].size_bytes);
        assert_eq!(m1.entries[i].digest, m2.entries[i].digest);
    }
    assert_ne!(m1.generated_at, m2.generated_at);
}

#[test]
fn test_manifest_empty_tree() {
    let files: Vec<FileEntry> = Vec::new();
    let m = build_manifest(&files, "t".to_string());
    assert_eq!(m.entries.len(), 0);
}

#[test]
fn test_js_file_rejected_before_manifest() {
    let policy = SecurityPolicy::default();
    let files = vec![entry("index.html", b"<p>ok</p>"), entry("evil.js", b"x()")];
    let result = validate_output(&files, &policy);
    let violations = result.unwrap_err();
    assert_eq!(violations.len(), 1);
    assert_eq!(violations[0].file_path, b"evil.js".to_vec());
    // the pipeline stops here: no manifest is built for a rejected tree
}
