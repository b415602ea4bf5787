use secureblog::policy::SecurityPolicy;
use secureblog::posts::sort_posts_by_date;
use secureblog::posts::{default_config, default_content, default_output, post_from_parts, within_size_limit, Config, PostMeta};

#[test]
fn test_security_policy_default() {
    let policy = SecurityPolicy::default();
    assert!(policy.no_javascript);
    assert!(policy.no_external);
    assert_eq!(policy.max_file_size, 10 * 1024 * 1024);
}

#[test]
fn test_config_defaults() {
    let config = Config {
        title: "Test".to_string(),
        url: "https://test.com".to_string(),
        author: "Tester".to_string(),
        output: default_output(),
        content: default_content(),
        use_blake3: false,
    };
    assert_eq!(config.output, "dist".to_string());
    assert_eq!(config.content, "content".to_string());
}

#[test]
fn test_default_config_values() {
    let c = default_config();
    assert_eq!(c.title, "SecureBlog");
    assert_eq!(c.url, "https://example.com");
    assert_eq!(c.author, "Anonymous");
    assert_eq!(c.output, "dist");
    assert_eq!(c.content, "content");
    assert!(c.use_blake3);
}

#[test]
fn test_size_limit() {
    let policy = SecurityPolicy::default();
    assert!(within_size_limit(10 * 1024 * 1024, &policy));
    assert!(!within_size_limit(10 * 1024 * 1024 + 1, &policy));
}

fn meta(draft: bool) -> PostMeta {
    PostMeta {
        title: "t".to_string(),
        date: 1700000000,
        tags: vec!["a".to_string()],
        slug: "t".to_string(),
        draft,
    }
}

#[test]
fn test_sort_posts_newest_first() {
    let mk = |date: i64, slug: &str| {
        post_from_parts(
            PostMeta {
                title: slug.to_string(),
                date,
                tags: vec![],
                slug: slug.to_string(),
                draft: false,
            },
            "md".to_string(),
            b"<p>x</p>".to_vec(),
            format!("{slug}.md"),
        )
    };
    let posts = vec![mk(100, "old"), mk(300, "new"), mk(200, "mid"), mk(300, "tie")];
    let sorted = sort_posts_by_date(posts);
    let dates: Vec<i64> = sorted.iter().map(|p| p.meta.date).collect();
    assert_eq!(dates, vec![300, 300, 200, 100]);
    let mut slugs: Vec<String> = sorted.iter().map(|p| p.meta.slug.clone()).collect();
    slugs.sort();
    assert_eq!(slugs, vec!["mid", "new", "old", "tie"]);
}

#[test]
fn test_post_hash_draft() {
    let p = post_from_parts(meta(true), "md".to_string(), b"<p>x</p>".to_vec(), "s.md".to_string());
    assert_eq!(p.hash, b"DRAFT".to_vec());
}

#[test]
fn test_post_hash_published() {
    let p = post_from_parts(
        meta(false),
        "md".to_string(),
        b"<p>Hello</p>".to_vec(),
        "s.md".to_string(),
    );
    assert_eq!(
        String::from_utf8(p.hash.clone()).unwrap(),
        "d0a26d23e9d8e0538fd47e7bc502d26cf6c320e8daaec7c8521d4769530f5900"
    );
    assert_eq!(p.content, "md");
    assert_eq!(p.source, "s.md");
}
