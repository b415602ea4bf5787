//! The document model around the pipeline: configuration, post metadata,
//! and the per-post integrity hash.
//!
//! Reading files, parsing YAML and rendering markdown are the caller's
//! business; this module holds the plain values and the decisions made on
//! them.  Dates are carried as Unix timestamps in seconds.

use vstd::prelude::*;
use crate::digest::{hex_of, sha256_hex, sha256_of};
use crate::policy::SecurityPolicy;

verus! {

/// Post metadata from the document's front matter.
pub struct PostMeta {
    /// Post title.
    pub title: String,
    /// Publication date, as a Unix timestamp in seconds.
    pub date: i64,
    /// Post tags.
    pub tags: Vec<String>,
    /// Post slug (URL path).
    pub slug: String,
    /// Draft status.
    pub draft: bool,
}

/// A loaded blog post.
pub struct Post {
    /// Post metadata.
    pub meta: PostMeta,
    /// Raw markdown content.
    pub content: String,
    /// Rendered, sanitized HTML, as bytes.
    pub html: Vec<u8>,
    /// Content hash for integrity: `DRAFT` for drafts, otherwise the hex
    /// SHA-256 of the HTML bytes.
    pub hash: Vec<u8>,
    /// Source file path.
    pub source: String,
}

/// Main application configuration.
pub struct Config {
    /// Site title.
    pub title: String,
    /// Site URL.
    pub url: String,
    /// Author name.
    pub author: String,
    /// Output directory.
    pub output: String,
    /// Content directory.
    pub content: String,
    /// Prefer the faster hash where the caller supports it.
    pub use_blake3: bool,
}

/// The default output directory.
pub fn default_output() -> (s: String)
    ensures
        s@ == "dist"@,
{
    "dist".to_owned()
}

/// The default content directory.
pub fn default_content() -> (s: String)
    ensures
        s@ == "content"@,
{
    "content".to_owned()
}

/// The configuration used when none is supplied.
pub fn default_config() -> (c: Config)
    ensures
        c.title@ == "SecureBlog"@,
        c.url@ == "https://example.com"@,
        c.author@ == "Anonymous"@,
        c.output@ == "dist"@,
        c.content@ == "content"@,
        c.use_blake3,
{
    Config {
        title: "SecureBlog".to_owned(),
        url: "https://example.com".to_owned(),
        author: "Anonymous".to_owned(),
        output: default_output(),
        content: default_content(),
        use_blake3: true,
    }
}

/// The hash recorded for a draft post.
pub open spec fn draft_hash() -> Seq<u8> {
    seq!['D' as u8, 'R' as u8, 'A' as u8, 'F' as u8, 'T' as u8]
}

/// A document of this size is accepted under the policy.
pub fn within_size_limit(len: usize, policy: &SecurityPolicy) -> (r: bool)
    ensures
        r == (len <= policy.max_file_size),
{
    len <= policy.max_file_size
}

/// Assembles a post from its parsed parts and computes its integrity hash:
/// `DRAFT` for drafts, otherwise the hex SHA-256 of the rendered HTML.
pub fn post_from_parts(meta: PostMeta, content: String, html: Vec<u8>, source: String) -> (p: Post)
    ensures
        p.meta == meta,
        p.content@ == content@,
        p.html@ == html@,
        p.source@ == source@,
        p.hash@ == if meta.draft {
            draft_hash()
        } else {
            hex_of(sha256_of(html@))
        },
{
    let hash: Vec<u8> = if meta.draft {
        proof {
            reveal_strlit("DRAFT");
        }
        let mut h: Vec<u8> = Vec::new();
        crate::patterns::push_ascii(&mut h, "DRAFT");
        proof {
            assert(h@ =~= draft_hash());
        }
        h
    } else {
        sha256_hex(html.as_slice())
    };
    Post { meta, content, html, hash, source }
}

/// Newest first: dates never increase along the sequence.
pub open spec fn sorted_by_date_desc(s: Seq<Post>) -> bool {
    forall|i: int, j: int| 0 <= i < j < s.len() ==> s[i].meta.date >= s[j].meta.date
}

/// Sorts posts by publication date, newest first, keeping exactly the
/// posts handed in.
pub fn sort_posts_by_date(posts: Vec<Post>) -> (out: Vec<Post>)
    ensures
        sorted_by_date_desc(out@),
        out@.to_multiset() == posts@.to_multiset(),
{
    broadcast use vstd::seq_lib::group_to_multiset_ensures;

    let mut src = posts;
    let ghost oms = src@.to_multiset();
    let mut out: Vec<Post> = Vec::new();
    proof {
        assert(out@.to_multiset().add(src@.to_multiset()) =~= oms);
    }
    while src.len() > 0
        invariant
            out@.to_multiset().add(src@.to_multiset()) == oms,
            sorted_by_date_desc(out@),
            forall|i: int, j: int|
                0 <= i < out@.len() && 0 <= j < src@.len() ==> out@[i].meta.date
                    >= src@[j].meta.date,
        decreases src@.len(),
    {
        let mut m: usize = 0;
        let mut k: usize = 1;
        while k < src.len()
            invariant
                src@.len() > 0,
                m < k,
                k <= src@.len(),
                forall|x: int| 0 <= x < k ==> src@[m as int].meta.date >= src@[x].meta.date,
            decreases src@.len() - k,
        {
            if src[k].meta.date > src[m].meta.date {
                m = k;
            }
            k = k + 1;
        }
        let ghost pre = src@;
        let ghost pre_out = out@;
        let p = src.remove(m);
        out.push(p);
        proof {
            broadcast use vstd::multiset::group_multiset_axioms;

            vstd::seq_lib::to_multiset_remove(pre, m as int);
            vstd::seq_lib::to_multiset_build(pre_out, p);
            assert(pre.to_multiset().count(p) > 0) by {
                assert(pre[m as int] == p);
                assert(pre.contains(p));
                vstd::seq_lib::to_multiset_contains(pre, p);
            }
            assert(out@.to_multiset().add(src@.to_multiset()) =~= oms);
            assert forall|i: int, j: int| 0 <= i < j < out@.len() implies out@[i].meta.date
                >= out@[j].meta.date by {
                if j < out@.len() - 1 {
                } else {
                    assert(out@[i] == pre_out[i]);
                    assert(out@[j] == p);
                }
            }
            assert forall|i: int, j: int|
                0 <= i < out@.len() && 0 <= j < src@.len() implies out@[i].meta.date
                >= src@[j].meta.date by {
                let jo = if j < m { j } else { j + 1 };
                assert(src@[j] == pre[jo]);
                if i < out@.len() - 1 {
                    assert(out@[i] == pre_out[i]);
                } else {
                    assert(out@[i] == p);
                    assert(p.meta.date >= pre[jo].meta.date);
                }
            }
        }
    }
    out
}

} // verus!
