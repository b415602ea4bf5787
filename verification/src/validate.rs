//! The output validator: the second, independent line of defense.
//!
//! It classifies every file of the fully generated output tree by its path
//! suffix, applies the detection-rule catalog and policy-derived checks to
//! HTML and CSS files, rejects published `.js` files outright, and
//! accumulates violations.  The build fails closed if any violation is
//! found.

use vstd::prelude::*;
use crate::patterns::{
    DetectionRule, RuleId, catalog_ids, check_rule, description_of, is_space_byte, literal_at,
    literal_eq_at, pattern_catalog, push_ascii, rule_matches, scan_ws, ws_run,
};
use crate::policy::SecurityPolicy;

verus! {

/// One file of the output tree: its path relative to the output root and its
/// raw content, both as bytes.
pub struct FileEntry {
    /// Path relative to the output root, as UTF-8 bytes.
    pub path: Vec<u8>,
    /// The file's raw bytes.
    pub content: Vec<u8>,
}

/// One detected violation: the offending file and a description of the rule
/// or check that it failed.
pub struct Violation {
    /// Path of the offending file, as handed in with the [`FileEntry`].
    pub file_path: Vec<u8>,
    /// Human-readable description of what was detected.
    pub description: String,
}

/// A double or single quote.
pub open spec fn is_quote(b: u8) -> bool {
    b == 34 || b == 39
}

fn is_quote_exec(b: u8) -> (r: bool)
    ensures
        r == is_quote(b),
{
    b == 34 || b == 39
}

/// `t` ends with the suffix `suf`.
pub open spec fn ends_with(t: Seq<u8>, suf: Seq<u8>) -> bool {
    suf.len() <= t.len() && t.subrange(t.len() - suf.len(), t.len() as int) == suf
}

pub open spec fn html_suffix() -> Seq<u8> {
    seq!['.' as u8, 'h' as u8, 't' as u8, 'm' as u8, 'l' as u8]
}

pub open spec fn htm_suffix() -> Seq<u8> {
    seq!['.' as u8, 'h' as u8, 't' as u8, 'm' as u8]
}

pub open spec fn css_suffix() -> Seq<u8> {
    seq!['.' as u8, 'c' as u8, 's' as u8, 's' as u8]
}

pub open spec fn js_suffix() -> Seq<u8> {
    seq!['.' as u8, 'j' as u8, 's' as u8]
}

/// How a file is treated, by its path suffix.
#[derive(Clone, Copy, PartialEq, Eq, Structural, Debug)]
pub enum FileClass {
    /// `.html` or `.htm`: scanned with the full catalog.
    Html,
    /// `.css`: scanned for script syntax and external imports.
    Css,
    /// `.js`: disallowed outright when scripts are rejected.
    Js,
    /// Anything else: not inspected.
    Other,
}

/// The class of a path.
pub open spec fn classify(path: Seq<u8>) -> FileClass {
    if ends_with(path, html_suffix()) || ends_with(path, htm_suffix()) {
        FileClass::Html
    } else if ends_with(path, css_suffix()) {
        FileClass::Css
    } else if ends_with(path, js_suffix()) {
        FileClass::Js
    } else {
        FileClass::Other
    }
}

fn ends_with_exec(t: &[u8], suf: &[u8]) -> (r: bool)
    ensures
        r == ends_with(t@, suf@),
{
    if suf.len() > t.len() {
        return false;
    }
    let start = t.len() - suf.len();
    let r = literal_eq_at(t, start, suf);
    proof {
        assert(t@.subrange(start as int, start + suf@.len()) == t@.subrange(
            t@.len() - suf@.len(),
            t@.len() as int,
        ));
    }
    r
}

/// The class of a path, computed.
pub fn classify_path(path: &[u8]) -> (c: FileClass)
    ensures
        c == classify(path@),
{
    proof {
        reveal_strlit(".html");
        reveal_strlit(".htm");
        reveal_strlit(".css");
        reveal_strlit(".js");
    }
    let mut html: Vec<u8> = Vec::new();
    push_ascii(&mut html, ".html");
    let mut htm: Vec<u8> = Vec::new();
    push_ascii(&mut htm, ".htm");
    let mut css: Vec<u8> = Vec::new();
    push_ascii(&mut css, ".css");
    let mut js: Vec<u8> = Vec::new();
    push_ascii(&mut js, ".js");
    proof {
        assert(html@ =~= html_suffix());
        assert(htm@ =~= htm_suffix());
        assert(css@ =~= css_suffix());
        assert(js@ =~= js_suffix());
    }
    if ends_with_exec(path, html.as_slice()) || ends_with_exec(path, htm.as_slice()) {
        FileClass::Html
    } else if ends_with_exec(path, css.as_slice()) {
        FileClass::Css
    } else if ends_with_exec(path, js.as_slice()) {
        FileClass::Js
    } else {
        FileClass::Other
    }
}

pub open spec fn style_needle() -> Seq<u8> {
    seq!['s' as u8, 't' as u8, 'y' as u8, 'l' as u8, 'e' as u8]
}

pub open spec fn src_needle() -> Seq<u8> {
    seq!['s' as u8, 'r' as u8, 'c' as u8]
}

pub open spec fn href_needle() -> Seq<u8> {
    seq!['h' as u8, 'r' as u8, 'e' as u8, 'f' as u8]
}

pub open spec fn http_needle() -> Seq<u8> {
    seq!['h' as u8, 't' as u8, 't' as u8, 'p' as u8, ':' as u8, '/' as u8, '/' as u8]
}

pub open spec fn https_needle() -> Seq<u8> {
    seq![
        'h' as u8, 't' as u8, 't' as u8, 'p' as u8, 's' as u8, ':' as u8, '/' as u8, '/' as u8,
    ]
}

pub open spec fn import_needle() -> Seq<u8> {
    seq!['@' as u8, 'i' as u8, 'm' as u8, 'p' as u8, 'o' as u8, 'r' as u8, 't' as u8]
}

/// An inline `style = "..."` attribute occurrence at `i`, with `=` at `j`,
/// the opening quote at `k` and the closing quote at `l`.
pub open spec fn style_wit(t: Seq<u8>, i: int, j: int, k: int, l: int) -> bool {
    literal_at(t, i, style_needle()) && ws_run(t, i + 5, j) && j < t.len() && t[j] == ('=' as u8)
        && ws_run(t, j + 1, k) && j + 1 <= k && k < t.len() && is_quote(t[k]) && k < l < t.len()
        && is_quote(t[l]) && (forall|m: int| k < m < l ==> !is_quote(#[trigger] t[m]))
}

/// An inline style attribute occurrence begins at `i`.
pub open spec fn style_at(t: Seq<u8>, i: int) -> bool {
    exists|j: int, k: int, l: int| style_wit(t, i, j, k, l)
}

/// The text contains an inline style attribute.
pub open spec fn has_inline_style(t: Seq<u8>) -> bool {
    exists|i: int| style_at(t, i)
}

/// A quoted external `src`/`href` reference to an absolute `http(s)://` URL
/// begins at `i`: the attribute name ends at `e`, `=` stands at `j`, the
/// opening quote at `k` and the closing quote at `l`.
pub open spec fn ext_res_wit(t: Seq<u8>, i: int, e: int, j: int, k: int, l: int) -> bool {
    ((literal_at(t, i, src_needle()) && e == i + 3) || (literal_at(t, i, href_needle()) && e == i
        + 4)) && ws_run(t, e, j) && j < t.len() && t[j] == ('=' as u8) && ws_run(t, j + 1, k) && j
        + 1 <= k && k < t.len() && is_quote(t[k]) && k < l < t.len() && is_quote(t[l]) && (forall|
        m: int,
    | k < m < l ==> !is_quote(#[trigger] t[m])) && ((literal_at(t, k + 1, http_needle()) && l >= k
        + 9) || (literal_at(t, k + 1, https_needle()) && l >= k + 10))
}

/// An external-resource reference begins at `i`.
pub open spec fn ext_res_at(t: Seq<u8>, i: int) -> bool {
    exists|e: int, j: int, k: int, l: int| ext_res_wit(t, i, e, j, k, l)
}

/// How many external-resource references begin below position `n`.
pub open spec fn count_ext_res(t: Seq<u8>, n: nat) -> nat
    decreases n,
{
    if n == 0 {
        0
    } else {
        count_ext_res(t, (n - 1) as nat) + if ext_res_at(t, n - 1) {
            1nat
        } else {
            0nat
        }
    }
}

/// A CSS `@import` of an absolute `http(s)://` URL begins at `i`: the
/// whitespace after `@import` ends at `j`, and the URL begins at `p` (after
/// an optional opening quote).
pub open spec fn css_import_wit(t: Seq<u8>, i: int, j: int, p: int) -> bool {
    literal_at(t, i, import_needle()) && i + 7 < j && ws_run(t, i + 7, j) && j < t.len() && ((
    is_quote(t[j]) && p == j + 1) || (!is_quote(t[j]) && p == j)) && ((literal_at(
        t,
        p,
        http_needle(),
    ) && p + 7 < t.len() && !is_quote(t[p + 7])) || (literal_at(t, p, https_needle()) && p + 8
        < t.len() && !is_quote(t[p + 8])))
}

/// An external CSS import begins at `i`.
pub open spec fn css_import_at(t: Seq<u8>, i: int) -> bool {
    exists|j: int, p: int| css_import_wit(t, i, j, p)
}

/// How many external CSS imports begin below position `n`.
pub open spec fn count_css_import(t: Seq<u8>, n: nat) -> nat
    decreases n,
{
    if n == 0 {
        0
    } else {
        count_css_import(t, (n - 1) as nat) + if css_import_at(t, n - 1) {
            1nat
        } else {
            0nat
        }
    }
}

/// CSS text shows script syntax: a `javascript:` URL, an `expression(` call,
/// or a `behavior:` property.
pub open spec fn css_has_script(t: Seq<u8>) -> bool {
    rule_matches(RuleId::JsUrl, t) || rule_matches(RuleId::CssExpression, t) || rule_matches(
        RuleId::CssBehavior,
        t,
    )
}

pub open spec fn style_desc() -> Seq<char> {
    "inline style attribute"@
}

pub open spec fn ext_res_desc() -> Seq<char> {
    "external resource url"@
}

pub open spec fn js_file_desc() -> Seq<char> {
    "javascript file in output"@
}

pub open spec fn css_script_desc() -> Seq<char> {
    "script syntax in css"@
}

pub open spec fn css_import_desc() -> Seq<char> {
    "external css import"@
}

/// The descriptions of the catalog rules among the first `n` that match `t`,
/// in catalog order.
pub open spec fn catalog_hits(t: Seq<u8>, n: nat) -> Seq<Seq<char>>
    decreases n,
{
    if n == 0 {
        Seq::empty()
    } else {
        catalog_hits(t, (n - 1) as nat) + if rule_matches(catalog_ids()[n - 1], t) {
            seq![description_of(catalog_ids()[n - 1])]
        } else {
            Seq::empty()
        }
    }
}

/// The violation descriptions of an HTML file, in report order.
pub open spec fn html_descs(t: Seq<u8>, policy: SecurityPolicy) -> Seq<Seq<char>> {
    (if policy.no_javascript {
        catalog_hits(t, catalog_ids().len() as nat)
    } else {
        Seq::empty()
    }) + (if policy.no_inline_styles && has_inline_style(t) {
        seq![style_desc()]
    } else {
        Seq::empty()
    }) + (if policy.no_external {
        Seq::new(count_ext_res(t, t.len()), |i: int| ext_res_desc())
    } else {
        Seq::empty()
    })
}

/// The violation descriptions of a CSS file, in report order.
pub open spec fn css_descs(t: Seq<u8>, policy: SecurityPolicy) -> Seq<Seq<char>> {
    (if policy.no_javascript && css_has_script(t) {
        seq![css_script_desc()]
    } else {
        Seq::empty()
    }) + (if policy.no_external {
        Seq::new(count_css_import(t, t.len()), |i: int| css_import_desc())
    } else {
        Seq::empty()
    })
}

/// The violation descriptions of one file of the output tree, in report
/// order.
pub open spec fn file_descs(path: Seq<u8>, content: Seq<u8>, policy: SecurityPolicy) -> Seq<
    Seq<char>,
> {
    match classify(path) {
        FileClass::Html => html_descs(content, policy),
        FileClass::Css => css_descs(content, policy),
        FileClass::Js => if policy.no_javascript {
            seq![js_file_desc()]
        } else {
            Seq::empty()
        },
        FileClass::Other => Seq::empty(),
    }
}

/// First index at or after `a` whose byte is a quote (or the length).
fn scan_to_quote(t: &[u8], a: usize) -> (l: usize)
    requires
        a <= t@.len(),
    ensures
        a <= l <= t@.len(),
        forall|m: int| a <= m < l ==> !is_quote(#[trigger] t@[m]),
        l < t@.len() ==> is_quote(t@[l as int]),
{
    let mut l = a;
    while l < t.len() && !is_quote_exec(t[l])
        invariant
            a <= l <= t@.len(),
            forall|m: int| a <= m < l ==> !is_quote(#[trigger] t@[m]),
        decreases t@.len() - l,
    {
        l = l + 1;
    }
    l
}

/// Does an inline style attribute begin at `i`?
fn style_check_at(t: &[u8], i: usize, style_n: &[u8]) -> (r: bool)
    requires
        i < t@.len(),
        style_n@ == style_needle(),
    ensures
        r == style_at(t@, i as int),
{
    if !literal_eq_at(t, i, style_n) {
        proof {
            if style_at(t@, i as int) {
                let (j2, k2, l2) = choose|j2: int, k2: int, l2: int|
                    style_wit(t@, i as int, j2, k2, l2);
                assert(false);
            }
        }
        return false;
    }
    let tlen = t.len();
    proof {
        assert(i + 5 <= tlen);
    }
    let j = scan_ws(t, i + 5);
    if !(j < t.len() && t[j] == ('=' as u8)) {
        proof {
            if style_at(t@, i as int) {
                let (j2, k2, l2) = choose|j2: int, k2: int, l2: int|
                    style_wit(t@, i as int, j2, k2, l2);
                if j2 < j {
                    assert(is_space_byte(t@[j2]));
                    assert(false);
                }
                if j2 > j {
                    assert(is_space_byte(t@[j as int]));
                    assert(false);
                }
                assert(false);
            }
        }
        return false;
    }
    let k = scan_ws(t, j + 1);
    if !(k < t.len() && is_quote_exec(t[k])) {
        proof {
            if style_at(t@, i as int) {
                let (j2, k2, l2) = choose|j2: int, k2: int, l2: int|
                    style_wit(t@, i as int, j2, k2, l2);
                assert(j2 == j);
                if k2 < k {
                    assert(is_space_byte(t@[k2]));
                    assert(false);
                }
                if k2 > k {
                    assert(is_space_byte(t@[k as int]));
                    assert(false);
                }
                assert(false);
            }
        }
        return false;
    }
    let l = scan_to_quote(t, k + 1);
    if l < t.len() {
        proof {
            assert(style_wit(t@, i as int, j as int, k as int, l as int));
        }
        true
    } else {
        proof {
            if style_at(t@, i as int) {
                let (j2, k2, l2) = choose|j2: int, k2: int, l2: int|
                    style_wit(t@, i as int, j2, k2, l2);
                assert(j2 == j);
                assert(k2 == k);
                assert(!is_quote(t@[l2]));
                assert(false);
            }
        }
        false
    }
}

/// Does the whole text contain an inline style attribute?
pub fn has_inline_style_exec(t: &[u8]) -> (r: bool)
    ensures
        r == has_inline_style(t@),
{
    proof {
        reveal_strlit("style");
    }
    let mut style_n: Vec<u8> = Vec::new();
    push_ascii(&mut style_n, "style");
    proof {
        assert(style_n@ =~= style_needle());
    }
    let mut i: usize = 0;
    while i < t.len()
        invariant
            i <= t@.len(),
            style_n@ == style_needle(),
            forall|i2: int| 0 <= i2 < i ==> !style_at(t@, i2),
        decreases t@.len() - i,
    {
        if style_check_at(t, i, style_n.as_slice()) {
            return true;
        }
        i = i + 1;
    }
    proof {
        if has_inline_style(t@) {
            let w = choose|w: int| style_at(t@, w);
            let (j2, k2, l2) = choose|j2: int, k2: int, l2: int| style_wit(t@, w, j2, k2, l2);
            assert(0 <= w < t@.len());
            assert(false);
        }
    }
    false
}

/// The attribute-name end of an external-resource witness is determined by
/// which needle stands at `i`: the two needles differ in their first byte.
proof fn lemma_ext_e_unique(t: Seq<u8>, i: int, e2: int, j2: int, k2: int, l2: int, e: int)
    requires
        ext_res_wit(t, i, e2, j2, k2, l2),
        (literal_at(t, i, src_needle()) && e == i + 3) || (literal_at(t, i, href_needle()) && e
            == i + 4),
    ensures
        e2 == e,
{
    if e2 != e {
        assert(literal_at(t, i, src_needle()) && literal_at(t, i, href_needle()));
        assert(t.subrange(i, i + 3)[0] == t[i]);
        assert(t.subrange(i, i + 4)[0] == t[i]);
        assert(false);
    }
}

/// Does an external `src`/`href` reference begin at `i`?
fn ext_res_check_at(t: &[u8], i: usize, src_n: &[u8], href_n: &[u8], http_n: &[u8], https_n: &[u8])
    -> (r: bool)
    requires
        i < t@.len(),
        src_n@ == src_needle(),
        href_n@ == href_needle(),
        http_n@ == http_needle(),
        https_n@ == https_needle(),
    ensures
        r == ext_res_at(t@, i as int),
{
    let tlen = t.len();
    let e: usize;
    if literal_eq_at(t, i, src_n) {
        proof {
            assert(i + 3 <= tlen);
        }
        e = i + 3;
    } else if literal_eq_at(t, i, href_n) {
        proof {
            assert(i + 4 <= tlen);
        }
        e = i + 4;
    } else {
        proof {
            if ext_res_at(t@, i as int) {
                let (e2, j2, k2, l2) = choose|e2: int, j2: int, k2: int, l2: int|
                    ext_res_wit(t@, i as int, e2, j2, k2, l2);
                assert(false);
            }
        }
        return false;
    }
    let j = scan_ws(t, e);
    if !(j < t.len() && t[j] == ('=' as u8)) {
        proof {
            if ext_res_at(t@, i as int) {
                let (e2, j2, k2, l2) = choose|e2: int, j2: int, k2: int, l2: int|
                    ext_res_wit(t@, i as int, e2, j2, k2, l2);
                lemma_ext_e_unique(t@, i as int, e2, j2, k2, l2, e as int);
                if j2 < j {
                    assert(is_space_byte(t@[j2]));
                    assert(false);
                }
                if j2 > j {
                    assert(is_space_byte(t@[j as int]));
                    assert(false);
                }
                assert(false);
            }
        }
        return false;
    }
    let k = scan_ws(t, j + 1);
    if !(k < t.len() && is_quote_exec(t[k])) {
        proof {
            if ext_res_at(t@, i as int) {
                let (e2, j2, k2, l2) = choose|e2: int, j2: int, k2: int, l2: int|
                    ext_res_wit(t@, i as int, e2, j2, k2, l2);
                lemma_ext_e_unique(t@, i as int, e2, j2, k2, l2, e as int);
                assert(j2 == j) by {
                    if j2 < j {
                        assert(is_space_byte(t@[j2]));
                    }
                    if j2 > j {
                        assert(is_space_byte(t@[j as int]));
                    }
                };
                if k2 < k {
                    assert(is_space_byte(t@[k2]));
                    assert(false);
                }
                if k2 > k {
                    assert(is_space_byte(t@[k as int]));
                    assert(false);
                }
                assert(false);
            }
        }
        return false;
    }
    let l = scan_to_quote(t, k + 1);
    if l >= t.len() {
        proof {
            if ext_res_at(t@, i as int) {
                let (e2, j2, k2, l2) = choose|e2: int, j2: int, k2: int, l2: int|
                    ext_res_wit(t@, i as int, e2, j2, k2, l2);
                lemma_ext_e_unique(t@, i as int, e2, j2, k2, l2, e as int);
                assert(j2 == j) by {
                    if j2 < j {
                        assert(is_space_byte(t@[j2]));
                    }
                    if j2 > j {
                        assert(is_space_byte(t@[j as int]));
                    }
                };
                assert(k2 == k);
                assert(!is_quote(t@[l2]));
                assert(false);
            }
        }
        return false;
    }
    let ok = (literal_eq_at(t, k + 1, http_n) && l >= k + 9) || (literal_eq_at(t, k + 1, https_n)
        && l >= k + 10);
    proof {
        if ok {
            assert(ext_res_wit(t@, i as int, e as int, j as int, k as int, l as int));
        } else {
            if ext_res_at(t@, i as int) {
                let (e2, j2, k2, l2) = choose|e2: int, j2: int, k2: int, l2: int|
                    ext_res_wit(t@, i as int, e2, j2, k2, l2);
                lemma_ext_e_unique(t@, i as int, e2, j2, k2, l2, e as int);
                assert(j2 == j) by {
                    if j2 < j {
                        assert(is_space_byte(t@[j2]));
                    }
                    if j2 > j {
                        assert(is_space_byte(t@[j as int]));
                    }
                };
                assert(k2 == k);
                if l2 < l {
                    assert(!is_quote(t@[l2]));
                    assert(false);
                }
                if l2 > l {
                    assert(!is_quote(t@[l as int]));
                    assert(false);
                }
                assert(false);
            }
        }
    }
    ok
}

/// A CSS-import witness pins `j` to the first non-whitespace position
/// after `@import`: the byte at `j` is an opening quote or the `h` of the
/// URL scheme, never whitespace.
proof fn lemma_css_wit_bounds(t: Seq<u8>, i: int, j2: int, p2: int)
    requires
        css_import_wit(t, i, j2, p2),
    ensures
        i + 7 < j2 < t.len(),
        ws_run(t, i + 7, j2),
        !is_space_byte(t[j2]),
{
    if is_quote(t[j2]) {
    } else {
        assert(p2 == j2);
        if literal_at(t, p2, http_needle()) {
            assert(t.subrange(p2, p2 + 7)[0] == t[p2]);
        } else {
            assert(t.subrange(p2, p2 + 8)[0] == t[p2]);
        }
        assert(t[j2] == ('h' as u8));
    }
}

/// Does an external CSS import begin at `i`?
fn css_import_check_at(t: &[u8], i: usize, import_n: &[u8], http_n: &[u8], https_n: &[u8]) -> (r:
    bool)
    requires
        i < t@.len(),
        import_n@ == import_needle(),
        http_n@ == http_needle(),
        https_n@ == https_needle(),
    ensures
        r == css_import_at(t@, i as int),
{
    if !literal_eq_at(t, i, import_n) {
        proof {
            if css_import_at(t@, i as int) {
                let (j2, p2) = choose|j2: int, p2: int| css_import_wit(t@, i as int, j2, p2);
                assert(false);
            }
        }
        return false;
    }
    let tlen = t.len();
    proof {
        assert(i + 7 <= tlen);
    }
    let j = scan_ws(t, i + 7);
    if j == i + 7 || j >= t.len() {
        proof {
            if css_import_at(t@, i as int) {
                let (j2, p2) = choose|j2: int, p2: int| css_import_wit(t@, i as int, j2, p2);
                lemma_css_wit_bounds(t@, i as int, j2, p2);
                if j2 < j {
                    assert(is_space_byte(t@[j2]));
                } else {
                    if j < t@.len() {
                        assert(is_space_byte(t@[j as int]));
                    }
                }
                assert(false);
            }
        }
        return false;
    }
    let p: usize = if is_quote_exec(t[j]) {
        j + 1
    } else {
        j
    };
    let ok = (literal_eq_at(t, p, http_n) && p + 7 < t.len() && !is_quote_exec(t[p + 7])) || (
    literal_eq_at(t, p, https_n) && p + 8 < t.len() && !is_quote_exec(t[p + 8]));
    proof {
        if ok {
            assert(css_import_wit(t@, i as int, j as int, p as int));
        } else {
            if css_import_at(t@, i as int) {
                let (j2, p2) = choose|j2: int, p2: int| css_import_wit(t@, i as int, j2, p2);
                lemma_css_wit_bounds(t@, i as int, j2, p2);
                assert(j2 == j) by {
                    if j2 < j {
                        assert(is_space_byte(t@[j2]));
                    }
                    if j2 > j {
                        assert(is_space_byte(t@[j as int]));
                    }
                };
                assert(p2 == p);
                assert(false);
            }
        }
    }
    ok
}

/// The rule vector is exactly the catalog: the right rules, in the right
/// order, with their own descriptions.
pub open spec fn catalog_ok(rules: Seq<DetectionRule>) -> bool {
    rules.len() == catalog_ids().len() && forall|i: int|
        0 <= i < rules.len() ==> (#[trigger] rules[i]).id == catalog_ids()[i]
            && rules[i].description@ == description_of(catalog_ids()[i])
}

/// The violations `vs` report exactly the descriptions `descs`, in order,
/// all against the file `path`.
pub open spec fn viols_match(vs: Seq<Violation>, path: Seq<u8>, descs: Seq<Seq<char>>) -> bool {
    vs.len() == descs.len() && forall|i: int|
        0 <= i < vs.len() ==> (#[trigger] vs[i]).file_path@ == path && vs[i].description@
            == descs[i]
}

/// Applies every catalog rule to an HTML file, in catalog order, recording
/// one violation per matching rule.
fn scan_rules(path: &[u8], content: &[u8], rules: &Vec<DetectionRule>) -> (out: Vec<Violation>)
    requires
        catalog_ok(rules@),
    ensures
        viols_match(out@, path@, catalog_hits(content@, catalog_ids().len() as nat)),
{
    let mut out: Vec<Violation> = Vec::new();
    let mut r: usize = 0;
    while r < rules.len()
        invariant
            catalog_ok(rules@),
            r <= rules@.len(),
            viols_match(out@, path@, catalog_hits(content@, r as nat)),
        decreases rules@.len() - r,
    {
        let rule = &rules[r];
        if check_rule(rule.id, content) {
            let v = Violation {
                file_path: vstd::slice::slice_to_vec(path),
                description: rule.description.clone(),
            };
            out.push(v);
        }
        r = r + 1;
    }
    out
}

/// Records one violation per external `src`/`href` reference in an HTML
/// file.
fn ext_res_viols(path: &[u8], content: &[u8]) -> (out: Vec<Violation>)
    ensures
        out@.len() == count_ext_res(content@, content@.len()),
        forall|i: int|
            0 <= i < out@.len() ==> (#[trigger] out@[i]).file_path@ == path@
                && out@[i].description@ == ext_res_desc(),
{
    proof {
        reveal_strlit("src");
        reveal_strlit("href");
        reveal_strlit("http://");
        reveal_strlit("https://");
    }
    let mut src_n: Vec<u8> = Vec::new();
    push_ascii(&mut src_n, "src");
    let mut href_n: Vec<u8> = Vec::new();
    push_ascii(&mut href_n, "href");
    let mut http_n: Vec<u8> = Vec::new();
    push_ascii(&mut http_n, "http://");
    let mut https_n: Vec<u8> = Vec::new();
    push_ascii(&mut https_n, "https://");
    proof {
        assert(src_n@ =~= src_needle());
        assert(href_n@ =~= href_needle());
        assert(http_n@ =~= http_needle());
        assert(https_n@ =~= https_needle());
    }
    let mut out: Vec<Violation> = Vec::new();
    let mut i: usize = 0;
    while i < content.len()
        invariant
            i <= content@.len(),
            src_n@ == src_needle(),
            href_n@ == href_needle(),
            http_n@ == http_needle(),
            https_n@ == https_needle(),
            out@.len() == count_ext_res(content@, i as nat),
            forall|m: int|
                0 <= m < out@.len() ==> (#[trigger] out@[m]).file_path@ == path@
                    && out@[m].description@ == ext_res_desc(),
        decreases content@.len() - i,
    {
        if ext_res_check_at(
            content,
            i,
            src_n.as_slice(),
            href_n.as_slice(),
            http_n.as_slice(),
            https_n.as_slice(),
        ) {
            let v = Violation {
                file_path: vstd::slice::slice_to_vec(path),
                description: "external resource url".to_owned(),
            };
            out.push(v);
        }
        i = i + 1;
    }
    out
}

/// Records one violation per external `@import` in a CSS file.
fn css_import_viols(path: &[u8], content: &[u8]) -> (out: Vec<Violation>)
    ensures
        out@.len() == count_css_import(content@, content@.len()),
        forall|i: int|
            0 <= i < out@.len() ==> (#[trigger] out@[i]).file_path@ == path@
                && out@[i].description@ == css_import_desc(),
{
    proof {
        reveal_strlit("@import");
        reveal_strlit("http://");
        reveal_strlit("https://");
    }
    let mut import_n: Vec<u8> = Vec::new();
    push_ascii(&mut import_n, "@import");
    let mut http_n: Vec<u8> = Vec::new();
    push_ascii(&mut http_n, "http://");
    let mut https_n: Vec<u8> = Vec::new();
    push_ascii(&mut https_n, "https://");
    proof {
        assert(import_n@ =~= import_needle());
        assert(http_n@ =~= http_needle());
        assert(https_n@ =~= https_needle());
    }
    let mut out: Vec<Violation> = Vec::new();
    let mut i: usize = 0;
    while i < content.len()
        invariant
            i <= content@.len(),
            import_n@ == import_needle(),
            http_n@ == http_needle(),
            https_n@ == https_needle(),
            out@.len() == count_css_import(content@, i as nat),
            forall|m: int|
                0 <= m < out@.len() ==> (#[trigger] out@[m]).file_path@ == path@
                    && out@[m].description@ == css_import_desc(),
        decreases content@.len() - i,
    {
        if css_import_check_at(
            content,
            i,
            import_n.as_slice(),
            http_n.as_slice(),
            https_n.as_slice(),
        ) {
            let v = Violation {
                file_path: vstd::slice::slice_to_vec(path),
                description: "external css import".to_owned(),
            };
            out.push(v);
        }
        i = i + 1;
    }
    out
}

/// Checks one HTML file against the policy.
fn check_html(path: &[u8], content: &[u8], policy: &SecurityPolicy, rules: &Vec<DetectionRule>)
    -> (out: Vec<Violation>)
    requires
        catalog_ok(rules@),
    ensures
        viols_match(out@, path@, html_descs(content@, *policy)),
{
    let mut out: Vec<Violation> = Vec::new();
    if policy.no_javascript {
        let mut a = scan_rules(path, content, rules);
        out.append(&mut a);
    }
    if policy.no_inline_styles && has_inline_style_exec(content) {
        let v = Violation {
            file_path: vstd::slice::slice_to_vec(path),
            description: "inline style attribute".to_owned(),
        };
        out.push(v);
    }
    if policy.no_external {
        let mut b = ext_res_viols(path, content);
        out.append(&mut b);
    }
    proof {
        assert(viols_match(out@, path@, html_descs(content@, *policy)));
    }
    out
}

/// Checks one CSS file against the policy.
fn check_css(path: &[u8], content: &[u8], policy: &SecurityPolicy) -> (out: Vec<Violation>)
    ensures
        viols_match(out@, path@, css_descs(content@, *policy)),
{
    let mut out: Vec<Violation> = Vec::new();
    if policy.no_javascript {
        let js = check_rule(RuleId::JsUrl, content);
        let expr = check_rule(RuleId::CssExpression, content);
        let behav = check_rule(RuleId::CssBehavior, content);
        if js || expr || behav {
            let v = Violation {
                file_path: vstd::slice::slice_to_vec(path),
                description: "script syntax in css".to_owned(),
            };
            out.push(v);
        }
    }
    if policy.no_external {
        let mut b = css_import_viols(path, content);
        out.append(&mut b);
    }
    proof {
        assert(viols_match(out@, path@, css_descs(content@, *policy)));
    }
    out
}

/// Checks one file of the output tree, classified by its path suffix.
pub fn check_file(path: &[u8], content: &[u8], policy: &SecurityPolicy, rules: &Vec<DetectionRule>)
    -> (out: Vec<Violation>)
    requires
        catalog_ok(rules@),
    ensures
        viols_match(out@, path@, file_descs(path@, content@, *policy)),
{
    match classify_path(path) {
        FileClass::Html => check_html(path, content, policy, rules),
        FileClass::Css => check_css(path, content, policy),
        FileClass::Js => {
            let mut out: Vec<Violation> = Vec::new();
            if policy.no_javascript {
                let v = Violation {
                    file_path: vstd::slice::slice_to_vec(path),
                    description: "javascript file in output".to_owned(),
                };
                out.push(v);
            }
            out
        },
        FileClass::Other => Vec::new(),
    }
}

/// The violation descriptions of one tree entry.
pub open spec fn entry_descs(f: FileEntry, policy: SecurityPolicy) -> Seq<Seq<char>> {
    file_descs(f.path@, f.content@, policy)
}

/// No file of the tree yields any violation.
pub open spec fn tree_clean(files: Seq<FileEntry>, policy: SecurityPolicy) -> bool {
    forall|i: int| 0 <= i < files.len() ==> entry_descs(#[trigger] files[i], policy).len() == 0
}

/// The (path, description) pairs of one tree entry.
pub open spec fn entry_pairs(f: FileEntry, policy: SecurityPolicy) -> Seq<(Seq<u8>, Seq<char>)> {
    Seq::new(entry_descs(f, policy).len(), |i: int| (f.path@, entry_descs(f, policy)[i]))
}

/// All (path, description) pairs of the tree, in file order.
pub open spec fn tree_pairs(files: Seq<FileEntry>, policy: SecurityPolicy) -> Seq<
    (Seq<u8>, Seq<char>),
>
    decreases files.len(),
{
    if files.len() == 0 {
        Seq::empty()
    } else {
        tree_pairs(files.drop_last(), policy) + entry_pairs(files.last(), policy)
    }
}

/// The violations `vs` are exactly the pairs `ps`, in order.
pub open spec fn pairs_match(vs: Seq<Violation>, ps: Seq<(Seq<u8>, Seq<char>)>) -> bool {
    vs.len() == ps.len() && forall|i: int|
        0 <= i < vs.len() ==> (#[trigger] vs[i]).file_path@ == ps[i].0 && vs[i].description@
            == ps[i].1
}

/// Validates the fully generated output tree against the policy.
///
/// Every file is checked independently; all violations are accumulated and
/// reported together.  The run succeeds only if no file yields any
/// violation: the build fails closed on the first bad tree, with the full
/// report.
pub fn validate_output(files: &Vec<FileEntry>, policy: &SecurityPolicy) -> (r: Result<
    (),
    Vec<Violation>,
>)
    ensures
        r is Ok <==> tree_clean(files@, *policy),
        match r {
            Ok(()) => true,
            Err(vs) => pairs_match(vs@, tree_pairs(files@, *policy)) && vs@.len() > 0,
        },
{
    let rules = pattern_catalog();
    let mut all: Vec<Violation> = Vec::new();
    let mut i: usize = 0;
    while i < files.len()
        invariant
            catalog_ok(rules@),
            i <= files@.len(),
            pairs_match(all@, tree_pairs(files@.take(i as int), *policy)),
        decreases files@.len() - i,
    {
        let f = &files[i];
        let mut vs = check_file(f.path.as_slice(), f.content.as_slice(), policy, &rules);
        proof {
            let pre = files@.take(i as int);
            let cur = files@.take(i + 1 as int);
            assert(cur.drop_last() =~= pre);
            assert(cur.last() == files@[i as int]);
            assert(entry_pairs(files@[i as int], *policy).len() == vs@.len());
        }
        all.append(&mut vs);
        i = i + 1;
    }
    proof {
        assert(files@.take(files@.len() as int) =~= files@);
    }
    if all.len() == 0 {
        proof {
            lemma_tree_pairs_len(files@, *policy);
        }
        Ok(())
    } else {
        proof {
            lemma_tree_pairs_len(files@, *policy);
        }
        Err(all)
    }
}

proof fn lemma_catalog_hits_len(t: Seq<u8>, n: nat)
    requires
        n >= 1,
        rule_matches(catalog_ids()[0], t),
    ensures
        catalog_hits(t, n).len() >= 1,
    decreases n,
{
    if n == 1 {
        assert(catalog_hits(t, 0nat).len() == 0);
    } else {
        lemma_catalog_hits_len(t, (n - 1) as nat);
    }
}

proof fn lemma_tree_pairs_at(files: Seq<FileEntry>, policy: SecurityPolicy, i: int)
    requires
        0 <= i < files.len(),
        entry_descs(files[i], policy).len() > 0,
    ensures
        exists|k: int|
            0 <= k < tree_pairs(files, policy).len() && #[trigger] tree_pairs(files, policy)[k].0
                == files[i].path@,
    decreases files.len(),
{
    if i == files.len() - 1 {
        assert(files.last() == files[i]);
        let k = tree_pairs(files.drop_last(), policy).len() as int;
        assert(tree_pairs(files, policy)[k] == entry_pairs(files.last(), policy)[0]);
        assert(tree_pairs(files, policy)[k].0 == files[i].path@);
    } else {
        assert(files.drop_last()[i] == files[i]);
        lemma_tree_pairs_at(files.drop_last(), policy, i);
        let k = choose|k: int|
            0 <= k < tree_pairs(files.drop_last(), policy).len() && #[trigger] tree_pairs(
                files.drop_last(),
                policy,
            )[k].0 == files.drop_last()[i].path@;
        assert(tree_pairs(files, policy)[k] == tree_pairs(files.drop_last(), policy)[k]);
    }
}

/// An output tree with an HTML file whose text shows a script element is
/// never clean: validation reports at least one violation referencing that
/// file.
pub proof fn lemma_script_file_reported(files: Seq<FileEntry>, policy: SecurityPolicy, i: int)
    requires
        policy.no_javascript,
        0 <= i < files.len(),
        classify(files[i].path@) == FileClass::Html,
        rule_matches(RuleId::ScriptTag, files[i].content@),
    ensures
        !tree_clean(files, policy),
        exists|k: int|
            0 <= k < tree_pairs(files, policy).len() && #[trigger] tree_pairs(files, policy)[k].0
                == files[i].path@,
{
    assert(catalog_ids()[0] == RuleId::ScriptTag);
    lemma_catalog_hits_len(files[i].content@, catalog_ids().len() as nat);
    assert(entry_descs(files[i], policy).len() >= 1);
    lemma_tree_pairs_at(files, policy, i);
}

/// The tree's pair list is empty exactly when every file of the tree is
/// clean.
proof fn lemma_tree_pairs_len(files: Seq<FileEntry>, policy: SecurityPolicy)
    ensures
        tree_pairs(files, policy).len() == 0 <==> tree_clean(files, policy),
    decreases files.len(),
{
    if files.len() == 0 {
    } else {
        lemma_tree_pairs_len(files.drop_last(), policy);
        if tree_pairs(files, policy).len() == 0 {
            assert forall|i: int| 0 <= i < files.len() implies entry_descs(
                #[trigger] files[i],
                policy,
            ).len() == 0 by {
                if i < files.len() - 1 {
                    assert(files.drop_last()[i] == files[i]);
                } else {
                    assert(files.last() == files[i]);
                }
            }
        } else {
            if tree_clean(files, policy) {
                assert(entry_descs(files.last(), policy).len() == 0);
                assert forall|i: int| 0 <= i < files.drop_last().len() implies entry_descs(
                    #[trigger] files.drop_last()[i],
                    policy,
                ).len() == 0 by {
                    assert(files.drop_last()[i] == files[i]);
                }
                assert(false);
            }
        }
    }
}

} // verus!
