//! The HTML sanitizer: allow-list filtering of the token stream and safe
//! re-emission.
//!
//! Tags outside a fixed allow-list are dropped (the contents of `script`
//! and `style` elements are dropped with them); event-handler attributes
//! and disallowed URL schemes are stripped; text and attribute values are
//! re-emitted with `<` and `"` escaped.  The whole pipeline is a pure
//! function of the input bytes and the policy.

use vstd::prelude::*;
use crate::html::{
    AttrT, HtmlAttr, HtmlToken, Tok, attr_view, attrs_view, is_alnum, is_alpha, to_lower,
    tok_view, tokenize, tokenize_spec, toks_view,
};
use crate::patterns::push_ascii;
use crate::policy::SecurityPolicy;

verus! {

/// The fixed allow-list of element names: structural and content tags only.
pub open spec fn allow_list() -> Seq<Seq<u8>> {
    seq![
        seq!['p' as u8],
        seq!['b' as u8, 'r' as u8],
        seq!['s' as u8, 't' as u8, 'r' as u8, 'o' as u8, 'n' as u8, 'g' as u8],
        seq!['e' as u8, 'm' as u8],
        seq!['u' as u8],
        seq!['i' as u8],
        seq!['b' as u8],
        seq!['h' as u8, '1' as u8],
        seq!['h' as u8, '2' as u8],
        seq!['h' as u8, '3' as u8],
        seq!['h' as u8, '4' as u8],
        seq!['h' as u8, '5' as u8],
        seq!['h' as u8, '6' as u8],
        seq!['u' as u8, 'l' as u8],
        seq!['o' as u8, 'l' as u8],
        seq!['l' as u8, 'i' as u8],
        seq!['d' as u8, 'l' as u8],
        seq!['d' as u8, 't' as u8],
        seq!['d' as u8, 'd' as u8],
        seq!['a' as u8],
        seq!['i' as u8, 'm' as u8, 'g' as u8],
        seq!['b' as u8, 'l' as u8, 'o' as u8, 'c' as u8, 'k' as u8, 'q' as u8, 'u' as u8, 'o' as u8, 't' as u8, 'e' as u8],
        seq!['c' as u8, 'o' as u8, 'd' as u8, 'e' as u8],
        seq!['p' as u8, 'r' as u8, 'e' as u8],
        seq!['t' as u8, 'a' as u8, 'b' as u8, 'l' as u8, 'e' as u8],
        seq!['t' as u8, 'h' as u8, 'e' as u8, 'a' as u8, 'd' as u8],
        seq!['t' as u8, 'b' as u8, 'o' as u8, 'd' as u8, 'y' as u8],
        seq!['t' as u8, 'r' as u8],
        seq!['t' as u8, 'h' as u8],
        seq!['t' as u8, 'd' as u8],
        seq!['h' as u8, 'r' as u8],
        seq!['d' as u8, 'i' as u8, 'v' as u8],
        seq!['s' as u8, 'p' as u8, 'a' as u8, 'n' as u8],
        seq!['a' as u8, 'r' as u8, 't' as u8, 'i' as u8, 'c' as u8, 'l' as u8, 'e' as u8],
        seq!['s' as u8, 'e' as u8, 'c' as u8, 't' as u8, 'i' as u8, 'o' as u8, 'n' as u8],
        seq!['h' as u8, 'e' as u8, 'a' as u8, 'd' as u8, 'e' as u8, 'r' as u8],
        seq!['f' as u8, 'o' as u8, 'o' as u8, 't' as u8, 'e' as u8, 'r' as u8],
        seq!['n' as u8, 'a' as u8, 'v' as u8],
        seq!['a' as u8, 's' as u8, 'i' as u8, 'd' as u8, 'e' as u8],
        seq!['m' as u8, 'a' as u8, 'i' as u8, 'n' as u8]
    ]
}

/// The element name is in the allow-list.
pub open spec fn allowed_name(n: Seq<u8>) -> bool {
    exists|k: int| 0 <= k < allow_list().len() && allow_list()[k] == n
}

pub open spec fn script_name() -> Seq<u8> {
    seq!['s' as u8, 'c' as u8, 'r' as u8, 'i' as u8, 'p' as u8, 't' as u8]
}

pub open spec fn style_name() -> Seq<u8> {
    seq!['s' as u8, 't' as u8, 'y' as u8, 'l' as u8, 'e' as u8]
}

pub open spec fn href_name() -> Seq<u8> {
    seq!['h' as u8, 'r' as u8, 'e' as u8, 'f' as u8]
}

pub open spec fn src_name() -> Seq<u8> {
    seq!['s' as u8, 'r' as u8, 'c' as u8]
}

pub open spec fn http_scheme() -> Seq<u8> {
    seq!['h' as u8, 't' as u8, 't' as u8, 'p' as u8]
}

pub open spec fn https_scheme() -> Seq<u8> {
    seq!['h' as u8, 't' as u8, 't' as u8, 'p' as u8, 's' as u8]
}

pub open spec fn mailto_scheme() -> Seq<u8> {
    seq!['m' as u8, 'a' as u8, 'i' as u8, 'l' as u8, 't' as u8, 'o' as u8]
}

/// A dropped element whose whole content is dropped with it.
pub open spec fn raw_text_name(n: Seq<u8>) -> bool {
    n == script_name() || n == style_name()
}

/// Every allow-listed name is non-empty lowercase text without `<`, never
/// begins like `script` (case matters not: the names are lowercase), and is
/// neither `script` nor `style`.
pub proof fn lemma_allowed_name_shape(n: Seq<u8>)
    requires
        allowed_name(n),
    ensures
        n.len() >= 1,
        forall|m: int| 0 <= m < n.len() ==> #[trigger] n[m] != ('<' as u8),
        n[0] != ('s' as u8) || (n.len() >= 2 && n[1] != ('c' as u8)),
        !raw_text_name(n),
        forall|m: int| 0 <= m < n.len() ==> ('a' as u8) <= #[trigger] n[m] <= ('z' as u8) || (
        '0' as u8) <= n[m] <= ('9' as u8),
{
    let k = choose|k: int| 0 <= k < allow_list().len() && allow_list()[k] == n;
    if k == 0 {
    } else if k == 1 {
    } else if k == 2 {
    } else if k == 3 {
    } else if k == 4 {
    } else if k == 5 {
    } else if k == 6 {
    } else if k == 7 {
    } else if k == 8 {
    } else if k == 9 {
    } else if k == 10 {
    } else if k == 11 {
    } else if k == 12 {
    } else if k == 13 {
    } else if k == 14 {
    } else if k == 15 {
    } else if k == 16 {
    } else if k == 17 {
    } else if k == 18 {
    } else if k == 19 {
    } else if k == 20 {
    } else if k == 21 {
    } else if k == 22 {
    } else if k == 23 {
    } else if k == 24 {
    } else if k == 25 {
    } else if k == 26 {
    } else if k == 27 {
    } else if k == 28 {
    } else if k == 29 {
    } else if k == 30 {
    } else if k == 31 {
    } else if k == 32 {
    } else if k == 33 {
    } else if k == 34 {
    } else if k == 35 {
    } else if k == 36 {
    } else if k == 37 {
    } else if k == 38 {
    } else if k == 39 {
    }
}

/// A byte that may appear in a scheme name.
pub open spec fn is_scheme_byte(b: u8) -> bool {
    is_alnum(b) || b == ('+' as u8) || b == ('-' as u8) || b == ('.' as u8)
}

fn is_scheme_byte_exec(b: u8) -> (r: bool)
    ensures
        r == is_scheme_byte(b),
{
    crate::html::is_alnum_exec(b) || b == ('+' as u8) || b == ('-' as u8) || b == ('.' as u8)
}

/// The value has a scheme ending at the colon at position `c`.
pub open spec fn scheme_end(v: Seq<u8>, c: int) -> bool {
    0 < c < v.len() && v[c] == (':' as u8) && is_alpha(v[0]) && forall|m: int|
        0 <= m < c ==> is_scheme_byte(#[trigger] v[m])
}

/// The value has some scheme.
pub open spec fn has_scheme(v: Seq<u8>) -> bool {
    exists|c: int| scheme_end(v, c)
}

/// ASCII lowercasing of a byte sequence.
pub open spec fn lower_seq(v: Seq<u8>) -> Seq<u8> {
    v.map_values(|b: u8| to_lower(b))
}

/// The value's scheme (ending at `c`) is one of the allowed schemes.
pub open spec fn allowed_scheme_at(v: Seq<u8>, c: int) -> bool {
    scheme_end(v, c) && (lower_seq(v.subrange(0, c)) == http_scheme() || lower_seq(
        v.subrange(0, c),
    ) == https_scheme() || lower_seq(v.subrange(0, c)) == mailto_scheme())
}

/// A URL value is kept if it has no scheme (relative references and
/// fragments) or an allowed scheme.
pub open spec fn value_ok(v: Seq<u8>) -> bool {
    !has_scheme(v) || exists|c: int| allowed_scheme_at(v, c)
}

/// A scheme ends at exactly one position: the colon is not a scheme byte.
pub proof fn lemma_scheme_end_unique(v: Seq<u8>, c1: int, c2: int)
    requires
        scheme_end(v, c1),
        scheme_end(v, c2),
    ensures
        c1 == c2,
{
    if c1 < c2 {
        assert(is_scheme_byte(v[c1]));
        assert(false);
    }
    if c2 < c1 {
        assert(is_scheme_byte(v[c2]));
        assert(false);
    }
}

/// A byte accepted in an emitted attribute name.
pub open spec fn is_emit_name_byte(b: u8) -> bool {
    (('a' as u8) <= b && b <= ('z' as u8)) || (('0' as u8) <= b && b <= ('9' as u8)) || b == (
    '-' as u8) || b == ('_' as u8) || b == (':' as u8)
}

/// A well-formed attribute name: non-empty, lowercase name bytes only.
pub open spec fn attr_name_wf(n: Seq<u8>) -> bool {
    n.len() > 0 && forall|i: int| 0 <= i < n.len() ==> is_emit_name_byte(#[trigger] n[i])
}

/// The name begins with `on`: an event-handler attribute.
pub open spec fn starts_with_on(n: Seq<u8>) -> bool {
    n.len() >= 2 && n[0] == ('o' as u8) && n[1] == ('n' as u8)
}

/// The attribute carries a URL.
pub open spec fn url_attr(n: Seq<u8>) -> bool {
    n == href_name() || n == src_name()
}

/// An attribute survives filtering: well-formed name, not an event
/// handler, not `style` when the policy rejects inline styles, and for
/// `href`/`src` a value whose scheme is allowed.
pub open spec fn attr_keep(a: AttrT, policy: SecurityPolicy) -> bool {
    attr_name_wf(a.name) && !starts_with_on(a.name) && !(policy.no_inline_styles && a.name
        == style_name()) && (url_attr(a.name) ==> match a.value {
        Option::Some(v) => value_ok(v),
        Option::None => true,
    })
}

/// The kept attributes among `attrs[i..]`, in order.
pub open spec fn filter_attrs_from(attrs: Seq<AttrT>, i: int, policy: SecurityPolicy) -> Seq<
    AttrT,
>
    decreases attrs.len() - i,
{
    if i < 0 || i >= attrs.len() {
        Seq::empty()
    } else {
        (if attr_keep(attrs[i], policy) {
            seq![attrs[i]]
        } else {
            Seq::empty()
        }) + filter_attrs_from(attrs, i + 1, policy)
    }
}

/// The kept attributes, in order.
pub open spec fn filter_attrs(attrs: Seq<AttrT>, policy: SecurityPolicy) -> Seq<AttrT> {
    filter_attrs_from(attrs, 0, policy)
}

/// The kept tokens of `ts[i..]`.  While `skip` names a dropped raw-text
/// element, everything up to its closing tag is dropped.
pub open spec fn filter_from(
    ts: Seq<Tok>,
    i: int,
    skip: Option<Seq<u8>>,
    policy: SecurityPolicy,
) -> Seq<Tok>
    decreases ts.len() - i,
{
    if i < 0 || i >= ts.len() {
        Seq::empty()
    } else {
        match skip {
            Option::Some(name) => match ts[i] {
                Tok::Close { name: n } => if n == name {
                    filter_from(ts, i + 1, Option::None, policy)
                } else {
                    filter_from(ts, i + 1, Option::Some(name), policy)
                },
                _ => filter_from(ts, i + 1, Option::Some(name), policy),
            },
            Option::None => match ts[i] {
                Tok::Text(b) => seq![Tok::Text(b)] + filter_from(ts, i + 1, Option::None, policy),
                Tok::Lt => seq![Tok::Lt] + filter_from(ts, i + 1, Option::None, policy),
                Tok::Close { name } => (if allowed_name(name) {
                    seq![Tok::Close { name }]
                } else {
                    Seq::empty()
                }) + filter_from(ts, i + 1, Option::None, policy),
                Tok::Open { name, attrs } => if raw_text_name(name) {
                    filter_from(ts, i + 1, Option::Some(name), policy)
                } else if allowed_name(name) {
                    seq![Tok::Open { name, attrs: filter_attrs(attrs, policy) }] + filter_from(
                        ts,
                        i + 1,
                        Option::None,
                        policy,
                    )
                } else {
                    filter_from(ts, i + 1, Option::None, policy)
                },
            },
        }
    }
}

/// The kept tokens of the whole stream.
pub open spec fn filter_spec(ts: Seq<Tok>, policy: SecurityPolicy) -> Seq<Tok> {
    filter_from(ts, 0, Option::None, policy)
}


/// The spec-level view of a table of byte strings.
pub open spec fn vecs_view(s: Seq<Vec<u8>>) -> Seq<Seq<u8>> {
    s.map_values(|v: Vec<u8>| v@)
}

/// The byte-string tables the filter needs: the allow-list and the fixed
/// names it compares against.
pub struct TagTables {
    /// The allow-listed element names.
    pub allow: Vec<Vec<u8>>,
    /// `script`.
    pub script: Vec<u8>,
    /// `style`.
    pub style: Vec<u8>,
    /// `href`.
    pub href: Vec<u8>,
    /// `src`.
    pub src: Vec<u8>,
    /// `http`.
    pub http: Vec<u8>,
    /// `https`.
    pub https: Vec<u8>,
    /// `mailto`.
    pub mailto: Vec<u8>,
}

/// The tables hold exactly the names the specs speak of.
pub open spec fn tables_ok(t: TagTables) -> bool {
    vecs_view(t.allow@) == allow_list() && t.script@ == script_name() && t.style@ == style_name()
        && t.href@ == href_name() && t.src@ == src_name() && t.http@ == http_scheme() && t.https@
        == https_scheme() && t.mailto@ == mailto_scheme()
}

/// Builds the filter's byte-string tables.
pub fn make_tables() -> (t: TagTables)
    ensures
        tables_ok(t),
{
    proof {
        reveal_strlit("p");
        reveal_strlit("br");
        reveal_strlit("strong");
        reveal_strlit("em");
        reveal_strlit("u");
        reveal_strlit("i");
        reveal_strlit("b");
        reveal_strlit("h1");
        reveal_strlit("h2");
        reveal_strlit("h3");
        reveal_strlit("h4");
        reveal_strlit("h5");
        reveal_strlit("h6");
        reveal_strlit("ul");
        reveal_strlit("ol");
        reveal_strlit("li");
        reveal_strlit("dl");
        reveal_strlit("dt");
        reveal_strlit("dd");
        reveal_strlit("a");
        reveal_strlit("img");
        reveal_strlit("blockquote");
        reveal_strlit("code");
        reveal_strlit("pre");
        reveal_strlit("table");
        reveal_strlit("thead");
        reveal_strlit("tbody");
        reveal_strlit("tr");
        reveal_strlit("th");
        reveal_strlit("td");
        reveal_strlit("hr");
        reveal_strlit("div");
        reveal_strlit("span");
        reveal_strlit("article");
        reveal_strlit("section");
        reveal_strlit("header");
        reveal_strlit("footer");
        reveal_strlit("nav");
        reveal_strlit("aside");
        reveal_strlit("main");
        reveal_strlit("script");
        reveal_strlit("style");
        reveal_strlit("href");
        reveal_strlit("src");
        reveal_strlit("http");
        reveal_strlit("https");
        reveal_strlit("mailto");
    }
    let mut allow: Vec<Vec<u8>> = Vec::new();
    let mut e0: Vec<u8> = Vec::new();
    push_ascii(&mut e0, "p");
    allow.push(e0);
    let mut e1: Vec<u8> = Vec::new();
    push_ascii(&mut e1, "br");
    allow.push(e1);
    let mut e2: Vec<u8> = Vec::new();
    push_ascii(&mut e2, "strong");
    allow.push(e2);
    let mut e3: Vec<u8> = Vec::new();
    push_ascii(&mut e3, "em");
    allow.push(e3);
    let mut e4: Vec<u8> = Vec::new();
    push_ascii(&mut e4, "u");
    allow.push(e4);
    let mut e5: Vec<u8> = Vec::new();
    push_ascii(&mut e5, "i");
    allow.push(e5);
    let mut e6: Vec<u8> = Vec::new();
    push_ascii(&mut e6, "b");
    allow.push(e6);
    let mut e7: Vec<u8> = Vec::new();
    push_ascii(&mut e7, "h1");
    allow.push(e7);
    let mut e8: Vec<u8> = Vec::new();
    push_ascii(&mut e8, "h2");
    allow.push(e8);
    let mut e9: Vec<u8> = Vec::new();
    push_ascii(&mut e9, "h3");
    allow.push(e9);
    let mut e10: Vec<u8> = Vec::new();
    push_ascii(&mut e10, "h4");
    allow.push(e10);
    let mut e11: Vec<u8> = Vec::new();
    push_ascii(&mut e11, "h5");
    allow.push(e11);
    let mut e12: Vec<u8> = Vec::new();
    push_ascii(&mut e12, "h6");
    allow.push(e12);
    let mut e13: Vec<u8> = Vec::new();
    push_ascii(&mut e13, "ul");
    allow.push(e13);
    let mut e14: Vec<u8> = Vec::new();
    push_ascii(&mut e14, "ol");
    allow.push(e14);
    let mut e15: Vec<u8> = Vec::new();
    push_ascii(&mut e15, "li");
    allow.push(e15);
    let mut e16: Vec<u8> = Vec::new();
    push_ascii(&mut e16, "dl");
    allow.push(e16);
    let mut e17: Vec<u8> = Vec::new();
    push_ascii(&mut e17, "dt");
    allow.push(e17);
    let mut e18: Vec<u8> = Vec::new();
    push_ascii(&mut e18, "dd");
    allow.push(e18);
    let mut e19: Vec<u8> = Vec::new();
    push_ascii(&mut e19, "a");
    allow.push(e19);
    let mut e20: Vec<u8> = Vec::new();
    push_ascii(&mut e20, "img");
    allow.push(e20);
    let mut e21: Vec<u8> = Vec::new();
    push_ascii(&mut e21, "blockquote");
    allow.push(e21);
    let mut e22: Vec<u8> = Vec::new();
    push_ascii(&mut e22, "code");
    allow.push(e22);
    let mut e23: Vec<u8> = Vec::new();
    push_ascii(&mut e23, "pre");
    allow.push(e23);
    let mut e24: Vec<u8> = Vec::new();
    push_ascii(&mut e24, "table");
    allow.push(e24);
    let mut e25: Vec<u8> = Vec::new();
    push_ascii(&mut e25, "thead");
    allow.push(e25);
    let mut e26: Vec<u8> = Vec::new();
    push_ascii(&mut e26, "tbody");
    allow.push(e26);
    let mut e27: Vec<u8> = Vec::new();
    push_ascii(&mut e27, "tr");
    allow.push(e27);
    let mut e28: Vec<u8> = Vec::new();
    push_ascii(&mut e28, "th");
    allow.push(e28);
    let mut e29: Vec<u8> = Vec::new();
    push_ascii(&mut e29, "td");
    allow.push(e29);
    let mut e30: Vec<u8> = Vec::new();
    push_ascii(&mut e30, "hr");
    allow.push(e30);
    let mut e31: Vec<u8> = Vec::new();
    push_ascii(&mut e31, "div");
    allow.push(e31);
    let mut e32: Vec<u8> = Vec::new();
    push_ascii(&mut e32, "span");
    allow.push(e32);
    let mut e33: Vec<u8> = Vec::new();
    push_ascii(&mut e33, "article");
    allow.push(e33);
    let mut e34: Vec<u8> = Vec::new();
    push_ascii(&mut e34, "section");
    allow.push(e34);
    let mut e35: Vec<u8> = Vec::new();
    push_ascii(&mut e35, "header");
    allow.push(e35);
    let mut e36: Vec<u8> = Vec::new();
    push_ascii(&mut e36, "footer");
    allow.push(e36);
    let mut e37: Vec<u8> = Vec::new();
    push_ascii(&mut e37, "nav");
    allow.push(e37);
    let mut e38: Vec<u8> = Vec::new();
    push_ascii(&mut e38, "aside");
    allow.push(e38);
    let mut e39: Vec<u8> = Vec::new();
    push_ascii(&mut e39, "main");
    allow.push(e39);
    let mut script: Vec<u8> = Vec::new();
    push_ascii(&mut script, "script");
    let mut style: Vec<u8> = Vec::new();
    push_ascii(&mut style, "style");
    let mut href: Vec<u8> = Vec::new();
    push_ascii(&mut href, "href");
    let mut src: Vec<u8> = Vec::new();
    push_ascii(&mut src, "src");
    let mut http: Vec<u8> = Vec::new();
    push_ascii(&mut http, "http");
    let mut https: Vec<u8> = Vec::new();
    push_ascii(&mut https, "https");
    let mut mailto: Vec<u8> = Vec::new();
    push_ascii(&mut mailto, "mailto");
    let t = TagTables { allow, script, style, href, src, http, https, mailto };
    proof {
        assert(vecs_view(t.allow@) =~~= allow_list());
        assert(t.script@ =~= script_name());
        assert(t.style@ =~= style_name());
        assert(t.href@ =~= href_name());
        assert(t.src@ =~= src_name());
        assert(t.http@ =~= http_scheme());
        assert(t.https@ =~= https_scheme());
        assert(t.mailto@ =~= mailto_scheme());
    }
    t
}

/// Byte-for-byte equality of two byte strings.
pub fn bytes_eq(a: &[u8], b: &[u8]) -> (r: bool)
    ensures
        r == (a@ == b@),
{
    if a.len() != b.len() {
        return false;
    }
    let mut i: usize = 0;
    while i < a.len()
        invariant
            a@.len() == b@.len(),
            i <= a@.len(),
            forall|m: int| 0 <= m < i ==> a@[m] == b@[m],
        decreases a@.len() - i,
    {
        if a[i] != b[i] {
            return false;
        }
        i = i + 1;
    }
    proof {
        assert(a@ =~= b@);
    }
    true
}

/// Is the element name in the allow-list?
fn is_allowed_tag(n: &[u8], tables: &TagTables) -> (r: bool)
    requires
        tables_ok(*tables),
    ensures
        r == allowed_name(n@),
{
    let mut k: usize = 0;
    while k < tables.allow.len()
        invariant
            tables_ok(*tables),
            k <= tables.allow@.len(),
            forall|m: int| 0 <= m < k ==> allow_list()[m] != n@,
        decreases tables.allow@.len() - k,
    {
        if bytes_eq(tables.allow[k].as_slice(), n) {
            proof {
                assert(allow_list()[k as int] == n@);
            }
            return true;
        }
        k = k + 1;
    }
    proof {
        if allowed_name(n@) {
            let w = choose|w: int| 0 <= w < allow_list().len() && allow_list()[w] == n@;
            assert(false);
        }
    }
    false
}

/// Does the lowercased prefix `v[0..c]` equal `scheme`?
fn lower_prefix_eq(v: &[u8], c: usize, scheme: &[u8]) -> (r: bool)
    requires
        c <= v@.len(),
    ensures
        r == (lower_seq(v@.subrange(0, c as int)) == scheme@),
{
    if c != scheme.len() {
        proof {
            assert(lower_seq(v@.subrange(0, c as int)).len() == c);
        }
        return false;
    }
    let mut m: usize = 0;
    while m < c
        invariant
            c <= v@.len(),
            c == scheme@.len(),
            m <= c,
            forall|x: int| 0 <= x < m ==> to_lower(v@.subrange(0, c as int)[x]) == scheme@[x],
        decreases c - m,
    {
        if crate::html::to_lower_exec(v[m]) != scheme[m] {
            proof {
                assert(lower_seq(v@.subrange(0, c as int))[m as int] != scheme@[m as int]);
            }
            return false;
        }
        m = m + 1;
    }
    proof {
        assert(lower_seq(v@.subrange(0, c as int)) =~= scheme@);
    }
    true
}

/// Is the URL value kept: no scheme, or an allowed scheme?
fn value_ok_exec(v: &[u8], tables: &TagTables) -> (r: bool)
    requires
        tables_ok(*tables),
    ensures
        r == value_ok(v@),
{
    let mut c: usize = 0;
    while c < v.len() && is_scheme_byte_exec(v[c])
        invariant
            c <= v@.len(),
            forall|m: int| 0 <= m < c ==> is_scheme_byte(#[trigger] v@[m]),
        decreases v@.len() - c,
    {
        c = c + 1;
    }
    if c < v.len() && v[c] == (':' as u8) && c > 0 && crate::html::is_alpha_exec(v[0]) {
        proof {
            assert(scheme_end(v@, c as int));
        }
        let ok = lower_prefix_eq(v, c, tables.http.as_slice()) || lower_prefix_eq(
            v,
            c,
            tables.https.as_slice(),
        ) || lower_prefix_eq(v, c, tables.mailto.as_slice());
        proof {
            if ok {
                assert(allowed_scheme_at(v@, c as int));
            } else {
                if value_ok(v@) {
                    let c2 = choose|c2: int| allowed_scheme_at(v@, c2);
                    lemma_scheme_end_unique(v@, c as int, c2);
                    assert(false);
                }
            }
        }
        ok
    } else {
        proof {
            if has_scheme(v@) {
                let c2 = choose|c2: int| scheme_end(v@, c2);
                if c2 < c {
                    assert(is_scheme_byte(v@[c2]));
                    assert(false);
                }
                if c2 > c {
                    assert(is_scheme_byte(v@[c as int]));
                    assert(false);
                }
                assert(false);
            }
        }
        true
    }
}

/// Does the attribute survive filtering?
fn attr_keep_exec(a: &HtmlAttr, policy: &SecurityPolicy, tables: &TagTables) -> (r: bool)
    requires
        tables_ok(*tables),
    ensures
        r == attr_keep(attr_view(*a), *policy),
{
    let n = a.name.as_slice();
    if n.len() == 0 {
        return false;
    }
    let mut i: usize = 0;
    while i < n.len()
        invariant
            n@ == a.name@,
            i <= n@.len(),
            forall|m: int| 0 <= m < i ==> is_emit_name_byte(#[trigger] n@[m]),
        decreases n@.len() - i,
    {
        let b = n[i];
        let good = (('a' as u8) <= b && b <= ('z' as u8)) || (('0' as u8) <= b && b <= (
        '9' as u8)) || b == ('-' as u8) || b == ('_' as u8) || b == (':' as u8);
        if !good {
            proof {
                assert(!is_emit_name_byte(n@[i as int]));
                if attr_name_wf(a.name@) {
                    assert(is_emit_name_byte(a.name@[i as int]));
                }
                assert(!attr_name_wf(a.name@));
            }
            return false;
        }
        i = i + 1;
    }
    if n.len() >= 2 && n[0] == ('o' as u8) && n[1] == ('n' as u8) {
        return false;
    }
    if policy.no_inline_styles && bytes_eq(n, tables.style.as_slice()) {
        return false;
    }
    if bytes_eq(n, tables.href.as_slice()) || bytes_eq(n, tables.src.as_slice()) {
        match &a.value {
            Option::Some(v) => value_ok_exec(v.as_slice(), tables),
            Option::None => true,
        }
    } else {
        true
    }
}

/// Copies an attribute.
fn copy_attr(a: &HtmlAttr) -> (r: HtmlAttr)
    ensures
        attr_view(r) == attr_view(*a),
{
    HtmlAttr {
        name: vstd::slice::slice_to_vec(a.name.as_slice()),
        value: match &a.value {
            Option::Some(v) => Option::Some(vstd::slice::slice_to_vec(v.as_slice())),
            Option::None => Option::None,
        },
    }
}

/// Keeps the attributes that survive filtering, in order.
fn filter_attrs_exec(attrs: &Vec<HtmlAttr>, policy: &SecurityPolicy, tables: &TagTables) -> (out:
    Vec<HtmlAttr>)
    requires
        tables_ok(*tables),
    ensures
        attrs_view(out@) == filter_attrs(attrs_view(attrs@), *policy),
{
    let ghost av = attrs_view(attrs@);
    let mut out: Vec<HtmlAttr> = Vec::new();
    let mut i: usize = 0;
    proof {
        assert(attrs_view(out@) + filter_attrs_from(av, 0, *policy) =~~= filter_attrs(
            av,
            *policy,
        ));
    }
    while i < attrs.len()
        invariant
            tables_ok(*tables),
            i <= attrs@.len(),
            av == attrs_view(attrs@),
            attrs_view(out@) + filter_attrs_from(av, i as int, *policy) == filter_attrs(
                av,
                *policy,
            ),
        decreases attrs@.len() - i,
    {
        let a = &attrs[i];
        proof {
            assert(attr_view(attrs@[i as int]) == av[i as int]);
        }
        if attr_keep_exec(a, policy, tables) {
            let ghost prev = attrs_view(out@);
            let c = copy_attr(a);
            out.push(c);
            proof {
                assert(attrs_view(out@) =~~= prev.push(av[i as int]));
            }
        }
        proof {
            assert(attrs_view(out@) + filter_attrs_from(av, i + 1 as int, *policy) =~~=
                filter_attrs(av, *policy));
        }
        i = i + 1;
    }
    proof {
        assert(attrs_view(out@) =~~= filter_attrs(av, *policy));
    }
    out
}

/// Keeps the tokens that survive filtering, dropping disallowed tags and
/// the whole content of dropped `script`/`style` elements.
pub fn filter_tokens(toks: &Vec<HtmlToken>, policy: &SecurityPolicy, tables: &TagTables) -> (out:
    Vec<HtmlToken>)
    requires
        tables_ok(*tables),
    ensures
        toks_view(out@) == filter_spec(toks_view(toks@), *policy),
{
    let ghost tv = toks_view(toks@);
    let mut out: Vec<HtmlToken> = Vec::new();
    let mut skipping: bool = false;
    let mut skip_name: Vec<u8> = Vec::new();
    let mut i: usize = 0;
    proof {
        assert(toks_view(out@) + filter_from(tv, 0, Option::None, *policy) =~~= filter_spec(
            tv,
            *policy,
        ));
    }
    while i < toks.len()
        invariant
            tables_ok(*tables),
            i <= toks@.len(),
            tv == toks_view(toks@),
            toks_view(out@) + filter_from(
                tv,
                i as int,
                if skipping {
                    Option::Some(skip_name@)
                } else {
                    Option::None
                },
                *policy,
            ) == filter_spec(tv, *policy),
        decreases toks@.len() - i,
    {
        let t = &toks[i];
        proof {
            assert(tok_view(toks@[i as int]) == tv[i as int]);
        }
        let ghost prev = toks_view(out@);
        let ghost old_skip: Option<Seq<u8>> = if skipping {
            Option::Some(skip_name@)
        } else {
            Option::None
        };
        if skipping {
            match t {
                HtmlToken::Close { name } => {
                    if bytes_eq(name.as_slice(), skip_name.as_slice()) {
                        skipping = false;
                    }
                },
                _ => {},
            }
        } else {
            match t {
                HtmlToken::Text(b) => {
                    out.push(HtmlToken::Text(*b));
                    proof {
                        assert(toks_view(out@) =~~= prev.push(Tok::Text(*b)));
                    }
                },
                HtmlToken::Lt => {
                    out.push(HtmlToken::Lt);
                    proof {
                        assert(toks_view(out@) =~~= prev.push(Tok::Lt));
                    }
                },
                HtmlToken::Close { name } => {
                    if is_allowed_tag(name.as_slice(), tables) {
                        let c = HtmlToken::Close {
                            name: vstd::slice::slice_to_vec(name.as_slice()),
                        };
                        out.push(c);
                        proof {
                            assert(toks_view(out@) =~~= prev.push(Tok::Close { name: name@ }));
                        }
                    }
                },
                HtmlToken::Open { name, attrs } => {
                    if bytes_eq(name.as_slice(), tables.script.as_slice()) || bytes_eq(
                        name.as_slice(),
                        tables.style.as_slice(),
                    ) {
                        skipping = true;
                        skip_name = vstd::slice::slice_to_vec(name.as_slice());
                    } else if is_allowed_tag(name.as_slice(), tables) {
                        let fa = filter_attrs_exec(attrs, policy, tables);
                        let c = HtmlToken::Open {
                            name: vstd::slice::slice_to_vec(name.as_slice()),
                            attrs: fa,
                        };
                        out.push(c);
                        proof {
                            assert(toks_view(out@) =~~= prev.push(
                                Tok::Open {
                                    name: name@,
                                    attrs: filter_attrs(attrs_view(attrs@), *policy),
                                },
                            ));
                        }
                    }
                },
            }
        }
        proof {
            let new_skip: Option<Seq<u8>> = if skipping {
                Option::Some(skip_name@)
            } else {
                Option::None
            };
            assert(prev + filter_from(tv, i as int, old_skip, *policy) =~~= toks_view(out@)
                + filter_from(tv, i + 1 as int, new_skip, *policy));
            assert(toks_view(out@) + filter_from(tv, i + 1 as int, new_skip, *policy) =~~=
                filter_spec(tv, *policy));
        }
        i = i + 1;
    }
    proof {
        assert(toks_view(out@) =~~= filter_spec(tv, *policy));
    }
    out
}

/// The escape of `<` in emitted text and values.
pub open spec fn lt_escape() -> Seq<u8> {
    seq!['&' as u8, 'l' as u8, 't' as u8, ';' as u8]
}

/// The escape of `"` in emitted values.
pub open spec fn quot_escape() -> Seq<u8> {
    seq!['&' as u8, 'q' as u8, 'u' as u8, 'o' as u8, 't' as u8, ';' as u8]
}

/// The emitted form of the value bytes `v[i..]`: `<` and `"` escaped,
/// everything else verbatim.
pub open spec fn esc_from(v: Seq<u8>, i: int) -> Seq<u8>
    decreases v.len() - i,
{
    if i < 0 || i >= v.len() {
        Seq::empty()
    } else {
        (if v[i] == ('<' as u8) {
            lt_escape()
        } else if v[i] == (34 as u8) {
            quot_escape()
        } else {
            seq![v[i]]
        }) + esc_from(v, i + 1)
    }
}

/// The emitted form of a whole value.
pub open spec fn esc(v: Seq<u8>) -> Seq<u8> {
    esc_from(v, 0)
}

/// The emitted bytes of one attribute: a space, the name, and for a valued
/// attribute `="` + escaped value + `"`.
pub open spec fn attr_bytes(a: AttrT) -> Seq<u8> {
    seq![' ' as u8] + a.name + match a.value {
        Option::None => Seq::empty(),
        Option::Some(v) => seq!['=' as u8, 34 as u8] + esc(v) + seq![34 as u8],
    }
}

/// The emitted bytes of the attributes `attrs[i..]`.
pub open spec fn attrs_bytes_from(attrs: Seq<AttrT>, i: int) -> Seq<u8>
    decreases attrs.len() - i,
{
    if i < 0 || i >= attrs.len() {
        Seq::empty()
    } else {
        attr_bytes(attrs[i]) + attrs_bytes_from(attrs, i + 1)
    }
}

/// The emitted bytes of one token.
pub open spec fn tok_bytes(t: Tok) -> Seq<u8> {
    match t {
        Tok::Text(b) => if b == ('<' as u8) {
            lt_escape()
        } else {
            seq![b]
        },
        Tok::Lt => lt_escape(),
        Tok::Open { name, attrs } => seq!['<' as u8] + name + attrs_bytes_from(attrs, 0) + seq![
            '>' as u8,
        ],
        Tok::Close { name } => seq!['<' as u8, '/' as u8] + name + seq!['>' as u8],
    }
}

/// The emitted bytes of the tokens `ts[i..]`.
pub open spec fn emit_from(ts: Seq<Tok>, i: int) -> Seq<u8>
    decreases ts.len() - i,
{
    if i < 0 || i >= ts.len() {
        Seq::empty()
    } else {
        tok_bytes(ts[i]) + emit_from(ts, i + 1)
    }
}

/// The emitted bytes of a whole token stream.
pub open spec fn emit_spec(ts: Seq<Tok>) -> Seq<u8> {
    emit_from(ts, 0)
}

/// Appends the bytes of a slice.
fn push_bytes(out: &mut Vec<u8>, s: &[u8])
    ensures
        final(out)@ == old(out)@ + s@,
{
    let mut i: usize = 0;
    while i < s.len()
        invariant
            i <= s@.len(),
            out@ == old(out)@ + s@.take(i as int),
        decreases s@.len() - i,
    {
        out.push(s[i]);
        proof {
            assert(s@.take(i + 1 as int) =~= s@.take(i as int).push(s@[i as int]));
        }
        i = i + 1;
    }
    proof {
        assert(s@.take(s@.len() as int) =~= s@);
    }
}

/// Appends the escaped form of a value.
fn push_esc(out: &mut Vec<u8>, v: &[u8])
    ensures
        final(out)@ == old(out)@ + esc(v@),
{
    let mut i: usize = 0;
    proof {
        assert(out@ + esc_from(v@, 0) =~= old(out)@ + esc(v@));
    }
    while i < v.len()
        invariant
            i <= v@.len(),
            out@ + esc_from(v@, i as int) == old(out)@ + esc(v@),
        decreases v@.len() - i,
    {
        let ghost prev = out@;
        let b = v[i];
        if b == ('<' as u8) {
            out.push('&' as u8);
            out.push('l' as u8);
            out.push('t' as u8);
            out.push(';' as u8);
            proof {
                assert(out@ =~= prev + lt_escape());
            }
        } else if b == 34 {
            out.push('&' as u8);
            out.push('q' as u8);
            out.push('u' as u8);
            out.push('o' as u8);
            out.push('t' as u8);
            out.push(';' as u8);
            proof {
                assert(out@ =~= prev + quot_escape());
            }
        } else {
            out.push(b);
            proof {
                assert(out@ =~= prev + seq![v@[i as int]]);
            }
        }
        proof {
            assert(out@ + esc_from(v@, i + 1 as int) =~= old(out)@ + esc(v@));
        }
        i = i + 1;
    }
}

/// Appends the emitted bytes of one attribute.
fn push_attr_bytes(out: &mut Vec<u8>, a: &HtmlAttr)
    ensures
        final(out)@ == old(out)@ + attr_bytes(attr_view(*a)),
{
    out.push(' ' as u8);
    push_bytes(out, a.name.as_slice());
    match &a.value {
        Option::None => {},
        Option::Some(v) => {
            out.push('=' as u8);
            out.push(34);
            push_esc(out, v.as_slice());
            out.push(34);
        },
    }
    proof {
        assert(out@ =~= old(out)@ + attr_bytes(attr_view(*a)));
    }
}

/// Appends the emitted bytes of one token.
fn push_tok_bytes(out: &mut Vec<u8>, t: &HtmlToken)
    ensures
        final(out)@ == old(out)@ + tok_bytes(tok_view(*t)),
{
    match t {
        HtmlToken::Text(b) => {
            if *b == ('<' as u8) {
                out.push('&' as u8);
                out.push('l' as u8);
                out.push('t' as u8);
                out.push(';' as u8);
            } else {
                out.push(*b);
            }
            proof {
                assert(out@ =~= old(out)@ + tok_bytes(tok_view(*t)));
            }
        },
        HtmlToken::Lt => {
            out.push('&' as u8);
            out.push('l' as u8);
            out.push('t' as u8);
            out.push(';' as u8);
            proof {
                assert(out@ =~= old(out)@ + tok_bytes(tok_view(*t)));
            }
        },
        HtmlToken::Close { name } => {
            out.push('<' as u8);
            out.push('/' as u8);
            push_bytes(out, name.as_slice());
            out.push('>' as u8);
            proof {
                assert(out@ =~= old(out)@ + tok_bytes(tok_view(*t)));
            }
        },
        HtmlToken::Open { name, attrs } => {
            out.push('<' as u8);
            push_bytes(out, name.as_slice());
            let ghost av = attrs_view(attrs@);
            let ghost mid = out@;
            let mut j: usize = 0;
            proof {
                assert(out@ + attrs_bytes_from(av, 0) =~= mid + attrs_bytes_from(av, 0));
            }
            while j < attrs.len()
                invariant
                    j <= attrs@.len(),
                    av == attrs_view(attrs@),
                    out@ + attrs_bytes_from(av, j as int) == mid + attrs_bytes_from(av, 0),
                decreases attrs@.len() - j,
            {
                let a = &attrs[j];
                proof {
                    assert(attr_view(attrs@[j as int]) == av[j as int]);
                }
                push_attr_bytes(out, a);
                proof {
                    assert(out@ + attrs_bytes_from(av, j + 1 as int) =~= mid + attrs_bytes_from(
                        av,
                        0,
                    ));
                }
                j = j + 1;
            }
            out.push('>' as u8);
            proof {
                assert(out@ =~= old(out)@ + tok_bytes(tok_view(*t)));
            }
        },
    }
}

/// Emits the byte form of a token stream.
pub fn emit_tokens(toks: &Vec<HtmlToken>) -> (out: Vec<u8>)
    ensures
        out@ == emit_spec(toks_view(toks@)),
{
    let ghost tv = toks_view(toks@);
    let mut out: Vec<u8> = Vec::new();
    let mut i: usize = 0;
    proof {
        assert(out@ + emit_from(tv, 0) =~= emit_spec(tv));
    }
    while i < toks.len()
        invariant
            i <= toks@.len(),
            tv == toks_view(toks@),
            out@ + emit_from(tv, i as int) == emit_spec(tv),
        decreases toks@.len() - i,
    {
        let t = &toks[i];
        proof {
            assert(tok_view(toks@[i as int]) == tv[i as int]);
        }
        push_tok_bytes(&mut out, t);
        proof {
            assert(out@ + emit_from(tv, i + 1 as int) =~= emit_spec(tv));
        }
        i = i + 1;
    }
    out
}

/// The whole sanitizer as a function of the input bytes and the policy:
/// tokenize, filter, emit.
pub open spec fn sanitize_spec(s: Seq<u8>, policy: SecurityPolicy) -> Seq<u8> {
    emit_spec(filter_spec(tokenize_spec(s), policy))
}

/// Sanitizes untrusted HTML under the policy.
///
/// Never fails: malformed input degrades to smaller, safe output.  The
/// result is exactly the emission of the filtered token stream, and never
/// contains `<script` in any letter case.
pub fn sanitize_html(html: &[u8], policy: &SecurityPolicy) -> (out: Vec<u8>)
    ensures
        out@ == sanitize_spec(html@, *policy),
        script_free(out@),
{
    let toks = tokenize(html);
    let tables = make_tables();
    let kept = filter_tokens(&toks, policy, &tables);
    let out = emit_tokens(&kept);
    proof {
        lemma_sanitize_script_free(html@, *policy);
    }
    out
}

/// A token the filter lets through: an allow-listed tag whose every
/// attribute survives [`attr_keep`], or plain text.
pub open spec fn tok_clean(t: Tok, policy: SecurityPolicy) -> bool {
    match t {
        Tok::Text(b) => true,
        Tok::Lt => true,
        Tok::Open { name, attrs } => allowed_name(name) && forall|j: int|
            0 <= j < attrs.len() ==> attr_keep(#[trigger] attrs[j], policy),
        Tok::Close { name } => allowed_name(name),
    }
}

/// Every token of the stream is clean.
pub open spec fn all_clean(ts: Seq<Tok>, policy: SecurityPolicy) -> bool {
    forall|i: int| 0 <= i < ts.len() ==> tok_clean(#[trigger] ts[i], policy)
}

proof fn lemma_filter_attrs_from_keep(attrs: Seq<AttrT>, i: int, policy: SecurityPolicy)
    ensures
        forall|j: int|
            0 <= j < filter_attrs_from(attrs, i, policy).len() ==> attr_keep(
                #[trigger] filter_attrs_from(attrs, i, policy)[j],
                policy,
            ),
    decreases attrs.len() - i,
{
    if i < 0 || i >= attrs.len() {
    } else {
        lemma_filter_attrs_from_keep(attrs, i + 1, policy);
        let r = filter_attrs_from(attrs, i, policy);
        let rest = filter_attrs_from(attrs, i + 1, policy);
        assert forall|j: int| 0 <= j < r.len() implies attr_keep(#[trigger] r[j], policy) by {
            if attr_keep(attrs[i], policy) {
                if j == 0 {
                    assert(r[j] == attrs[i]);
                } else {
                    assert(r[j] == rest[j - 1]);
                }
            } else {
                assert(r[j] == rest[j]);
            }
        }
    }
}

proof fn lemma_filter_from_clean(ts: Seq<Tok>, i: int, skip: Option<Seq<u8>>, policy: SecurityPolicy)
    ensures
        all_clean(filter_from(ts, i, skip, policy), policy),
    decreases ts.len() - i,
{
    if i < 0 || i >= ts.len() {
    } else {
        match skip {
            Option::Some(name) => {
                match ts[i] {
                    Tok::Close { name: n } => {
                        if n == name {
                            lemma_filter_from_clean(ts, i + 1, Option::None, policy);
                        } else {
                            lemma_filter_from_clean(ts, i + 1, skip, policy);
                        }
                    },
                    _ => {
                        lemma_filter_from_clean(ts, i + 1, skip, policy);
                    },
                }
            },
            Option::None => {
                lemma_filter_from_clean(ts, i + 1, Option::None, policy);
                match ts[i] {
                    Tok::Open { name, attrs } => {
                        if raw_text_name(name) {
                            lemma_filter_from_clean(ts, i + 1, Option::Some(name), policy);
                        } else if allowed_name(name) {
                            lemma_filter_attrs_from_keep(attrs, 0, policy);
                        }
                    },
                    _ => {},
                }
            },
        }
    }
}

/// Every token the filter lets through is clean: an allow-listed tag with
/// only surviving attributes.
pub proof fn lemma_filter_clean(ts: Seq<Tok>, policy: SecurityPolicy)
    ensures
        all_clean(filter_spec(ts, policy), policy),
{
    lemma_filter_from_clean(ts, 0, Option::None, policy);
}

/// A case-insensitive `<script` occurrence at `i`.
pub open spec fn script_at(s: Seq<u8>, i: int) -> bool {
    0 <= i && i + 7 <= s.len() && s[i] == ('<' as u8) && to_lower(s[i + 1]) == ('s' as u8)
        && to_lower(s[i + 2]) == ('c' as u8) && to_lower(s[i + 3]) == ('r' as u8) && to_lower(
        s[i + 4],
    ) == ('i' as u8) && to_lower(s[i + 5]) == ('p' as u8) && to_lower(s[i + 6]) == ('t' as u8)
}

/// No case-insensitive `<script` occurs anywhere in `s`.
pub open spec fn script_free(s: Seq<u8>) -> bool {
    forall|i: int| !script_at(s, i)
}

/// Every `<` in `s` is followed, inside `s`, by a byte that rules a
/// `script` spelling out at the first or second position.
pub open spec fn guard_at(s: Seq<u8>, i: int) -> bool {
    (i + 1 < s.len() && to_lower(s[i + 1]) != ('s' as u8)) || (i + 2 < s.len() && to_lower(
        s[i + 2],
    ) != ('c' as u8))
}

pub open spec fn lt_guard(s: Seq<u8>) -> bool {
    forall|i: int| 0 <= i < s.len() && #[trigger] s[i] == ('<' as u8) ==> guard_at(s, i)
}

proof fn lemma_guard_concat(a: Seq<u8>, b: Seq<u8>)
    requires
        lt_guard(a),
        lt_guard(b),
    ensures
        lt_guard(a + b),
{
    assert forall|i: int| 0 <= i < (a + b).len() && #[trigger] (a + b)[i] == ('<' as u8) implies
        guard_at(a + b, i) by {
        if i < a.len() {
            assert(a[i] == ('<' as u8));
            assert(guard_at(a, i));
            if i + 1 < a.len() && to_lower(a[i + 1]) != ('s' as u8) {
                assert((a + b)[i + 1] == a[i + 1]);
            } else {
                assert((a + b)[i + 2] == a[i + 2]);
            }
        } else {
            let i2 = i - a.len();
            assert(b[i2] == ('<' as u8));
            assert(guard_at(b, i2));
            if i2 + 1 < b.len() && to_lower(b[i2 + 1]) != ('s' as u8) {
                assert((a + b)[i + 1] == b[i2 + 1]);
            } else {
                assert((a + b)[i + 2] == b[i2 + 2]);
            }
        }
    }
}

proof fn lemma_no_lt_guard(s: Seq<u8>)
    requires
        forall|i: int| 0 <= i < s.len() ==> #[trigger] s[i] != ('<' as u8),
    ensures
        lt_guard(s),
{
}

proof fn lemma_esc_no_lt(v: Seq<u8>, i: int)
    ensures
        forall|m: int|
            0 <= m < esc_from(v, i).len() ==> #[trigger] esc_from(v, i)[m] != ('<' as u8),
    decreases v.len() - i,
{
    if i < 0 || i >= v.len() {
    } else {
        lemma_esc_no_lt(v, i + 1);
        let r = esc_from(v, i);
        let rest = esc_from(v, i + 1);
        let pl = r.len() - rest.len();
        assert forall|m: int| 0 <= m < r.len() implies #[trigger] r[m] != ('<' as u8) by {
            if m < pl {
                if v[i] == ('<' as u8) {
                    assert(r[m] == lt_escape()[m]);
                } else if v[i] == (34 as u8) {
                    assert(r[m] == quot_escape()[m]);
                } else {
                    assert(r[m] == v[i]);
                }
            } else {
                assert(r[m] == rest[m - pl]);
            }
        }
    }
}

proof fn lemma_attr_bytes_no_lt(a: AttrT, policy: SecurityPolicy)
    requires
        attr_keep(a, policy),
    ensures
        forall|m: int| 0 <= m < attr_bytes(a).len() ==> #[trigger] attr_bytes(a)[m] != ('<' as u8),
{
    match a.value {
        Option::None => {},
        Option::Some(v) => {
            lemma_esc_no_lt(v, 0);
        },
    }
}

proof fn lemma_attrs_bytes_no_lt(attrs: Seq<AttrT>, i: int, policy: SecurityPolicy)
    requires
        forall|j: int| 0 <= j < attrs.len() ==> attr_keep(#[trigger] attrs[j], policy),
    ensures
        forall|m: int|
            0 <= m < attrs_bytes_from(attrs, i).len() ==> #[trigger] attrs_bytes_from(attrs, i)[m]
                != ('<' as u8),
    decreases attrs.len() - i,
{
    if i < 0 || i >= attrs.len() {
    } else {
        lemma_attr_bytes_no_lt(attrs[i], policy);
        lemma_attrs_bytes_no_lt(attrs, i + 1, policy);
        let r = attrs_bytes_from(attrs, i);
        let piece = attr_bytes(attrs[i]);
        let rest = attrs_bytes_from(attrs, i + 1);
        assert forall|m: int| 0 <= m < r.len() implies #[trigger] r[m] != ('<' as u8) by {
            if m < piece.len() {
                assert(r[m] == piece[m]);
            } else {
                assert(r[m] == rest[m - piece.len()]);
            }
        }
    }
}

proof fn lemma_tok_guard(t: Tok, policy: SecurityPolicy)
    requires
        tok_clean(t, policy),
    ensures
        lt_guard(tok_bytes(t)),
{
    match t {
        Tok::Text(b) => {
            if b == ('<' as u8) {
                lemma_no_lt_guard(tok_bytes(t));
            } else {
                lemma_no_lt_guard(tok_bytes(t));
            }
        },
        Tok::Lt => {
            lemma_no_lt_guard(tok_bytes(t));
        },
        Tok::Close { name } => {
            lemma_allowed_name_shape(name);
            let s = tok_bytes(t);
            assert forall|i: int| 0 <= i < s.len() && #[trigger] s[i] == ('<' as u8) implies
                guard_at(s, i) by {
                if i == 0 {
                    assert(s[1] == ('/' as u8));
                    assert(to_lower('/' as u8) != ('s' as u8));
                } else if i == 1 {
                    assert(s[1] == ('/' as u8));
                    assert(false);
                } else if i < s.len() - 1 {
                    assert(s[i] == name[i - 2]);
                    assert(false);
                } else {
                    assert(s[i] == ('>' as u8));
                    assert(false);
                }
            }
        },
        Tok::Open { name, attrs } => {
            lemma_allowed_name_shape(name);
            lemma_attrs_bytes_no_lt(attrs, 0, policy);
            let s = tok_bytes(t);
            let nl = name.len() as int;
            let al = attrs_bytes_from(attrs, 0).len() as int;
            assert forall|i: int| 0 <= i < s.len() && #[trigger] s[i] == ('<' as u8) implies
                guard_at(s, i) by {
                if i == 0 {
                    assert(s[1] == name[0]);
                    if name[0] != ('s' as u8) {
                        assert(to_lower(s[1]) != ('s' as u8));
                    } else {
                        assert(s[2] == name[1]);
                        assert(to_lower(s[2]) != ('c' as u8));
                    }
                } else if i <= nl {
                    assert(s[i] == name[i - 1]);
                    assert(false);
                } else if i <= nl + al {
                    assert(s[i] == attrs_bytes_from(attrs, 0)[i - 1 - nl]);
                    assert(false);
                } else {
                    assert(s[i] == ('>' as u8));
                    assert(false);
                }
            }
        },
    }
}

proof fn lemma_emit_guard(ts: Seq<Tok>, i: int, policy: SecurityPolicy)
    requires
        all_clean(ts, policy),
    ensures
        lt_guard(emit_from(ts, i)),
    decreases ts.len() - i,
{
    if i < 0 || i >= ts.len() {
    } else {
        lemma_tok_guard(ts[i], policy);
        lemma_emit_guard(ts, i + 1, policy);
        lemma_guard_concat(tok_bytes(ts[i]), emit_from(ts, i + 1));
    }
}

proof fn lemma_guard_script_free(s: Seq<u8>)
    requires
        lt_guard(s),
    ensures
        script_free(s),
{
    assert forall|i: int| !script_at(s, i) by {
        if script_at(s, i) {
            assert(s[i] == ('<' as u8));
            assert(guard_at(s, i));
            assert(false);
        }
    }
}

/// However the input read, sanitized output never contains `<script` in
/// any letter case.
pub proof fn lemma_sanitize_script_free(s: Seq<u8>, policy: SecurityPolicy)
    ensures
        script_free(sanitize_spec(s, policy)),
{
    lemma_filter_clean(tokenize_spec(s), policy);
    lemma_emit_guard(filter_spec(tokenize_spec(s), policy), 0, policy);
    lemma_guard_script_free(sanitize_spec(s, policy));
}

/// The attributes of a token (empty for anything but an opening tag).
pub open spec fn tok_attrs(t: Tok) -> Seq<AttrT> {
    match t {
        Tok::Open { name, attrs } => attrs,
        _ => Seq::empty(),
    }
}

/// No attribute of any token the filter lets through is an event handler:
/// every kept attribute name avoids the `on` prefix, which covers every
/// `on<event>` handler name.
pub proof fn lemma_sanitize_no_event_handlers(ts: Seq<Tok>, policy: SecurityPolicy)
    ensures
        forall|i: int, j: int|
            0 <= i < filter_spec(ts, policy).len() && 0 <= j < tok_attrs(
                #[trigger] filter_spec(ts, policy)[i],
            ).len() ==> !starts_with_on(#[trigger] tok_attrs(filter_spec(ts, policy)[i])[j].name),
{
    lemma_filter_clean(ts, policy);
    assert forall|i: int, j: int|
        0 <= i < filter_spec(ts, policy).len() && 0 <= j < tok_attrs(
            #[trigger] filter_spec(ts, policy)[i],
        ).len() implies !starts_with_on(
        #[trigger] tok_attrs(filter_spec(ts, policy)[i])[j].name,
    ) by {
        let t = filter_spec(ts, policy)[i];
        assert(tok_clean(t, policy));
        match t {
            Tok::Open { name, attrs } => {
                assert(attr_keep(attrs[j], policy));
            },
            _ => {},
        }
    }
}

/// The fixed event-handler attribute names stripped from every element.
pub open spec fn handler_names() -> Seq<Seq<u8>> {
    seq![
        seq!['o' as u8, 'n' as u8, 'c' as u8, 'l' as u8, 'i' as u8, 'c' as u8, 'k' as u8],
        seq!['o' as u8, 'n' as u8, 'l' as u8, 'o' as u8, 'a' as u8, 'd' as u8],
        seq!['o' as u8, 'n' as u8, 'e' as u8, 'r' as u8, 'r' as u8, 'o' as u8, 'r' as u8],
        seq![
            'o' as u8, 'n' as u8, 'm' as u8, 'o' as u8, 'u' as u8, 's' as u8, 'e' as u8,
            'o' as u8, 'v' as u8, 'e' as u8, 'r' as u8,
        ],
        seq![
            'o' as u8, 'n' as u8, 'm' as u8, 'o' as u8, 'u' as u8, 's' as u8, 'e' as u8,
            'o' as u8, 'u' as u8, 't' as u8,
        ],
        seq![
            'o' as u8, 'n' as u8, 'k' as u8, 'e' as u8, 'y' as u8, 'd' as u8, 'o' as u8,
            'w' as u8, 'n' as u8,
        ],
        seq!['o' as u8, 'n' as u8, 'k' as u8, 'e' as u8, 'y' as u8, 'u' as u8, 'p' as u8],
        seq!['o' as u8, 'n' as u8, 'f' as u8, 'o' as u8, 'c' as u8, 'u' as u8, 's' as u8],
        seq!['o' as u8, 'n' as u8, 'b' as u8, 'l' as u8, 'u' as u8, 'r' as u8],
        seq![
            'o' as u8, 'n' as u8, 'c' as u8, 'h' as u8, 'a' as u8, 'n' as u8, 'g' as u8,
            'e' as u8,
        ],
        seq![
            'o' as u8, 'n' as u8, 's' as u8, 'u' as u8, 'b' as u8, 'm' as u8, 'i' as u8,
            't' as u8,
        ],
        seq![
            'o' as u8, 'n' as u8, 'd' as u8, 'b' as u8, 'l' as u8, 'c' as u8, 'l' as u8,
            'i' as u8, 'c' as u8, 'k' as u8,
        ],
        seq![
            'o' as u8, 'n' as u8, 'm' as u8, 'o' as u8, 'u' as u8, 's' as u8, 'e' as u8,
            'e' as u8, 'n' as u8, 't' as u8, 'e' as u8, 'r' as u8,
        ],
        seq![
            'o' as u8, 'n' as u8, 'm' as u8, 'o' as u8, 'u' as u8, 's' as u8, 'e' as u8,
            'l' as u8, 'e' as u8, 'a' as u8, 'v' as u8, 'e' as u8,
        ],
    ]
}

/// Every fixed handler name begins with `on`, so a kept attribute (whose
/// name never begins with `on`) is none of them.
pub proof fn lemma_kept_attr_is_no_handler(n: Seq<u8>)
    requires
        !starts_with_on(n),
    ensures
        forall|k: int| 0 <= k < handler_names().len() ==> handler_names()[k] != n,
{
    assert forall|k: int| 0 <= k < handler_names().len() implies handler_names()[k] != n by {
        assert(starts_with_on(handler_names()[0]));
        assert(starts_with_on(handler_names()[1]));
        assert(starts_with_on(handler_names()[2]));
        assert(starts_with_on(handler_names()[3]));
        assert(starts_with_on(handler_names()[4]));
        assert(starts_with_on(handler_names()[5]));
        assert(starts_with_on(handler_names()[6]));
        assert(starts_with_on(handler_names()[7]));
        assert(starts_with_on(handler_names()[8]));
        assert(starts_with_on(handler_names()[9]));
        assert(starts_with_on(handler_names()[10]));
        assert(starts_with_on(handler_names()[11]));
        assert(starts_with_on(handler_names()[12]));
        assert(starts_with_on(handler_names()[13]));
    }
}

pub open spec fn js_colon() -> Seq<u8> {
    seq![
        'j' as u8, 'a' as u8, 'v' as u8, 'a' as u8, 's' as u8, 'c' as u8, 'r' as u8, 'i' as u8,
        'p' as u8, 't' as u8, ':' as u8,
    ]
}

/// The value begins with `javascript:` in some letter case.
pub open spec fn js_url_prefix(v: Seq<u8>) -> bool {
    v.len() >= 11 && lower_seq(v.subrange(0, 11)) == js_colon()
}

proof fn lemma_value_ok_no_js(v: Seq<u8>)
    requires
        value_ok(v),
    ensures
        !js_url_prefix(v),
{
    if js_url_prefix(v) {
        let pre = v.subrange(0, 11);
        assert forall|m: int| 0 <= m < 10 implies is_scheme_byte(#[trigger] v[m]) by {
            assert(lower_seq(pre)[m] == to_lower(pre[m]));
            assert(to_lower(v[m]) == js_colon()[m]);
        }
        assert(lower_seq(pre)[10] == to_lower(pre[10]));
        assert(to_lower(v[10]) == (':' as u8));
        assert(v[10] == (':' as u8));
        assert(lower_seq(pre)[0] == to_lower(pre[0]));
        assert(to_lower(v[0]) == ('j' as u8));
        assert(is_alpha(v[0]));
        assert(scheme_end(v, 10));
        let c = choose|c: int| allowed_scheme_at(v, c);
        lemma_scheme_end_unique(v, 10, c);
        assert(lower_seq(v.subrange(0, 10)).len() == 10);
        assert(false);
    }
}

/// The value of a kept attribute is safe: for `href`/`src` the value never
/// begins with `javascript:` in any letter case.
pub open spec fn attr_value_safe(a: AttrT) -> bool {
    match a.value {
        Option::Some(v) => !js_url_prefix(v),
        Option::None => true,
    }
}

/// No `href`/`src` attribute of any token the filter lets through carries
/// a `javascript:` URL: the scheme is stripped with its attribute, never
/// passed through.
pub proof fn lemma_sanitize_no_javascript_urls(ts: Seq<Tok>, policy: SecurityPolicy)
    ensures
        forall|i: int, j: int|
            0 <= i < filter_spec(ts, policy).len() && 0 <= j < tok_attrs(
                #[trigger] filter_spec(ts, policy)[i],
            ).len() && url_attr(tok_attrs(filter_spec(ts, policy)[i])[j].name) ==> attr_value_safe(
                #[trigger] tok_attrs(filter_spec(ts, policy)[i])[j],
            ),
{
    lemma_filter_clean(ts, policy);
    assert forall|i: int, j: int|
        0 <= i < filter_spec(ts, policy).len() && 0 <= j < tok_attrs(
            #[trigger] filter_spec(ts, policy)[i],
        ).len() && url_attr(tok_attrs(filter_spec(ts, policy)[i])[j].name) implies attr_value_safe(
        #[trigger] tok_attrs(filter_spec(ts, policy)[i])[j],
    ) by {
        let t = filter_spec(ts, policy)[i];
        assert(tok_clean(t, policy));
        match t {
            Tok::Open { name, attrs } => {
                assert(attr_keep(attrs[j], policy));
                match attrs[j].value {
                    Option::Some(v) => {
                        lemma_value_ok_no_js(v);
                    },
                    Option::None => {},
                }
            },
            _ => {},
        }
    }
}

proof fn lemma_filter_attrs_from_identity(attrs: Seq<AttrT>, i: int, policy: SecurityPolicy)
    requires
        forall|j: int| 0 <= j < attrs.len() ==> attr_keep(#[trigger] attrs[j], policy),
        0 <= i <= attrs.len(),
    ensures
        filter_attrs_from(attrs, i, policy) == attrs.subrange(i, attrs.len() as int),
    decreases attrs.len() - i,
{
    if i >= attrs.len() {
        assert(filter_attrs_from(attrs, i, policy) =~~= attrs.subrange(i, attrs.len() as int));
    } else {
        lemma_filter_attrs_from_identity(attrs, i + 1, policy);
        assert(filter_attrs_from(attrs, i, policy) =~~= attrs.subrange(i, attrs.len() as int));
    }
}

proof fn lemma_filter_from_identity(ts: Seq<Tok>, i: int, policy: SecurityPolicy)
    requires
        all_clean(ts, policy),
        0 <= i <= ts.len(),
    ensures
        filter_from(ts, i, Option::None, policy) == ts.subrange(i, ts.len() as int),
    decreases ts.len() - i,
{
    if i >= ts.len() {
        assert(filter_from(ts, i, Option::None, policy) =~~= ts.subrange(i, ts.len() as int));
    } else {
        lemma_filter_from_identity(ts, i + 1, policy);
        assert(tok_clean(ts[i], policy));
        match ts[i] {
            Tok::Open { name, attrs } => {
                lemma_allowed_name_shape(name);
                lemma_filter_attrs_from_identity(attrs, 0, policy);
                assert(filter_attrs(attrs, policy) =~~= attrs);
            },
            Tok::Close { name } => {},
            _ => {},
        }
        assert(filter_from(ts, i, Option::None, policy) =~~= ts.subrange(i, ts.len() as int));
    }
}

/// Filtering is idempotent: running the filter over an already filtered
/// token stream changes nothing.  Re-sanitizing clean content is a no-op
/// at the token level.
pub proof fn lemma_filter_idempotent(ts: Seq<Tok>, policy: SecurityPolicy)
    ensures
        filter_spec(filter_spec(ts, policy), policy) == filter_spec(ts, policy),
{
    lemma_filter_clean(ts, policy);
    lemma_filter_from_identity(filter_spec(ts, policy), 0, policy);
    assert(filter_spec(ts, policy).subrange(0, filter_spec(ts, policy).len() as int) =~~=
        filter_spec(ts, policy));
}

/// The token stream behind any sanitized output is safe: every tag is
/// allow-listed, no attribute is an event handler, and no `href`/`src`
/// value begins with `javascript:` in any letter case.
pub proof fn lemma_sanitized_stream_safe(s: Seq<u8>, policy: SecurityPolicy)
    ensures
        all_clean(filter_spec(tokenize_spec(s), policy), policy),
        forall|i: int, j: int|
            0 <= i < filter_spec(tokenize_spec(s), policy).len() && 0 <= j < tok_attrs(
                #[trigger] filter_spec(tokenize_spec(s), policy)[i],
            ).len() ==> !starts_with_on(
                #[trigger] tok_attrs(filter_spec(tokenize_spec(s), policy)[i])[j].name,
            ) && (url_attr(tok_attrs(filter_spec(tokenize_spec(s), policy)[i])[j].name)
                ==> attr_value_safe(tok_attrs(filter_spec(tokenize_spec(s), policy)[i])[j])),
{
    lemma_filter_clean(tokenize_spec(s), policy);
    lemma_sanitize_no_event_handlers(tokenize_spec(s), policy);
    assert forall|i: int, j: int|
        0 <= i < filter_spec(tokenize_spec(s), policy).len() && 0 <= j < tok_attrs(
            #[trigger] filter_spec(tokenize_spec(s), policy)[i],
        ).len() && url_attr(tok_attrs(filter_spec(tokenize_spec(s), policy)[i])[j].name) implies
        attr_value_safe(#[trigger] tok_attrs(filter_spec(tokenize_spec(s), policy)[i])[j]) by {
        let t = filter_spec(tokenize_spec(s), policy)[i];
        assert(tok_clean(t, policy));
        match t {
            Tok::Open { name, attrs } => {
                assert(attr_keep(attrs[j], policy));
                match attrs[j].value {
                    Option::Some(v) => {
                        lemma_value_ok_no_js(v);
                    },
                    Option::None => {},
                }
            },
            _ => {},
        }
    }
}

} // verus!
