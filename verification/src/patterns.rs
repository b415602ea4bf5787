//! The detection-rule catalog: a fixed, ordered set of matchers for
//! script-indicative syntax in HTML and CSS text.
//!
//! Each rule is data (a pattern shape, a needle, a description); matching is
//! a verified scan over the bytes of a file.  The catalog is constructed once
//! per run and reused for every file.

use vstd::prelude::*;

verus! {

/// ASCII letter, digit, or underscore: the word characters of the rules.
pub open spec fn is_word_byte(b: u8) -> bool {
    (('a' as u8) <= b && b <= ('z' as u8))
        || (('A' as u8) <= b && b <= ('Z' as u8))
        || (('0' as u8) <= b && b <= ('9' as u8))
        || b == ('_' as u8)
}

/// ASCII whitespace: space, tab, line feed, carriage return, form feed,
/// vertical tab.
pub open spec fn is_space_byte(b: u8) -> bool {
    b == 32 || b == 9 || b == 10 || b == 13 || b == 12 || b == 11
}

pub fn is_word_byte_exec(b: u8) -> (r: bool)
    ensures
        r == is_word_byte(b),
{
    (('a' as u8) <= b && b <= ('z' as u8))
        || (('A' as u8) <= b && b <= ('Z' as u8))
        || (('0' as u8) <= b && b <= ('9' as u8))
        || b == ('_' as u8)
}

pub fn is_space_byte_exec(b: u8) -> (r: bool)
    ensures
        r == is_space_byte(b),
{
    b == 32 || b == 9 || b == 10 || b == 13 || b == 12 || b == 11
}

/// The shape of a detection rule's matcher.
#[derive(Clone, Copy, PartialEq, Eq, Structural, Debug)]
pub enum PatternKind {
    /// The needle itself occurs in the text.
    Literal,
    /// `<` + needle occurs, with a word boundary after the needle.
    TagOpen,
    /// The needle occurs, followed by optional whitespace and `(`.
    CallParen,
    /// The needle occurs, followed by optional whitespace and `=`.
    AssignEq,
    /// The needle occurs, followed by optional whitespace and `:`.
    ColonAfter,
    /// `on`, one or more word characters, optional whitespace, `=`.
    EventHandler,
}

/// The identity of each detection rule.
#[derive(Clone, Copy, PartialEq, Eq, Structural, Debug)]
pub enum RuleId {
    ScriptTag,
    JsUrl,
    EventHandlerAttr,
    IframeTag,
    ObjectTag,
    EmbedTag,
    AppletTag,
    EvalCall,
    FunctionCall,
    SetTimeoutCall,
    SetIntervalCall,
    InnerHtmlAssign,
    DocumentWrite,
    WindowLocation,
    CssExpression,
    CssBehavior,
}

/// The matcher shape of each rule.
pub open spec fn kind_of(id: RuleId) -> PatternKind {
    match id {
        RuleId::ScriptTag => PatternKind::TagOpen,
        RuleId::JsUrl => PatternKind::Literal,
        RuleId::EventHandlerAttr => PatternKind::EventHandler,
        RuleId::IframeTag => PatternKind::TagOpen,
        RuleId::ObjectTag => PatternKind::TagOpen,
        RuleId::EmbedTag => PatternKind::TagOpen,
        RuleId::AppletTag => PatternKind::TagOpen,
        RuleId::EvalCall => PatternKind::CallParen,
        RuleId::FunctionCall => PatternKind::CallParen,
        RuleId::SetTimeoutCall => PatternKind::CallParen,
        RuleId::SetIntervalCall => PatternKind::CallParen,
        RuleId::InnerHtmlAssign => PatternKind::AssignEq,
        RuleId::DocumentWrite => PatternKind::Literal,
        RuleId::WindowLocation => PatternKind::Literal,
        RuleId::CssExpression => PatternKind::CallParen,
        RuleId::CssBehavior => PatternKind::ColonAfter,
    }
}

/// The needle bytes of each rule.
pub open spec fn needle_of(id: RuleId) -> Seq<u8> {
    match id {
        RuleId::ScriptTag => seq![
            's' as u8, 'c' as u8, 'r' as u8, 'i' as u8, 'p' as u8, 't' as u8,
        ],
        RuleId::JsUrl => seq![
            'j' as u8, 'a' as u8, 'v' as u8, 'a' as u8, 's' as u8, 'c' as u8, 'r' as u8,
            'i' as u8, 'p' as u8, 't' as u8, ':' as u8,
        ],
        RuleId::EventHandlerAttr => seq!['o' as u8, 'n' as u8],
        RuleId::IframeTag => seq![
            'i' as u8, 'f' as u8, 'r' as u8, 'a' as u8, 'm' as u8, 'e' as u8,
        ],
        RuleId::ObjectTag => seq![
            'o' as u8, 'b' as u8, 'j' as u8, 'e' as u8, 'c' as u8, 't' as u8,
        ],
        RuleId::EmbedTag => seq!['e' as u8, 'm' as u8, 'b' as u8, 'e' as u8, 'd' as u8],
        RuleId::AppletTag => seq![
            'a' as u8, 'p' as u8, 'p' as u8, 'l' as u8, 'e' as u8, 't' as u8,
        ],
        RuleId::EvalCall => seq!['e' as u8, 'v' as u8, 'a' as u8, 'l' as u8],
        RuleId::FunctionCall => seq![
            'F' as u8, 'u' as u8, 'n' as u8, 'c' as u8, 't' as u8, 'i' as u8, 'o' as u8,
            'n' as u8,
        ],
        RuleId::SetTimeoutCall => seq![
            's' as u8, 'e' as u8, 't' as u8, 'T' as u8, 'i' as u8, 'm' as u8, 'e' as u8,
            'o' as u8, 'u' as u8, 't' as u8,
        ],
        RuleId::SetIntervalCall => seq![
            's' as u8, 'e' as u8, 't' as u8, 'I' as u8, 'n' as u8, 't' as u8, 'e' as u8,
            'r' as u8, 'v' as u8, 'a' as u8, 'l' as u8,
        ],
        RuleId::InnerHtmlAssign => seq![
            '.' as u8, 'i' as u8, 'n' as u8, 'n' as u8, 'e' as u8, 'r' as u8, 'H' as u8,
            'T' as u8, 'M' as u8, 'L' as u8,
        ],
        RuleId::DocumentWrite => seq![
            'd' as u8, 'o' as u8, 'c' as u8, 'u' as u8, 'm' as u8, 'e' as u8, 'n' as u8,
            't' as u8, '.' as u8, 'w' as u8, 'r' as u8, 'i' as u8, 't' as u8, 'e' as u8,
        ],
        RuleId::WindowLocation => seq![
            'w' as u8, 'i' as u8, 'n' as u8, 'd' as u8, 'o' as u8, 'w' as u8, '.' as u8,
            'l' as u8, 'o' as u8, 'c' as u8, 'a' as u8, 't' as u8, 'i' as u8, 'o' as u8,
            'n' as u8,
        ],
        RuleId::CssExpression => seq![
            'e' as u8, 'x' as u8, 'p' as u8, 'r' as u8, 'e' as u8, 's' as u8, 's' as u8,
            'i' as u8, 'o' as u8, 'n' as u8,
        ],
        RuleId::CssBehavior => seq![
            'b' as u8, 'e' as u8, 'h' as u8, 'a' as u8, 'v' as u8, 'i' as u8, 'o' as u8,
            'r' as u8,
        ],
    }
}

/// The human-readable description of each rule.
pub open spec fn description_of(id: RuleId) -> Seq<char> {
    match id {
        RuleId::ScriptTag => "script element"@,
        RuleId::JsUrl => "javascript: url"@,
        RuleId::EventHandlerAttr => "event handler attribute"@,
        RuleId::IframeTag => "iframe element"@,
        RuleId::ObjectTag => "object element"@,
        RuleId::EmbedTag => "embed element"@,
        RuleId::AppletTag => "applet element"@,
        RuleId::EvalCall => "eval call"@,
        RuleId::FunctionCall => "Function constructor call"@,
        RuleId::SetTimeoutCall => "setTimeout call"@,
        RuleId::SetIntervalCall => "setInterval call"@,
        RuleId::InnerHtmlAssign => "innerHTML assignment"@,
        RuleId::DocumentWrite => "document.write call"@,
        RuleId::WindowLocation => "window.location access"@,
        RuleId::CssExpression => "css expression call"@,
        RuleId::CssBehavior => "css behavior property"@,
    }
}

/// The needle occurs verbatim at position `i`.
pub open spec fn literal_at(t: Seq<u8>, i: int, n: Seq<u8>) -> bool {
    0 <= i && i + n.len() <= t.len() && t.subrange(i, i + n.len()) == n
}

/// Every byte in `[a, b)` is whitespace.
pub open spec fn ws_run(t: Seq<u8>, a: int, b: int) -> bool {
    0 <= a <= b <= t.len() && forall|k: int| a <= k < b ==> is_space_byte(#[trigger] t[k])
}

/// Every byte in `[a, b)` is a word character.
pub open spec fn word_run(t: Seq<u8>, a: int, b: int) -> bool {
    0 <= a <= b <= t.len() && forall|k: int| a <= k < b ==> is_word_byte(#[trigger] t[k])
}

/// Starting at `a`, a run of whitespace ends at `j`, where byte `target`
/// stands.
pub open spec fn ws_then(t: Seq<u8>, a: int, j: int, target: u8) -> bool {
    a <= j < t.len() && ws_run(t, a, j) && t[j] == target
}

/// Somewhere at or after `a`, after whitespace only, stands `target`.
pub open spec fn after_ws(t: Seq<u8>, a: int, target: u8) -> bool {
    exists|j: int| ws_then(t, a, j, target)
}

/// An `on<word>+ <ws>* =` occurrence at `i`, with the word run ending at `j`
/// and the `=` at `k`.
pub open spec fn handler_wit(t: Seq<u8>, i: int, j: int, k: int) -> bool {
    i + 2 < j <= k < t.len() && word_run(t, i + 2, j) && ws_run(t, j, k) && t[k] == ('=' as u8)
}

/// A match of a rule with shape `kind` and needle `n` at position `i` of `t`.
pub open spec fn match_at(t: Seq<u8>, i: int, kind: PatternKind, n: Seq<u8>) -> bool {
    0 <= i < t.len() && match kind {
        PatternKind::Literal => literal_at(t, i, n),
        PatternKind::TagOpen => t[i] == ('<' as u8) && literal_at(t, i + 1, n) && (i + 1
            + n.len() == t.len() || !is_word_byte(t[i + 1 + n.len()])),
        PatternKind::CallParen => literal_at(t, i, n) && after_ws(t, i + n.len(), '(' as u8),
        PatternKind::AssignEq => literal_at(t, i, n) && after_ws(t, i + n.len(), '=' as u8),
        PatternKind::ColonAfter => literal_at(t, i, n) && after_ws(t, i + n.len(), ':' as u8),
        PatternKind::EventHandler => i + 1 < t.len() && t[i] == ('o' as u8) && t[i + 1] == (
        'n' as u8) && exists|j: int, k: int| handler_wit(t, i, j, k),
    }
}

/// The rule with identity `id` matches somewhere in `t`.
pub open spec fn rule_matches(id: RuleId, t: Seq<u8>) -> bool {
    exists|i: int| match_at(t, i, kind_of(id), needle_of(id))
}

/// Pushes the bytes of an ASCII literal onto `v`.
pub(crate) fn push_ascii(v: &mut Vec<u8>, s: &str)
    requires
        s.is_ascii(),
    ensures
        final(v)@ == old(v)@ + Seq::new(s@.len(), |i: int| s@[i] as u8),
{
    let b = s.as_bytes();
    let mut i: usize = 0;
    proof {
        vstd::string::is_ascii_spec_bytes(s);
    }
    while i < b.len()
        invariant
            b@ == Seq::new(s@.len(), |i: int| s@[i] as u8),
            i <= b@.len(),
            v@ == old(v)@ + b@.take(i as int),
        decreases b@.len() - i,
    {
        let x = b[i];
        v.push(x);
        proof {
            assert(b@.take(i + 1 as int) =~= b@.take(i as int).push(b@[i as int]));
        }
        i = i + 1;
    }
    proof {
        assert(b@.take(b@.len() as int) =~= b@);
    }
}

/// Builds the needle bytes of a rule.
fn needle_for(id: RuleId) -> (v: Vec<u8>)
    ensures
        v@ == needle_of(id),
{
    proof {
        reveal_strlit("script");
        reveal_strlit("javascript:");
        reveal_strlit("on");
        reveal_strlit("iframe");
        reveal_strlit("object");
        reveal_strlit("embed");
        reveal_strlit("applet");
        reveal_strlit("eval");
        reveal_strlit("Function");
        reveal_strlit("setTimeout");
        reveal_strlit("setInterval");
        reveal_strlit(".innerHTML");
        reveal_strlit("document.write");
        reveal_strlit("window.location");
        reveal_strlit("expression");
        reveal_strlit("behavior");
    }
    let mut v: Vec<u8> = Vec::new();
    match id {
        RuleId::ScriptTag => push_ascii(&mut v, "script"),
        RuleId::JsUrl => push_ascii(&mut v, "javascript:"),
        RuleId::EventHandlerAttr => push_ascii(&mut v, "on"),
        RuleId::IframeTag => push_ascii(&mut v, "iframe"),
        RuleId::ObjectTag => push_ascii(&mut v, "object"),
        RuleId::EmbedTag => push_ascii(&mut v, "embed"),
        RuleId::AppletTag => push_ascii(&mut v, "applet"),
        RuleId::EvalCall => push_ascii(&mut v, "eval"),
        RuleId::FunctionCall => push_ascii(&mut v, "Function"),
        RuleId::SetTimeoutCall => push_ascii(&mut v, "setTimeout"),
        RuleId::SetIntervalCall => push_ascii(&mut v, "setInterval"),
        RuleId::InnerHtmlAssign => push_ascii(&mut v, ".innerHTML"),
        RuleId::DocumentWrite => push_ascii(&mut v, "document.write"),
        RuleId::WindowLocation => push_ascii(&mut v, "window.location"),
        RuleId::CssExpression => push_ascii(&mut v, "expression"),
        RuleId::CssBehavior => push_ascii(&mut v, "behavior"),
    }
    proof {
        assert(v@ =~= needle_of(id));
    }
    v
}

/// The matcher shape of a rule, as a run-time value.
fn kind_for(id: RuleId) -> (k: PatternKind)
    ensures
        k == kind_of(id),
{
    match id {
        RuleId::ScriptTag => PatternKind::TagOpen,
        RuleId::JsUrl => PatternKind::Literal,
        RuleId::EventHandlerAttr => PatternKind::EventHandler,
        RuleId::IframeTag => PatternKind::TagOpen,
        RuleId::ObjectTag => PatternKind::TagOpen,
        RuleId::EmbedTag => PatternKind::TagOpen,
        RuleId::AppletTag => PatternKind::TagOpen,
        RuleId::EvalCall => PatternKind::CallParen,
        RuleId::FunctionCall => PatternKind::CallParen,
        RuleId::SetTimeoutCall => PatternKind::CallParen,
        RuleId::SetIntervalCall => PatternKind::CallParen,
        RuleId::InnerHtmlAssign => PatternKind::AssignEq,
        RuleId::DocumentWrite => PatternKind::Literal,
        RuleId::WindowLocation => PatternKind::Literal,
        RuleId::CssExpression => PatternKind::CallParen,
        RuleId::CssBehavior => PatternKind::ColonAfter,
    }
}

/// The description of a rule, as an owned string.
pub fn description_for(id: RuleId) -> (s: String)
    ensures
        s@ == description_of(id),
{
    match id {
        RuleId::ScriptTag => "script element".to_owned(),
        RuleId::JsUrl => "javascript: url".to_owned(),
        RuleId::EventHandlerAttr => "event handler attribute".to_owned(),
        RuleId::IframeTag => "iframe element".to_owned(),
        RuleId::ObjectTag => "object element".to_owned(),
        RuleId::EmbedTag => "embed element".to_owned(),
        RuleId::AppletTag => "applet element".to_owned(),
        RuleId::EvalCall => "eval call".to_owned(),
        RuleId::FunctionCall => "Function constructor call".to_owned(),
        RuleId::SetTimeoutCall => "setTimeout call".to_owned(),
        RuleId::SetIntervalCall => "setInterval call".to_owned(),
        RuleId::InnerHtmlAssign => "innerHTML assignment".to_owned(),
        RuleId::DocumentWrite => "document.write call".to_owned(),
        RuleId::WindowLocation => "window.location access".to_owned(),
        RuleId::CssExpression => "css expression call".to_owned(),
        RuleId::CssBehavior => "css behavior property".to_owned(),
    }
}

/// First index at or after `a` whose byte is not whitespace (or the length).
pub(crate) fn scan_ws(t: &[u8], a: usize) -> (j: usize)
    requires
        a <= t@.len(),
    ensures
        a <= j <= t@.len(),
        ws_run(t@, a as int, j as int),
        j < t@.len() ==> !is_space_byte(t@[j as int]),
{
    let mut j = a;
    while j < t.len() && is_space_byte_exec(t[j])
        invariant
            a <= j <= t@.len(),
            ws_run(t@, a as int, j as int),
        decreases t@.len() - j,
    {
        j = j + 1;
    }
    j
}

/// First index at or after `a` whose byte is not a word character (or the
/// length).
pub(crate) fn scan_word(t: &[u8], a: usize) -> (j: usize)
    requires
        a <= t@.len(),
    ensures
        a <= j <= t@.len(),
        word_run(t@, a as int, j as int),
        j < t@.len() ==> !is_word_byte(t@[j as int]),
{
    let mut j = a;
    while j < t.len() && is_word_byte_exec(t[j])
        invariant
            a <= j <= t@.len(),
            word_run(t@, a as int, j as int),
        decreases t@.len() - j,
    {
        j = j + 1;
    }
    j
}

/// Does the needle occur verbatim at position `i`?
pub(crate) fn literal_eq_at(t: &[u8], i: usize, n: &[u8]) -> (r: bool)
    requires
        i <= t@.len(),
    ensures
        r == literal_at(t@, i as int, n@),
{
    if t.len() - i < n.len() {
        return false;
    }
    let mut k: usize = 0;
    while k < n.len()
        invariant
            i + n@.len() <= t@.len(),
            t@.len() <= usize::MAX,
            k <= n@.len(),
            forall|m: int| 0 <= m < k ==> t@[i + m] == n@[m],
        decreases n@.len() - k,
    {
        if t[i + k] != n[k] {
            proof {
                assert(t@.subrange(i as int, i + n@.len())[k as int] != n@[k as int]);
            }
            return false;
        }
        k = k + 1;
    }
    proof {
        assert(t@.subrange(i as int, i + n@.len()) =~= n@);
    }
    true
}

/// Does a match of shape `kind` with needle `n` begin at position `i`?
fn check_at(t: &[u8], i: usize, kind: PatternKind, n: &[u8]) -> (r: bool)
    requires
        i < t@.len(),
    ensures
        r == match_at(t@, i as int, kind, n@),
{
    match kind {
        PatternKind::Literal => literal_eq_at(t, i, n),
        PatternKind::TagOpen => {
            if t[i] != ('<' as u8) {
                return false;
            }
            if !literal_eq_at(t, i + 1, n) {
                return false;
            }
            let tlen = t.len();
            proof {
                assert(i + 1 + n@.len() <= tlen);
            }
            let end = i + 1 + n.len();
            end == t.len() || !is_word_byte_exec(t[end])
        },
        PatternKind::CallParen => check_tail(t, i, n, '(' as u8, kind),
        PatternKind::AssignEq => check_tail(t, i, n, '=' as u8, kind),
        PatternKind::ColonAfter => check_tail(t, i, n, ':' as u8, kind),
        PatternKind::EventHandler => {
            if t[i] != ('o' as u8) {
                return false;
            }
            if i + 1 >= t.len() || t[i + 1] != ('n' as u8) {
                return false;
            }
            let j = scan_word(t, i + 2);
            if j == i + 2 {
                proof {
                    if exists|j2: int, k2: int| handler_wit(t@, i as int, j2, k2) {
                        let (j2, k2) = choose|j2: int, k2: int| handler_wit(t@, i as int, j2, k2);
                        assert(is_word_byte(t@[i + 2]));
                        assert(false);
                    }
                }
                return false;
            }
            let k = scan_ws(t, j);
            if k < t.len() && t[k] == ('=' as u8) {
                proof {
                    assert(handler_wit(t@, i as int, j as int, k as int));
                }
                true
            } else {
                proof {
                    if exists|j2: int, k2: int| handler_wit(t@, i as int, j2, k2) {
                        let (j2, k2) = choose|j2: int, k2: int| handler_wit(t@, i as int, j2, k2);
                        if j2 < j {
                            assert(is_word_byte(t@[j2]));
                            if j2 < k2 {
                                assert(is_space_byte(t@[j2]));
                            }
                            assert(false);
                        }
                        if j2 > j {
                            assert(is_word_byte(t@[j as int]));
                            assert(false);
                        }
                        if k2 < k {
                            assert(is_space_byte(t@[k2]));
                            assert(false);
                        }
                        if k2 > k {
                            assert(is_space_byte(t@[k as int]));
                            assert(false);
                        }
                        assert(false);
                    }
                }
                false
            }
        },
    }
}

/// Shared tail check for the needle + optional whitespace + target shapes.
fn check_tail(t: &[u8], i: usize, n: &[u8], target: u8, kind: PatternKind) -> (r: bool)
    requires
        i < t@.len(),
        kind == PatternKind::CallParen ==> target == ('(' as u8),
        kind == PatternKind::AssignEq ==> target == ('=' as u8),
        kind == PatternKind::ColonAfter ==> target == (':' as u8),
        kind == PatternKind::CallParen || kind == PatternKind::AssignEq || kind
            == PatternKind::ColonAfter,
    ensures
        r == match_at(t@, i as int, kind, n@),
{
    if !literal_eq_at(t, i, n) {
        return false;
    }
    let tlen = t.len();
    proof {
        assert(i + n@.len() <= tlen);
    }
    let start = i + n.len();
    let j = scan_ws(t, start);
    if j < t.len() && t[j] == target {
        proof {
            assert(ws_then(t@, start as int, j as int, target));
        }
        true
    } else {
        proof {
            assert(!is_space_byte(target)) by {
                assert(target == 40 || target == 61 || target == 58);
            }
            if exists|j2: int| ws_then(t@, start as int, j2, target) {
                let j2 = choose|j2: int| ws_then(t@, start as int, j2, target);
                if j2 < j {
                    assert(is_space_byte(t@[j2]));
                    assert(false);
                }
                if j2 > j {
                    assert(is_space_byte(t@[j as int]));
                    assert(false);
                }
                assert(false);
            }
        }
        false
    }
}

/// Scans the whole text for a match of the rule `id`.
pub fn check_rule(id: RuleId, t: &[u8]) -> (r: bool)
    ensures
        r == rule_matches(id, t@),
{
    let n = needle_for(id);
    let kind = kind_for(id);
    let mut i: usize = 0;
    while i < t.len()
        invariant
            i <= t@.len(),
            n@ == needle_of(id),
            kind == kind_of(id),
            forall|i2: int| 0 <= i2 < i ==> !match_at(t@, i2, kind_of(id), needle_of(id)),
        decreases t@.len() - i,
    {
        if check_at(t, i, kind, n.as_slice()) {
            return true;
        }
        i = i + 1;
    }
    proof {
        if rule_matches(id, t@) {
            let w = choose|w: int| match_at(t@, w, kind_of(id), needle_of(id));
            assert(false);
        }
    }
    false
}

/// One detection rule: an identity (which fixes the matcher) and a
/// description for reports.
pub struct DetectionRule {
    /// Which matcher this rule applies.
    pub id: RuleId,
    /// Human-readable description, used in violation reports.
    pub description: String,
}

/// The order of the rules applied to HTML files.
pub open spec fn catalog_ids() -> Seq<RuleId> {
    seq![
        RuleId::ScriptTag,
        RuleId::JsUrl,
        RuleId::EventHandlerAttr,
        RuleId::IframeTag,
        RuleId::ObjectTag,
        RuleId::EmbedTag,
        RuleId::AppletTag,
        RuleId::EvalCall,
        RuleId::FunctionCall,
        RuleId::SetTimeoutCall,
        RuleId::SetIntervalCall,
        RuleId::InnerHtmlAssign,
        RuleId::DocumentWrite,
        RuleId::WindowLocation,
    ]
}

/// Constructs the fixed, ordered catalog of HTML detection rules.
pub fn pattern_catalog() -> (rules: Vec<DetectionRule>)
    ensures
        rules@.len() == catalog_ids().len(),
        forall|i: int|
            0 <= i < rules@.len() ==> (#[trigger] rules@[i]).id == catalog_ids()[i]
                && rules@[i].description@ == description_of(catalog_ids()[i]),
{
    let ids: [RuleId; 14] = [
        RuleId::ScriptTag,
        RuleId::JsUrl,
        RuleId::EventHandlerAttr,
        RuleId::IframeTag,
        RuleId::ObjectTag,
        RuleId::EmbedTag,
        RuleId::AppletTag,
        RuleId::EvalCall,
        RuleId::FunctionCall,
        RuleId::SetTimeoutCall,
        RuleId::SetIntervalCall,
        RuleId::InnerHtmlAssign,
        RuleId::DocumentWrite,
        RuleId::WindowLocation,
    ];
    let mut rules: Vec<DetectionRule> = Vec::new();
    let mut i: usize = 0;
    while i < 14
        invariant
            i <= 14,
            ids@ =~= catalog_ids(),
            rules@.len() == i,
            forall|m: int|
                0 <= m < i ==> (#[trigger] rules@[m]).id == catalog_ids()[m]
                    && rules@[m].description@ == description_of(catalog_ids()[m]),
        decreases 14 - i,
    {
        let id = ids[i];
        let description = description_for(id);
        rules.push(DetectionRule { id, description });
        i = i + 1;
    }
    rules
}

} // verus!
