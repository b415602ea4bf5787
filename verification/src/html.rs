//! A small HTML tokenizer for the sanitizer.
//!
//! The input bytes are split into text bytes, stray `<` characters, opening
//! tags (name plus attributes) and closing tags.  The tokenizer is a single
//! byte-at-a-time state machine; its whole behaviour is the spec-level
//! machine [`lex_step`], and the executable lexer is proved to follow it
//! byte for byte.  Malformed trailing input (an unterminated tag) is
//! dropped, which only ever shrinks the output.

use vstd::prelude::*;
use crate::patterns::{is_space_byte, is_word_byte};

verus! {

/// An attribute, at the spec level: a (lowercased) name and an optional raw
/// value.
#[verifier::ext_equal]
pub struct AttrT {
    pub name: Seq<u8>,
    pub value: Option<Seq<u8>>,
}

/// A token, at the spec level.
#[verifier::ext_equal]
pub enum Tok {
    /// One byte of ordinary text (never `<`).
    Text(u8),
    /// A `<` that stood in text position.
    Lt,
    /// An opening tag with its (lowercased) name and attributes.
    Open { name: Seq<u8>, attrs: Seq<AttrT> },
    /// A closing tag with its (lowercased) name.
    Close { name: Seq<u8> },
}

/// An attribute as executable data.
pub struct HtmlAttr {
    /// Lowercased attribute name.
    pub name: Vec<u8>,
    /// Raw attribute value, if one was written.
    pub value: Option<Vec<u8>>,
}

/// A token as executable data.
pub enum HtmlToken {
    /// One byte of ordinary text (never `<`).
    Text(u8),
    /// A `<` that stood in text position.
    Lt,
    /// An opening tag with its (lowercased) name and attributes.
    Open { name: Vec<u8>, attrs: Vec<HtmlAttr> },
    /// A closing tag with its (lowercased) name.
    Close { name: Vec<u8> },
}

pub open spec fn attr_view(a: HtmlAttr) -> AttrT {
    AttrT {
        name: a.name@,
        value: match a.value {
            Option::Some(v) => Option::Some(v@),
            Option::None => Option::None,
        },
    }
}

pub open spec fn attrs_view(s: Seq<HtmlAttr>) -> Seq<AttrT> {
    s.map_values(|a: HtmlAttr| attr_view(a))
}

pub open spec fn tok_view(t: HtmlToken) -> Tok {
    match t {
        HtmlToken::Text(b) => Tok::Text(b),
        HtmlToken::Lt => Tok::Lt,
        HtmlToken::Open { name, attrs } => Tok::Open { name: name@, attrs: attrs_view(attrs@) },
        HtmlToken::Close { name } => Tok::Close { name: name@ },
    }
}

pub open spec fn toks_view(s: Seq<HtmlToken>) -> Seq<Tok> {
    s.map_values(|t: HtmlToken| tok_view(t))
}

/// An ASCII letter.
pub open spec fn is_alpha(b: u8) -> bool {
    (('a' as u8) <= b && b <= ('z' as u8)) || (('A' as u8) <= b && b <= ('Z' as u8))
}

/// An ASCII letter or digit.
pub open spec fn is_alnum(b: u8) -> bool {
    is_alpha(b) || (('0' as u8) <= b && b <= ('9' as u8))
}

/// A byte accepted in an attribute name.
pub open spec fn is_attr_name_byte(b: u8) -> bool {
    is_word_byte(b) || b == ('-' as u8) || b == (':' as u8)
}

/// ASCII lowercasing of one byte.
pub open spec fn to_lower(b: u8) -> u8 {
    if ('A' as u8) <= b && b <= ('Z' as u8) {
        (b + 32) as u8
    } else {
        b
    }
}

pub fn is_alpha_exec(b: u8) -> (r: bool)
    ensures
        r == is_alpha(b),
{
    (('a' as u8) <= b && b <= ('z' as u8)) || (('A' as u8) <= b && b <= ('Z' as u8))
}

pub fn is_alnum_exec(b: u8) -> (r: bool)
    ensures
        r == is_alnum(b),
{
    is_alpha_exec(b) || (('0' as u8) <= b && b <= ('9' as u8))
}

pub fn is_attr_name_byte_exec(b: u8) -> (r: bool)
    ensures
        r == is_attr_name_byte(b),
{
    crate::patterns::is_word_byte_exec(b) || b == ('-' as u8) || b == (':' as u8)
}

pub fn to_lower_exec(b: u8) -> (r: u8)
    ensures
        r == to_lower(b),
{
    if ('A' as u8) <= b && b <= ('Z' as u8) {
        b + 32
    } else {
        b
    }
}

/// The lexer's mode.
#[derive(Clone, Copy, PartialEq, Eq, Structural, Debug)]
pub enum LexMode {
    /// Outside any tag.
    Data,
    /// A `<` has been read.
    TagStart,
    /// A `</` has been read.
    CloseStart,
    /// Reading a tag name.
    TagName,
    /// Inside a tag, between attributes.
    InTag,
    /// Reading an attribute name.
    AttrName,
    /// After an attribute name, before `=` or the next attribute.
    AfterName,
    /// After `=`, before the value.
    BeforeValue,
    /// Inside a double-quoted value.
    DqValue,
    /// Inside a single-quoted value.
    SqValue,
    /// Inside an unquoted value.
    UqValue,
    /// Skipping junk inside a tag, to whitespace or `>`.
    AttrJunk,
    /// Skipping a stray quoted region inside a tag, to the given quote.
    JunkQuoted(u8),
    /// Skipping a bogus markup declaration, to `>`.
    JunkTag,
}

/// The lexer's full state, at the spec level.
#[verifier::ext_equal]
pub struct LexSt {
    pub mode: LexMode,
    pub closing: bool,
    pub name: Seq<u8>,
    pub attrs: Seq<AttrT>,
    pub aname: Seq<u8>,
    pub aval: Seq<u8>,
    pub out: Seq<Tok>,
}

/// The lexer's initial state.
pub open spec fn lex_init() -> LexSt {
    LexSt {
        mode: LexMode::Data,
        closing: false,
        name: Seq::empty(),
        attrs: Seq::empty(),
        aname: Seq::empty(),
        aval: Seq::empty(),
        out: Seq::empty(),
    }
}

/// Appends the pending tag to the output and clears the tag registers.
pub open spec fn lex_emit_tag(st: LexSt) -> LexSt {
    LexSt {
        mode: LexMode::Data,
        closing: st.closing,
        name: Seq::empty(),
        attrs: Seq::empty(),
        aname: st.aname,
        aval: st.aval,
        out: st.out.push(
            if st.closing {
                Tok::Close { name: st.name }
            } else {
                Tok::Open { name: st.name, attrs: st.attrs }
            },
        ),
    }
}

/// Appends the pending attribute (with the given value) and clears the
/// attribute registers.
pub open spec fn lex_push_attr(st: LexSt, value: Option<Seq<u8>>, mode: LexMode) -> LexSt {
    LexSt {
        mode,
        closing: st.closing,
        name: st.name,
        attrs: st.attrs.push(AttrT { name: st.aname, value }),
        aname: Seq::empty(),
        aval: Seq::empty(),
        out: st.out,
    }
}

/// One step of the lexer on byte `b`.
pub open spec fn lex_step(st: LexSt, b: u8) -> LexSt {
    match st.mode {
        LexMode::Data => if b == ('<' as u8) {
            LexSt { mode: LexMode::TagStart, ..st }
        } else {
            LexSt { out: st.out.push(Tok::Text(b)), ..st }
        },
        LexMode::TagStart => if is_alpha(b) {
            LexSt {
                mode: LexMode::TagName,
                closing: false,
                name: seq![to_lower(b)],
                attrs: Seq::empty(),
                ..st
            }
        } else if b == ('/' as u8) {
            LexSt { mode: LexMode::CloseStart, ..st }
        } else if b == ('<' as u8) {
            LexSt { out: st.out.push(Tok::Lt), ..st }
        } else if b == ('!' as u8) || b == ('?' as u8) {
            LexSt { mode: LexMode::JunkTag, ..st }
        } else {
            LexSt { mode: LexMode::Data, out: st.out.push(Tok::Lt).push(Tok::Text(b)), ..st }
        },
        LexMode::CloseStart => if is_alpha(b) {
            LexSt {
                mode: LexMode::TagName,
                closing: true,
                name: seq![to_lower(b)],
                attrs: Seq::empty(),
                ..st
            }
        } else if b == ('>' as u8) {
            LexSt { mode: LexMode::Data, ..st }
        } else {
            LexSt { mode: LexMode::JunkTag, ..st }
        },
        LexMode::JunkTag => if b == ('>' as u8) {
            LexSt { mode: LexMode::Data, ..st }
        } else {
            st
        },
        LexMode::TagName => if is_alnum(b) {
            LexSt { name: st.name.push(to_lower(b)), ..st }
        } else if b == ('>' as u8) {
            lex_emit_tag(st)
        } else if is_space_byte(b) || b == ('/' as u8) {
            LexSt { mode: LexMode::InTag, ..st }
        } else {
            LexSt { mode: LexMode::AttrJunk, ..st }
        },
        LexMode::InTag => if is_space_byte(b) || b == ('/' as u8) {
            st
        } else if b == ('>' as u8) {
            lex_emit_tag(st)
        } else if is_alpha(b) {
            LexSt { mode: LexMode::AttrName, aname: seq![to_lower(b)], ..st }
        } else if b == (34 as u8) || b == (39 as u8) {
            LexSt { mode: LexMode::JunkQuoted(b), ..st }
        } else {
            LexSt { mode: LexMode::AttrJunk, ..st }
        },
        LexMode::AttrName => if is_attr_name_byte(b) {
            LexSt { aname: st.aname.push(to_lower(b)), ..st }
        } else if b == ('=' as u8) {
            LexSt { mode: LexMode::BeforeValue, ..st }
        } else if is_space_byte(b) {
            LexSt { mode: LexMode::AfterName, ..st }
        } else if b == ('>' as u8) {
            lex_emit_tag(lex_push_attr(st, Option::None, LexMode::InTag))
        } else if b == ('/' as u8) {
            lex_push_attr(st, Option::None, LexMode::InTag)
        } else {
            lex_push_attr(st, Option::None, LexMode::AttrJunk)
        },
        LexMode::AfterName => if is_space_byte(b) {
            st
        } else if b == ('=' as u8) {
            LexSt { mode: LexMode::BeforeValue, ..st }
        } else if b == ('>' as u8) {
            lex_emit_tag(lex_push_attr(st, Option::None, LexMode::InTag))
        } else if is_alpha(b) {
            LexSt {
                mode: LexMode::AttrName,
                aname: seq![to_lower(b)],
                ..lex_push_attr(st, Option::None, LexMode::AttrName)
            }
        } else if b == ('/' as u8) {
            lex_push_attr(st, Option::None, LexMode::InTag)
        } else {
            lex_push_attr(st, Option::None, LexMode::AttrJunk)
        },
        LexMode::BeforeValue => if is_space_byte(b) {
            st
        } else if b == (34 as u8) {
            LexSt { mode: LexMode::DqValue, aval: Seq::empty(), ..st }
        } else if b == (39 as u8) {
            LexSt { mode: LexMode::SqValue, aval: Seq::empty(), ..st }
        } else if b == ('>' as u8) {
            lex_emit_tag(lex_push_attr(st, Option::Some(Seq::empty()), LexMode::InTag))
        } else {
            LexSt { mode: LexMode::UqValue, aval: seq![b], ..st }
        },
        LexMode::DqValue => if b == (34 as u8) {
            lex_push_attr(st, Option::Some(st.aval), LexMode::InTag)
        } else {
            LexSt { aval: st.aval.push(b), ..st }
        },
        LexMode::SqValue => if b == (39 as u8) {
            lex_push_attr(st, Option::Some(st.aval), LexMode::InTag)
        } else {
            LexSt { aval: st.aval.push(b), ..st }
        },
        LexMode::UqValue => if is_space_byte(b) {
            lex_push_attr(st, Option::Some(st.aval), LexMode::InTag)
        } else if b == ('>' as u8) {
            lex_emit_tag(lex_push_attr(st, Option::Some(st.aval), LexMode::InTag))
        } else {
            LexSt { aval: st.aval.push(b), ..st }
        },
        LexMode::AttrJunk => if is_space_byte(b) {
            LexSt { mode: LexMode::InTag, ..st }
        } else if b == ('>' as u8) {
            lex_emit_tag(st)
        } else {
            st
        },
        LexMode::JunkQuoted(q) => if b == q {
            LexSt { mode: LexMode::InTag, ..st }
        } else {
            st
        },
    }
}

/// The lexer state after the first `n` bytes of `s`.
pub open spec fn lex_run(s: Seq<u8>, n: int) -> LexSt
    decreases n,
{
    if n <= 0 {
        lex_init()
    } else {
        lex_step(lex_run(s, n - 1), s[n - 1])
    }
}

/// The tokens of the input: a pending lone `<` becomes text, any other
/// unterminated tag is dropped.
pub open spec fn lex_finish(st: LexSt) -> Seq<Tok> {
    if st.mode == LexMode::TagStart {
        st.out.push(Tok::Lt)
    } else {
        st.out
    }
}

/// The token sequence of an input.
pub open spec fn tokenize_spec(s: Seq<u8>) -> Seq<Tok> {
    lex_finish(lex_run(s, s.len() as int))
}

/// The lexer's full state, as executable data.
pub struct Lexer {
    pub mode: LexMode,
    pub closing: bool,
    pub name: Vec<u8>,
    pub attrs: Vec<HtmlAttr>,
    pub aname: Vec<u8>,
    pub aval: Vec<u8>,
    pub out: Vec<HtmlToken>,
}

pub open spec fn lex_view(l: Lexer) -> LexSt {
    LexSt {
        mode: l.mode,
        closing: l.closing,
        name: l.name@,
        attrs: attrs_view(l.attrs@),
        aname: l.aname@,
        aval: l.aval@,
        out: toks_view(l.out@),
    }
}

/// Moves the pending tag registers into a token on `out`.
fn emit_tag_exec(s: &mut Lexer)
    ensures
        lex_view(*final(s)) == lex_emit_tag(lex_view(*old(s))),
{
    let mut nm: Vec<u8> = Vec::new();
    core::mem::swap(&mut nm, &mut s.name);
    let mut ats: Vec<HtmlAttr> = Vec::new();
    core::mem::swap(&mut ats, &mut s.attrs);
    let tok = if s.closing {
        HtmlToken::Close { name: nm }
    } else {
        HtmlToken::Open { name: nm, attrs: ats }
    };
    s.out.push(tok);
    s.mode = LexMode::Data;
    proof {
        assert(toks_view(s.out@) =~~= toks_view(old(s).out@).push(tok_view(tok)));
        assert(lex_view(*s) =~~= lex_emit_tag(lex_view(*old(s))));
    }
}

/// Moves the pending attribute registers into an attribute on `attrs`.
fn push_attr_exec(s: &mut Lexer, has_value: bool, mode: LexMode)
    ensures
        lex_view(*final(s)) == lex_push_attr(
            lex_view(*old(s)),
            if has_value {
                Option::Some(old(s).aval@)
            } else {
                Option::None
            },
            mode,
        ),
{
    let mut nm: Vec<u8> = Vec::new();
    core::mem::swap(&mut nm, &mut s.aname);
    let mut av: Vec<u8> = Vec::new();
    core::mem::swap(&mut av, &mut s.aval);
    let a = HtmlAttr {
        name: nm,
        value: if has_value {
            Option::Some(av)
        } else {
            Option::None
        },
    };
    s.attrs.push(a);
    s.mode = mode;
    proof {
        assert(attrs_view(s.attrs@) =~~= attrs_view(old(s).attrs@).push(attr_view(a)));
        assert(lex_view(*s) =~~= lex_push_attr(
            lex_view(*old(s)),
            if has_value {
                Option::Some(old(s).aval@)
            } else {
                Option::None
            },
            mode,
        ));
    }
}

/// One step of the executable lexer: follows [`lex_step`] exactly.
fn lex_step_exec(s: &mut Lexer, b: u8)
    ensures
        lex_view(*final(s)) == lex_step(lex_view(*old(s)), b),
{
    let ghost st0 = lex_view(*old(s));
    match s.mode {
        LexMode::Data => {
            if b == ('<' as u8) {
                s.mode = LexMode::TagStart;
            } else {
                s.out.push(HtmlToken::Text(b));
                proof {
                    assert(toks_view(s.out@) =~~= st0.out.push(Tok::Text(b)));
                }
            }
        },
        LexMode::TagStart => {
            if is_alpha_exec(b) {
                s.mode = LexMode::TagName;
                s.closing = false;
                s.name.clear();
                s.name.push(to_lower_exec(b));
                s.attrs.clear();
                proof {
                    assert(s.name@ =~~= seq![to_lower(b)]);
                    assert(attrs_view(s.attrs@) =~~= Seq::<AttrT>::empty());
                }
            } else if b == ('/' as u8) {
                s.mode = LexMode::CloseStart;
            } else if b == ('<' as u8) {
                s.out.push(HtmlToken::Lt);
                proof {
                    assert(toks_view(s.out@) =~~= st0.out.push(Tok::Lt));
                }
            } else if b == ('!' as u8) || b == ('?' as u8) {
                s.mode = LexMode::JunkTag;
            } else {
                s.mode = LexMode::Data;
                s.out.push(HtmlToken::Lt);
                s.out.push(HtmlToken::Text(b));
                proof {
                    assert(toks_view(s.out@) =~~= st0.out.push(Tok::Lt).push(Tok::Text(b)));
                }
            }
        },
        LexMode::CloseStart => {
            if is_alpha_exec(b) {
                s.mode = LexMode::TagName;
                s.closing = true;
                s.name.clear();
                s.name.push(to_lower_exec(b));
                s.attrs.clear();
                proof {
                    assert(s.name@ =~~= seq![to_lower(b)]);
                    assert(attrs_view(s.attrs@) =~~= Seq::<AttrT>::empty());
                }
            } else if b == ('>' as u8) {
                s.mode = LexMode::Data;
            } else {
                s.mode = LexMode::JunkTag;
            }
        },
        LexMode::JunkTag => {
            if b == ('>' as u8) {
                s.mode = LexMode::Data;
            }
        },
        LexMode::TagName => {
            if is_alnum_exec(b) {
                s.name.push(to_lower_exec(b));
            } else if b == ('>' as u8) {
                emit_tag_exec(s);
            } else if is_space_byte_local(b) || b == ('/' as u8) {
                s.mode = LexMode::InTag;
            } else {
                s.mode = LexMode::AttrJunk;
            }
        },
        LexMode::InTag => {
            if is_space_byte_local(b) || b == ('/' as u8) {
            } else if b == ('>' as u8) {
                emit_tag_exec(s);
            } else if is_alpha_exec(b) {
                s.mode = LexMode::AttrName;
                s.aname.clear();
                s.aname.push(to_lower_exec(b));
                proof {
                    assert(s.aname@ =~~= seq![to_lower(b)]);
                }
            } else if b == 34 || b == 39 {
                s.mode = LexMode::JunkQuoted(b);
            } else {
                s.mode = LexMode::AttrJunk;
            }
        },
        LexMode::AttrName => {
            if is_attr_name_byte_exec(b) {
                s.aname.push(to_lower_exec(b));
            } else if b == ('=' as u8) {
                s.mode = LexMode::BeforeValue;
            } else if is_space_byte_local(b) {
                s.mode = LexMode::AfterName;
            } else if b == ('>' as u8) {
                push_attr_exec(s, false, LexMode::InTag);
                emit_tag_exec(s);
            } else if b == ('/' as u8) {
                push_attr_exec(s, false, LexMode::InTag);
            } else {
                push_attr_exec(s, false, LexMode::AttrJunk);
            }
        },
        LexMode::AfterName => {
            if is_space_byte_local(b) {
            } else if b == ('=' as u8) {
                s.mode = LexMode::BeforeValue;
            } else if b == ('>' as u8) {
                push_attr_exec(s, false, LexMode::InTag);
                emit_tag_exec(s);
            } else if is_alpha_exec(b) {
                push_attr_exec(s, false, LexMode::AttrName);
                s.aname.push(to_lower_exec(b));
                proof {
                    assert(s.aname@ =~~= seq![to_lower(b)]);
                }
            } else if b == ('/' as u8) {
                push_attr_exec(s, false, LexMode::InTag);
            } else {
                push_attr_exec(s, false, LexMode::AttrJunk);
            }
        },
        LexMode::BeforeValue => {
            if is_space_byte_local(b) {
            } else if b == 34 {
                s.mode = LexMode::DqValue;
                s.aval.clear();
                proof {
                    assert(s.aval@ =~~= Seq::<u8>::empty());
                }
            } else if b == 39 {
                s.mode = LexMode::SqValue;
                s.aval.clear();
                proof {
                    assert(s.aval@ =~~= Seq::<u8>::empty());
                }
            } else if b == ('>' as u8) {
                s.aval.clear();
                push_attr_exec(s, true, LexMode::InTag);
                emit_tag_exec(s);
            } else {
                s.mode = LexMode::UqValue;
                s.aval.clear();
                s.aval.push(b);
                proof {
                    assert(s.aval@ =~~= seq![b]);
                }
            }
        },
        LexMode::DqValue => {
            if b == 34 {
                push_attr_exec(s, true, LexMode::InTag);
            } else {
                s.aval.push(b);
            }
        },
        LexMode::SqValue => {
            if b == 39 {
                push_attr_exec(s, true, LexMode::InTag);
            } else {
                s.aval.push(b);
            }
        },
        LexMode::UqValue => {
            if is_space_byte_local(b) {
                push_attr_exec(s, true, LexMode::InTag);
            } else if b == ('>' as u8) {
                push_attr_exec(s, true, LexMode::InTag);
                emit_tag_exec(s);
            } else {
                s.aval.push(b);
            }
        },
        LexMode::AttrJunk => {
            if is_space_byte_local(b) {
                s.mode = LexMode::InTag;
            } else if b == ('>' as u8) {
                emit_tag_exec(s);
            }
        },
        LexMode::JunkQuoted(q) => {
            if b == q {
                s.mode = LexMode::InTag;
            }
        },
    }
    proof {
        assert(lex_view(*s) =~~= lex_step(st0, b));
    }
}

fn is_space_byte_local(b: u8) -> (r: bool)
    ensures
        r == is_space_byte(b),
{
    crate::patterns::is_space_byte_exec(b)
}

/// Tokenizes the input bytes.
pub fn tokenize(input: &[u8]) -> (out: Vec<HtmlToken>)
    ensures
        toks_view(out@) == tokenize_spec(input@),
{
    let mut s = Lexer {
        mode: LexMode::Data,
        closing: false,
        name: Vec::new(),
        attrs: Vec::new(),
        aname: Vec::new(),
        aval: Vec::new(),
        out: Vec::new(),
    };
    proof {
        assert(lex_view(s) =~~= lex_init());
        assert(lex_view(s) =~~= lex_run(input@, 0));
    }
    let mut i: usize = 0;
    while i < input.len()
        invariant
            i <= input@.len(),
            lex_view(s) == lex_run(input@, i as int),
        decreases input@.len() - i,
    {
        lex_step_exec(&mut s, input[i]);
        i = i + 1;
    }
    if matches!(s.mode, LexMode::TagStart) {
        s.out.push(HtmlToken::Lt);
        proof {
            assert(toks_view(s.out@) =~~= lex_run(input@, input@.len() as int).out.push(Tok::Lt));
        }
    }
    s.out
}

} // verus!
