//! Tokens: the lexical units of an interface definition.

use crate::lexical::{first_token, lemma_first_token_bounds, scan, scan_end, scan_from};
use crate::scanner::next_lexeme;
use crate::truncation::{lemma_first_token_take, lemma_scan_end};
use std::ops::Range;
use vstd::prelude::*;
use vstd::string::StringSliceAdditionalSpecFns;
use vstd::utf8::{
    decode_utf8, encode_utf8_decode_utf8, encode_utf8_valid_utf8, is_char_boundary,
    is_char_boundary_iff_not_is_continuation_byte, is_char_boundary_start_end_of_seq, valid_utf8,
};

verus! {

/// The kind of a lexical unit.
#[derive(Debug, PartialEq, Eq, Structural, Clone, Copy)]
pub enum APITokenKind {
    Whitespace,
    OpenBrace,
    CloseBrace,
    OpenParen,
    CloseParen,
    OpenBracket,
    CloseBracket,
    Colon,
    IntDataType,
    FloatDataType,
    StringDataType,
    BoolDataType,
    MapDataType,
    Type,
    Identifier,
    Struct,
    TagAnnotation,
    Server,
    Service,
    Handler,
    HttpMethod,
    RoutePath,
    RespReturns,
}

impl APITokenKind {
    /// The name of the kind as it appears in messages.
    pub open spec fn name_view(self) -> Seq<char> {
        match self {
            APITokenKind::Whitespace => "Whitespace"@,
            APITokenKind::OpenBrace => "OpenBrace"@,
            APITokenKind::CloseBrace => "CloseBrace"@,
            APITokenKind::OpenParen => "OpenParen"@,
            APITokenKind::CloseParen => "CloseParen"@,
            APITokenKind::OpenBracket => "OpenBracket"@,
            APITokenKind::CloseBracket => "CloseBracket"@,
            APITokenKind::Colon => "Colon"@,
            APITokenKind::IntDataType => "IntDataType"@,
            APITokenKind::FloatDataType => "FloatDataType"@,
            APITokenKind::StringDataType => "StringDataType"@,
            APITokenKind::BoolDataType => "BoolDataType"@,
            APITokenKind::MapDataType => "MapDataType"@,
            APITokenKind::Type => "Type"@,
            APITokenKind::Identifier => "Identifier"@,
            APITokenKind::Struct => "Struct"@,
            APITokenKind::TagAnnotation => "TagAnnotation"@,
            APITokenKind::Server => "Server"@,
            APITokenKind::Service => "Service"@,
            APITokenKind::Handler => "Handler"@,
            APITokenKind::HttpMethod => "HttpMethod"@,
            APITokenKind::RoutePath => "RoutePath"@,
            APITokenKind::RespReturns => "RespReturns"@,
        }
    }

    /// The name of the kind as it appears in messages.
    pub fn name(&self) -> (r: &'static str)
        ensures
            r@ == self.name_view(),
    {
        match self {
            APITokenKind::Whitespace => "Whitespace",
            APITokenKind::OpenBrace => "OpenBrace",
            APITokenKind::CloseBrace => "CloseBrace",
            APITokenKind::OpenParen => "OpenParen",
            APITokenKind::CloseParen => "CloseParen",
            APITokenKind::OpenBracket => "OpenBracket",
            APITokenKind::CloseBracket => "CloseBracket",
            APITokenKind::Colon => "Colon",
            APITokenKind::IntDataType => "IntDataType",
            APITokenKind::FloatDataType => "FloatDataType",
            APITokenKind::StringDataType => "StringDataType",
            APITokenKind::BoolDataType => "BoolDataType",
            APITokenKind::MapDataType => "MapDataType",
            APITokenKind::Type => "Type",
            APITokenKind::Identifier => "Identifier",
            APITokenKind::Struct => "Struct",
            APITokenKind::TagAnnotation => "TagAnnotation",
            APITokenKind::Server => "Server",
            APITokenKind::Service => "Service",
            APITokenKind::Handler => "Handler",
            APITokenKind::HttpMethod => "HttpMethod",
            APITokenKind::RoutePath => "RoutePath",
            APITokenKind::RespReturns => "RespReturns",
        }
    }
}

/// What a token is, as a mathematical value: its kind, its text, and the
/// byte offsets `[start, end)` of that text in the source.
pub ghost struct TokenView {
    pub kind: APITokenKind,
    pub text: Seq<char>,
    pub start: int,
    pub end: int,
}

/// One lexical unit of a source text.
#[derive(Debug, Clone, Copy)]
pub struct APIToken<'a> {
    source: &'a str,
    kind: APITokenKind,
    at: &'a str,
    start: usize,
    end: usize,
}

impl<'a> View for APIToken<'a> {
    type V = TokenView;

    closed spec fn view(&self) -> TokenView {
        TokenView {
            kind: self.kind,
            text: self.at@,
            start: self.start as int,
            end: self.end as int,
        }
    }
}

/// The text that the bytes `[start, end)` of `bytes` spell.
pub open spec fn text_between(bytes: Seq<u8>, start: int, end: int) -> Seq<char> {
    decode_utf8(bytes.subrange(start, end))
}

impl<'a> APIToken<'a> {
    /// Every token lies in its source between two characters, and spells
    /// what stands there.
    #[verifier::type_invariant]
    spec fn well_formed(self) -> bool {
        &&& self.start <= self.end <= self.source.spec_bytes().len()
        &&& is_char_boundary(self.source.spec_bytes(), self.start as int)
        &&& is_char_boundary(self.source.spec_bytes(), self.end as int)
        &&& self.at.spec_bytes() == self.source.spec_bytes().subrange(
            self.start as int,
            self.end as int,
        )
    }

    /// The source text that the token was scanned from.
    pub closed spec fn source_view(self) -> Seq<char> {
        self.source@
    }

    /// The kind of the token.
    pub fn kind(&self) -> (r: APITokenKind)
        ensures
            r == self@.kind,
    {
        self.kind
    }

    /// The text of the token, as the scanner sliced it.
    pub fn at(&self) -> (r: &'a str)
        ensures
            r@ == self@.text,
    {
        self.at
    }

    /// The byte offsets of the token in its source.
    pub fn span(&self) -> (r: Range<usize>)
        ensures
            r.start == self@.start,
            r.end == self@.end,
            0 <= self@.start <= self@.end,
    {
        proof {
            use_type_invariant(self);
        }
        self.start..self.end
    }

    /// The source text that the token was scanned from.
    pub fn source(&self) -> (r: &'a str)
        ensures
            r@ == self.source_view(),
    {
        self.source
    }

    /// The text of the token, sliced out of its source by its span.
    pub fn text(&self) -> (r: &'a str)
        ensures
            r@ == self@.text,
            0 <= self@.start <= self@.end <= vstd::utf8::encode_utf8(self.source_view()).len(),
            r@ == text_between(vstd::utf8::encode_utf8(self.source_view()), self@.start, self@.end),
    {
        proof {
            use_type_invariant(self);
        }
        let r = slice_text(self.source, self.start, self.end);
        proof {
            encode_utf8_decode_utf8(r@);
            encode_utf8_decode_utf8(self.at@);
        }
        r
    }
}

/// The part of `source` between two character boundaries.
fn slice_text<'a>(source: &'a str, start: usize, end: usize) -> (r: &'a str)
    requires
        start <= end <= source.spec_bytes().len(),
        is_char_boundary(source.spec_bytes(), start as int),
        is_char_boundary(source.spec_bytes(), end as int),
    ensures
        r.spec_bytes() == source.spec_bytes().subrange(start as int, end as int),
{
    proof {
        encode_utf8_valid_utf8(source@);
    }
    let (head, _) = source.split_at(end);
    proof {
        encode_utf8_valid_utf8(head@);
        is_char_boundary_start_end_of_seq(head.spec_bytes());
        if start < end {
            is_char_boundary_iff_not_is_continuation_byte(source.spec_bytes(), start as int);
            is_char_boundary_iff_not_is_continuation_byte(head.spec_bytes(), start as int);
        }
    }
    let (_, tail) = head.split_at(start);
    assert(tail.spec_bytes() =~= source.spec_bytes().subrange(start as int, end as int));
    tail
}

/// In valid UTF-8 a character begins after every ASCII byte.
pub proof fn lemma_boundary_after_ascii(bytes: Seq<u8>, index: int)
    requires
        valid_utf8(bytes),
        0 <= index < bytes.len(),
        bytes[index] < 0x80,
    ensures
        is_char_boundary(bytes, index + 1),
    decreases bytes.len(),
{
    reveal_with_fuel(is_char_boundary, 2);
    reveal_with_fuel(valid_utf8, 2);
    if index > 0 {
        is_char_boundary_iff_not_is_continuation_byte(bytes, index);
        let rest = vstd::utf8::pop_first_scalar(bytes);
        let width = vstd::utf8::length_of_first_scalar(bytes);
        assert(rest[index - width] == bytes[index]);
        lemma_boundary_after_ascii(rest, index - width);
    }
}

/// The views of a sequence of tokens.
pub open spec fn token_views(tokens: Seq<APIToken<'_>>) -> Seq<TokenView> {
    Seq::new(tokens.len(), |i: int| tokens[i]@)
}

/// A scanner over one source text. It hands out the tokens one by one.
pub struct APITokenizer<'a> {
    source: &'a str,
    pos: usize,
}

impl<'a> APITokenizer<'a> {
    /// The scanner stands within its source.
    #[verifier::type_invariant]
    spec fn well_formed(self) -> bool {
        self.pos <= self.source.spec_bytes().len()
    }

    /// The source text that is scanned.
    pub closed spec fn source_view(self) -> Seq<char> {
        self.source@
    }

    /// The byte offset up to which the source has been scanned.
    pub closed spec fn position(self) -> int {
        self.pos as int
    }

    /// A scanner at the beginning of `source`.
    pub fn new(source: &'a str) -> (r: Self)
        ensures
            r.source_view() == source@,
            r.position() == 0,
    {
        APITokenizer { source, pos: 0 }
    }

    /// The byte offset up to which the source has been scanned.
    pub fn offset(&self) -> (r: usize)
        ensures
            r == self.position(),
    {
        self.pos
    }

    /// The next token, or `None` at the end of the source and at bytes that
    /// no rule accepts. After `None` the scanner stands where scanning
    /// ended, and every further call gives `None`.
    pub fn next_token(&mut self) -> (r: Option<APIToken<'a>>)
        ensures
            final(self).source_view() == old(self).source_view(),
            0 <= old(self).position() <= final(self).position() <= vstd::utf8::encode_utf8(
                old(self).source_view(),
            ).len(),
            match first_token(
                vstd::utf8::encode_utf8(old(self).source_view()),
                old(self).position(),
            ) {
                Some(token) => r matches Some(t) && t@ == token && t.source_view() == old(
                    self,
                ).source_view() && final(self).position() == token.end,
                None => r is None && final(self).position() == scan_end(
                    vstd::utf8::encode_utf8(old(self).source_view()),
                    old(self).position(),
                ),
            },
    {
        proof {
            use_type_invariant(&*self);
            encode_utf8_valid_utf8(self.source@);
        }
        let source: &'a str = self.source;
        let bytes = source.as_bytes();
        let size = bytes.len();
        let ghost s = bytes@;
        let ghost origin = self.pos as int;
        loop
            invariant
                self.source == source,
                old(self).source == source,
                origin == old(self).pos,
                bytes@ == s,
                size == s.len(),
                s == vstd::utf8::encode_utf8(source@),
                valid_utf8(s),
                origin <= self.pos <= s.len(),
                first_token(s, origin) == first_token(s, self.pos as int),
                first_token(s, origin) is None ==> scan_end(s, origin) == scan_end(
                    s,
                    self.pos as int,
                ),
            decreases s.len() - self.pos,
        {
            let start = self.pos;
            match next_lexeme(bytes, start) {
                None => {
                    return None;
                },
                Some((kind, len)) => {
                    let end = start + len;
                    self.pos = end;
                    if kind != APITokenKind::Whitespace {
                        proof {
                            is_char_boundary_iff_not_is_continuation_byte(s, start as int);
                            lemma_boundary_after_ascii(s, end - 1);
                        }
                        let at = slice_text(source, start, end);
                        proof {
                            encode_utf8_decode_utf8(at@);
                        }
                        return Some(APIToken { source, kind, at, start, end });
                    }
                },
            }
        }
    }
}

/// The offset of the first bytes of a source that no rule accepts.
#[derive(Debug, Clone, Copy, PartialEq, Eq)]
pub struct Unscanned {
    pub at: usize,
}

/// Scans a source text: its tokens, and the offset at which scanning ended.
fn scan_source(source: &str) -> (r: (Vec<APIToken<'_>>, usize))
    ensures
        token_views(r.0@) == scan(source@),
        forall|i: int| 0 <= i < r.0@.len() ==> (#[trigger] r.0@[i]).source_view() == source@,
        r.1 == scan_end(vstd::utf8::encode_utf8(source@), 0),
{
    let mut tokenizer = APITokenizer::new(source);
    let mut tokens: Vec<APIToken<'_>> = Vec::new();
    let ghost s = vstd::utf8::encode_utf8(source@);
    loop
        invariant
            tokenizer.source_view() == source@,
            s == vstd::utf8::encode_utf8(source@),
            0 <= tokenizer.position() <= s.len(),
            token_views(tokens@) + scan_from(s, tokenizer.position()) == scan(source@),
            scan_end(s, tokenizer.position()) == scan_end(s, 0),
            forall|i: int|
                0 <= i < tokens@.len() ==> (#[trigger] tokens@[i]).source_view() == source@,
        decreases s.len() - tokenizer.position(),
    {
        let ghost before = tokenizer.position();
        let ghost done = tokens@;
        proof {
            lemma_first_token_bounds(s, before);
            lemma_first_token_take(s, before);
        }
        match tokenizer.next_token() {
            Some(token) => {
                tokens.push(token);
                assert(token_views(tokens@) =~= token_views(done) + seq![token@]);
            },
            None => {
                assert(token_views(tokens@) + Seq::<TokenView>::empty() =~= token_views(tokens@));
                return (tokens, tokenizer.offset());
            },
        }
    }
}

/// Scans a source text into its tokens. Scanning ends at the first bytes
/// that no rule accepts, without a word: what stands after them gives no
/// token. `tokenize_strict` tells the two ends apart.
pub fn tokenize(source: &str) -> (r: Vec<APIToken<'_>>)
    ensures
        token_views(r@) == scan(source@),
        forall|i: int| 0 <= i < r@.len() ==> (#[trigger] r@[i]).source_view() == source@,
{
    scan_source(source).0
}

/// Scans a source text into its tokens, and fails where scanning ended
/// before the end of the source, at bytes that no rule accepts.
pub fn tokenize_strict(source: &str) -> (r: Result<Vec<APIToken<'_>>, Unscanned>)
    ensures
        match r {
            Ok(tokens) => scan_end(vstd::utf8::encode_utf8(source@), 0) == vstd::utf8::encode_utf8(
                source@,
            ).len() && token_views(tokens@) == scan(source@) && forall|i: int|
                0 <= i < tokens@.len() ==> (#[trigger] tokens@[i]).source_view() == source@,
            Err(unscanned) => unscanned.at == scan_end(vstd::utf8::encode_utf8(source@), 0)
                && unscanned.at < vstd::utf8::encode_utf8(source@).len(),
        },
{
    let (tokens, end) = scan_source(source);
    proof {
        lemma_scan_end(vstd::utf8::encode_utf8(source@), 0);
    }
    if end == source.as_bytes().len() {
        Ok(tokens)
    } else {
        Err(Unscanned { at: end })
    }
}

} // verus!
