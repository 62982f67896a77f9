//! The lexical rules: for every kind of token, which bytes spell it.
//!
//! A rule is given by the length of the longest text that it accepts at a
//! position of the source, zero where it accepts none. The scanner takes, at
//! each position, the rule that accepts the longest text; of two rules that
//! accept the same text the one of higher priority wins.

use crate::token::{text_between, APITokenKind, TokenView};
use vstd::prelude::*;
use vstd::utf8::encode_utf8;

verus! {

/// A byte that separates tokens: space, tab, carriage return, line feed, form feed.
pub open spec fn is_space(b: u8) -> bool {
    b == ' ' as u8 || b == '\t' as u8 || b == '\r' as u8 || b == '\n' as u8 || b == 0x0c
}

/// An ASCII letter.
pub open spec fn is_letter(b: u8) -> bool {
    ('a' as u8 <= b && b <= 'z' as u8) || ('A' as u8 <= b && b <= 'Z' as u8)
}

/// An ASCII digit.
pub open spec fn is_digit(b: u8) -> bool {
    '0' as u8 <= b && b <= '9' as u8
}

/// A letter, a digit or an underscore.
pub open spec fn is_word(b: u8) -> bool {
    is_letter(b) || is_digit(b) || b == '_' as u8
}

/// A byte that may follow the first byte of an identifier.
pub open spec fn is_ident_part(b: u8) -> bool {
    is_word(b) || b == '$' as u8
}

/// Whether the byte at `pos` is the ASCII character `c`.
pub open spec fn byte_is(s: Seq<u8>, pos: int, c: char) -> bool {
    0 <= pos < s.len() && s[pos] == c as u8
}

/// Whether the bytes at `pos` are exactly those of `word`.
pub open spec fn spells(s: Seq<u8>, pos: int, word: Seq<u8>) -> bool {
    0 <= pos && pos + word.len() <= s.len() && s.subrange(pos, pos + word.len()) == word
}

/// The length of `word` where the bytes at `pos` spell it, else zero.
pub open spec fn word_len(s: Seq<u8>, pos: int, word: Seq<u8>) -> nat {
    if spells(s, pos, word) {
        word.len()
    } else {
        0
    }
}

/// The larger of two lengths.
pub open spec fn longer(a: nat, b: nat) -> nat {
    if a >= b {
        a
    } else {
        b
    }
}

/// A class of bytes of which a rule takes as many as stand in a row.
#[derive(Debug, Clone, Copy, PartialEq, Eq, Structural)]
pub enum ByteClass {
    /// The bytes that separate tokens.
    Space,
    /// Letters, digits and the underscore.
    Word,
    /// The bytes that may follow the first byte of an identifier.
    IdentPart,
    /// Every byte but the double quote.
    Unquoted,
}

/// Whether a byte belongs to a class.
pub open spec fn in_class(class: ByteClass, b: u8) -> bool {
    match class {
        ByteClass::Space => is_space(b),
        ByteClass::Word => is_word(b),
        ByteClass::IdentPart => is_ident_part(b),
        ByteClass::Unquoted => b != '"' as u8,
    }
}

/// How many bytes of a class stand in a row at `pos`.
pub open spec fn run(class: ByteClass, s: Seq<u8>, pos: int) -> nat
    decreases s.len() - pos,
{
    if 0 <= pos < s.len() && in_class(class, s[pos]) {
        1 + run(class, s, pos + 1)
    } else {
        0
    }
}

/// How far a route path goes on from `pos`: segments of word bytes, each
/// followed by at most one slash. `after_slash` says that the byte before
/// `pos` is a slash, so that another slash ends the path.
pub open spec fn path_run(s: Seq<u8>, pos: int, after_slash: bool) -> nat
    decreases s.len() - pos,
{
    if 0 <= pos < s.len() && is_word(s[pos]) {
        1 + path_run(s, pos + 1, false)
    } else if 0 <= pos < s.len() && s[pos] == '/' as u8 && !after_slash {
        1 + path_run(s, pos + 1, true)
    } else {
        0
    }
}

/// The number of bytes of the white-space character that is encoded at
/// `pos`, zero where none is. White space is what Unicode calls so: the ASCII
/// controls U+0009 to U+000D, the space, U+0085, U+00A0, U+1680, U+2000 to
/// U+200A, U+2028, U+2029, U+202F, U+205F and U+3000.
pub open spec fn blank_width(s: Seq<u8>, pos: int) -> nat {
    if !(0 <= pos < s.len()) {
        0
    } else if (0x09 <= s[pos] && s[pos] <= 0x0d) || s[pos] == 0x20 {
        1
    } else if pos + 1 < s.len() && s[pos] == 0xc2 && (s[pos + 1] == 0x85 || s[pos + 1] == 0xa0) {
        2
    } else if pos + 2 < s.len() && s[pos] == 0xe1 && s[pos + 1] == 0x9a && s[pos + 2] == 0x80 {
        3
    } else if pos + 2 < s.len() && s[pos] == 0xe2 && s[pos + 1] == 0x80 && ((0x80 <= s[pos + 2]
        && s[pos + 2] <= 0x8a) || s[pos + 2] == 0xa8 || s[pos + 2] == 0xa9 || s[pos + 2] == 0xaf) {
        3
    } else if pos + 2 < s.len() && s[pos] == 0xe2 && s[pos + 1] == 0x81 && s[pos + 2] == 0x9f {
        3
    } else if pos + 2 < s.len() && s[pos] == 0xe3 && s[pos + 1] == 0x80 && s[pos + 2] == 0x80 {
        3
    } else {
        0
    }
}

/// How many bytes of white space stand in a row at `pos`.
pub open spec fn blank_run(s: Seq<u8>, pos: int) -> nat
    decreases s.len() - pos,
{
    if blank_width(s, pos) > 0 {
        blank_width(s, pos) + blank_run(s, pos + blank_width(s, pos))
    } else {
        0
    }
}

/// Where a tag annotation whose pairs begin at `pos` ends, if the bytes from
/// `pos` are one or more pairs `key:"value"`, each followed by any white
/// space, and then a backtick. A key is a run of word bytes, a value any
/// bytes but a double quote.
pub open spec fn tag_end(s: Seq<u8>, pos: int) -> Option<int>
    decreases s.len() - pos,
{
    let key = run(ByteClass::Word, s, pos);
    let value = pos + key + 2;
    let quote = value + run(ByteClass::Unquoted, s, value);
    let next = quote + 1 + blank_run(s, quote + 1);
    if key > 0 && byte_is(s, pos + key, ':') && byte_is(s, pos + key + 1, '"') && quote < s.len() {
        if byte_is(s, next, '`') {
            Some(next + 1)
        } else if next < s.len() {
            tag_end(s, next)
        } else {
            None
        }
    } else {
        None
    }
}

/// The length of the tag annotation at `pos`, zero where none is.
pub open spec fn tag_len(s: Seq<u8>, pos: int) -> nat {
    if byte_is(s, pos, '`') {
        match tag_end(s, pos + 1) {
            Some(end) => if end > pos {
                (end - pos) as nat
            } else {
                0
            },
            None => 0,
        }
    } else {
        0
    }
}

/// The length of the identifier at `pos`, zero where none is: a letter, a
/// digit or an underscore, and then identifier bytes.
pub open spec fn ident_len(s: Seq<u8>, pos: int) -> nat {
    if 0 <= pos < s.len() && is_word(s[pos]) {
        1 + run(ByteClass::IdentPart, s, pos + 1)
    } else {
        0
    }
}

/// The length of the route path at `pos`, zero where none is.
pub open spec fn path_len(s: Seq<u8>, pos: int) -> nat {
    if byte_is(s, pos, '/') {
        1 + path_run(s, pos + 1, true)
    } else {
        0
    }
}

/// The bytes of the word `type`.
pub open spec fn word_type() -> Seq<u8> {
    seq!['t' as u8, 'y' as u8, 'p' as u8, 'e' as u8]
}

/// The bytes of the word `struct`.
pub open spec fn word_struct() -> Seq<u8> {
    seq!['s' as u8, 't' as u8, 'r' as u8, 'u' as u8, 'c' as u8, 't' as u8]
}

/// The bytes of the word `service`.
pub open spec fn word_service() -> Seq<u8> {
    seq!['s' as u8, 'e' as u8, 'r' as u8, 'v' as u8, 'i' as u8, 'c' as u8, 'e' as u8]
}

/// The bytes of the word `returns`.
pub open spec fn word_returns() -> Seq<u8> {
    seq!['r' as u8, 'e' as u8, 't' as u8, 'u' as u8, 'r' as u8, 'n' as u8, 's' as u8]
}

/// The bytes of the word `@server`.
pub open spec fn word_server() -> Seq<u8> {
    seq!['@' as u8, 's' as u8, 'e' as u8, 'r' as u8, 'v' as u8, 'e' as u8, 'r' as u8]
}

/// The bytes of the word `@handler`.
pub open spec fn word_handler() -> Seq<u8> {
    seq!['@' as u8, 'h' as u8, 'a' as u8, 'n' as u8, 'd' as u8, 'l' as u8, 'e' as u8, 'r' as u8]
}

/// The bytes of the word `map`.
pub open spec fn word_map() -> Seq<u8> {
    seq!['m' as u8, 'a' as u8, 'p' as u8]
}

/// The bytes of the word `string`.
pub open spec fn word_string() -> Seq<u8> {
    seq!['s' as u8, 't' as u8, 'r' as u8, 'i' as u8, 'n' as u8, 'g' as u8]
}

/// The bytes of the word `bool`.
pub open spec fn word_bool() -> Seq<u8> {
    seq!['b' as u8, 'o' as u8, 'o' as u8, 'l' as u8]
}

/// The bytes of the word `get`.
pub open spec fn word_get() -> Seq<u8> {
    seq!['g' as u8, 'e' as u8, 't' as u8]
}

/// The bytes of the word `post`.
pub open spec fn word_post() -> Seq<u8> {
    seq!['p' as u8, 'o' as u8, 's' as u8, 't' as u8]
}

/// The bytes of the word `int`.
pub open spec fn word_int() -> Seq<u8> {
    seq!['i' as u8, 'n' as u8, 't' as u8]
}

/// The bytes of the word `int8`.
pub open spec fn word_int8() -> Seq<u8> {
    seq!['i' as u8, 'n' as u8, 't' as u8, '8' as u8]
}

/// The bytes of the word `int16`.
pub open spec fn word_int16() -> Seq<u8> {
    seq!['i' as u8, 'n' as u8, 't' as u8, '1' as u8, '6' as u8]
}

/// The bytes of the word `int32`.
pub open spec fn word_int32() -> Seq<u8> {
    seq!['i' as u8, 'n' as u8, 't' as u8, '3' as u8, '2' as u8]
}

/// The bytes of the word `int64`.
pub open spec fn word_int64() -> Seq<u8> {
    seq!['i' as u8, 'n' as u8, 't' as u8, '6' as u8, '4' as u8]
}

/// The bytes of the word `float32`.
pub open spec fn word_float32() -> Seq<u8> {
    seq!['f' as u8, 'l' as u8, 'o' as u8, 'a' as u8, 't' as u8, '3' as u8, '2' as u8]
}

/// The bytes of the word `float64`.
pub open spec fn word_float64() -> Seq<u8> {
    seq!['f' as u8, 'l' as u8, 'o' as u8, 'a' as u8, 't' as u8, '6' as u8, '4' as u8]
}

/// The length of the longest text at `pos` that the rule of `kind` accepts,
/// zero where it accepts none.
pub open spec fn rule_len(kind: APITokenKind, s: Seq<u8>, pos: int) -> nat {
    match kind {
        APITokenKind::Whitespace => run(ByteClass::Space, s, pos),
        APITokenKind::OpenBrace => word_len(s, pos, seq!['{' as u8]),
        APITokenKind::CloseBrace => word_len(s, pos, seq!['}' as u8]),
        APITokenKind::OpenParen => word_len(s, pos, seq!['(' as u8]),
        APITokenKind::CloseParen => word_len(s, pos, seq![')' as u8]),
        APITokenKind::OpenBracket => word_len(s, pos, seq!['[' as u8]),
        APITokenKind::CloseBracket => word_len(s, pos, seq![']' as u8]),
        APITokenKind::Colon => word_len(s, pos, seq![':' as u8]),
        APITokenKind::IntDataType => longer(
            word_len(s, pos, word_int()),
            longer(
                word_len(s, pos, word_int8()),
                longer(
                    word_len(s, pos, word_int16()),
                    longer(word_len(s, pos, word_int32()), word_len(s, pos, word_int64())),
                ),
            ),
        ),
        APITokenKind::FloatDataType => longer(
            word_len(s, pos, word_float32()),
            word_len(s, pos, word_float64()),
        ),
        APITokenKind::StringDataType => word_len(s, pos, word_string()),
        APITokenKind::BoolDataType => word_len(s, pos, word_bool()),
        APITokenKind::MapDataType => word_len(s, pos, word_map()),
        APITokenKind::Type => word_len(s, pos, word_type()),
        APITokenKind::Identifier => ident_len(s, pos),
        APITokenKind::Struct => word_len(s, pos, word_struct()),
        APITokenKind::TagAnnotation => tag_len(s, pos),
        APITokenKind::Server => word_len(s, pos, word_server()),
        APITokenKind::Service => word_len(s, pos, word_service()),
        APITokenKind::Handler => word_len(s, pos, word_handler()),
        APITokenKind::HttpMethod => longer(
            word_len(s, pos, word_get()),
            word_len(s, pos, word_post()),
        ),
        APITokenKind::RoutePath => path_len(s, pos),
        APITokenKind::RespReturns => word_len(s, pos, word_returns()),
    }
}

/// The place of a rule among the rules: of two rules that accept the same
/// text the one with the smaller rank wins. The rules stand in the order in
/// which the kinds are declared, but for the identifier, which gives way to
/// every other rule.
pub open spec fn rank(kind: APITokenKind) -> nat {
    match kind {
        APITokenKind::Whitespace => 0,
        APITokenKind::OpenBrace => 1,
        APITokenKind::CloseBrace => 2,
        APITokenKind::OpenParen => 3,
        APITokenKind::CloseParen => 4,
        APITokenKind::OpenBracket => 5,
        APITokenKind::CloseBracket => 6,
        APITokenKind::Colon => 7,
        APITokenKind::IntDataType => 8,
        APITokenKind::FloatDataType => 9,
        APITokenKind::StringDataType => 10,
        APITokenKind::BoolDataType => 11,
        APITokenKind::MapDataType => 12,
        APITokenKind::Type => 13,
        APITokenKind::Struct => 14,
        APITokenKind::TagAnnotation => 15,
        APITokenKind::Server => 16,
        APITokenKind::Service => 17,
        APITokenKind::Handler => 18,
        APITokenKind::HttpMethod => 19,
        APITokenKind::RoutePath => 20,
        APITokenKind::RespReturns => 21,
        APITokenKind::Identifier => 22,
    }
}

/// Whether the rule of `kind` wins at `pos` with a text of `len` bytes: it
/// accepts that text, no rule accepts a longer one, and every other rule
/// that accepts a text as long has a larger rank.
pub open spec fn wins(s: Seq<u8>, pos: int, kind: APITokenKind, len: nat) -> bool {
    &&& len > 0
    &&& rule_len(kind, s, pos) == len
    &&& forall|other: APITokenKind| #[trigger]
        rule_len(other, s, pos) <= len
    &&& forall|other: APITokenKind| #[trigger]
        rule_len(other, s, pos) == len ==> rank(kind) <= rank(other)
}

/// The rule that wins at `pos` and the length of its text, if any rule
/// accepts a text there.
pub open spec fn best_match(s: Seq<u8>, pos: int) -> Option<(APITokenKind, nat)> {
    if exists|kind: APITokenKind, len: nat| wins(s, pos, kind, len) {
        Some(choose|kind: APITokenKind, len: nat| wins(s, pos, kind, len))
    } else {
        None
    }
}

/// At most one rule wins at a position.
pub proof fn lemma_winner_unique(
    s: Seq<u8>,
    pos: int,
    kind: APITokenKind,
    len: nat,
    kind2: APITokenKind,
    len2: nat,
)
    requires
        wins(s, pos, kind, len),
        wins(s, pos, kind2, len2),
    ensures
        kind == kind2,
        len == len2,
{
    assert(rule_len(kind2, s, pos) <= len);
    assert(rule_len(kind, s, pos) <= len2);
}

/// A rule that wins is the best match.
pub proof fn lemma_winner_is_best(s: Seq<u8>, pos: int, kind: APITokenKind, len: nat)
    requires
        wins(s, pos, kind, len),
    ensures
        best_match(s, pos) == Some((kind, len)),
{
    let (k, n) = choose|kind: APITokenKind, len: nat| wins(s, pos, kind, len);
    lemma_winner_unique(s, pos, kind, len, k, n);
}

/// Where no rule accepts anything, there is no best match.
pub proof fn lemma_no_rule_no_match(s: Seq<u8>, pos: int)
    requires
        forall|kind: APITokenKind| #[trigger] rule_len(kind, s, pos) == 0,
    ensures
        best_match(s, pos) is None,
{
    assert forall|kind: APITokenKind, len: nat| !wins(s, pos, kind, len) by {
        assert(rule_len(kind, s, pos) == 0);
    }
}

/// The first token at or after `pos`: the best match there, or, where that
/// is white space, the first token after it. None where the source ends or
/// no rule accepts the bytes that follow.
pub open spec fn first_token(s: Seq<u8>, pos: int) -> Option<TokenView>
    decreases s.len() - pos,
{
    match best_match(s, pos) {
        Some((kind, len)) => if len > 0 && pos + len <= s.len() {
            if kind == APITokenKind::Whitespace {
                first_token(s, pos + len)
            } else {
                Some(
                    TokenView {
                        kind,
                        text: text_between(s, pos, pos + len),
                        start: pos,
                        end: pos + len,
                    },
                )
            }
        } else {
            None
        },
        None => None,
    }
}

/// The tokens of `s` from `pos` on: the first token, then those that follow
/// it. The sequence ends where the source ends, and also at the first bytes
/// that no rule accepts: what stands after them is not scanned.
pub open spec fn scan_from(s: Seq<u8>, pos: int) -> Seq<TokenView>
    decreases s.len() - pos,
{
    match first_token(s, pos) {
        Some(token) => if pos < token.end <= s.len() {
            seq![token] + scan_from(s, token.end)
        } else {
            seq![token]
        },
        None => Seq::empty(),
    }
}

/// Where scanning from `pos` ends: at the end of the source, or before
/// the first bytes that no rule accepts.
pub open spec fn scan_end(s: Seq<u8>, pos: int) -> int
    decreases s.len() - pos,
{
    match best_match(s, pos) {
        Some((_, len)) => if len > 0 && pos + len <= s.len() {
            scan_end(s, pos + len)
        } else {
            pos
        },
        None => pos,
    }
}

/// The tokens of a source text.
pub open spec fn scan(source: Seq<char>) -> Seq<TokenView> {
    scan_from(encode_utf8(source), 0)
}

/// The first token at or after `pos` ends after `pos`, within the source.
pub proof fn lemma_first_token_bounds(s: Seq<u8>, pos: int)
    requires
        0 <= pos,
    ensures
        first_token(s, pos) matches Some(token) ==> pos <= token.start < token.end <= s.len(),
    decreases s.len() - pos,
{
    match best_match(s, pos) {
        Some((kind, len)) => {
            if len > 0 && pos + len <= s.len() && kind == APITokenKind::Whitespace {
                lemma_first_token_bounds(s, pos + len);
            }
        },
        None => {},
    }
}

} // verus!
