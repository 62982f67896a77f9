//! The scanner's steps over the bytes of a source text: each computes what
//! the lexical rules define.

use crate::lexical::{
    best_match, blank_run, blank_width, byte_is, in_class, path_run, run, spells, tag_end, wins,
    word_bool, word_float32, word_float64, word_get, word_handler, word_int, word_int16, word_int32,
    word_int64, word_int8, word_map, word_post, word_returns, word_server, word_service,
    word_string, word_struct, word_type, ByteClass,
};
use crate::munch::{
    lemma_at_sign_wins, lemma_no_start_no_match, lemma_only_rule_wins, lemma_symbol_wins,
    lemma_word_wins, symbol_of, word_kind,
};
use crate::token::APITokenKind;
use vstd::prelude::*;

verus! {

/// Whether a byte belongs to a class.
pub(crate) fn belongs(class: ByteClass, b: u8) -> (r: bool)
    ensures
        r == in_class(class, b),
{
    let word = ('a' as u8 <= b && b <= 'z' as u8) || ('A' as u8 <= b && b <= 'Z' as u8) || (
    '0' as u8 <= b && b <= '9' as u8) || b == '_' as u8;
    match class {
        ByteClass::Space => b == ' ' as u8 || b == '\t' as u8 || b == '\r' as u8 || b == '\n' as u8
            || b == 0x0c,
        ByteClass::Word => word,
        ByteClass::IdentPart => word || b == '$' as u8,
        ByteClass::Unquoted => b != '"' as u8,
    }
}

/// Counts the bytes of a class that stand in a row at `pos`.
pub(crate) fn count_run(class: ByteClass, bytes: &[u8], pos: usize) -> (n: usize)
    requires
        pos <= bytes@.len(),
    ensures
        n == run(class, bytes@, pos as int),
        pos + n <= bytes@.len(),
        forall|j: int| pos <= j < pos + n ==> in_class(class, #[trigger] bytes@[j]),
{
    let mut i: usize = pos;
    while i < bytes.len() && belongs(class, bytes[i])
        invariant
            pos <= i <= bytes@.len(),
            run(class, bytes@, pos as int) == (i - pos) + run(class, bytes@, i as int),
            forall|j: int| pos <= j < i ==> in_class(class, #[trigger] bytes@[j]),
        decreases bytes@.len() - i,
    {
        i += 1;
    }
    i - pos
}

/// Counts the bytes at `pos` that go on a route path.
pub(crate) fn count_path(bytes: &[u8], pos: usize, after_slash: bool) -> (n: usize)
    requires
        pos <= bytes@.len(),
    ensures
        n == path_run(bytes@, pos as int, after_slash),
        pos + n <= bytes@.len(),
        forall|j: int| pos <= j < pos + n ==> #[trigger] bytes@[j] < 0x80,
{
    let mut i: usize = pos;
    let mut slash: bool = after_slash;
    while i < bytes.len() && (belongs(ByteClass::Word, bytes[i]) || (bytes[i] == '/' as u8
        && !slash))
        invariant
            pos <= i <= bytes@.len(),
            path_run(bytes@, pos as int, after_slash) == (i - pos) + path_run(
                bytes@,
                i as int,
                slash,
            ),
            forall|j: int| pos <= j < i ==> #[trigger] bytes@[j] < 0x80,
        decreases bytes@.len() - i,
    {
        slash = !belongs(ByteClass::Word, bytes[i]);
        i += 1;
    }
    i - pos
}

/// The number of bytes of the white-space character encoded at `pos`.
pub(crate) fn blank_width_at(bytes: &[u8], pos: usize) -> (n: usize)
    requires
        pos <= bytes@.len(),
    ensures
        n == blank_width(bytes@, pos as int),
        pos + n <= bytes@.len(),
        n <= 3,
{
    let len = bytes.len();
    if pos >= len {
        return 0;
    }
    let b0 = bytes[pos];
    if (0x09 <= b0 && b0 <= 0x0d) || b0 == 0x20 {
        return 1;
    }
    if len - pos < 2 {
        return 0;
    }
    let b1 = bytes[pos + 1];
    if b0 == 0xc2 && (b1 == 0x85 || b1 == 0xa0) {
        return 2;
    }
    if len - pos < 3 {
        return 0;
    }
    let b2 = bytes[pos + 2];
    if b0 == 0xe1 && b1 == 0x9a && b2 == 0x80 {
        3
    } else if b0 == 0xe2 && b1 == 0x80 && ((0x80 <= b2 && b2 <= 0x8a) || b2 == 0xa8 || b2 == 0xa9
        || b2 == 0xaf) {
        3
    } else if b0 == 0xe2 && b1 == 0x81 && b2 == 0x9f {
        3
    } else if b0 == 0xe3 && b1 == 0x80 && b2 == 0x80 {
        3
    } else {
        0
    }
}

/// Counts the bytes of white space that stand in a row at `pos`.
pub(crate) fn count_blanks(bytes: &[u8], pos: usize) -> (n: usize)
    requires
        pos <= bytes@.len(),
    ensures
        n == blank_run(bytes@, pos as int),
        pos + n <= bytes@.len(),
{
    let len = bytes.len();
    let mut i: usize = pos;
    let mut w: usize = blank_width_at(bytes, i);
    while w > 0
        invariant
            pos <= i <= bytes@.len(),
            len == bytes@.len(),
            w == blank_width(bytes@, i as int),
            i + w <= bytes@.len(),
            blank_run(bytes@, pos as int) == (i - pos) + blank_run(bytes@, i as int),
        decreases bytes@.len() - i,
    {
        i += w;
        w = blank_width_at(bytes, i);
    }
    i - pos
}

/// Finds the end of the tag annotation whose pairs begin at `pos`.
pub(crate) fn find_tag_end(bytes: &[u8], pos: usize) -> (r: Option<usize>)
    requires
        pos <= bytes@.len(),
    ensures
        match tag_end(bytes@, pos as int) {
            Some(end) => r == Some(end as usize) && pos < end <= bytes@.len() && byte_is(
                bytes@,
                end - 1,
                '`',
            ),
            None => r is None,
        },
{
    let len = bytes.len();
    let mut p: usize = pos;
    loop
        invariant
            pos <= p <= bytes@.len(),
            len == bytes@.len(),
            tag_end(bytes@, pos as int) == tag_end(bytes@, p as int),
        decreases bytes@.len() - p,
    {
        let key = count_run(ByteClass::Word, bytes, p);
        if key == 0 || len - (p + key) < 2 || bytes[p + key] != ':' as u8 || bytes[p + key + 1]
            != '"' as u8 {
            return None;
        }
        let value = p + key + 2;
        let quote = value + count_run(ByteClass::Unquoted, bytes, value);
        if quote >= len {
            return None;
        }
        let next = quote + 1 + count_blanks(bytes, quote + 1);
        if next >= len {
            return None;
        }
        if bytes[next] == '`' as u8 {
            return Some(next + 1);
        }
        p = next;
    }
}

/// Whether the bytes at `pos` are exactly those of `word`.
pub(crate) fn spelled(bytes: &[u8], pos: usize, word: &[u8]) -> (r: bool)
    requires
        pos <= bytes@.len(),
    ensures
        r == spells(bytes@, pos as int, word@),
{
    if word.len() > bytes.len() - pos {
        return false;
    }
    let len = bytes.len();
    let mut i: usize = 0;
    while i < word.len()
        invariant
            i <= word@.len(),
            len == bytes@.len(),
            pos + word@.len() <= bytes@.len(),
            forall|j: int| 0 <= j < i ==> bytes@[pos + j] == word@[j],
        decreases word@.len() - i,
    {
        if bytes[pos + i] != word[i] {
            assert(bytes@.subrange(pos as int, pos + word@.len())[i as int] != word@[i as int]);
            return false;
        }
        i += 1;
    }
    assert(bytes@.subrange(pos as int, pos + word@.len()) =~= word@);
    true
}

/// Whether the `n` bytes at `pos` are exactly those of `word`.
fn is_exactly<const N: usize>(bytes: &[u8], pos: usize, n: usize, word: &[u8; N]) -> (r: bool)
    requires
        pos <= bytes@.len(),
    ensures
        r == (n == word@.len() && spells(bytes@, pos as int, word@)),
{
    n == N && spelled(bytes, pos, word.as_slice())
}

/// The kind of the text of `n` identifier bytes at `pos`: that of the
/// keyword which it is, else an identifier.
fn classify_word(bytes: &[u8], pos: usize, n: usize) -> (kind: APITokenKind)
    requires
        pos + n <= bytes@.len(),
    ensures
        kind == word_kind(bytes@.subrange(pos as int, pos + n)),
{
    let w_int: [u8; 3] = ['i' as u8, 'n' as u8, 't' as u8];
    let w_int8: [u8; 4] = ['i' as u8, 'n' as u8, 't' as u8, '8' as u8];
    let w_int16: [u8; 5] = ['i' as u8, 'n' as u8, 't' as u8, '1' as u8, '6' as u8];
    let w_int32: [u8; 5] = ['i' as u8, 'n' as u8, 't' as u8, '3' as u8, '2' as u8];
    let w_int64: [u8; 5] = ['i' as u8, 'n' as u8, 't' as u8, '6' as u8, '4' as u8];
    let w_float32: [u8; 7] = [
        'f' as u8,
        'l' as u8,
        'o' as u8,
        'a' as u8,
        't' as u8,
        '3' as u8,
        '2' as u8,
    ];
    let w_float64: [u8; 7] = [
        'f' as u8,
        'l' as u8,
        'o' as u8,
        'a' as u8,
        't' as u8,
        '6' as u8,
        '4' as u8,
    ];
    let w_string: [u8; 6] = ['s' as u8, 't' as u8, 'r' as u8, 'i' as u8, 'n' as u8, 'g' as u8];
    let w_bool: [u8; 4] = ['b' as u8, 'o' as u8, 'o' as u8, 'l' as u8];
    let w_map: [u8; 3] = ['m' as u8, 'a' as u8, 'p' as u8];
    let w_type: [u8; 4] = ['t' as u8, 'y' as u8, 'p' as u8, 'e' as u8];
    let w_struct: [u8; 6] = ['s' as u8, 't' as u8, 'r' as u8, 'u' as u8, 'c' as u8, 't' as u8];
    let w_service: [u8; 7] = [
        's' as u8,
        'e' as u8,
        'r' as u8,
        'v' as u8,
        'i' as u8,
        'c' as u8,
        'e' as u8,
    ];
    let w_get: [u8; 3] = ['g' as u8, 'e' as u8, 't' as u8];
    let w_post: [u8; 4] = ['p' as u8, 'o' as u8, 's' as u8, 't' as u8];
    let w_returns: [u8; 7] = [
        'r' as u8,
        'e' as u8,
        't' as u8,
        'u' as u8,
        'r' as u8,
        'n' as u8,
        's' as u8,
    ];
    proof {
        assert(w_int@ =~= word_int());
        assert(w_int8@ =~= word_int8());
        assert(w_int16@ =~= word_int16());
        assert(w_int32@ =~= word_int32());
        assert(w_int64@ =~= word_int64());
        assert(w_float32@ =~= word_float32());
        assert(w_float64@ =~= word_float64());
        assert(w_string@ =~= word_string());
        assert(w_bool@ =~= word_bool());
        assert(w_map@ =~= word_map());
        assert(w_type@ =~= word_type());
        assert(w_struct@ =~= word_struct());
        assert(w_service@ =~= word_service());
        assert(w_get@ =~= word_get());
        assert(w_post@ =~= word_post());
        assert(w_returns@ =~= word_returns());
    }
    let is_int = is_exactly(bytes, pos, n, &w_int) || is_exactly(bytes, pos, n, &w_int8)
        || is_exactly(bytes, pos, n, &w_int16) || is_exactly(bytes, pos, n, &w_int32)
        || is_exactly(bytes, pos, n, &w_int64);
    let is_float = is_exactly(bytes, pos, n, &w_float32) || is_exactly(bytes, pos, n, &w_float64);
    let is_string = is_exactly(bytes, pos, n, &w_string);
    let is_bool = is_exactly(bytes, pos, n, &w_bool);
    let is_map = is_exactly(bytes, pos, n, &w_map);
    let is_type = is_exactly(bytes, pos, n, &w_type);
    let is_struct = is_exactly(bytes, pos, n, &w_struct);
    let is_service = is_exactly(bytes, pos, n, &w_service);
    let is_method = is_exactly(bytes, pos, n, &w_get) || is_exactly(bytes, pos, n, &w_post);
    let is_returns = is_exactly(bytes, pos, n, &w_returns);
    let kind = if is_int {
        APITokenKind::IntDataType
    } else if is_float {
        APITokenKind::FloatDataType
    } else if is_string {
        APITokenKind::StringDataType
    } else if is_bool {
        APITokenKind::BoolDataType
    } else if is_map {
        APITokenKind::MapDataType
    } else if is_type {
        APITokenKind::Type
    } else if is_struct {
        APITokenKind::Struct
    } else if is_service {
        APITokenKind::Service
    } else if is_method {
        APITokenKind::HttpMethod
    } else if is_returns {
        APITokenKind::RespReturns
    } else {
        APITokenKind::Identifier
    };
    kind
}

/// The rule that wins at `pos` and the length of its text, if any rule
/// accepts a text there.
pub fn next_lexeme(bytes: &[u8], pos: usize) -> (r: Option<(APITokenKind, usize)>)
    ensures
        match best_match(bytes@, pos as int) {
            Some((kind, len)) => r == Some((kind, len as usize)) && 0 < len && pos + len
                <= bytes@.len() && (kind != APITokenKind::Whitespace ==> bytes@[pos as int] < 0x80
                && bytes@[pos + len - 1] < 0x80),
            None => r is None,
        },
{
    let ghost s = bytes@;
    let ghost p = pos as int;
    if pos >= bytes.len() {
        proof {
            lemma_no_start_no_match(s, p);
        }
        return None;
    }
    let b = bytes[pos];
    if belongs(ByteClass::Space, b) {
        proof {
            lemma_only_rule_wins(s, p, APITokenKind::Whitespace);
        }
        Some((APITokenKind::Whitespace, count_run(ByteClass::Space, bytes, pos)))
    } else if b == '`' as u8 {
        proof {
            lemma_only_rule_wins(s, p, APITokenKind::TagAnnotation);
        }
        match find_tag_end(bytes, pos + 1) {
            Some(end) => Some((APITokenKind::TagAnnotation, end - pos)),
            None => None,
        }
    } else if b == '/' as u8 {
        proof {
            lemma_only_rule_wins(s, p, APITokenKind::RoutePath);
        }
        Some((APITokenKind::RoutePath, 1 + count_path(bytes, pos + 1, true)))
    } else if b == '@' as u8 {
        let w_server: [u8; 7] = [
            '@' as u8,
            's' as u8,
            'e' as u8,
            'r' as u8,
            'v' as u8,
            'e' as u8,
            'r' as u8,
        ];
        let w_handler: [u8; 8] = [
            '@' as u8,
            'h' as u8,
            'a' as u8,
            'n' as u8,
            'd' as u8,
            'l' as u8,
            'e' as u8,
            'r' as u8,
        ];
        proof {
            assert(w_server@ =~= word_server());
            assert(w_handler@ =~= word_handler());
            lemma_at_sign_wins(s, p);
        }
        if spelled(bytes, pos, w_server.as_slice()) {
            proof {
                lemma_spells_last(s, p, word_server());
            }
            Some((APITokenKind::Server, 7))
        } else if spelled(bytes, pos, w_handler.as_slice()) {
            proof {
                lemma_spells_last(s, p, word_handler());
            }
            Some((APITokenKind::Handler, 8))
        } else {
            None
        }
    } else if belongs(ByteClass::Word, b) {
        let n = 1 + count_run(ByteClass::IdentPart, bytes, pos + 1);
        let kind = classify_word(bytes, pos, n);
        proof {
            lemma_word_wins(s, p);
        }
        Some((kind, n))
    } else {
        let symbol = symbol_kind(b);
        proof {
            match symbol {
                Some(kind) => lemma_symbol_wins(s, p, kind),
                None => lemma_no_start_no_match(s, p),
            }
        }
        match symbol {
            Some(kind) => Some((kind, 1)),
            None => None,
        }
    }
}

/// The kind of the symbol that a byte is, if it is one.
fn symbol_kind(b: u8) -> (r: Option<APITokenKind>)
    ensures
        match r {
            Some(kind) => symbol_of(kind) matches Some(c) && b == c as u8,
            None => b != '{' as u8 && b != '}' as u8 && b != '(' as u8 && b != ')' as u8 && b
                != '[' as u8 && b != ']' as u8 && b != ':' as u8,
        },
{
    if b == '{' as u8 {
        Some(APITokenKind::OpenBrace)
    } else if b == '}' as u8 {
        Some(APITokenKind::CloseBrace)
    } else if b == '(' as u8 {
        Some(APITokenKind::OpenParen)
    } else if b == ')' as u8 {
        Some(APITokenKind::CloseParen)
    } else if b == '[' as u8 {
        Some(APITokenKind::OpenBracket)
    } else if b == ']' as u8 {
        Some(APITokenKind::CloseBracket)
    } else if b == ':' as u8 {
        Some(APITokenKind::Colon)
    } else {
        None
    }
}

/// A word that is spelled at `pos` ends with its last byte.
proof fn lemma_spells_last(s: Seq<u8>, pos: int, word: Seq<u8>)
    requires
        spells(s, pos, word),
        word.len() > 0,
    ensures
        s[pos + word.len() - 1] == word[word.len() - 1],
{
    assert(s.subrange(pos, pos + word.len())[word.len() - 1] == word[word.len() - 1]);
}

} // verus!
