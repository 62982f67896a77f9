//! The longest match: what follows from the lexical rules about the rule
//! that wins at a position.

use crate::lexical::{
    best_match, byte_is, ident_len, in_class, is_ident_part, is_space, is_word,
    lemma_no_rule_no_match, lemma_winner_is_best, path_run, rank, rule_len, run, spells, wins,
    word_bool, word_float32, word_float64, word_get, word_handler, word_int, word_int16, word_int32,
    word_int64, word_int8, word_len, word_map, word_post, word_returns, word_server, word_service,
    word_string, word_struct, word_type, ByteClass,
};
use crate::token::APITokenKind;
use crate::truncation::lemma_run_bound;
use vstd::prelude::*;

verus! {

/// Whether a text that the rule of `kind` accepts can begin with the byte `b`.
pub open spec fn may_start(kind: APITokenKind, b: u8) -> bool {
    match kind {
        APITokenKind::Whitespace => is_space(b),
        APITokenKind::OpenBrace => b == '{' as u8,
        APITokenKind::CloseBrace => b == '}' as u8,
        APITokenKind::OpenParen => b == '(' as u8,
        APITokenKind::CloseParen => b == ')' as u8,
        APITokenKind::OpenBracket => b == '[' as u8,
        APITokenKind::CloseBracket => b == ']' as u8,
        APITokenKind::Colon => b == ':' as u8,
        APITokenKind::IntDataType => b == 'i' as u8,
        APITokenKind::FloatDataType => b == 'f' as u8,
        APITokenKind::StringDataType => b == 's' as u8,
        APITokenKind::BoolDataType => b == 'b' as u8,
        APITokenKind::MapDataType => b == 'm' as u8,
        APITokenKind::Type => b == 't' as u8,
        APITokenKind::Identifier => is_word(b),
        APITokenKind::Struct => b == 's' as u8,
        APITokenKind::TagAnnotation => b == '`' as u8,
        APITokenKind::Server => b == '@' as u8,
        APITokenKind::Service => b == 's' as u8,
        APITokenKind::Handler => b == '@' as u8,
        APITokenKind::HttpMethod => b == 'g' as u8 || b == 'p' as u8,
        APITokenKind::RoutePath => b == '/' as u8,
        APITokenKind::RespReturns => b == 'r' as u8,
    }
}

/// A word that is spelled at `pos` begins with the byte at `pos`.
pub proof fn lemma_spells_first(s: Seq<u8>, pos: int, word: Seq<u8>)
    requires
        spells(s, pos, word),
        word.len() > 0,
    ensures
        0 <= pos < s.len(),
        s[pos] == word[0],
{
    assert(s.subrange(pos, pos + word.len())[0] == word[0]);
}

/// A rule accepts a text at `pos` only if the byte there can begin one.
pub proof fn lemma_first_byte(kind: APITokenKind, s: Seq<u8>, pos: int)
    requires
        rule_len(kind, s, pos) > 0,
    ensures
        0 <= pos < s.len(),
        may_start(kind, s[pos]),
{
    match kind {
        APITokenKind::OpenBrace => lemma_spells_first(s, pos, seq!['{' as u8]),
        APITokenKind::CloseBrace => lemma_spells_first(s, pos, seq!['}' as u8]),
        APITokenKind::OpenParen => lemma_spells_first(s, pos, seq!['(' as u8]),
        APITokenKind::CloseParen => lemma_spells_first(s, pos, seq![')' as u8]),
        APITokenKind::OpenBracket => lemma_spells_first(s, pos, seq!['[' as u8]),
        APITokenKind::CloseBracket => lemma_spells_first(s, pos, seq![']' as u8]),
        APITokenKind::Colon => lemma_spells_first(s, pos, seq![':' as u8]),
        APITokenKind::IntDataType => {
            if spells(s, pos, word_int()) {
                lemma_spells_first(s, pos, word_int());
            } else if spells(s, pos, word_int8()) {
                lemma_spells_first(s, pos, word_int8());
            } else if spells(s, pos, word_int16()) {
                lemma_spells_first(s, pos, word_int16());
            } else if spells(s, pos, word_int32()) {
                lemma_spells_first(s, pos, word_int32());
            } else {
                lemma_spells_first(s, pos, word_int64());
            }
        },
        APITokenKind::FloatDataType => {
            if spells(s, pos, word_float32()) {
                lemma_spells_first(s, pos, word_float32());
            } else {
                lemma_spells_first(s, pos, word_float64());
            }
        },
        APITokenKind::StringDataType => lemma_spells_first(s, pos, word_string()),
        APITokenKind::BoolDataType => lemma_spells_first(s, pos, word_bool()),
        APITokenKind::MapDataType => lemma_spells_first(s, pos, word_map()),
        APITokenKind::Type => lemma_spells_first(s, pos, word_type()),
        APITokenKind::Struct => lemma_spells_first(s, pos, word_struct()),
        APITokenKind::Server => lemma_spells_first(s, pos, word_server()),
        APITokenKind::Service => lemma_spells_first(s, pos, word_service()),
        APITokenKind::Handler => lemma_spells_first(s, pos, word_handler()),
        APITokenKind::HttpMethod => {
            if spells(s, pos, word_get()) {
                lemma_spells_first(s, pos, word_get());
            } else {
                lemma_spells_first(s, pos, word_post());
            }
        },
        APITokenKind::RespReturns => lemma_spells_first(s, pos, word_returns()),
        APITokenKind::Whitespace => {},
        APITokenKind::Identifier => {},
        APITokenKind::TagAnnotation => {},
        APITokenKind::RoutePath => {},
    }
}

/// Identifier bytes that stand in a row are counted by the run.
pub proof fn lemma_ident_run_covers(s: Seq<u8>, pos: int, count: nat)
    requires
        0 <= pos,
        pos + count <= s.len(),
        forall|j: int| pos <= j < pos + count ==> is_ident_part(#[trigger] s[j]),
    ensures
        run(ByteClass::IdentPart, s, pos) >= count,
    decreases count,
{
    if count > 0 {
        lemma_ident_run_covers(s, pos + 1, (count - 1) as nat);
    }
}

/// A word of identifier bytes that is spelled at `pos` is no longer than
/// the identifier there.
pub proof fn lemma_word_in_ident(s: Seq<u8>, pos: int, word: Seq<u8>)
    requires
        word.len() > 0,
        is_word(word[0]),
        forall|j: int| 0 <= j < word.len() ==> is_ident_part(#[trigger] word[j]),
    ensures
        word_len(s, pos, word) <= ident_len(s, pos),
{
    if spells(s, pos, word) {
        lemma_spells_first(s, pos, word);
        assert forall|j: int| pos + 1 <= j < pos + word.len() implies is_ident_part(
            #[trigger] s[j],
        ) by {
            assert(s.subrange(pos, pos + word.len())[j - pos] == word[j - pos]);
        }
        lemma_ident_run_covers(s, pos + 1, (word.len() - 1) as nat);
    }
}

/// No keyword is longer than the identifier at the same place.
pub proof fn lemma_keywords_in_ident(s: Seq<u8>, pos: int)
    ensures
        word_len(s, pos, word_int()) <= ident_len(s, pos),
        word_len(s, pos, word_int8()) <= ident_len(s, pos),
        word_len(s, pos, word_int16()) <= ident_len(s, pos),
        word_len(s, pos, word_int32()) <= ident_len(s, pos),
        word_len(s, pos, word_int64()) <= ident_len(s, pos),
        word_len(s, pos, word_float32()) <= ident_len(s, pos),
        word_len(s, pos, word_float64()) <= ident_len(s, pos),
        word_len(s, pos, word_string()) <= ident_len(s, pos),
        word_len(s, pos, word_bool()) <= ident_len(s, pos),
        word_len(s, pos, word_map()) <= ident_len(s, pos),
        word_len(s, pos, word_type()) <= ident_len(s, pos),
        word_len(s, pos, word_struct()) <= ident_len(s, pos),
        word_len(s, pos, word_service()) <= ident_len(s, pos),
        word_len(s, pos, word_get()) <= ident_len(s, pos),
        word_len(s, pos, word_post()) <= ident_len(s, pos),
        word_len(s, pos, word_returns()) <= ident_len(s, pos),
{
    lemma_word_in_ident(s, pos, word_int());
    lemma_word_in_ident(s, pos, word_int8());
    lemma_word_in_ident(s, pos, word_int16());
    lemma_word_in_ident(s, pos, word_int32());
    lemma_word_in_ident(s, pos, word_int64());
    lemma_word_in_ident(s, pos, word_float32());
    lemma_word_in_ident(s, pos, word_float64());
    lemma_word_in_ident(s, pos, word_string());
    lemma_word_in_ident(s, pos, word_bool());
    lemma_word_in_ident(s, pos, word_map());
    lemma_word_in_ident(s, pos, word_type());
    lemma_word_in_ident(s, pos, word_struct());
    lemma_word_in_ident(s, pos, word_service());
    lemma_word_in_ident(s, pos, word_get());
    lemma_word_in_ident(s, pos, word_post());
    lemma_word_in_ident(s, pos, word_returns());
}

/// The kind of a text of identifier bytes: that of the keyword which it
/// is, else an identifier.
pub open spec fn word_kind(text: Seq<u8>) -> APITokenKind {
    if text == word_int() || text == word_int8() || text == word_int16() || text == word_int32()
        || text == word_int64() {
        APITokenKind::IntDataType
    } else if text == word_float32() || text == word_float64() {
        APITokenKind::FloatDataType
    } else if text == word_string() {
        APITokenKind::StringDataType
    } else if text == word_bool() {
        APITokenKind::BoolDataType
    } else if text == word_map() {
        APITokenKind::MapDataType
    } else if text == word_type() {
        APITokenKind::Type
    } else if text == word_struct() {
        APITokenKind::Struct
    } else if text == word_service() {
        APITokenKind::Service
    } else if text == word_get() || text == word_post() {
        APITokenKind::HttpMethod
    } else if text == word_returns() {
        APITokenKind::RespReturns
    } else {
        APITokenKind::Identifier
    }
}

/// Keywords and identifiers. Where a letter, a digit or an underscore
/// stands, the best match is as long as the identifier there; it is the
/// keyword which that text is, and an identifier where it is none. So a
/// keyword gives way to a longer identifier, and an identifier to a
/// keyword of its length.
#[verifier::rlimit(50)]
pub proof fn lemma_word_wins(s: Seq<u8>, pos: int)
    requires
        0 <= pos < s.len(),
        is_word(s[pos]),
    ensures
        pos + ident_len(s, pos) <= s.len(),
        best_match(s, pos) == Some(
            (word_kind(s.subrange(pos, pos + ident_len(s, pos))), ident_len(s, pos)),
        ),
{
    let n = ident_len(s, pos);
    lemma_run_bound(ByteClass::IdentPart, s, pos + 1);
    let text = s.subrange(pos, pos + n);
    let kind = word_kind(text);
    lemma_keywords_in_ident(s, pos);
    assert forall|word: Seq<u8>| (word_len(s, pos, word) == n) == (#[trigger] spells(s, pos, word)
        && word.len() == n) by {}
    assert forall|other: APITokenKind| #[trigger] rule_len(other, s, pos) <= n by {
        if rule_len(other, s, pos) > 0 {
            lemma_first_byte(other, s, pos);
        }
    }
    assert forall|other: APITokenKind| #[trigger]
        rule_len(other, s, pos) == n implies rank(kind) <= rank(other) by {
        lemma_first_byte(other, s, pos);
    }
    assert(rule_len(kind, s, pos) == n);
    lemma_winner_is_best(s, pos, kind, n);
}

/// Where no rule but one can begin with the byte at `pos`, that rule wins
/// with what it accepts, and nothing matches where it accepts nothing. So
/// it is with white space, with the symbols, with the backtick of a tag
/// annotation and with the slash of a route path.
pub proof fn lemma_only_rule_wins(s: Seq<u8>, pos: int, kind: APITokenKind)
    requires
        0 <= pos < s.len(),
        forall|other: APITokenKind| other != kind ==> !#[trigger] may_start(other, s[pos]),
    ensures
        best_match(s, pos) == if rule_len(kind, s, pos) > 0 {
            Some((kind, rule_len(kind, s, pos)))
        } else {
            None
        },
{
    let n = rule_len(kind, s, pos);
    assert forall|other: APITokenKind| other != kind implies #[trigger] rule_len(other, s, pos)
        == 0 by {
        if rule_len(other, s, pos) > 0 {
            lemma_first_byte(other, s, pos);
        }
    }
    if n > 0 {
        assert forall|other: APITokenKind| #[trigger] rule_len(other, s, pos) <= n by {
            if other != kind {
                assert(rule_len(other, s, pos) == 0);
            }
        }
        assert forall|other: APITokenKind| #[trigger]
            rule_len(other, s, pos) == n implies rank(kind) <= rank(other) by {
            if other != kind {
                assert(rule_len(other, s, pos) == 0);
            }
        }
        lemma_winner_is_best(s, pos, kind, n);
    } else {
        assert forall|other: APITokenKind| #[trigger] rule_len(other, s, pos) == 0 by {
            if other != kind {
                assert(rule_len(other, s, pos) == 0);
            }
        }
        lemma_no_rule_no_match(s, pos);
    }
}

/// Where an `@` stands, the best match is `@server` or `@handler` if the
/// bytes spell one of them, and nothing matches otherwise.
pub proof fn lemma_at_sign_wins(s: Seq<u8>, pos: int)
    requires
        0 <= pos < s.len(),
        s[pos] == '@' as u8,
    ensures
        best_match(s, pos) == if spells(s, pos, word_server()) {
            Some((APITokenKind::Server, 7nat))
        } else if spells(s, pos, word_handler()) {
            Some((APITokenKind::Handler, 8nat))
        } else {
            None
        },
{
    assert forall|other: APITokenKind|
        other != APITokenKind::Server && other != APITokenKind::Handler implies #[trigger] rule_len(
        other,
        s,
        pos,
    ) == 0 by {
        if rule_len(other, s, pos) > 0 {
            lemma_first_byte(other, s, pos);
        }
    }
    if spells(s, pos, word_server()) && spells(s, pos, word_handler()) {
        assert(s.subrange(pos, pos + 7)[1] == word_server()[1]);
        assert(s.subrange(pos, pos + 8)[1] == word_handler()[1]);
    }
    let server = rule_len(APITokenKind::Server, s, pos);
    let handler = rule_len(APITokenKind::Handler, s, pos);
    if server > 0 || handler > 0 {
        let kind = if server > 0 {
            APITokenKind::Server
        } else {
            APITokenKind::Handler
        };
        let n = rule_len(kind, s, pos);
        assert forall|other: APITokenKind| #[trigger] rule_len(other, s, pos) <= n by {
            if other != APITokenKind::Server && other != APITokenKind::Handler {
                assert(rule_len(other, s, pos) == 0);
            }
        }
        assert forall|other: APITokenKind| #[trigger]
            rule_len(other, s, pos) == n implies rank(kind) <= rank(other) by {
            if other != APITokenKind::Server && other != APITokenKind::Handler {
                assert(rule_len(other, s, pos) == 0);
            }
        }
        lemma_winner_is_best(s, pos, kind, n);
    } else {
        assert forall|other: APITokenKind| #[trigger] rule_len(other, s, pos) == 0 by {
            if other != APITokenKind::Server && other != APITokenKind::Handler {
                assert(rule_len(other, s, pos) == 0);
            }
        }
        lemma_no_rule_no_match(s, pos);
    }
}

/// Nothing matches at the end of the source, nor at a byte with which no
/// rule can begin.
pub proof fn lemma_no_start_no_match(s: Seq<u8>, pos: int)
    requires
        0 <= pos < s.len() ==> forall|kind: APITokenKind| !#[trigger] may_start(kind, s[pos]),
    ensures
        best_match(s, pos) is None,
{
    assert forall|kind: APITokenKind| #[trigger] rule_len(kind, s, pos) == 0 by {
        if rule_len(kind, s, pos) > 0 {
            lemma_first_byte(kind, s, pos);
        }
    }
    lemma_no_rule_no_match(s, pos);
}

/// The character of a kind of token that is a single symbol.
pub open spec fn symbol_of(kind: APITokenKind) -> Option<char> {
    match kind {
        APITokenKind::OpenBrace => Some('{'),
        APITokenKind::CloseBrace => Some('}'),
        APITokenKind::OpenParen => Some('('),
        APITokenKind::CloseParen => Some(')'),
        APITokenKind::OpenBracket => Some('['),
        APITokenKind::CloseBracket => Some(']'),
        APITokenKind::Colon => Some(':'),
        _ => None,
    }
}

/// Symbols. Where the character of a symbol stands, the best match is that
/// symbol, one byte long.
pub proof fn lemma_symbol_wins(s: Seq<u8>, pos: int, kind: APITokenKind)
    requires
        symbol_of(kind) matches Some(c) && byte_is(s, pos, c),
    ensures
        best_match(s, pos) == Some((kind, 1nat)),
{
    assert(s.subrange(pos, pos + 1) =~= seq![s[pos]]);
    lemma_only_rule_wins(s, pos, kind);
}

/// Whether a text is white space between tokens: one or more separator
/// bytes.
pub open spec fn is_blank_text(text: Seq<u8>) -> bool {
    text.len() > 0 && forall|i: int| 0 <= i < text.len() ==> is_space(#[trigger] text[i])
}

/// Whether a text is an identifier: a letter, a digit or an underscore,
/// and after it letters, digits, underscores and dollar signs.
pub open spec fn is_identifier_text(text: Seq<u8>) -> bool {
    text.len() > 0 && is_word(text[0]) && forall|i: int|
        1 <= i < text.len() ==> is_ident_part(#[trigger] text[i])
}

/// Whether a text is a route path: a slash, and after it letters, digits,
/// underscores and slashes, but no slash after a slash.
pub open spec fn is_route_path_text(text: Seq<u8>) -> bool {
    text.len() > 0 && text[0] == '/' as u8 && forall|i: int|
        1 <= i < text.len() ==> is_word(#[trigger] text[i]) || (text[i] == '/' as u8 && text[i
            - 1] != '/' as u8)
}

/// The first `count` bytes at `pos` are of a class exactly if the run of
/// that class at `pos` is as long.
pub proof fn lemma_run_is_longest(class: ByteClass, s: Seq<u8>, pos: int, count: nat)
    requires
        0 <= pos,
        pos + count <= s.len(),
    ensures
        (forall|j: int| pos <= j < pos + count ==> in_class(class, #[trigger] s[j])) <==> count
            <= run(class, s, pos),
    decreases count,
{
    if count > 0 {
        lemma_run_is_longest(class, s, pos + 1, (count - 1) as nat);
        if in_class(class, s[pos]) && (forall|j: int|
            pos + 1 <= j < pos + count ==> in_class(class, #[trigger] s[j])) {
            assert forall|j: int| pos <= j < pos + count implies in_class(
                class,
                #[trigger] s[j],
            ) by {}
        }
    }
}

/// The first `count` bytes at `pos` go on a route path exactly if the rest
/// of the path at `pos` is as long.
pub proof fn lemma_path_run_is_longest(s: Seq<u8>, pos: int, count: nat)
    requires
        1 <= pos,
        pos + count <= s.len(),
    ensures
        (forall|j: int|
            pos <= j < pos + count ==> is_word(#[trigger] s[j]) || (s[j] == '/' as u8 && s[j - 1]
                != '/' as u8)) <==> count <= path_run(s, pos, s[pos - 1] == '/' as u8),
    decreases count,
{
    if count > 0 {
        lemma_path_run_is_longest(s, pos + 1, (count - 1) as nat);
        let here = is_word(s[pos]) || (s[pos] == '/' as u8 && s[pos - 1] != '/' as u8);
        if here && (forall|j: int|
            pos + 1 <= j < pos + count ==> is_word(#[trigger] s[j]) || (s[j] == '/' as u8 && s[j
                - 1] != '/' as u8)) {
            assert forall|j: int| pos <= j < pos + count implies is_word(#[trigger] s[j]) || (s[j]
                == '/' as u8 && s[j - 1] != '/' as u8) by {}
        }
    }
}

/// The longest match within a rule. Of the texts that begin at `pos`, the
/// white space texts are those up to the length that the rule for white
/// space gives, and so for identifiers and for route paths: each of these
/// rules gives the length of the longest text of its kind.
pub proof fn lemma_rule_len_is_longest(s: Seq<u8>, pos: int, count: nat)
    requires
        0 <= pos,
        0 < count,
        pos + count <= s.len(),
    ensures
        is_blank_text(s.subrange(pos, pos + count)) <==> count <= rule_len(
            APITokenKind::Whitespace,
            s,
            pos,
        ),
        is_identifier_text(s.subrange(pos, pos + count)) <==> count <= rule_len(
            APITokenKind::Identifier,
            s,
            pos,
        ),
        is_route_path_text(s.subrange(pos, pos + count)) <==> count <= rule_len(
            APITokenKind::RoutePath,
            s,
            pos,
        ),
{
    let text = s.subrange(pos, pos + count);
    assert forall|i: int| 0 <= i < count implies #[trigger] text[i] == s[pos + i] by {}
    lemma_run_is_longest(ByteClass::Space, s, pos, count);
    if is_blank_text(text) {
        assert forall|j: int| pos <= j < pos + count implies is_space(#[trigger] s[j]) by {
            assert(text[j - pos] == s[j]);
        }
    }
    lemma_run_is_longest(ByteClass::IdentPart, s, pos + 1, (count - 1) as nat);
    if is_identifier_text(text) {
        assert forall|j: int| pos + 1 <= j < pos + count implies is_ident_part(#[trigger] s[j]) by {
            assert(text[j - pos] == s[j]);
        }
    }
    lemma_path_run_is_longest(s, pos + 1, (count - 1) as nat);
    if is_route_path_text(text) {
        assert forall|j: int| pos + 1 <= j < pos + count implies is_word(#[trigger] s[j]) || (s[j]
            == '/' as u8 && s[j - 1] != '/' as u8) by {
            assert(text[j - pos] == s[j]);
            assert(text[j - pos - 1] == s[j - 1]);
        }
    }
    if count <= rule_len(APITokenKind::RoutePath, s, pos) {
        assert forall|i: int| 1 <= i < text.len() implies is_word(#[trigger] text[i]) || (text[i]
            == '/' as u8 && text[i - 1] != '/' as u8) by {
            assert(text[i] == s[pos + i]);
            assert(text[i - 1] == s[pos + i - 1]);
            assert(is_word(s[pos + i]) || (s[pos + i] == '/' as u8 && s[pos + i - 1] != '/' as u8));
        }
    }
}

} // verus!
