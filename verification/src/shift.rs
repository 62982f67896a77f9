//! What a rule accepts at a place depends only on the bytes from that
//! place on: bytes that are put before a source move its tokens, and
//! change nothing else.

use crate::lexical::{
    best_match, blank_run, blank_width, first_token, in_class, lemma_first_token_bounds,
    lemma_winner_is_best, path_run, rule_len, run, scan_from, tag_end, wins, word_bool,
    word_float32, word_float64, word_get, word_handler, word_int, word_int16, word_int32,
    word_int64, word_int8, word_len, word_map, word_post, word_returns, word_server, word_service,
    word_string, word_struct, word_type, ByteClass,
};
use crate::token::{APITokenKind, TokenView};
use crate::truncation::{lemma_best_match_wins, lemma_blank_width_take, lemma_tag_end_bounds};
use vstd::prelude::*;

verus! {

/// A token moved by `by` bytes.
pub open spec fn moved(token: TokenView, by: int) -> TokenView {
    TokenView { kind: token.kind, text: token.text, start: token.start + by, end: token.end + by }
}

/// Tokens moved by `by` bytes.
pub open spec fn all_moved(tokens: Seq<TokenView>, by: int) -> Seq<TokenView> {
    Seq::new(tokens.len(), |i: int| moved(tokens[i], by))
}

/// A run in a source is the run in the source with bytes put before it.
pub proof fn lemma_run_shift(class: ByteClass, before: Seq<u8>, s: Seq<u8>, pos: int)
    requires
        0 <= pos,
    ensures
        run(class, before + s, before.len() + pos) == run(class, s, pos),
    decreases s.len() - pos,
{
    if pos < s.len() {
        assert((before + s)[before.len() + pos] == s[pos]);
        if in_class(class, s[pos]) {
            lemma_run_shift(class, before, s, pos + 1);
        }
    }
}

/// The rest of a route path is the same with bytes put before the source.
pub proof fn lemma_path_run_shift(before: Seq<u8>, s: Seq<u8>, pos: int, after_slash: bool)
    requires
        0 <= pos,
    ensures
        path_run(before + s, before.len() + pos, after_slash) == path_run(s, pos, after_slash),
    decreases s.len() - pos,
{
    if pos < s.len() {
        assert((before + s)[before.len() + pos] == s[pos]);
        if in_class(ByteClass::Word, s[pos]) {
            lemma_path_run_shift(before, s, pos + 1, false);
        } else if s[pos] == '/' as u8 && !after_slash {
            lemma_path_run_shift(before, s, pos + 1, true);
        }
    }
}

/// A white-space character is the same with bytes put before the source.
pub proof fn lemma_blank_width_shift(before: Seq<u8>, s: Seq<u8>, pos: int)
    requires
        0 <= pos,
    ensures
        blank_width(before + s, before.len() + pos) == blank_width(s, pos),
{
    let whole = before + s;
    let n = before.len() as int;
    if pos < s.len() {
        assert(whole[n + pos] == s[pos]);
    }
    if pos + 1 < s.len() {
        assert(whole[n + pos + 1] == s[pos + 1]);
    }
    if pos + 2 < s.len() {
        assert(whole[n + pos + 2] == s[pos + 2]);
    }
}

/// A run of white space is the same with bytes put before the source.
pub proof fn lemma_blank_run_shift(before: Seq<u8>, s: Seq<u8>, pos: int)
    requires
        0 <= pos,
    ensures
        blank_run(before + s, before.len() + pos) == blank_run(s, pos),
    decreases s.len() - pos,
{
    lemma_blank_width_shift(before, s, pos);
    if blank_width(s, pos) > 0 {
        if pos <= s.len() {
            lemma_blank_width_take(s, s.len() as int, pos);
        }
        lemma_blank_run_shift(before, s, pos + blank_width(s, pos));
    }
}

/// A tag annotation ends at the same byte with bytes put before the source.
pub proof fn lemma_tag_end_shift(before: Seq<u8>, s: Seq<u8>, pos: int)
    requires
        0 <= pos,
    ensures
        tag_end(before + s, before.len() + pos) == match tag_end(s, pos) {
            Some(end) => Some(end + before.len()),
            None => None,
        },
    decreases s.len() - pos,
{
    let whole = before + s;
    let n = before.len() as int;
    let key = run(ByteClass::Word, s, pos);
    let value = pos + key + 2;
    let quote = value + run(ByteClass::Unquoted, s, value);
    let next = quote + 1 + blank_run(s, quote + 1);
    lemma_run_shift(ByteClass::Word, before, s, pos);
    lemma_run_shift(ByteClass::Unquoted, before, s, value);
    lemma_blank_run_shift(before, s, quote + 1);
    if pos + key < s.len() {
        assert(whole[n + pos + key] == s[pos + key]);
    }
    if pos + key + 1 < s.len() {
        assert(whole[n + pos + key + 1] == s[pos + key + 1]);
    }
    if next < s.len() {
        assert(whole[n + next] == s[next]);
        if key > 0 && quote < s.len() {
            lemma_tag_end_shift(before, s, next);
        }
    }
}

/// A word is spelled at the same byte with bytes put before the source.
pub proof fn lemma_word_len_shift(before: Seq<u8>, s: Seq<u8>, pos: int, word: Seq<u8>)
    requires
        0 <= pos,
    ensures
        word_len(before + s, before.len() + pos, word) == word_len(s, pos, word),
{
    let whole = before + s;
    let n = before.len() as int;
    if pos + word.len() <= s.len() {
        assert(whole.subrange(n + pos, n + pos + word.len()) =~= s.subrange(pos, pos + word.len()));
    }
}

/// A rule accepts the same at a byte with bytes put before the source.
pub proof fn lemma_rule_len_shift(kind: APITokenKind, before: Seq<u8>, s: Seq<u8>, pos: int)
    requires
        0 <= pos,
    ensures
        rule_len(kind, before + s, before.len() + pos) == rule_len(kind, s, pos),
{
    let whole = before + s;
    let n = before.len() as int;
    if pos < s.len() {
        assert(whole[n + pos] == s[pos]);
    }
    match kind {
        APITokenKind::Whitespace => lemma_run_shift(ByteClass::Space, before, s, pos),
        APITokenKind::OpenBrace => lemma_word_len_shift(before, s, pos, seq!['{' as u8]),
        APITokenKind::CloseBrace => lemma_word_len_shift(before, s, pos, seq!['}' as u8]),
        APITokenKind::OpenParen => lemma_word_len_shift(before, s, pos, seq!['(' as u8]),
        APITokenKind::CloseParen => lemma_word_len_shift(before, s, pos, seq![')' as u8]),
        APITokenKind::OpenBracket => lemma_word_len_shift(before, s, pos, seq!['[' as u8]),
        APITokenKind::CloseBracket => lemma_word_len_shift(before, s, pos, seq![']' as u8]),
        APITokenKind::Colon => lemma_word_len_shift(before, s, pos, seq![':' as u8]),
        APITokenKind::IntDataType => {
            lemma_word_len_shift(before, s, pos, word_int());
            lemma_word_len_shift(before, s, pos, word_int8());
            lemma_word_len_shift(before, s, pos, word_int16());
            lemma_word_len_shift(before, s, pos, word_int32());
            lemma_word_len_shift(before, s, pos, word_int64());
        },
        APITokenKind::FloatDataType => {
            lemma_word_len_shift(before, s, pos, word_float32());
            lemma_word_len_shift(before, s, pos, word_float64());
        },
        APITokenKind::StringDataType => lemma_word_len_shift(before, s, pos, word_string()),
        APITokenKind::BoolDataType => lemma_word_len_shift(before, s, pos, word_bool()),
        APITokenKind::MapDataType => lemma_word_len_shift(before, s, pos, word_map()),
        APITokenKind::Type => lemma_word_len_shift(before, s, pos, word_type()),
        APITokenKind::Identifier => lemma_run_shift(ByteClass::IdentPart, before, s, pos + 1),
        APITokenKind::Struct => lemma_word_len_shift(before, s, pos, word_struct()),
        APITokenKind::TagAnnotation => {
            lemma_tag_end_shift(before, s, pos + 1);
            lemma_tag_end_bounds(s, pos + 1);
        },
        APITokenKind::Server => lemma_word_len_shift(before, s, pos, word_server()),
        APITokenKind::Service => lemma_word_len_shift(before, s, pos, word_service()),
        APITokenKind::Handler => lemma_word_len_shift(before, s, pos, word_handler()),
        APITokenKind::HttpMethod => {
            lemma_word_len_shift(before, s, pos, word_get());
            lemma_word_len_shift(before, s, pos, word_post());
        },
        APITokenKind::RoutePath => lemma_path_run_shift(before, s, pos + 1, true),
        APITokenKind::RespReturns => lemma_word_len_shift(before, s, pos, word_returns()),
    }
}

/// The best match is the same at a byte with bytes put before the source.
pub proof fn lemma_best_match_shift(before: Seq<u8>, s: Seq<u8>, pos: int)
    requires
        0 <= pos,
    ensures
        best_match(before + s, before.len() + pos) == best_match(s, pos),
{
    let whole = before + s;
    let at = before.len() + pos;
    assert forall|kind: APITokenKind|
        #![trigger rule_len(kind, whole, at)]
        #![trigger rule_len(kind, s, pos)]
        rule_len(kind, whole, at) == rule_len(kind, s, pos) by {
        lemma_rule_len_shift(kind, before, s, pos);
    }
    assert forall|kind: APITokenKind, len: nat| wins(whole, at, kind, len) == wins(
        s,
        pos,
        kind,
        len,
    ) by {
        assert(rule_len(kind, whole, at) == rule_len(kind, s, pos));
    }
    if best_match(s, pos) is Some {
        let (kind, len) = choose|kind: APITokenKind, len: nat| wins(s, pos, kind, len);
        assert(wins(whole, at, kind, len));
        lemma_winner_is_best(whole, at, kind, len);
    } else {
        assert forall|kind: APITokenKind, len: nat| !wins(whole, at, kind, len) by {
            assert(!wins(s, pos, kind, len));
        }
    }
}

/// The first token is the same, but moved, with bytes put before the
/// source.
pub proof fn lemma_first_token_shift(before: Seq<u8>, s: Seq<u8>, pos: int)
    requires
        0 <= pos <= s.len(),
    ensures
        first_token(before + s, before.len() + pos) == match first_token(s, pos) {
            Some(token) => Some(moved(token, before.len() as int)),
            None => None,
        },
    decreases s.len() - pos,
{
    let whole = before + s;
    let n = before.len() as int;
    lemma_best_match_shift(before, s, pos);
    lemma_best_match_wins(s, pos);
    match best_match(s, pos) {
        Some((kind, len)) => {
            if kind == APITokenKind::Whitespace {
                lemma_first_token_shift(before, s, pos + len);
            } else {
                assert(whole.subrange(n + pos, n + pos + len) =~= s.subrange(pos, pos + len));
            }
        },
        None => {},
    }
}

/// The tokens are the same, but moved, with bytes put before the source.
pub proof fn lemma_scan_shift(before: Seq<u8>, s: Seq<u8>, pos: int)
    requires
        0 <= pos <= s.len(),
    ensures
        scan_from(before + s, before.len() + pos) == all_moved(
            scan_from(s, pos),
            before.len() as int,
        ),
    decreases s.len() - pos,
{
    let n = before.len() as int;
    lemma_first_token_shift(before, s, pos);
    lemma_first_token_bounds(s, pos);
    match first_token(s, pos) {
        Some(token) => {
            lemma_scan_shift(before, s, token.end);
            assert(scan_from(before + s, n + pos) =~= all_moved(scan_from(s, pos), n));
        },
        None => {
            assert(scan_from(before + s, n + pos) =~= all_moved(scan_from(s, pos), n));
        },
    }
}

} // verus!
