//! Scanning ends at the first bytes that no rule accepts, and what stands
//! after them plays no part: the tokens of a source are the tokens of the
//! part of it that was scanned.

use crate::lexical::{
    best_match, blank_run, blank_width, byte_is, first_token, in_class, lemma_first_token_bounds,
    lemma_winner_is_best, path_run, rule_len, run, scan_end, scan_from, tag_end, wins, word_bool,
    word_float32, word_float64, word_get, word_handler, word_int, word_int16, word_int32,
    word_int64, word_int8, word_len, word_map, word_post, word_returns, word_server, word_service,
    word_string, word_struct, word_type, ByteClass,
};
use crate::token::APITokenKind;
use vstd::prelude::*;

verus! {

/// A run of bytes ends within the source.
pub proof fn lemma_run_bound(class: ByteClass, s: Seq<u8>, pos: int)
    requires
        0 <= pos <= s.len(),
    ensures
        pos + run(class, s, pos) <= s.len(),
    decreases s.len() - pos,
{
    if pos < s.len() && in_class(class, s[pos]) {
        lemma_run_bound(class, s, pos + 1);
    }
}

/// A run in the first `cut` bytes of a source is the run in the source, as
/// far as it lies before the cut.
pub proof fn lemma_run_take(class: ByteClass, s: Seq<u8>, cut: int, pos: int)
    requires
        0 <= pos,
        0 <= cut <= s.len(),
    ensures
        run(class, s.take(cut), pos) <= run(class, s, pos),
        pos + run(class, s, pos) <= cut ==> run(class, s.take(cut), pos) == run(class, s, pos),
        pos + run(class, s.take(cut), pos) < cut ==> run(class, s.take(cut), pos) == run(
            class,
            s,
            pos,
        ),
    decreases s.len() - pos,
{
    if pos < cut {
        assert(s.take(cut)[pos] == s[pos]);
        if in_class(class, s[pos]) {
            lemma_run_take(class, s, cut, pos + 1);
        }
    }
}

/// The rest of a route path ends within the source.
pub proof fn lemma_path_run_bound(s: Seq<u8>, pos: int, after_slash: bool)
    requires
        0 <= pos <= s.len(),
    ensures
        pos + path_run(s, pos, after_slash) <= s.len(),
    decreases s.len() - pos,
{
    if pos < s.len() {
        if in_class(ByteClass::Word, s[pos]) {
            lemma_path_run_bound(s, pos + 1, false);
        } else if s[pos] == '/' as u8 && !after_slash {
            lemma_path_run_bound(s, pos + 1, true);
        }
    }
}

/// The rest of a route path in the first `cut` bytes of a source is that
/// in the source, as far as it lies before the cut.
pub proof fn lemma_path_run_take(s: Seq<u8>, cut: int, pos: int, after_slash: bool)
    requires
        0 <= pos,
        0 <= cut <= s.len(),
    ensures
        path_run(s.take(cut), pos, after_slash) <= path_run(s, pos, after_slash),
        pos + path_run(s, pos, after_slash) <= cut ==> path_run(s.take(cut), pos, after_slash)
            == path_run(s, pos, after_slash),
    decreases s.len() - pos,
{
    if pos < cut {
        assert(s.take(cut)[pos] == s[pos]);
        if in_class(ByteClass::Word, s[pos]) {
            lemma_path_run_take(s, cut, pos + 1, false);
        } else if s[pos] == '/' as u8 && !after_slash {
            lemma_path_run_take(s, cut, pos + 1, true);
        }
    }
}

/// A white-space character ends within the source, and is the same in the
/// first `cut` bytes if it lies before the cut.
pub proof fn lemma_blank_width_take(s: Seq<u8>, cut: int, pos: int)
    requires
        0 <= pos,
        0 <= cut <= s.len(),
    ensures
        pos <= s.len() ==> pos + blank_width(s, pos) <= s.len(),
        blank_width(s.take(cut), pos) > 0 ==> blank_width(s.take(cut), pos) == blank_width(s, pos),
        pos + blank_width(s, pos) <= cut ==> blank_width(s.take(cut), pos) == blank_width(s, pos),
{
    let t = s.take(cut);
    if pos < cut {
        assert(t[pos] == s[pos]);
        if pos + 1 < cut {
            assert(t[pos + 1] == s[pos + 1]);
        }
        if pos + 2 < cut {
            assert(t[pos + 2] == s[pos + 2]);
        }
    }
}

/// A run of white space ends within the source.
pub proof fn lemma_blank_run_bound(s: Seq<u8>, pos: int)
    requires
        0 <= pos <= s.len(),
    ensures
        pos + blank_run(s, pos) <= s.len(),
    decreases s.len() - pos,
{
    lemma_blank_width_take(s, s.len() as int, pos);
    if blank_width(s, pos) > 0 {
        lemma_blank_run_bound(s, pos + blank_width(s, pos));
    }
}

/// A run of white space in the first `cut` bytes of a source is the run in
/// the source, if that lies before the cut, and also if no white space
/// follows it in the source.
pub proof fn lemma_blank_run_take(s: Seq<u8>, cut: int, pos: int)
    requires
        0 <= pos,
        0 <= cut <= s.len(),
    ensures
        pos + blank_run(s, pos) <= cut ==> blank_run(s.take(cut), pos) == blank_run(s, pos),
        blank_width(s, pos + blank_run(s.take(cut), pos)) == 0 ==> blank_run(s.take(cut), pos)
            == blank_run(s, pos),
    decreases s.len() - pos,
{
    lemma_blank_width_take(s, cut, pos);
    if pos <= s.len() {
        lemma_blank_run_bound(s, pos);
    }
    if blank_width(s, pos) > 0 && pos <= s.len() {
        lemma_blank_run_take(s, cut, pos + blank_width(s, pos));
    }
}

/// A tag annotation ends after its beginning, within the source, with a
/// backtick.
pub proof fn lemma_tag_end_bounds(s: Seq<u8>, pos: int)
    requires
        0 <= pos,
    ensures
        tag_end(s, pos) matches Some(end) ==> pos < end <= s.len() && byte_is(s, end - 1, '`'),
    decreases s.len() - pos,
{
    let key = run(ByteClass::Word, s, pos);
    let value = pos + key + 2;
    let quote = value + run(ByteClass::Unquoted, s, value);
    let next = quote + 1 + blank_run(s, quote + 1);
    if tag_end(s, pos) is Some {
        if !byte_is(s, next, '`') {
            lemma_tag_end_bounds(s, next);
        }
    }
}

/// A tag annotation in the first `cut` bytes of a source is one in the
/// source, and one in the source that ends before the cut is one in the
/// first `cut` bytes.
pub proof fn lemma_tag_end_take(s: Seq<u8>, cut: int, pos: int)
    requires
        0 <= pos,
        0 <= cut <= s.len(),
    ensures
        tag_end(s.take(cut), pos) is Some ==> tag_end(s, pos) == tag_end(s.take(cut), pos),
        tag_end(s, pos) matches Some(end) ==> (end <= cut ==> tag_end(s.take(cut), pos) == Some(
            end,
        )),
    decreases s.len() - pos,
{
    let t = s.take(cut);
    lemma_run_take(ByteClass::Word, s, cut, pos);
    if tag_end(t, pos) is Some {
        let key = run(ByteClass::Word, t, pos);
        let value = pos + key + 2;
        assert(t[pos + key] == s[pos + key]);
        assert(t[pos + key + 1] == s[pos + key + 1]);
        lemma_run_take(ByteClass::Unquoted, s, cut, value);
        let quote = value + run(ByteClass::Unquoted, t, value);
        let next = quote + 1 + blank_run(t, quote + 1);
        lemma_blank_run_take(s, cut, quote + 1);
        if byte_is(t, next, '`') {
            assert(t[next] == s[next]);
        } else {
            lemma_tag_end_bounds(t, next);
            lemma_run_take(ByteClass::Word, s, cut, next);
            assert(t[next] == s[next]);
            lemma_tag_end_take(s, cut, next);
        }
    }
    if tag_end(s, pos) is Some && tag_end(s, pos)->0 <= cut {
        let key = run(ByteClass::Word, s, pos);
        let value = pos + key + 2;
        let quote = value + run(ByteClass::Unquoted, s, value);
        let next = quote + 1 + blank_run(s, quote + 1);
        lemma_tag_end_bounds(s, pos);
        if !byte_is(s, next, '`') {
            lemma_tag_end_bounds(s, next);
            lemma_tag_end_take(s, cut, next);
        }
        assert(next < cut);
        assert(t[pos + key] == s[pos + key]);
        assert(t[pos + key + 1] == s[pos + key + 1]);
        lemma_run_take(ByteClass::Unquoted, s, cut, value);
        lemma_blank_run_take(s, cut, quote + 1);
        assert(t[next] == s[next]);
    }
}

/// A word that is spelled in the first `cut` bytes of a source is spelled
/// in the source, and a word of the source that ends before the cut is
/// spelled in the first `cut` bytes.
pub proof fn lemma_word_len_take(s: Seq<u8>, cut: int, pos: int, word: Seq<u8>)
    requires
        0 <= pos <= s.len(),
        0 <= cut <= s.len(),
    ensures
        word_len(s.take(cut), pos, word) <= word_len(s, pos, word),
        pos + word_len(s, pos, word) <= cut ==> word_len(s.take(cut), pos, word) == word_len(
            s,
            pos,
            word,
        ),
        pos + word_len(s, pos, word) <= s.len(),
{
    if pos + word.len() <= cut {
        assert(s.take(cut).subrange(pos, pos + word.len()) =~= s.subrange(pos, pos + word.len()));
    }
}

/// What a rule accepts ends within the source. In the first `cut` bytes of
/// a source a rule accepts no more than in the source, and as much where
/// what it accepts in the source ends before the cut.
pub proof fn lemma_rule_len_take(kind: APITokenKind, s: Seq<u8>, cut: int, pos: int)
    requires
        0 <= pos <= s.len(),
        0 <= cut <= s.len(),
    ensures
        pos + rule_len(kind, s, pos) <= s.len(),
        rule_len(kind, s.take(cut), pos) <= rule_len(kind, s, pos),
        pos + rule_len(kind, s, pos) <= cut ==> rule_len(kind, s.take(cut), pos) == rule_len(
            kind,
            s,
            pos,
        ),
{
    let t = s.take(cut);
    if pos < cut {
        assert(t[pos] == s[pos]);
    }
    match kind {
        APITokenKind::Whitespace => {
            lemma_run_take(ByteClass::Space, s, cut, pos);
            lemma_run_bound(ByteClass::Space, s, pos);
        },
        APITokenKind::OpenBrace => lemma_word_len_take(s, cut, pos, seq!['{' as u8]),
        APITokenKind::CloseBrace => lemma_word_len_take(s, cut, pos, seq!['}' as u8]),
        APITokenKind::OpenParen => lemma_word_len_take(s, cut, pos, seq!['(' as u8]),
        APITokenKind::CloseParen => lemma_word_len_take(s, cut, pos, seq![')' as u8]),
        APITokenKind::OpenBracket => lemma_word_len_take(s, cut, pos, seq!['[' as u8]),
        APITokenKind::CloseBracket => lemma_word_len_take(s, cut, pos, seq![']' as u8]),
        APITokenKind::Colon => lemma_word_len_take(s, cut, pos, seq![':' as u8]),
        APITokenKind::IntDataType => {
            lemma_word_len_take(s, cut, pos, word_int());
            lemma_word_len_take(s, cut, pos, word_int8());
            lemma_word_len_take(s, cut, pos, word_int16());
            lemma_word_len_take(s, cut, pos, word_int32());
            lemma_word_len_take(s, cut, pos, word_int64());
        },
        APITokenKind::FloatDataType => {
            lemma_word_len_take(s, cut, pos, word_float32());
            lemma_word_len_take(s, cut, pos, word_float64());
        },
        APITokenKind::StringDataType => lemma_word_len_take(s, cut, pos, word_string()),
        APITokenKind::BoolDataType => lemma_word_len_take(s, cut, pos, word_bool()),
        APITokenKind::MapDataType => lemma_word_len_take(s, cut, pos, word_map()),
        APITokenKind::Type => lemma_word_len_take(s, cut, pos, word_type()),
        APITokenKind::Identifier => {
            lemma_run_take(ByteClass::IdentPart, s, cut, pos + 1);
            if pos < s.len() {
                lemma_run_bound(ByteClass::IdentPart, s, pos + 1);
            }
        },
        APITokenKind::Struct => lemma_word_len_take(s, cut, pos, word_struct()),
        APITokenKind::TagAnnotation => {
            lemma_tag_end_take(s, cut, pos + 1);
            lemma_tag_end_bounds(s, pos + 1);
            lemma_tag_end_bounds(t, pos + 1);
        },
        APITokenKind::Server => lemma_word_len_take(s, cut, pos, word_server()),
        APITokenKind::Service => lemma_word_len_take(s, cut, pos, word_service()),
        APITokenKind::Handler => lemma_word_len_take(s, cut, pos, word_handler()),
        APITokenKind::HttpMethod => {
            lemma_word_len_take(s, cut, pos, word_get());
            lemma_word_len_take(s, cut, pos, word_post());
        },
        APITokenKind::RoutePath => {
            lemma_path_run_take(s, cut, pos + 1, true);
            if pos < s.len() {
                lemma_path_run_bound(s, pos + 1, true);
            }
        },
        APITokenKind::RespReturns => lemma_word_len_take(s, cut, pos, word_returns()),
    }
}

/// The best match is a rule that wins, and its text ends within the source.
pub proof fn lemma_best_match_wins(s: Seq<u8>, pos: int)
    requires
        0 <= pos <= s.len(),
    ensures
        best_match(s, pos) matches Some((kind, len)) ==> wins(s, pos, kind, len) && pos + len
            <= s.len(),
{
    if best_match(s, pos) is Some {
        let (kind, len) = choose|kind: APITokenKind, len: nat| wins(s, pos, kind, len);
        lemma_rule_len_take(kind, s, s.len() as int, pos);
    }
}

/// The best match in the first `cut` bytes of a source is the best match
/// in the source, where that ends before the cut.
pub proof fn lemma_best_match_take(s: Seq<u8>, cut: int, pos: int)
    requires
        0 <= pos <= s.len(),
        0 <= cut <= s.len(),
        best_match(s, pos) matches Some((_, len)) && pos + len <= cut,
    ensures
        best_match(s.take(cut), pos) == best_match(s, pos),
{
    lemma_best_match_wins(s, pos);
    let (kind, len) = best_match(s, pos)->0;
    let t = s.take(cut);
    assert forall|other: APITokenKind| #[trigger]
        rule_len(other, t, pos) == rule_len(other, s, pos) by {
        assert(rule_len(other, s, pos) <= len);
        lemma_rule_len_take(other, s, cut, pos);
    }
    assert(wins(t, pos, kind, len));
    lemma_winner_is_best(t, pos, kind, len);
}

/// Scanning ends within the source, at a place where no rule accepts
/// anything.
pub proof fn lemma_scan_end(s: Seq<u8>, pos: int)
    requires
        0 <= pos <= s.len(),
    ensures
        pos <= scan_end(s, pos) <= s.len(),
        best_match(s, scan_end(s, pos)) is None,
    decreases s.len() - pos,
{
    lemma_best_match_wins(s, pos);
    match best_match(s, pos) {
        Some((_, len)) => {
            lemma_scan_end(s, pos + len);
        },
        None => {},
    }
}

/// The first token of the scanned part of a source is the first token of
/// the source.
pub proof fn lemma_first_token_take(s: Seq<u8>, pos: int)
    requires
        0 <= pos <= s.len(),
    ensures
        first_token(s.take(scan_end(s, pos)), pos) == first_token(s, pos),
        first_token(s, pos) matches Some(token) ==> pos < token.end <= scan_end(s, pos)
            && scan_end(s, token.end) == scan_end(s, pos),
    decreases s.len() - pos,
{
    let cut = scan_end(s, pos);
    let t = s.take(cut);
    lemma_scan_end(s, pos);
    lemma_best_match_wins(s, pos);
    match best_match(s, pos) {
        Some((kind, len)) => {
            lemma_scan_end(s, pos + len);
            lemma_best_match_take(s, cut, pos);
            if kind == APITokenKind::Whitespace {
                lemma_first_token_take(s, pos + len);
            } else {
                assert(t.subrange(pos, pos + len) =~= s.subrange(pos, pos + len));
            }
        },
        None => {
            assert(cut == pos);
            if best_match(t, pos) is Some {
                lemma_best_match_wins(t, pos);
            }
        },
    }
}

/// The tokens of a source are the tokens of its scanned part: scanning
/// ends at the first bytes that no rule accepts, and what stands after
/// them gives no token and changes none.
pub proof fn lemma_scan_take(s: Seq<u8>, pos: int)
    requires
        0 <= pos <= s.len(),
    ensures
        scan_from(s.take(scan_end(s, pos)), pos) == scan_from(s, pos),
        forall|i: int|
            0 <= i < scan_from(s, pos).len() ==> pos <= (#[trigger] scan_from(s, pos)[i]).start
                < scan_from(s, pos)[i].end <= scan_end(s, pos),
    decreases s.len() - pos,
{
    let cut = scan_end(s, pos);
    lemma_first_token_take(s, pos);
    lemma_first_token_bounds(s, pos);
    match first_token(s, pos) {
        Some(token) => {
            lemma_scan_take(s, token.end);
            let rest = scan_from(s, token.end);
            assert forall|i: int| 0 <= i < scan_from(s, pos).len() implies pos <= (
            #[trigger] scan_from(s, pos)[i]).start < scan_from(s, pos)[i].end <= cut by {
                if i > 0 {
                    assert(scan_from(s, pos)[i] == rest[i - 1]);
                }
            }
        },
        None => {},
    }
}

} // verus!
