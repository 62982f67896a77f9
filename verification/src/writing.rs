//! Writing words down as a source text, and the law that scanning the
//! text gives the words back.

use crate::lexical::{
    in_class, path_run, is_ident_part, best_match, first_token, is_space, is_word,
    lemma_winner_is_best, rule_len, run, scan_from, spells, tag_len, wins, word_bool, word_float32,
    word_float64, word_get, word_handler, word_int, word_int16, word_int32, word_int64, word_int8,
    word_len, word_map, word_post, word_returns, word_server, word_service, word_string,
    word_struct, word_type, ByteClass,
};
use crate::munch::{
    lemma_keywords_in_ident, is_identifier_text, is_route_path_text, lemma_at_sign_wins,
    lemma_first_byte, lemma_only_rule_wins, lemma_path_run_is_longest, lemma_rule_len_is_longest,
    lemma_run_is_longest, lemma_symbol_wins, lemma_word_wins, symbol_of, word_kind,
};
use crate::printing::{word_of, Word};
use crate::shift::{all_moved, lemma_scan_shift};
use crate::token::{APITokenKind, TokenView};
use crate::truncation::{
    lemma_best_match_take, lemma_best_match_wins, lemma_path_run_bound, lemma_rule_len_take,
    lemma_run_bound, lemma_tag_end_take,
};
use vstd::prelude::*;
use vstd::utf8::{encode_utf8, encode_utf8_decode_utf8};

verus! {

/// Whether a byte stands in none of the fixed words and goes on neither an
/// identifier nor a route path: it is no letter, no digit, no underscore,
/// no dollar sign, no slash, no `@` and no symbol. The space is such a
/// byte.
pub open spec fn breaks_words(b: u8) -> bool {
    &&& !is_ident_part(b)
    &&& b != '/' as u8
    &&& b != '@' as u8
    &&& b != '{' as u8
    &&& b != '}' as u8
    &&& b != '(' as u8
    &&& b != ')' as u8
    &&& b != '[' as u8
    &&& b != ']' as u8
    &&& b != ':' as u8
}

/// A word that is spelled before a byte which it does not hold ends
/// before that byte.
proof fn lemma_word_before_space(s: Seq<u8>, pos: int, space: int, word: Seq<u8>)
    requires
        0 <= pos <= space < s.len(),
        forall|i: int| 0 <= i < word.len() ==> #[trigger] word[i] != s[space],
    ensures
        pos + word_len(s, pos, word) <= space,
{
    if spells(s, pos, word) && pos + word.len() > space {
        assert(s.subrange(pos, pos + word.len())[space - pos] == word[space - pos]);
    }
}

/// No rule but those for white space and for tag annotations accepts a
/// text with a space in it, or with another byte that breaks words: what
/// such a rule accepts before such a byte ends before it.
pub proof fn lemma_match_ends_before_space(kind: APITokenKind, s: Seq<u8>, pos: int, space: int)
    requires
        0 <= pos <= space < s.len(),
        breaks_words(s[space]),
        kind != APITokenKind::Whitespace,
        kind != APITokenKind::TagAnnotation,
    ensures
        pos + rule_len(kind, s, pos) <= space,
{
    match kind {
        APITokenKind::OpenBrace => lemma_word_before_space(s, pos, space, seq!['{' as u8]),
        APITokenKind::CloseBrace => lemma_word_before_space(s, pos, space, seq!['}' as u8]),
        APITokenKind::OpenParen => lemma_word_before_space(s, pos, space, seq!['(' as u8]),
        APITokenKind::CloseParen => lemma_word_before_space(s, pos, space, seq![')' as u8]),
        APITokenKind::OpenBracket => lemma_word_before_space(s, pos, space, seq!['[' as u8]),
        APITokenKind::CloseBracket => lemma_word_before_space(s, pos, space, seq![']' as u8]),
        APITokenKind::Colon => lemma_word_before_space(s, pos, space, seq![':' as u8]),
        APITokenKind::IntDataType => {
            lemma_word_before_space(s, pos, space, word_int());
            lemma_word_before_space(s, pos, space, word_int8());
            lemma_word_before_space(s, pos, space, word_int16());
            lemma_word_before_space(s, pos, space, word_int32());
            lemma_word_before_space(s, pos, space, word_int64());
        },
        APITokenKind::FloatDataType => {
            lemma_word_before_space(s, pos, space, word_float32());
            lemma_word_before_space(s, pos, space, word_float64());
        },
        APITokenKind::StringDataType => lemma_word_before_space(s, pos, space, word_string()),
        APITokenKind::BoolDataType => lemma_word_before_space(s, pos, space, word_bool()),
        APITokenKind::MapDataType => lemma_word_before_space(s, pos, space, word_map()),
        APITokenKind::Type => lemma_word_before_space(s, pos, space, word_type()),
        APITokenKind::Identifier => {
            if pos < space && is_word(s[pos]) {
                lemma_run_bound(ByteClass::IdentPart, s, pos + 1);
                let count = run(ByteClass::IdentPart, s, pos + 1);
                lemma_run_is_longest(ByteClass::IdentPart, s, pos + 1, count);
            }
        },
        APITokenKind::Struct => lemma_word_before_space(s, pos, space, word_struct()),
        APITokenKind::Server => lemma_word_before_space(s, pos, space, word_server()),
        APITokenKind::Service => lemma_word_before_space(s, pos, space, word_service()),
        APITokenKind::Handler => lemma_word_before_space(s, pos, space, word_handler()),
        APITokenKind::HttpMethod => {
            lemma_word_before_space(s, pos, space, word_get());
            lemma_word_before_space(s, pos, space, word_post());
        },
        APITokenKind::RoutePath => {
            if pos < space && s[pos] == '/' as u8 {
                lemma_path_run_bound(s, pos + 1, true);
                let count = crate::lexical::path_run(s, pos + 1, true);
                lemma_path_run_is_longest(s, pos + 1, count);
            }
        },
        APITokenKind::RespReturns => lemma_word_before_space(s, pos, space, word_returns()),
        APITokenKind::Whitespace => {},
        APITokenKind::TagAnnotation => {},
    }
}

/// The bytes of a word as it is written: its text, and a space after it.
pub open spec fn write_word(word: Word) -> Seq<u8> {
    encode_utf8(word.text) + seq![' ' as u8]
}

/// Whether bytes are white space between two words: separator bytes and
/// nothing else. There may be none.
pub open spec fn is_gap(gap: Seq<u8>) -> bool {
    forall|i: int| 0 <= i < gap.len() ==> is_space(#[trigger] gap[i])
}

/// Whether a byte may stand right after written bytes that begin with
/// `first` without being read as a part of them. After a word of letters,
/// digits and underscores, be it a keyword or an identifier, it must be no
/// byte that goes on an identifier; after a route path it must be no byte
/// that goes on a path; after a symbol, a tag annotation, `@server` and
/// `@handler` every byte may stand. A separator may stand everywhere.
pub open spec fn may_follow(first: u8, b: u8) -> bool {
    if is_word(first) {
        !is_ident_part(b)
    } else if first == '/' as u8 {
        !is_word(b) && b != '/' as u8
    } else {
        true
    }
}

/// Whether there is a gap for each word, and where a gap is empty, the
/// word that follows begins with a byte that may follow the word before.
pub open spec fn are_gaps(gaps: Seq<Seq<u8>>, words: Seq<Word>) -> bool {
    &&& gaps.len() == words.len()
    &&& forall|i: int| 0 <= i < gaps.len() ==> is_gap(#[trigger] gaps[i])
    &&& forall|i: int|
        0 <= i < gaps.len() - 1 && (#[trigger] gaps[i]).len() == 0 ==> may_follow(
            encode_utf8(words[i].text)[0],
            encode_utf8(words[i + 1].text)[0],
        )
}

/// The bytes of words as they are written: one after the other, each with
/// its gap of white space after it.
pub open spec fn write_words(words: Seq<Word>, gaps: Seq<Seq<u8>>) -> Seq<u8>
    decreases words.len(),
{
    if words.len() == 0 || gaps.len() == 0 {
        Seq::empty()
    } else {
        encode_utf8(words[0].text) + gaps[0] + write_words(words.skip(1), gaps.skip(1))
    }
}

/// Whether a word is read as it is written: the best match at the
/// beginning of its written bytes is its kind with its text, and it is no
/// white space.
#[verifier::opaque]
pub open spec fn well_written(word: Word) -> bool {
    word.kind != APITokenKind::Whitespace && best_match(write_word(word), 0) == Some(
        (word.kind, encode_utf8(word.text).len()),
    )
}

/// Whether tokens spell the given words, one token for each word.
pub open spec fn spells_words(tokens: Seq<TokenView>, words: Seq<Word>) -> bool {
    tokens.len() == words.len() && forall|i: int|
        0 <= i < words.len() ==> word_of(#[trigger] tokens[i]) == words[i]
}

/// A word that is well written is the best match of its own bytes, and
/// begins with no separator.
pub proof fn lemma_well_written_alone(word: Word)
    requires
        well_written(word),
    ensures
        word.kind != APITokenKind::Whitespace,
        encode_utf8(word.text).len() > 0,
        !is_space(encode_utf8(word.text)[0]),
        best_match(encode_utf8(word.text), 0) == Some((word.kind, encode_utf8(word.text).len())),
{
    reveal(well_written);
    let text = encode_utf8(word.text);
    let s = write_word(word);
    lemma_best_match_wins(s, 0);
    lemma_first_byte(word.kind, s, 0);
    assert(s.take(text.len() as int) =~= text);
    lemma_best_match_take(s, text.len() as int, 0);
    assert(s[0] == text[0]);
}

/// A run of bytes of a class ends before a byte that is not of the class.
proof fn lemma_run_ends_before(class: ByteClass, s: Seq<u8>, pos: int, at: int)
    requires
        0 <= pos <= at < s.len(),
        !in_class(class, s[at]),
    ensures
        pos + run(class, s, pos) <= at,
    decreases at - pos,
{
    if pos < at && in_class(class, s[pos]) {
        lemma_run_ends_before(class, s, pos + 1, at);
    }
}

/// The rest of a route path ends before a byte that goes on no path.
proof fn lemma_path_ends_before(s: Seq<u8>, pos: int, at: int, after_slash: bool)
    requires
        0 <= pos <= at < s.len(),
        !is_word(s[at]),
        s[at] != '/' as u8,
    ensures
        pos + path_run(s, pos, after_slash) <= at,
    decreases at - pos,
{
    if pos < at {
        if in_class(ByteClass::Word, s[pos]) {
            lemma_path_ends_before(s, pos + 1, at, false);
        } else if s[pos] == '/' as u8 && !after_slash {
            lemma_path_ends_before(s, pos + 1, at, true);
        }
    }
}

/// Bytes that are read as one token of their own are read so when a byte
/// that may follow them stands after them, and then any bytes.
#[verifier::rlimit(50)]
pub proof fn lemma_match_before_follower(s: Seq<u8>, len: nat, kind: APITokenKind)
    requires
        0 < len < s.len(),
        kind != APITokenKind::Whitespace,
        best_match(s.take(len as int), 0) == Some((kind, len)),
        may_follow(s[0], s[len as int]),
    ensures
        best_match(s, 0) == Some((kind, len)),
{
    let t = s.take(len as int);
    lemma_best_match_wins(t, 0);
    lemma_first_byte(kind, t, 0);
    assert(t[0] == s[0]);
    assert forall|other: APITokenKind|
        #![trigger rule_len(other, s, 0)]
        #![trigger rule_len(other, t, 0)]
        rule_len(other, s, 0) == rule_len(other, t, 0) by {
        lemma_rule_len_take(other, s, len as int, 0);
        if rule_len(other, s, 0) > 0 {
            lemma_first_byte(other, s, 0);
            if other == APITokenKind::TagAnnotation {
                lemma_tag_end_take(s, len as int, 1);
            } else if other == APITokenKind::RoutePath {
                lemma_path_ends_before(s, 1, len as int, true);
            } else if other == APITokenKind::Server || other == APITokenKind::Handler {
                lemma_first_byte(kind, t, 0);
                if spells(t, 0, word_server()) {
                    assert(t.subrange(0, 7)[1] == word_server()[1]);
                }
                if spells(t, 0, word_handler()) {
                    assert(t.subrange(0, 8)[1] == word_handler()[1]);
                }
                if spells(s, 0, word_server()) {
                    assert(s.subrange(0, 7)[1] == word_server()[1]);
                }
                if spells(s, 0, word_handler()) {
                    assert(s.subrange(0, 8)[1] == word_handler()[1]);
                }
                assert(t[1] == s[1]);
            } else if is_word(s[0]) {
                lemma_run_ends_before(ByteClass::IdentPart, s, 1, len as int);
                lemma_keywords_in_ident(s, 0);
            }
        }
    }
    assert(wins(s, 0, kind, len));
    lemma_winner_is_best(s, 0, kind, len);
}

/// White space that stands before bytes which begin with no separator is
/// skipped: its run is as long as it is, and the first token after its
/// beginning is the first token after its end.
pub proof fn lemma_gap_skipped(s: Seq<u8>, pos: int, len: nat)
    requires
        0 <= pos,
        len > 0,
        pos + len <= s.len(),
        forall|j: int| pos <= j < pos + len ==> is_space(#[trigger] s[j]),
        pos + len < s.len() ==> !is_space(s[pos + len]),
    ensures
        best_match(s, pos) == Some((APITokenKind::Whitespace, len)),
        first_token(s, pos) == first_token(s, pos + len),
        scan_from(s, pos) == scan_from(s, pos + len),
{
    lemma_run_is_longest(ByteClass::Space, s, pos, len);
    if pos + len < s.len() {
        lemma_run_is_longest(ByteClass::Space, s, pos, len + 1);
    } else {
        lemma_run_bound(ByteClass::Space, s, pos);
    }
    assert(is_space(s[pos]));
    lemma_only_rule_wins(s, pos, APITokenKind::Whitespace);
}

/// Written words begin with no separator, if they are well written.
proof fn lemma_written_begins_with_no_space(words: Seq<Word>, gaps: Seq<Seq<u8>>)
    requires
        forall|i: int| 0 <= i < words.len() ==> well_written(#[trigger] words[i]),
        are_gaps(gaps, words),
    ensures
        write_words(words, gaps).len() > 0 ==> !is_space(write_words(words, gaps)[0]),
{
    if words.len() > 0 {
        assert(well_written(words[0]));
        lemma_well_written_alone(words[0]);
        assert(write_words(words, gaps)[0] == encode_utf8(words[0].text)[0]);
    }
}

/// Scanning gives back what was written: the tokens of written words
/// spell those words, one token for each, if each word is well written,
/// whatever white space stands after each, and also where none stands
/// and the next word begins with a byte that may follow.
pub proof fn lemma_scan_written(words: Seq<Word>, gaps: Seq<Seq<u8>>)
    requires
        forall|i: int| 0 <= i < words.len() ==> well_written(#[trigger] words[i]),
        are_gaps(gaps, words),
    ensures
        spells_words(scan_from(write_words(words, gaps), 0), words),
    decreases words.len(),
{
    let whole = write_words(words, gaps);
    if words.len() == 0 {
        if best_match(whole, 0) is Some {
            lemma_best_match_wins(whole, 0);
        }
    } else {
        let word = words[0];
        let others = words.skip(1);
        let other_gaps = gaps.skip(1);
        let text = encode_utf8(word.text);
        let gap = gaps[0];
        let tail = write_words(others, other_gaps);
        let n = text.len() as int;
        let g = gap.len() as int;
        assert(well_written(word));
        assert(is_gap(gap));
        assert forall|i: int| 0 <= i < others.len() implies well_written(#[trigger] others[i]) by {
            assert(others[i] == words[i + 1]);
        }
        assert(are_gaps(other_gaps, others)) by {
            assert forall|i: int| 0 <= i < other_gaps.len() implies is_gap(
                #[trigger] other_gaps[i],
            ) by {
                assert(other_gaps[i] == gaps[i + 1]);
            }
            assert forall|i: int|
                0 <= i < other_gaps.len() - 1 && (#[trigger] other_gaps[i]).len()
                    == 0 implies may_follow(
                encode_utf8(others[i].text)[0],
                encode_utf8(others[i + 1].text)[0],
            ) by {
                assert(other_gaps[i] == gaps[i + 1]);
                assert(others[i] == words[i + 1]);
                assert(others[i + 1] == words[i + 2]);
            }
        }
        // The first word is the first token.
        lemma_well_written_alone(word);
        lemma_written_begins_with_no_space(others, other_gaps);
        assert(whole.len() == n + g + tail.len());
        assert(whole.take(n) =~= text);
        assert(whole[0] == text[0]);
        if n < whole.len() {
            if g > 0 {
                assert(whole[n] == gap[0]);
            } else {
                assert(whole[n] == tail[0]);
                assert(gaps[0].len() == 0);
                assert(others[0] == words[1]);
                assert(tail[0] == encode_utf8(others[0].text)[0]) by {
                    lemma_well_written_alone(others[0]);
                }
            }
            lemma_match_before_follower(whole, text.len(), word.kind);
        } else {
            assert(whole =~= text);
        }
        assert(whole.subrange(0, n) =~= text);
        encode_utf8_decode_utf8(word.text);
        let token = TokenView { kind: word.kind, text: word.text, start: 0, end: n };
        assert(first_token(whole, 0) == Some(token));
        // After it comes the gap, and then what the other words give.
        if g > 0 {
            assert forall|j: int| n <= j < n + g implies is_space(#[trigger] whole[j]) by {
                assert(whole[j] == gap[j - n]);
            }
            if tail.len() > 0 {
                assert(whole[n + g] == tail[0]);
            }
            lemma_gap_skipped(whole, n, gap.len());
        }
        assert(text + gap + tail =~= (text + gap) + tail);
        lemma_scan_shift(text + gap, tail, 0);
        lemma_scan_written(others, other_gaps);
        let rest = scan_from(tail, 0);
        assert(scan_from(whole, 0) =~= seq![token] + all_moved(rest, n + g));
        assert forall|i: int| 0 <= i < words.len() implies word_of(
            #[trigger] scan_from(whole, 0)[i],
        ) == words[i] by {
            if i > 0 {
                assert(scan_from(whole, 0)[i] == all_moved(rest, n + g)[i - 1]);
                assert(word_of(rest[i - 1]) == others[i - 1]);
            }
        }
    }
}

/// White space before the first word changes no token but its place: the
/// tokens of written words after any separators spell those words.
pub proof fn lemma_scan_written_after_lead(lead: Seq<u8>, words: Seq<Word>, gaps: Seq<Seq<u8>>)
    requires
        forall|i: int| 0 <= i < lead.len() ==> is_space(#[trigger] lead[i]),
        forall|i: int| 0 <= i < words.len() ==> well_written(#[trigger] words[i]),
        are_gaps(gaps, words),
    ensures
        spells_words(scan_from(lead + write_words(words, gaps), 0), words),
{
    let written = write_words(words, gaps);
    let whole = lead + written;
    lemma_scan_written(words, gaps);
    lemma_scan_shift(lead, written, 0);
    let tokens = scan_from(written, 0);
    if lead.len() > 0 {
        lemma_written_begins_with_no_space(words, gaps);
        assert forall|j: int| 0 <= j < lead.len() implies is_space(#[trigger] whole[j]) by {
            assert(whole[j] == lead[j]);
        }
        if written.len() > 0 {
            assert(whole[lead.len() as int] == written[0]);
        }
        lemma_gap_skipped(whole, 0, lead.len());
    } else {
        assert(whole =~= written);
    }
    assert forall|i: int| 0 <= i < words.len() implies word_of(
        #[trigger] all_moved(tokens, lead.len() as int)[i],
    ) == words[i] by {
        assert(word_of(tokens[i]) == words[i]);
    }
}

/// Each keyword is of its own kind: no two kinds share a word.
pub proof fn lemma_word_kinds()
    ensures
        word_kind(word_int()) == APITokenKind::IntDataType,
        word_kind(word_int8()) == APITokenKind::IntDataType,
        word_kind(word_int16()) == APITokenKind::IntDataType,
        word_kind(word_int32()) == APITokenKind::IntDataType,
        word_kind(word_int64()) == APITokenKind::IntDataType,
        word_kind(word_float32()) == APITokenKind::FloatDataType,
        word_kind(word_float64()) == APITokenKind::FloatDataType,
        word_kind(word_string()) == APITokenKind::StringDataType,
        word_kind(word_bool()) == APITokenKind::BoolDataType,
        word_kind(word_map()) == APITokenKind::MapDataType,
        word_kind(word_type()) == APITokenKind::Type,
        word_kind(word_struct()) == APITokenKind::Struct,
        word_kind(word_service()) == APITokenKind::Service,
        word_kind(word_get()) == APITokenKind::HttpMethod,
        word_kind(word_post()) == APITokenKind::HttpMethod,
        word_kind(word_returns()) == APITokenKind::RespReturns,
{
    assert(word_int()[0] != word_map()[0] && word_int()[0] != word_get()[0]);
    assert(word_map()[0] != word_get()[0]);
    assert(word_int8()[0] != word_bool()[0] && word_int8()[0] != word_type()[0]);
    assert(word_int8()[0] != word_post()[0] && word_bool()[0] != word_type()[0]);
    assert(word_bool()[0] != word_post()[0] && word_type()[0] != word_post()[0]);
    assert(word_string()[3] != word_struct()[3]);
    assert(word_float32()[0] != word_service()[0] && word_float32()[0] != word_returns()[0]);
    assert(word_float64()[0] != word_service()[0] && word_float64()[0] != word_returns()[0]);
    assert(word_service()[0] != word_returns()[0]);
}

/// The written bytes of a word of identifier bytes are read as the
/// keyword that the word is, or as an identifier.
pub proof fn lemma_word_well_written(text: Seq<char>)
    requires
        is_identifier_text(encode_utf8(text)),
    ensures
        well_written(Word { kind: word_kind(encode_utf8(text)), text }),
{
    reveal(well_written);
    let bytes = encode_utf8(text);
    let word = Word { kind: word_kind(bytes), text };
    let s = write_word(word);
    let n = bytes.len() as int;
    assert(s.subrange(0, n) =~= bytes);
    assert(s[0] == bytes[0]);
    lemma_rule_len_is_longest(s, 0, bytes.len());
    lemma_match_ends_before_space(APITokenKind::Identifier, s, 0, n);
    lemma_word_wins(s, 0);
}

/// The written bytes of a route path are read as a route path.
pub proof fn lemma_path_well_written(text: Seq<char>)
    requires
        is_route_path_text(encode_utf8(text)),
    ensures
        well_written(Word { kind: APITokenKind::RoutePath, text }),
{
    reveal(well_written);
    let bytes = encode_utf8(text);
    let s = write_word(Word { kind: APITokenKind::RoutePath, text });
    let n = bytes.len() as int;
    assert(s.subrange(0, n) =~= bytes);
    assert(s[0] == bytes[0]);
    lemma_rule_len_is_longest(s, 0, bytes.len());
    lemma_match_ends_before_space(APITokenKind::RoutePath, s, 0, n);
    lemma_only_rule_wins(s, 0, APITokenKind::RoutePath);
}

/// Whether a text is a tag annotation: the rule for tag annotations
/// accepts all of it.
pub open spec fn is_tag_text(bytes: Seq<u8>) -> bool {
    bytes.len() > 0 && tag_len(bytes, 0) == bytes.len()
}

/// The written bytes of a tag annotation are read as a tag annotation.
#[verifier::rlimit(50)]
pub proof fn lemma_tag_well_written(text: Seq<char>)
    requires
        is_tag_text(encode_utf8(text)),
    ensures
        well_written(Word { kind: APITokenKind::TagAnnotation, text }),
{
    reveal(well_written);
    let bytes = encode_utf8(text);
    let s = write_word(Word { kind: APITokenKind::TagAnnotation, text });
    let n = bytes.len() as int;
    assert(s.take(n) =~= bytes);
    assert(s[0] == bytes[0]);
    lemma_tag_end_take(s, n, 1);
    lemma_only_rule_wins(s, 0, APITokenKind::TagAnnotation);
}

/// The written byte of a symbol is read as that symbol.
pub proof fn lemma_symbol_well_written(kind: APITokenKind, text: Seq<char>)
    requires
        symbol_of(kind) matches Some(c) && encode_utf8(text) == seq![c as u8],
    ensures
        well_written(Word { kind, text }),
{
    reveal(well_written);
    let s = write_word(Word { kind, text });
    assert(s[0] == encode_utf8(text)[0]);
    lemma_symbol_wins(s, 0, kind);
}

/// The written bytes of `@server` and of `@handler` are read as these.
pub proof fn lemma_at_word_well_written(kind: APITokenKind, text: Seq<char>)
    requires
        (kind == APITokenKind::Server && encode_utf8(text) == word_server()) || (kind
            == APITokenKind::Handler && encode_utf8(text) == word_handler()),
    ensures
        well_written(Word { kind, text }),
{
    reveal(well_written);
    let bytes = encode_utf8(text);
    let s = write_word(Word { kind, text });
    let n = bytes.len() as int;
    assert(s.subrange(0, n) =~= bytes);
    assert(s[0] == bytes[0]);
    assert(s[1] == bytes[1]);
    if spells(s, 0, word_server()) {
        assert(s.subrange(0, 7)[1] == word_server()[1]);
    }
    lemma_at_sign_wins(s, 0);
}

} // verus!
