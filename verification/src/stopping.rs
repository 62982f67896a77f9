//! Scanning ends at a byte that no rule accepts, whatever stands after
//! it: a source that scans completely, then such a byte and any text, has
//! the tokens of the source that scans completely, and no others.

use crate::lexical::{
    best_match, in_class, is_space, lemma_winner_is_best, rule_len, run, scan, scan_end, scan_from,
    wins, ByteClass,
};
use crate::munch::{lemma_first_byte, lemma_no_start_no_match, may_start};
use crate::token::APITokenKind;
use crate::truncation::{
    lemma_best_match_wins, lemma_rule_len_take, lemma_scan_take, lemma_tag_end_take,
};
use crate::writing::{breaks_words, lemma_match_ends_before_space};
use vstd::prelude::*;
use vstd::utf8::encode_utf8;

verus! {

/// Whether a byte ends scanning wherever a token could begin or go on: it
/// breaks words, and it is neither a separator nor a backtick. No rule
/// begins with it, and it goes on no token. Such are `#`, the double quote
/// and every byte of a character that is not ASCII.
pub open spec fn is_stop_byte(b: u8) -> bool {
    breaks_words(b) && !is_space(b) && b != '`' as u8
}

/// No rule can begin with a stop byte.
pub proof fn lemma_stop_starts_nothing(b: u8)
    requires
        is_stop_byte(b),
    ensures
        forall|kind: APITokenKind| !#[trigger] may_start(kind, b),
{
}

/// The byte of `#` is a stop byte.
pub proof fn lemma_hash_stops()
    ensures
        is_stop_byte('#' as u8),
{
}

/// A run of separators before a stop byte ends before it.
proof fn lemma_spaces_end_before_stop(s: Seq<u8>, pos: int, stop: int)
    requires
        0 <= pos <= stop < s.len(),
        !is_space(s[stop]),
    ensures
        pos + run(ByteClass::Space, s, pos) <= stop,
    decreases stop - pos,
{
    if pos < stop && in_class(ByteClass::Space, s[pos]) {
        lemma_spaces_end_before_stop(s, pos + 1, stop);
    }
}

/// The best match before a stop byte is the best match in the bytes
/// before it: the stop byte and what follows it change no match.
pub proof fn lemma_match_before_stop(s: Seq<u8>, pos: int, stop: int)
    requires
        0 <= pos < stop < s.len(),
        is_stop_byte(s[stop]),
        best_match(s.take(stop), pos) is Some,
    ensures
        best_match(s, pos) == best_match(s.take(stop), pos),
{
    let t = s.take(stop);
    lemma_best_match_wins(t, pos);
    let (kind, len) = best_match(t, pos)->0;
    lemma_first_byte(kind, t, pos);
    assert(t[pos] == s[pos]);
    assert forall|other: APITokenKind|
        #![trigger rule_len(other, s, pos)]
        #![trigger rule_len(other, t, pos)]
        rule_len(other, s, pos) == rule_len(other, t, pos) by {
        lemma_rule_len_take(other, s, stop, pos);
        if other == APITokenKind::TagAnnotation {
            if s[pos] == '`' as u8 {
                lemma_tag_end_take(s, stop, pos + 1);
            } else {
                if rule_len(other, s, pos) > 0 {
                    lemma_first_byte(other, s, pos);
                }
            }
        } else if other == APITokenKind::Whitespace {
            lemma_spaces_end_before_stop(s, pos, stop);
        } else {
            lemma_match_ends_before_space(other, s, pos, stop);
        }
    }
    assert(wins(s, pos, kind, len));
    lemma_winner_is_best(s, pos, kind, len);
}

/// Where the bytes before a stop byte scan completely, scanning ends at
/// the stop byte.
pub proof fn lemma_scan_end_at_stop(s: Seq<u8>, pos: int, stop: int)
    requires
        0 <= pos <= stop < s.len(),
        is_stop_byte(s[stop]),
        scan_end(s.take(stop), pos) == stop,
    ensures
        scan_end(s, pos) == stop,
    decreases stop - pos,
{
    let t = s.take(stop);
    if pos == stop {
        lemma_stop_starts_nothing(s[stop]);
        lemma_no_start_no_match(s, pos);
    } else {
        lemma_best_match_wins(t, pos);
        lemma_match_before_stop(s, pos, stop);
        let (_, len) = best_match(t, pos)->0;
        lemma_scan_end_at_stop(s, pos + len, stop);
    }
}

/// Scanning is cut off at a stop byte, and silently. Let a source scan
/// completely: each of its bytes is a separator or lies in a token. Put a
/// stop byte after it, and then any bytes. The tokens of the whole are the
/// tokens of the source that scans completely: what stands from the stop
/// byte on gives no token, changes none, and gives no failure.
pub proof fn lemma_scan_stops_at(prefix: Seq<u8>, rest: Seq<u8>)
    requires
        scan_end(prefix, 0) == prefix.len(),
        rest.len() > 0,
        is_stop_byte(rest[0]),
    ensures
        scan_from(prefix + rest, 0) == scan_from(prefix, 0),
        scan_end(prefix + rest, 0) == prefix.len(),
{
    let whole = prefix + rest;
    let stop = prefix.len() as int;
    assert(whole.take(stop) =~= prefix);
    assert(whole[stop] == rest[0]);
    lemma_scan_end_at_stop(whole, 0, stop);
    lemma_scan_take(whole, 0);
}

/// The bytes of two texts in a row are the bytes of the one and then the
/// bytes of the other.
pub proof fn lemma_encode_add(first: Seq<char>, second: Seq<char>)
    ensures
        encode_utf8(first + second) == encode_utf8(first) + encode_utf8(second),
    decreases first.len(),
{
    if first.len() == 0 {
        assert(first + second =~= second);
        assert(encode_utf8(first) + encode_utf8(second) =~= encode_utf8(second));
    } else {
        assert((first + second).drop_first() =~= first.drop_first() + second);
        lemma_encode_add(first.drop_first(), second);
        assert(encode_utf8(first + second) =~= encode_utf8(first) + encode_utf8(second));
    }
}

/// The same of source texts. Let the text `prefix` scan completely, and
/// let `rest` begin with a character whose first byte is a stop byte, such
/// as `#`. The tokens of `prefix` followed by `rest` are those of `prefix`:
/// the same in number, in kind, in text and in place.
pub proof fn lemma_source_stops_at(prefix: Seq<char>, rest: Seq<char>)
    requires
        scan_end(encode_utf8(prefix), 0) == encode_utf8(prefix).len(),
        encode_utf8(rest).len() > 0,
        is_stop_byte(encode_utf8(rest)[0]),
    ensures
        scan(prefix + rest) == scan(prefix),
{
    lemma_encode_add(prefix, rest);
    lemma_scan_stops_at(encode_utf8(prefix), encode_utf8(rest));
}

} // verus!
