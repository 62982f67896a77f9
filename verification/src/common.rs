//! The rules that match a single token, and what all rules share.
//!
//! A rule looks at a sequence of tokens from its front. Where it matches it
//! gives a value and the tokens that it left; where it does not it gives a
//! message. Each executable rule comes with a specification of the same name
//! with `spec_` in front, over the views of the tokens.

use crate::error::PError;
use crate::token::{token_views, APIToken, APITokenKind, TokenView};
use vstd::prelude::*;
use vstd::slice::slice_subrange;
use vstd::string::StringExecFns;
use vstd::string::StringSliceAdditionalSpecFns;
use vstd::utf8::{encode_utf8, encode_utf8_decode_utf8};

verus! {

/// The tokens that a rule looks at.
pub type Input<'a> = &'a [APIToken<'a>];

/// What a rule gives: the tokens that it left and its value, or a failure.
pub type IResult<'a, O> = Result<(Input<'a>, O), PError>;

/// The tokens that a rule looks at, as mathematical values.
pub type Tokens = Seq<TokenView>;

/// What a rule is specified to give: its value and the tokens that it
/// leaves, or the text of its failure.
pub type Parsed<T> = Result<(T, Tokens), Seq<char>>;

/// The character of a digit.
pub open spec fn digit_char(digit: nat) -> char {
    if digit == 0 {
        '0'
    } else if digit == 1 {
        '1'
    } else if digit == 2 {
        '2'
    } else if digit == 3 {
        '3'
    } else if digit == 4 {
        '4'
    } else if digit == 5 {
        '5'
    } else if digit == 6 {
        '6'
    } else if digit == 7 {
        '7'
    } else if digit == 8 {
        '8'
    } else {
        '9'
    }
}

/// A number as it is written in decimal digits.
pub open spec fn decimal_text(number: nat) -> Seq<char>
    decreases number,
{
    if number < 10 {
        seq![digit_char(number)]
    } else {
        decimal_text(number / 10).push(digit_char(number % 10))
    }
}

/// What a failure says of the token that it found: its kind, its text, and
/// its byte offsets in the source.
#[verifier::opaque]
pub open spec fn found_text(found: TokenView) -> Seq<char> {
    found.kind.name_view() + " at "@ + found.text + " ("@ + decimal_text(found.start as nat)
        + ".."@ + decimal_text(found.end as nat) + ")"@
}

/// The text of the failure of `match_token` where another token stands:
/// the kind that was expected, and the token that was found.
pub open spec fn unexpected_token_message(kind: APITokenKind, found: TokenView) -> Seq<char> {
    "Expected API Token "@ + kind.name_view() + ", found "@ + found_text(found)
}

/// The text of the failure of `match_token` where no token is left.
pub open spec fn missing_token_message(kind: APITokenKind) -> Seq<char> {
    "API Token "@ + kind.name_view() + " does not match"@
}

/// The text of the failure of `match_text` and `match_text_case_insensitive`
/// on the given tokens: the text that was expected, and the token that was
/// found where one stands there.
pub open spec fn text_message(text: Seq<char>, s: Tokens) -> Seq<char> {
    if s.len() > 0 {
        "Json Text "@ + text + " does not match"@ + ", found "@ + found_text(s[0])
    } else {
        "Json Text "@ + text + " does not match"@
    }
}

/// The lower-case form of an ASCII capital; every other byte as it is.
pub open spec fn ascii_lower(b: u8) -> u8 {
    if 'A' as u8 <= b && b <= 'Z' as u8 {
        (b + 32) as u8
    } else {
        b
    }
}

/// Whether two texts are the same but for the case of their ASCII letters:
/// their encodings are as long as each other and agree byte by byte once
/// ASCII capitals are lowered.
pub open spec fn same_ignoring_ascii_case(a: Seq<char>, b: Seq<char>) -> bool {
    &&& encode_utf8(a).len() == encode_utf8(b).len()
    &&& forall|i: int|
        0 <= i < encode_utf8(a).len() ==> ascii_lower(#[trigger] encode_utf8(a)[i]) == ascii_lower(
            encode_utf8(b)[i],
        )
}

/// Matches one token of the given kind.
pub open spec fn spec_match_token(kind: APITokenKind, s: Tokens) -> Parsed<TokenView> {
    if s.len() > 0 && s[0].kind == kind {
        Ok((s[0], s.skip(1)))
    } else if s.len() > 0 {
        Err(unexpected_token_message(kind, s[0]))
    } else {
        Err(missing_token_message(kind))
    }
}

/// Matches one token that spells exactly `text`.
pub open spec fn spec_match_text(text: Seq<char>, s: Tokens) -> Parsed<TokenView> {
    if s.len() > 0 && s[0].text == text {
        Ok((s[0], s.skip(1)))
    } else {
        Err(text_message(text, s))
    }
}

/// Matches one token that spells `text` but for the case of ASCII letters.
pub open spec fn spec_match_text_case_insensitive(text: Seq<char>, s: Tokens) -> Parsed<
    TokenView,
> {
    if s.len() > 0 && same_ignoring_ascii_case(s[0].text, text) {
        Ok((s[0], s.skip(1)))
    } else {
        Err(text_message(text, s))
    }
}

/// Matches one token of the given kind if one stands at the front; takes
/// nothing otherwise.
pub open spec fn spec_opt_token(kind: APITokenKind, s: Tokens) -> (Option<TokenView>, Tokens) {
    if s.len() > 0 && s[0].kind == kind {
        (Some(s[0]), s.skip(1))
    } else {
        (None, s)
    }
}

/// Whether `left` is what stays of the tokens `i` after some at their
/// front: the very tokens of `i`, with their sources, and no others.
pub open spec fn is_rest_of(left: Seq<APIToken<'_>>, i: Seq<APIToken<'_>>) -> bool {
    left.len() <= i.len() && left == i.skip(i.len() - left.len())
}

/// What stays of what stays of the tokens stays of the tokens.
pub proof fn lemma_rest_of_rest(a: Seq<APIToken<'_>>, b: Seq<APIToken<'_>>, c: Seq<APIToken<'_>>)
    requires
        is_rest_of(a, b),
        is_rest_of(b, c),
    ensures
        is_rest_of(a, c),
{
    assert(a =~= c.skip(c.len() - a.len()));
}

/// The tokens stay of themselves.
pub proof fn lemma_rest_of_all(i: Seq<APIToken<'_>>)
    ensures
        is_rest_of(i, i),
{
    assert(i =~= i.skip(0));
}

/// The views of the tokens after the first are the views after the first.
pub proof fn lemma_views_skip(tokens: Seq<APIToken<'_>>, n: int)
    requires
        0 <= n <= tokens.len(),
    ensures
        token_views(tokens.skip(n)) == token_views(tokens).skip(n),
{
    assert(token_views(tokens.skip(n)) =~= token_views(tokens).skip(n));
}

/// Whether two texts are the same.
pub fn same_text(a: &str, b: &str) -> (r: bool)
    ensures
        r == (a@ == b@),
{
    let x = a.as_bytes();
    let y = b.as_bytes();
    proof {
        encode_utf8_decode_utf8(a@);
        encode_utf8_decode_utf8(b@);
    }
    if x.len() != y.len() {
        return false;
    }
    let mut i: usize = 0;
    while i < x.len()
        invariant
            i <= x@.len(),
            x@.len() == y@.len(),
            x@ == encode_utf8(a@),
            y@ == encode_utf8(b@),
            forall|j: int| 0 <= j < i ==> x@[j] == y@[j],
        decreases x@.len() - i,
    {
        if x[i] != y[i] {
            return false;
        }
        i += 1;
    }
    assert(x@ =~= y@);
    true
}

/// The lower-case form of an ASCII capital; every other byte as it is.
pub fn lower_byte(b: u8) -> (r: u8)
    ensures
        r == ascii_lower(b),
{
    if 'A' as u8 <= b && b <= 'Z' as u8 {
        b + 32
    } else {
        b
    }
}

/// Whether two texts are the same but for the case of their ASCII letters.
pub fn same_text_ignoring_case(a: &str, b: &str) -> (r: bool)
    ensures
        r == same_ignoring_ascii_case(a@, b@),
{
    let x = a.as_bytes();
    let y = b.as_bytes();
    if x.len() != y.len() {
        return false;
    }
    let mut i: usize = 0;
    while i < x.len()
        invariant
            i <= x@.len(),
            x@.len() == y@.len(),
            x@ == encode_utf8(a@),
            y@ == encode_utf8(b@),
            forall|j: int| 0 <= j < i ==> ascii_lower(#[trigger] x@[j]) == ascii_lower(y@[j]),
        decreases x@.len() - i,
    {
        if lower_byte(x[i]) != lower_byte(y[i]) {
            return false;
        }
        i += 1;
    }
    true
}

/// The digit as a text.
fn digit_text(digit: usize) -> (r: &'static str)
    requires
        digit < 10,
    ensures
        r@ == seq![digit_char(digit as nat)],
{
    proof {
        reveal_strlit("0");
        reveal_strlit("1");
        reveal_strlit("2");
        reveal_strlit("3");
        reveal_strlit("4");
        reveal_strlit("5");
        reveal_strlit("6");
        reveal_strlit("7");
        reveal_strlit("8");
        reveal_strlit("9");
    }
    let r = if digit == 0 {
        "0"
    } else if digit == 1 {
        "1"
    } else if digit == 2 {
        "2"
    } else if digit == 3 {
        "3"
    } else if digit == 4 {
        "4"
    } else if digit == 5 {
        "5"
    } else if digit == 6 {
        "6"
    } else if digit == 7 {
        "7"
    } else if digit == 8 {
        "8"
    } else {
        "9"
    };
    assert(r@ =~= seq![digit_char(digit as nat)]);
    r
}

/// Writes a number in decimal digits.
pub fn decimal(number: usize) -> (r: String)
    ensures
        r@ == decimal_text(number as nat),
    decreases number,
{
    if number < 10 {
        digit_text(number).to_owned()
    } else {
        let front = decimal(number / 10);
        let last = digit_text(number % 10);
        let r = front.concat(last);
        assert(r@ =~= decimal_text((number / 10) as nat).push(digit_char((number % 10) as nat)));
        r
    }
}

/// What a failure says of the token that it found.
pub fn describe_found(token: &APIToken<'_>) -> (r: String)
    ensures
        r@ == found_text(token@),
{
    proof {
        reveal(found_text);
    }
    let span = token.span();
    String::from_str(token.kind().name()).concat(" at ").concat(token.at()).concat(" (").concat(
        decimal(span.start).as_str(),
    ).concat("..").concat(decimal(span.end).as_str()).concat(")")
}

/// The failure of `match_text` and `match_text_case_insensitive`.
fn text_failure<'a, O>(text: &str, i: Input<'a>) -> (r: IResult<'a, O>)
    ensures
        r matches Err(e) && e@ == text_message(text@, token_views(i@)),
{
    let message = String::from_str("Json Text ").concat(text).concat(" does not match");
    if i.len() > 0 {
        Err(PError(message.concat(", found ").concat(describe_found(&i[0]).as_str())))
    } else {
        Err(PError(message))
    }
}

/// Matches one token of the given kind.
pub fn match_token<'a>(kind: APITokenKind, i: Input<'a>) -> (r: IResult<'a, &'a APIToken<'a>>)
    ensures
        match spec_match_token(kind, token_views(i@)) {
            Ok((token, rest)) => r matches Ok((left, found)) && found@ == token && token_views(
                left@,
            ) == rest && left@ == i@.skip(1) && is_rest_of(left@, i@),
            Err(message) => r matches Err(e) && e@ == message,
        },
{
    if i.len() > 0 {
        let token = &i[0];
        if token.kind() == kind {
            proof {
                lemma_views_skip(i@, 1);
            }
            Ok((slice_subrange(i, 1, i.len()), token))
        } else {
            let message = String::from_str("Expected API Token ").concat(kind.name()).concat(
                ", found ",
            ).concat(describe_found(token).as_str());
            Err(PError(message))
        }
    } else {
        let message = String::from_str("API Token ").concat(kind.name()).concat(" does not match");
        Err(PError(message))
    }
}

/// Matches one token that spells exactly `text`.
pub fn match_text<'a>(text: &'static str, i: Input<'a>) -> (r: IResult<'a, &'a APIToken<'a>>)
    ensures
        match spec_match_text(text@, token_views(i@)) {
            Ok((token, rest)) => r matches Ok((left, found)) && found@ == token && token_views(
                left@,
            ) == rest && left@ == i@.skip(1) && is_rest_of(left@, i@),
            Err(message) => r matches Err(e) && e@ == message,
        },
{
    if i.len() > 0 && same_text(i[0].text(), text) {
        proof {
            lemma_views_skip(i@, 1);
        }
        Ok((slice_subrange(i, 1, i.len()), &i[0]))
    } else {
        text_failure(text, i)
    }
}

/// Matches one token that spells `text` but for the case of ASCII letters.
pub fn match_text_case_insensitive<'a>(text: &'static str, i: Input<'a>) -> (r: IResult<
    'a,
    &'a APIToken<'a>,
>)
    ensures
        match spec_match_text_case_insensitive(text@, token_views(i@)) {
            Ok((token, rest)) => r matches Ok((left, found)) && found@ == token && token_views(
                left@,
            ) == rest && left@ == i@.skip(1) && is_rest_of(left@, i@),
            Err(message) => r matches Err(e) && e@ == message,
        },
{
    if i.len() > 0 && same_text_ignoring_case(i[0].text(), text) {
        proof {
            lemma_views_skip(i@, 1);
        }
        Ok((slice_subrange(i, 1, i.len()), &i[0]))
    } else {
        text_failure(text, i)
    }
}

/// Matches one token of the given kind if one stands at the front; takes
/// nothing otherwise.
pub fn opt_token<'a>(kind: APITokenKind, i: Input<'a>) -> (r: (Input<'a>, Option<&'a APIToken<'a>>))
    ensures
        token_views(r.0@) == spec_opt_token(kind, token_views(i@)).1,
        is_rest_of(r.0@, i@),
        match spec_opt_token(kind, token_views(i@)).0 {
            Some(token) => r.1 matches Some(found) && found@ == token && r.0@ == i@.skip(1),
            None => r.1 is None && r.0@ == i@,
        },
{
    if i.len() > 0 && i[0].kind() == kind {
        proof {
            lemma_views_skip(i@, 1);
        }
        (slice_subrange(i, 1, i.len()), Some(&i[0]))
    } else {
        proof {
            lemma_rest_of_all(i@);
        }
        (i, None)
    }
}

} // verus!
