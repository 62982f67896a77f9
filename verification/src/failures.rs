//! Malformed input fails: a rule that must end with a closing token does
//! not match where that token is missing.

use crate::common::{spec_opt_token, Tokens};
use crate::parser::spec_parse_api;
use crate::service::{spec_opt_service_anotation, spec_parse_handlers, spec_parse_service};
use crate::struct_ref::{
    spec_parse_fields, spec_parse_many_struct, spec_parse_nest_struct, spec_parse_one_struct,
    spec_parse_struct_stmt1,
};
use crate::suffix::{
    is_suffix, lemma_fields_suffix, lemma_handlers_suffix, lemma_many_struct_suffix,
    lemma_one_struct_suffix, lemma_opt_token_suffix, lemma_service_anotation_suffix,
    lemma_struct_stmt_suffix, lemma_suffix_basic, lemma_suffix_trans,
};
use crate::token::APITokenKind;
use vstd::prelude::*;

verus! {

/// Whether a token of the given kind stands among the tokens.
pub open spec fn has_kind(s: Tokens, kind: APITokenKind) -> bool {
    exists|i: int| 0 <= i < s.len() && (#[trigger] s[i]).kind == kind
}

/// The first token of an end piece stands in the whole.
proof fn lemma_suffix_head(rest: Tokens, s: Tokens)
    requires
        is_suffix(rest, s),
        rest.len() > 0,
    ensures
        has_kind(s, rest[0].kind),
{
    let at = s.len() - rest.len();
    assert(s[at] == rest[0]);
}

/// A struct declaration matches only where a closing brace stands among
/// the tokens: without one, the declaration fails, whatever else is there.
pub proof fn lemma_struct_without_closing_brace_fails(s: Tokens)
    requires
        !has_kind(s, APITokenKind::CloseBrace),
    ensures
        spec_parse_one_struct(s) is Err,
{
    let after_type = spec_opt_token(APITokenKind::Type, s).1;
    lemma_opt_token_suffix(APITokenKind::Type, s);
    if after_type.len() > 0 {
        let after_name = after_type.skip(1);
        lemma_suffix_basic(after_type);
        lemma_suffix_trans(after_name, after_type, s);
        let after_struct = spec_opt_token(APITokenKind::Struct, after_name).1;
        lemma_opt_token_suffix(APITokenKind::Struct, after_name);
        lemma_suffix_trans(after_struct, after_name, s);
        if after_struct.len() > 0 {
            let after_open = after_struct.skip(1);
            lemma_suffix_basic(after_struct);
            lemma_suffix_trans(after_open, after_struct, s);
            let after_fields = spec_parse_fields(after_open).1;
            lemma_fields_suffix(after_open);
            lemma_suffix_trans(after_fields, after_open, s);
            if after_fields.len() > 0 {
                lemma_suffix_head(after_fields, s);
            }
        }
    }
}

/// A block of declarations matches only where a closing parenthesis stands
/// among the tokens.
pub proof fn lemma_block_without_closing_paren_fails(s: Tokens)
    requires
        !has_kind(s, APITokenKind::CloseParen),
    ensures
        spec_parse_nest_struct(s) is Err,
{
    lemma_suffix_basic(s);
    if s.len() > 0 {
        let after_type = s.skip(1);
        lemma_suffix_basic(after_type);
        if after_type.len() > 0 {
            let after_open = after_type.skip(1);
            lemma_suffix_trans(after_open, after_type, s);
            lemma_one_struct_suffix(after_open);
            match spec_parse_one_struct(after_open) {
                Ok((_, after_first)) => {
                    lemma_suffix_trans(after_first, after_open, s);
                    let after_structs = spec_parse_many_struct(after_first).1;
                    lemma_many_struct_suffix(after_first);
                    lemma_suffix_trans(after_structs, after_first, s);
                    if after_structs.len() > 0 {
                        lemma_suffix_head(after_structs, s);
                    }
                },
                Err(_) => {},
            }
        }
    }
}

/// A block that declares no struct fails: between its parentheses one
/// struct declaration must stand at least.
pub proof fn lemma_empty_block_fails(s: Tokens)
    requires
        s.len() >= 3,
        s[0].kind == APITokenKind::Type,
        s[1].kind == APITokenKind::OpenParen,
        s[2].kind == APITokenKind::CloseParen,
    ensures
        spec_parse_nest_struct(s) is Err,
{
    assert(s.skip(1)[0] == s[1]);
    assert(s.skip(1).skip(1)[0] == s[2]);
}

/// A service block matches only where the word `service` and a closing
/// brace stand among the tokens.
pub proof fn lemma_service_without_closing_brace_fails(s: Tokens)
    requires
        !has_kind(s, APITokenKind::CloseBrace) || !has_kind(s, APITokenKind::Service),
    ensures
        spec_parse_service(s) is Err,
{
    let after_anotation = spec_opt_service_anotation(s).1;
    lemma_service_anotation_suffix(s);
    if after_anotation.len() > 0 {
        lemma_suffix_head(after_anotation, s);
        let after_service = after_anotation.skip(1);
        lemma_suffix_basic(after_anotation);
        lemma_suffix_trans(after_service, after_anotation, s);
        if after_service.len() > 0 {
            let after_name = after_service.skip(1);
            lemma_suffix_basic(after_service);
            lemma_suffix_trans(after_name, after_service, s);
            if after_name.len() > 0 {
                let after_open = after_name.skip(1);
                lemma_suffix_basic(after_name);
                lemma_suffix_trans(after_open, after_name, s);
                let after_handlers = spec_parse_handlers(after_open).1;
                lemma_handlers_suffix(after_open);
                lemma_suffix_trans(after_handlers, after_open, s);
                if after_handlers.len() > 0 {
                    lemma_suffix_head(after_handlers, s);
                }
            }
        }
    }
}

/// A document matches only where the word `service` and a closing brace
/// stand among the tokens: a document whose service is not closed fails,
/// and gives no part of a tree.
pub proof fn lemma_document_without_closing_brace_fails(s: Tokens)
    requires
        !has_kind(s, APITokenKind::CloseBrace) || !has_kind(s, APITokenKind::Service),
    ensures
        spec_parse_api(s) is Err,
{
    let after_structs = spec_parse_struct_stmt1(s).1;
    lemma_struct_stmt_suffix(s);
    assert forall|kind: APITokenKind| has_kind(after_structs, kind) implies has_kind(s, kind) by {
        let i = choose|i: int|
            0 <= i < after_structs.len() && (#[trigger] after_structs[i]).kind == kind;
        assert(s[s.len() - after_structs.len() + i] == after_structs[i]);
    }
    lemma_service_without_closing_brace_fails(after_structs);
}

} // verus!
