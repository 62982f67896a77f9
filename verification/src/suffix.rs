//! What every rule leaves is an end piece of what it was given.
//!
//! The laws of this file say so for each rule of the grammar. They also
//! show that the tests on lengths inside the specifications never fail.

use crate::common::{spec_opt_token, Tokens};
use crate::parser::spec_parse_api;
use crate::service::{
    spec_opt_service_anotation, spec_parse_handler, spec_parse_handlers, spec_parse_kv_pair,
    spec_parse_kv_pairs, spec_parse_service, spec_parse_service_anotation,
};
use crate::struct_ref::{
    spec_parse_array_type, spec_parse_field, spec_parse_field_type, spec_parse_fields,
    spec_parse_many_struct, spec_parse_map_type, spec_parse_nest_struct, spec_parse_one_struct,
    spec_parse_struct_step, spec_parse_struct_stmt, spec_parse_struct_stmt1,
    spec_parse_struct_to_vec,
};
use crate::token::APITokenKind;
use vstd::prelude::*;

verus! {

/// Whether `rest` is what stays of `s` after some tokens at its front.
pub open spec fn is_suffix(rest: Tokens, s: Tokens) -> bool {
    rest.len() <= s.len() && rest == s.skip(s.len() - rest.len())
}

/// Whether `rest` is what stays of `s` after at least one token.
pub open spec fn is_proper_suffix(rest: Tokens, s: Tokens) -> bool {
    rest.len() < s.len() && is_suffix(rest, s)
}

/// An end piece of an end piece is an end piece.
pub proof fn lemma_suffix_trans(a: Tokens, b: Tokens, c: Tokens)
    requires
        is_suffix(a, b),
        is_suffix(b, c),
    ensures
        is_suffix(a, c),
{
    assert(a =~= c.skip(c.len() - a.len()));
}

/// Every sequence is an end piece of itself, and so is what follows its
/// first token.
pub proof fn lemma_suffix_basic(s: Tokens)
    ensures
        is_suffix(s, s),
        s.len() > 0 ==> is_proper_suffix(s.skip(1), s),
{
    assert(s =~= s.skip(0));
}

/// A rule that takes one token if it fits leaves an end piece.
pub proof fn lemma_opt_token_suffix(kind: APITokenKind, s: Tokens)
    ensures
        is_suffix(spec_opt_token(kind, s).1, s),
{
    lemma_suffix_basic(s);
}

/// What a field type leaves is a proper end piece.
pub proof fn lemma_field_type_suffix(s: Tokens)
    ensures
        spec_parse_field_type(s) matches Ok((_, rest)) ==> is_proper_suffix(rest, s),
        spec_parse_array_type(s) matches Ok((_, rest)) ==> is_proper_suffix(rest, s),
        spec_parse_map_type(s) matches Ok((_, rest)) ==> is_proper_suffix(rest, s),
    decreases s.len(),
{
    lemma_suffix_basic(s);
    if s.len() > 0 {
        let after_one = s.skip(1);
        lemma_suffix_basic(after_one);
        if after_one.len() > 0 {
            let after_two = after_one.skip(1);
            lemma_suffix_trans(after_two, after_one, s);
            lemma_field_type_suffix(after_two);
            match spec_parse_field_type(after_two) {
                Ok((_, after_key)) => {
                    lemma_suffix_trans(after_key, after_two, s);
                    if after_key.len() > 0 {
                        let after_close = after_key.skip(1);
                        lemma_suffix_basic(after_key);
                        lemma_suffix_trans(after_close, after_key, s);
                        lemma_field_type_suffix(after_close);
                        match spec_parse_field_type(after_close) {
                            Ok((_, rest)) => {
                                lemma_suffix_trans(rest, after_close, s);
                            },
                            Err(_) => {},
                        }
                    }
                },
                Err(_) => {},
            }
        }
    }
}

/// What a field leaves is a proper end piece.
pub proof fn lemma_field_suffix(s: Tokens)
    ensures
        spec_parse_field(s) matches Ok((_, rest)) ==> is_proper_suffix(rest, s),
{
    lemma_suffix_basic(s);
    if s.len() > 0 {
        let after_name = s.skip(1);
        lemma_field_type_suffix(after_name);
        match spec_parse_field_type(after_name) {
            Ok((_, after_type)) => {
                lemma_opt_token_suffix(APITokenKind::TagAnnotation, after_type);
                let rest = spec_opt_token(APITokenKind::TagAnnotation, after_type).1;
                lemma_suffix_trans(rest, after_type, after_name);
                lemma_suffix_trans(rest, after_name, s);
            },
            Err(_) => {},
        }
    }
}

/// What a row of fields leaves is an end piece.
pub proof fn lemma_fields_suffix(s: Tokens)
    ensures
        is_suffix(spec_parse_fields(s).1, s),
    decreases s.len(),
{
    lemma_suffix_basic(s);
    lemma_field_suffix(s);
    match spec_parse_field(s) {
        Ok((_, rest)) => {
            if rest.len() < s.len() {
                lemma_fields_suffix(rest);
                lemma_suffix_trans(spec_parse_fields(rest).1, rest, s);
            }
        },
        Err(_) => {},
    }
}

/// What a struct declaration leaves is a proper end piece.
pub proof fn lemma_one_struct_suffix(s: Tokens)
    ensures
        spec_parse_one_struct(s) matches Ok((_, rest)) ==> is_proper_suffix(rest, s),
{
    let after_type = spec_opt_token(APITokenKind::Type, s).1;
    lemma_opt_token_suffix(APITokenKind::Type, s);
    if after_type.len() > 0 {
        let after_name = after_type.skip(1);
        lemma_suffix_basic(after_type);
        lemma_suffix_trans(after_name, after_type, s);
        let after_struct = spec_opt_token(APITokenKind::Struct, after_name).1;
        lemma_opt_token_suffix(APITokenKind::Struct, after_name);
        lemma_suffix_trans(after_struct, after_name, s);
        if after_struct.len() > 0 {
            let after_open = after_struct.skip(1);
            lemma_suffix_basic(after_struct);
            lemma_suffix_trans(after_open, after_struct, s);
            let after_fields = spec_parse_fields(after_open).1;
            lemma_fields_suffix(after_open);
            lemma_suffix_trans(after_fields, after_open, s);
            if after_fields.len() > 0 {
                lemma_suffix_basic(after_fields);
                lemma_suffix_trans(after_fields.skip(1), after_fields, s);
            }
        }
    }
}

/// What a row of struct declarations leaves is an end piece.
pub proof fn lemma_many_struct_suffix(s: Tokens)
    ensures
        is_suffix(spec_parse_many_struct(s).1, s),
    decreases s.len(),
{
    lemma_suffix_basic(s);
    lemma_one_struct_suffix(s);
    match spec_parse_one_struct(s) {
        Ok((_, rest)) => {
            if rest.len() < s.len() {
                lemma_many_struct_suffix(rest);
                lemma_suffix_trans(spec_parse_many_struct(rest).1, rest, s);
            }
        },
        Err(_) => {},
    }
}

/// What a block of declarations leaves is a proper end piece.
pub proof fn lemma_nest_struct_suffix(s: Tokens)
    ensures
        spec_parse_nest_struct(s) matches Ok((_, rest)) ==> is_proper_suffix(rest, s),
{
    lemma_suffix_basic(s);
    if s.len() > 0 {
        let after_type = s.skip(1);
        lemma_suffix_basic(after_type);
        if after_type.len() > 0 {
            let after_open = after_type.skip(1);
            lemma_suffix_trans(after_open, after_type, s);
            lemma_one_struct_suffix(after_open);
            match spec_parse_one_struct(after_open) {
                Ok((_, after_first)) => {
                    lemma_suffix_trans(after_first, after_open, s);
                    let after_structs = spec_parse_many_struct(after_first).1;
                    lemma_many_struct_suffix(after_first);
                    lemma_suffix_trans(after_structs, after_first, s);
                    if after_structs.len() > 0 {
                        lemma_suffix_basic(after_structs);
                        lemma_suffix_trans(after_structs.skip(1), after_structs, s);
                    }
                },
                Err(_) => {},
            }
        }
    }
}

/// What the struct statements of a type region leave is an end piece, and
/// what one statement leaves is a proper end piece.
pub proof fn lemma_struct_stmt_suffix(s: Tokens)
    ensures
        is_suffix(spec_parse_struct_stmt1(s).1, s),
        is_suffix(spec_parse_struct_stmt(s).1, s),
        spec_parse_struct_step(s) matches Ok((_, rest)) ==> is_proper_suffix(rest, s),
        spec_parse_struct_to_vec(s) matches Ok((_, rest)) ==> is_proper_suffix(rest, s),
    decreases s.len(),
{
    lemma_suffix_basic(s);
    lemma_nest_struct_suffix(s);
    lemma_one_struct_suffix(s);
    lemma_many_struct_suffix(s);
    match spec_parse_struct_step(s) {
        Ok((_, rest)) => {
            if rest.len() < s.len() {
                lemma_struct_stmt_suffix(rest);
                lemma_suffix_trans(spec_parse_struct_stmt1(rest).1, rest, s);
            }
        },
        Err(_) => {},
    }
}

/// What a pair of an annotation leaves is a proper end piece, and what a
/// row of pairs leaves is an end piece.
pub proof fn lemma_kv_pairs_suffix(s: Tokens)
    ensures
        spec_parse_kv_pair(s) matches Ok((_, rest)) ==> is_proper_suffix(rest, s),
        is_suffix(spec_parse_kv_pairs(s).1, s),
    decreases s.len(),
{
    lemma_suffix_basic(s);
    if s.len() > 0 {
        let after_key = s.skip(1);
        lemma_suffix_basic(after_key);
        if after_key.len() > 0 {
            let after_colon = after_key.skip(1);
            lemma_suffix_trans(after_colon, after_key, s);
            if after_colon.len() > 0 {
                lemma_suffix_basic(after_colon);
                lemma_suffix_trans(after_colon.skip(1), after_colon, s);
            }
        }
    }
    match spec_parse_kv_pair(s) {
        Ok((_, rest)) => {
            if rest.len() < s.len() {
                lemma_kv_pairs_suffix(rest);
                lemma_suffix_trans(spec_parse_kv_pairs(rest).1, rest, s);
            }
        },
        Err(_) => {},
    }
}

/// What the server annotation leaves is a proper end piece.
pub proof fn lemma_service_anotation_suffix(s: Tokens)
    ensures
        spec_parse_service_anotation(s) matches Ok((_, rest)) ==> is_proper_suffix(rest, s),
        is_suffix(spec_opt_service_anotation(s).1, s),
{
    lemma_suffix_basic(s);
    if s.len() > 0 {
        let after_server = s.skip(1);
        lemma_suffix_basic(after_server);
        if after_server.len() > 0 {
            let after_open = after_server.skip(1);
            lemma_suffix_trans(after_open, after_server, s);
            let after_pairs = spec_parse_kv_pairs(after_open).1;
            lemma_kv_pairs_suffix(after_open);
            lemma_suffix_trans(after_pairs, after_open, s);
            if after_pairs.len() > 0 {
                lemma_suffix_basic(after_pairs);
                lemma_suffix_trans(after_pairs.skip(1), after_pairs, s);
            }
        }
    }
}

/// What a handler leaves is a proper end piece.
pub proof fn lemma_handler_suffix(s: Tokens)
    ensures
        spec_parse_handler(s) matches Ok((_, rest)) ==> is_proper_suffix(rest, s),
{
    lemma_suffix_basic(s);
    if s.len() > 0 {
        let after_handler = s.skip(1);
        lemma_suffix_basic(after_handler);
        if after_handler.len() > 0 {
            let after_name = after_handler.skip(1);
            lemma_suffix_trans(after_name, after_handler, s);
            lemma_suffix_basic(after_name);
            if after_name.len() > 0 {
                let after_method = after_name.skip(1);
                lemma_suffix_trans(after_method, after_name, s);
                lemma_suffix_basic(after_method);
                if after_method.len() > 0 {
                    let after_path = after_method.skip(1);
                    lemma_suffix_trans(after_path, after_method, s);
                    let a = spec_opt_token(APITokenKind::OpenParen, after_path).1;
                    lemma_opt_token_suffix(APITokenKind::OpenParen, after_path);
                    lemma_suffix_trans(a, after_path, s);
                    let b = spec_opt_token(APITokenKind::Identifier, a).1;
                    lemma_opt_token_suffix(APITokenKind::Identifier, a);
                    lemma_suffix_trans(b, a, s);
                    let c = spec_opt_token(APITokenKind::CloseParen, b).1;
                    lemma_opt_token_suffix(APITokenKind::CloseParen, b);
                    lemma_suffix_trans(c, b, s);
                    let d = spec_opt_token(APITokenKind::RespReturns, c).1;
                    lemma_opt_token_suffix(APITokenKind::RespReturns, c);
                    lemma_suffix_trans(d, c, s);
                    let e = spec_opt_token(APITokenKind::OpenParen, d).1;
                    lemma_opt_token_suffix(APITokenKind::OpenParen, d);
                    lemma_suffix_trans(e, d, s);
                    let f = spec_opt_token(APITokenKind::Identifier, e).1;
                    lemma_opt_token_suffix(APITokenKind::Identifier, e);
                    lemma_suffix_trans(f, e, s);
                    let g = spec_opt_token(APITokenKind::CloseParen, f).1;
                    lemma_opt_token_suffix(APITokenKind::CloseParen, f);
                    lemma_suffix_trans(g, f, s);
                }
            }
        }
    }
}

/// What a row of handlers leaves is an end piece.
pub proof fn lemma_handlers_suffix(s: Tokens)
    ensures
        is_suffix(spec_parse_handlers(s).1, s),
    decreases s.len(),
{
    lemma_suffix_basic(s);
    lemma_handler_suffix(s);
    match spec_parse_handler(s) {
        Ok((_, rest)) => {
            if rest.len() < s.len() {
                lemma_handlers_suffix(rest);
                lemma_suffix_trans(spec_parse_handlers(rest).1, rest, s);
            }
        },
        Err(_) => {},
    }
}

/// What the service block leaves is a proper end piece.
pub proof fn lemma_service_suffix(s: Tokens)
    ensures
        spec_parse_service(s) matches Ok((_, rest)) ==> is_proper_suffix(rest, s),
{
    let after_anotation = spec_opt_service_anotation(s).1;
    lemma_service_anotation_suffix(s);
    if after_anotation.len() > 0 {
        let after_service = after_anotation.skip(1);
        lemma_suffix_basic(after_anotation);
        lemma_suffix_trans(after_service, after_anotation, s);
        if after_service.len() > 0 {
            let after_name = after_service.skip(1);
            lemma_suffix_basic(after_service);
            lemma_suffix_trans(after_name, after_service, s);
            if after_name.len() > 0 {
                let after_open = after_name.skip(1);
                lemma_suffix_basic(after_name);
                lemma_suffix_trans(after_open, after_name, s);
                let after_handlers = spec_parse_handlers(after_open).1;
                lemma_handlers_suffix(after_open);
                lemma_suffix_trans(after_handlers, after_open, s);
                if after_handlers.len() > 0 {
                    lemma_suffix_basic(after_handlers);
                    lemma_suffix_trans(after_handlers.skip(1), after_handlers, s);
                }
            }
        }
    }
}

/// What a document leaves is a proper end piece.
pub proof fn lemma_api_suffix(s: Tokens)
    ensures
        spec_parse_api(s) matches Ok((_, rest)) ==> is_proper_suffix(rest, s),
{
    let after_structs = spec_parse_struct_stmt1(s).1;
    lemma_struct_stmt_suffix(s);
    lemma_service_suffix(after_structs);
    match spec_parse_service(after_structs) {
        Ok((_, rest)) => {
            lemma_suffix_trans(rest, after_structs, s);
        },
        Err(_) => {},
    }
}

} // verus!
