//! The scalar field types and their words: each word gives its own type,
//! and no other word gives it.

use crate::common::Tokens;
use crate::struct_ref::{spec_parse_field_type, FieldType};
use crate::token::APITokenKind;
use vstd::prelude::*;

verus! {

/// Whether a field type is one of the five scalar types.
pub open spec fn is_scalar(t: FieldType) -> bool {
    t == FieldType::Int || t == FieldType::Int32 || t == FieldType::Int64 || t == FieldType::String
        || t == FieldType::Bool
}

/// The word that spells a scalar type.
pub open spec fn scalar_word(t: FieldType) -> Seq<char> {
    match t {
        FieldType::Int => "int"@,
        FieldType::Int32 => "int32"@,
        FieldType::Int64 => "int64"@,
        FieldType::String => "string"@,
        _ => "bool"@,
    }
}

/// No two scalar types have the same word.
pub proof fn lemma_scalar_words_differ(a: FieldType, b: FieldType)
    requires
        is_scalar(a),
        is_scalar(b),
        a != b,
    ensures
        scalar_word(a) != scalar_word(b),
{
    reveal_strlit("int");
    reveal_strlit("int32");
    reveal_strlit("int64");
    reveal_strlit("string");
    reveal_strlit("bool");
    if scalar_word(a).len() == scalar_word(b).len() {
        assert(scalar_word(a)[0] != scalar_word(b)[0] || scalar_word(a)[3] != scalar_word(b)[3]);
    }
}

/// A field type that comes out as a scalar type was spelled by the word of
/// that type, in one token: no other word gives the type.
pub proof fn lemma_scalar_only_from_its_word(s: Tokens)
    ensures
        spec_parse_field_type(s) matches Ok((t, rest)) ==> (is_scalar(t) ==> s.len() > 0
            && s[0].text == scalar_word(t) && rest == s.skip(1)),
{
}

/// The word of a scalar type gives that type and is all that is taken,
/// unless the token that spells it is a bracket or the word `map` by kind.
pub proof fn lemma_word_gives_its_scalar(s: Tokens, t: FieldType)
    requires
        is_scalar(t),
        s.len() > 0,
        s[0].text == scalar_word(t),
        s[0].kind != APITokenKind::OpenBracket,
        s[0].kind != APITokenKind::MapDataType,
    ensures
        spec_parse_field_type(s) == Ok::<(FieldType, Tokens), Seq<char>>((t, s.skip(1))),
{
    if t != FieldType::Int {
        lemma_scalar_words_differ(t, FieldType::Int);
    }
    if t != FieldType::Int32 {
        lemma_scalar_words_differ(t, FieldType::Int32);
    }
    if t != FieldType::Int64 {
        lemma_scalar_words_differ(t, FieldType::Int64);
    }
    if t != FieldType::String {
        lemma_scalar_words_differ(t, FieldType::String);
    }
}

} // verus!
