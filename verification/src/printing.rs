//! Writing a document down as tokens, and the law that reading it gives
//! the document back.
//!
//! A document is written by `print_document` as a sequence of words, a
//! word being the kind and the text of a token. The law says of every
//! sequence of tokens that spells those words, whatever their places in a
//! source: the grammar matches it and gives back the document that was
//! written, with as many structs as were declared and as many handlers as
//! were written. Declarations are written alone or in blocks, with or
//! without their keywords; handlers are written in every form that the
//! grammar takes.

use crate::annotation::{collect_pairs, Pairs};
use crate::common::{same_ignoring_ascii_case, spec_opt_token, Tokens};
use crate::parser::{spec_parse_api, APIStmtView};
use crate::scalars::{lemma_word_gives_its_scalar, scalar_word};
use crate::service::{
    spec_opt_service_anotation, spec_parse_handler, spec_parse_handlers, spec_parse_http_method,
    spec_parse_kv_pairs, spec_parse_service, spec_parse_service_anotation, token_text, HandlerView,
    HttpMethod, ServiceView,
};
use crate::struct_ref::{
    spec_parse_array_type, spec_parse_field, spec_parse_field_type, spec_parse_fields,
    spec_parse_many_struct, spec_parse_nest_struct, spec_parse_one_struct, spec_parse_struct_step,
    spec_parse_struct_stmt1, FieldType, FieldView, StructDefView,
};
use crate::token::{APITokenKind, TokenView};
use vstd::prelude::*;

verus! {

/// A word: the kind and the text of a token, without its place.
pub ghost struct Word {
    pub kind: APITokenKind,
    pub text: Seq<char>,
}

/// The word that a token spells.
pub open spec fn word_of(token: TokenView) -> Word {
    Word { kind: token.kind, text: token.text }
}

/// Whether the tokens begin with tokens that spell the given words.
pub open spec fn begins_with(s: Tokens, words: Seq<Word>) -> bool {
    words.len() <= s.len() && forall|i: int|
        0 <= i < words.len() ==> word_of(#[trigger] s[i]) == words[i]
}

/// Whether the token at `at`, if there is one, is of another kind.
pub open spec fn no_kind_at(s: Tokens, at: int, kind: APITokenKind) -> bool {
    0 <= at < s.len() ==> s[at].kind != kind
}

/// The words of a field type.
pub open spec fn print_type(t: FieldType) -> Seq<Word>
    decreases t,
{
    match t {
        FieldType::Int => seq![Word { kind: APITokenKind::IntDataType, text: "int"@ }],
        FieldType::Int32 => seq![Word { kind: APITokenKind::IntDataType, text: "int32"@ }],
        FieldType::Int64 => seq![Word { kind: APITokenKind::IntDataType, text: "int64"@ }],
        FieldType::String => seq![Word { kind: APITokenKind::StringDataType, text: "string"@ }],
        FieldType::Bool => seq![Word { kind: APITokenKind::BoolDataType, text: "bool"@ }],
        FieldType::Array(item) => seq![
            Word { kind: APITokenKind::OpenBracket, text: "["@ },
            Word { kind: APITokenKind::CloseBracket, text: "]"@ },
        ] + print_type(*item),
        FieldType::Mapping(key, value) => seq![
            Word { kind: APITokenKind::MapDataType, text: "map"@ },
            Word { kind: APITokenKind::OpenBracket, text: "["@ },
        ] + print_type(*key) + seq![Word { kind: APITokenKind::CloseBracket, text: "]"@ }]
            + print_type(*value),
    }
}

/// The words of a field: its name, its type, and its tag if it has one.
pub open spec fn print_field(field: FieldView) -> Seq<Word> {
    seq![Word { kind: APITokenKind::Identifier, text: field.name }] + print_type(field.field_type)
        + match field.tag {
        Some(tag) => seq![Word { kind: APITokenKind::TagAnnotation, text: tag }],
        None => Seq::empty(),
    }
}

/// The words of fields in a row.
pub open spec fn print_fields(fields: Seq<FieldView>) -> Seq<Word>
    decreases fields.len(),
{
    if fields.len() == 0 {
        Seq::empty()
    } else {
        print_field(fields[0]) + print_fields(fields.skip(1))
    }
}

/// A struct declaration as it is written: with or without the word `type`
/// before its name, with or without the word `struct` after it.
pub ghost struct StructSpelling {
    pub def: StructDefView,
    pub with_type: bool,
    pub with_struct: bool,
}

/// The words of a struct declaration.
pub open spec fn print_struct(spelling: StructSpelling) -> Seq<Word> {
    (if spelling.with_type {
        seq![Word { kind: APITokenKind::Type, text: "type"@ }]
    } else {
        Seq::empty()
    }) + seq![Word { kind: APITokenKind::Identifier, text: spelling.def.name }]
        + (if spelling.with_struct {
        seq![Word { kind: APITokenKind::Struct, text: "struct"@ }]
    } else {
        Seq::empty()
    }) + seq![Word { kind: APITokenKind::OpenBrace, text: "{"@ }] + print_fields(
        spelling.def.fields,
    ) + seq![Word { kind: APITokenKind::CloseBrace, text: "}"@ }]
}

/// The words of struct declarations in a row.
pub open spec fn print_structs(spellings: Seq<StructSpelling>) -> Seq<Word>
    decreases spellings.len(),
{
    if spellings.len() == 0 {
        Seq::empty()
    } else {
        print_struct(spellings[0]) + print_structs(spellings.skip(1))
    }
}

/// The structs that the spellings declare.
pub open spec fn declared(spellings: Seq<StructSpelling>) -> Seq<StructDefView> {
    Seq::new(spellings.len(), |i: int| spellings[i].def)
}

/// If the tokens begin with two runs of words, they begin with the first,
/// and what follows it begins with the second.
pub proof fn lemma_begins_split(s: Tokens, first: Seq<Word>, second: Seq<Word>)
    requires
        begins_with(s, first + second),
    ensures
        begins_with(s, first),
        begins_with(s.skip(first.len() as int), second),
{
    assert forall|i: int| 0 <= i < first.len() implies word_of(#[trigger] s[i]) == first[i] by {
        assert((first + second)[i] == first[i]);
    }
    let after = s.skip(first.len() as int);
    assert forall|i: int| 0 <= i < second.len() implies word_of(#[trigger] after[i])
        == second[i] by {
        assert(after[i] == s[first.len() + i]);
        assert((first + second)[first.len() + i] == second[i]);
    }
}

/// Leaving out tokens twice is leaving out their sum.
pub proof fn lemma_skip_twice(s: Tokens, m: int, n: int)
    requires
        0 <= m,
        0 <= n,
        m + n <= s.len(),
    ensures
        s.skip(m).skip(n) == s.skip(m + n),
{
    assert(s.skip(m).skip(n) =~= s.skip(m + n));
}

/// Tokens that begin with the words of a field type are read as that
/// type, and nothing more is taken.
pub proof fn lemma_type_read_back(t: FieldType, s: Tokens)
    requires
        begins_with(s, print_type(t)),
    ensures
        spec_parse_field_type(s) == Ok::<(FieldType, Tokens), Seq<char>>(
            (t, s.skip(print_type(t).len() as int)),
        ),
    decreases t,
{
    match t {
        FieldType::Array(item) => {
            let head = seq![
                Word { kind: APITokenKind::OpenBracket, text: "["@ },
                Word { kind: APITokenKind::CloseBracket, text: "]"@ },
            ];
            lemma_begins_split(s, head, print_type(*item));
            assert(s.skip(1)[0] == s[1]);
            lemma_skip_twice(s, 1, 1);
            lemma_type_read_back(*item, s.skip(2));
            lemma_skip_twice(s, 2, print_type(*item).len() as int);
        },
        FieldType::Mapping(key, value) => {
            let head = seq![
                Word { kind: APITokenKind::MapDataType, text: "map"@ },
                Word { kind: APITokenKind::OpenBracket, text: "["@ },
            ];
            let close = seq![Word { kind: APITokenKind::CloseBracket, text: "]"@ }];
            let key_len = print_type(*key).len() as int;
            let value_len = print_type(*value).len() as int;
            lemma_begins_split(s, head + print_type(*key) + close, print_type(*value));
            lemma_begins_split(s, head + print_type(*key), close);
            lemma_begins_split(s, head, print_type(*key));
            assert(s.skip(1)[0] == s[1]);
            lemma_skip_twice(s, 1, 1);
            lemma_type_read_back(*key, s.skip(2));
            lemma_skip_twice(s, 2, key_len);
            let after_key = s.skip(2 + key_len);
            assert(after_key[0] == s[2 + key_len]);
            lemma_skip_twice(s, 2 + key_len, 1);
            lemma_type_read_back(*value, s.skip(3 + key_len));
            lemma_skip_twice(s, 3 + key_len, value_len);
            assert(spec_parse_array_type(s) is Err);
        },
        _ => {
            assert(s[0].text == scalar_word(t));
            lemma_word_gives_its_scalar(s, t);
        },
    }
}

/// Tokens that begin with the words of a field are read as that field.
/// Where the field has no tag, the token that follows must be no tag.
#[verifier::rlimit(50)]
pub proof fn lemma_field_read_back(field: FieldView, s: Tokens)
    requires
        begins_with(s, print_field(field)),
        field.tag is None ==> no_kind_at(
            s,
            print_field(field).len() as int,
            APITokenKind::TagAnnotation,
        ),
    ensures
        spec_parse_field(s) == Ok::<(FieldView, Tokens), Seq<char>>(
            (field, s.skip(print_field(field).len() as int)),
        ),
{
    let name = seq![Word { kind: APITokenKind::Identifier, text: field.name }];
    let tag = match field.tag {
        Some(tag) => seq![Word { kind: APITokenKind::TagAnnotation, text: tag }],
        None => Seq::empty(),
    };
    let type_len = print_type(field.field_type).len() as int;
    lemma_begins_split(s, name + print_type(field.field_type), tag);
    lemma_begins_split(s, name, print_type(field.field_type));
    lemma_type_read_back(field.field_type, s.skip(1));
    lemma_skip_twice(s, 1, type_len);
    let after_type = s.skip(1 + type_len);
    if field.tag is Some {
        assert(after_type[0] == s[1 + type_len]);
        lemma_skip_twice(s, 1 + type_len, 1);
    } else {
        if after_type.len() > 0 {
            assert(after_type[0] == s[1 + type_len]);
        }
    }
}

/// Tokens that begin with the words of fields in a row are read as those
/// fields. The token that follows must be neither an identifier nor a tag.
#[verifier::rlimit(50)]
pub proof fn lemma_fields_read_back(fields: Seq<FieldView>, s: Tokens)
    requires
        begins_with(s, print_fields(fields)),
        no_kind_at(s, print_fields(fields).len() as int, APITokenKind::Identifier),
        no_kind_at(s, print_fields(fields).len() as int, APITokenKind::TagAnnotation),
    ensures
        spec_parse_fields(s) == (fields, s.skip(print_fields(fields).len() as int)),
    decreases fields.len(),
{
    if fields.len() == 0 {
        assert(s.skip(0) =~= s);
    } else {
        let first = fields[0];
        let others = fields.skip(1);
        let first_len = print_field(first).len() as int;
        lemma_begins_split(s, print_field(first), print_fields(others));
        let after = s.skip(first_len);
        if others.len() > 0 {
            assert(print_fields(others)[0].kind == APITokenKind::Identifier);
            assert(after[0] == s[first_len]);
        }
        lemma_field_read_back(first, s);
        assert forall|kind: APITokenKind|
            no_kind_at(s, print_fields(fields).len() as int, kind) implies no_kind_at(
            after,
            print_fields(others).len() as int,
            kind,
        ) by {
            if print_fields(others).len() < after.len() {
                assert(after[print_fields(others).len() as int] == s[print_fields(
                    fields,
                ).len() as int]);
            }
        }
        lemma_fields_read_back(others, after);
        lemma_skip_twice(s, first_len, print_fields(others).len() as int);
        assert(seq![first] + others =~= fields);
    }
}

/// Tokens that begin with the words of a struct declaration are read as
/// that declaration, whichever of its two keywords are written.
#[verifier::rlimit(50)]
pub proof fn lemma_struct_read_back(spelling: StructSpelling, s: Tokens)
    requires
        begins_with(s, print_struct(spelling)),
    ensures
        spec_parse_one_struct(s) == Ok::<(StructDefView, Tokens), Seq<char>>(
            (spelling.def, s.skip(print_struct(spelling).len() as int)),
        ),
{
    let type_word: Seq<Word> = if spelling.with_type {
        seq![Word { kind: APITokenKind::Type, text: "type"@ }]
    } else {
        Seq::empty()
    };
    let name = seq![Word { kind: APITokenKind::Identifier, text: spelling.def.name }];
    let struct_word: Seq<Word> = if spelling.with_struct {
        seq![Word { kind: APITokenKind::Struct, text: "struct"@ }]
    } else {
        Seq::empty()
    };
    let open = seq![Word { kind: APITokenKind::OpenBrace, text: "{"@ }];
    let close = seq![Word { kind: APITokenKind::CloseBrace, text: "}"@ }];
    let fields = print_fields(spelling.def.fields);
    let a = type_word.len() as int;
    let b = struct_word.len() as int;
    let n = fields.len() as int;
    lemma_begins_split(s, type_word + name + struct_word + open + fields, close);
    lemma_begins_split(s, type_word + name + struct_word + open, fields);
    lemma_begins_split(s, type_word + name + struct_word, open);
    lemma_begins_split(s, type_word + name, struct_word);
    lemma_begins_split(s, type_word, name);
    let after_type = s.skip(a);
    assert(after_type == spec_opt_token(APITokenKind::Type, s).1) by {
        assert(s.skip(0) =~= s);
    }
    assert(after_type[0] == s[a]);
    lemma_skip_twice(s, a, 1);
    let after_name = s.skip(a + 1);
    assert(after_name[0] == s[a + 1]);
    let after_struct = s.skip(a + 1 + b);
    assert(after_struct == spec_opt_token(APITokenKind::Struct, after_name).1) by {
        assert(after_name.skip(0) =~= after_name);
        lemma_skip_twice(s, a + 1, b);
    }
    assert(after_struct[0] == s[a + 1 + b]);
    lemma_skip_twice(s, a + 1 + b, 1);
    let after_open = s.skip(a + 2 + b);
    assert(after_open[n] == s[a + 2 + b + n]);
    lemma_fields_read_back(spelling.def.fields, after_open);
    lemma_skip_twice(s, a + 2 + b, n);
    let after_fields = s.skip(a + 2 + b + n);
    assert(after_fields[0] == s[a + 2 + b + n]);
    lemma_skip_twice(s, a + 2 + b + n, 1);
}

/// Tokens that begin with the words of struct declarations in a row are
/// read as those declarations. The token that follows must begin no
/// declaration: it is neither the word `type` nor an identifier.
pub proof fn lemma_structs_read_back(spellings: Seq<StructSpelling>, s: Tokens)
    requires
        begins_with(s, print_structs(spellings)),
        no_kind_at(s, print_structs(spellings).len() as int, APITokenKind::Type),
        no_kind_at(s, print_structs(spellings).len() as int, APITokenKind::Identifier),
    ensures
        spec_parse_many_struct(s) == (
            declared(spellings),
            s.skip(print_structs(spellings).len() as int),
        ),
    decreases spellings.len(),
{
    if spellings.len() == 0 {
        assert(s.skip(0) =~= s);
        assert(declared(spellings) =~= Seq::<StructDefView>::empty());
        if s.len() > 0 {
            assert(s.skip(0)[0] == s[0]);
        }
    } else {
        let first = spellings[0];
        let others = spellings.skip(1);
        let first_len = print_struct(first).len() as int;
        lemma_begins_split(s, print_struct(first), print_structs(others));
        let after = s.skip(first_len);
        lemma_struct_read_back(first, s);
        assert forall|kind: APITokenKind|
            no_kind_at(s, print_structs(spellings).len() as int, kind) implies no_kind_at(
            after,
            print_structs(others).len() as int,
            kind,
        ) by {
            if print_structs(others).len() < after.len() {
                assert(after[print_structs(others).len() as int] == s[print_structs(
                    spellings,
                ).len() as int]);
            }
        }
        lemma_structs_read_back(others, after);
        lemma_skip_twice(s, first_len, print_structs(others).len() as int);
        assert(seq![first.def] + declared(others) =~= declared(spellings));
    }
}

/// A declaration statement as it is written: one struct, or a block in
/// parentheses after the word `type`, which holds a first struct and those
/// that follow it.
pub ghost enum Declaration {
    Single(StructSpelling),
    Block(StructSpelling, Seq<StructSpelling>),
}

/// The words of a declaration statement.
pub open spec fn print_declaration(declaration: Declaration) -> Seq<Word> {
    match declaration {
        Declaration::Single(spelling) => print_struct(spelling),
        Declaration::Block(first, others) => seq![
            Word { kind: APITokenKind::Type, text: "type"@ },
            Word { kind: APITokenKind::OpenParen, text: "("@ },
        ] + print_struct(first) + print_structs(others) + seq![
            Word { kind: APITokenKind::CloseParen, text: ")"@ },
        ],
    }
}

/// The structs that a declaration statement declares.
pub open spec fn structs_of(declaration: Declaration) -> Seq<StructDefView> {
    match declaration {
        Declaration::Single(spelling) => seq![spelling.def],
        Declaration::Block(first, others) => seq![first.def] + declared(others),
    }
}

/// The words of declaration statements in a row.
pub open spec fn print_declarations(declarations: Seq<Declaration>) -> Seq<Word>
    decreases declarations.len(),
{
    if declarations.len() == 0 {
        Seq::empty()
    } else {
        print_declaration(declarations[0]) + print_declarations(declarations.skip(1))
    }
}

/// The structs that declaration statements declare, in their order.
pub open spec fn all_structs(declarations: Seq<Declaration>) -> Seq<StructDefView>
    decreases declarations.len(),
{
    if declarations.len() == 0 {
        Seq::empty()
    } else {
        structs_of(declarations[0]) + all_structs(declarations.skip(1))
    }
}

/// How many structs declaration statements declare.
pub open spec fn declared_count(declarations: Seq<Declaration>) -> nat
    decreases declarations.len(),
{
    if declarations.len() == 0 {
        0
    } else {
        structs_of(declarations[0]).len() + declared_count(declarations.skip(1))
    }
}

/// There are as many structs as were counted.
pub proof fn lemma_declared_count(declarations: Seq<Declaration>)
    ensures
        all_structs(declarations).len() == declared_count(declarations),
    decreases declarations.len(),
{
    if declarations.len() > 0 {
        lemma_declared_count(declarations.skip(1));
    }
}

/// Tokens that begin with the words of a declaration statement are read
/// as the structs that it declares.
#[verifier::rlimit(50)]
pub proof fn lemma_declaration_read_back(declaration: Declaration, s: Tokens)
    requires
        begins_with(s, print_declaration(declaration)),
    ensures
        spec_parse_struct_step(s) == Ok::<(Seq<StructDefView>, Tokens), Seq<char>>(
            (structs_of(declaration), s.skip(print_declaration(declaration).len() as int)),
        ),
        print_declaration(declaration).len() > 0,
{
    match declaration {
        Declaration::Single(spelling) => {
            lemma_struct_read_back(spelling, s);
            if spelling.with_type {
                assert(s[0].kind == APITokenKind::Type);
                assert(s[1].kind == APITokenKind::Identifier);
                assert(s.skip(1)[0] == s[1]);
            } else {
                assert(s[0].kind == APITokenKind::Identifier);
            }
            assert(spec_parse_nest_struct(s) is Err);
        },
        Declaration::Block(first, others) => {
            let head = seq![
                Word { kind: APITokenKind::Type, text: "type"@ },
                Word { kind: APITokenKind::OpenParen, text: "("@ },
            ];
            let close = seq![Word { kind: APITokenKind::CloseParen, text: ")"@ }];
            let a = print_struct(first).len() as int;
            let n = print_structs(others).len() as int;
            lemma_begins_split(s, head + print_struct(first) + print_structs(others), close);
            lemma_begins_split(s, head + print_struct(first), print_structs(others));
            lemma_begins_split(s, head, print_struct(first));
            assert(s.skip(1)[0] == s[1]);
            lemma_skip_twice(s, 1, 1);
            lemma_struct_read_back(first, s.skip(2));
            lemma_skip_twice(s, 2, a);
            let after_first = s.skip(2 + a);
            assert(after_first[n] == s[2 + a + n]);
            lemma_structs_read_back(others, after_first);
            lemma_skip_twice(s, 2 + a, n);
            assert(s.skip(2 + a + n)[0] == s[2 + a + n]);
            lemma_skip_twice(s, 2 + a + n, 1);
        },
    }
}

/// Tokens that begin with the words of declaration statements in a row
/// are read as the structs that they declare, in their order. The token
/// that follows must begin no declaration.
pub proof fn lemma_declarations_read_back(declarations: Seq<Declaration>, s: Tokens)
    requires
        begins_with(s, print_declarations(declarations)),
        no_kind_at(s, print_declarations(declarations).len() as int, APITokenKind::Type),
        no_kind_at(s, print_declarations(declarations).len() as int, APITokenKind::Identifier),
    ensures
        spec_parse_struct_stmt1(s) == (
            all_structs(declarations),
            s.skip(print_declarations(declarations).len() as int),
        ),
    decreases declarations.len(),
{
    if declarations.len() == 0 {
        assert(s.skip(0) =~= s);
        if s.len() > 0 {
            assert(s.skip(0)[0] == s[0]);
        }
    } else {
        let first = declarations[0];
        let others = declarations.skip(1);
        let first_len = print_declaration(first).len() as int;
        lemma_begins_split(s, print_declaration(first), print_declarations(others));
        let after = s.skip(first_len);
        lemma_declaration_read_back(first, s);
        assert forall|kind: APITokenKind|
            no_kind_at(s, print_declarations(declarations).len() as int, kind) implies no_kind_at(
            after,
            print_declarations(others).len() as int,
            kind,
        ) by {
            if print_declarations(others).len() < after.len() {
                assert(after[print_declarations(others).len() as int] == s[print_declarations(
                    declarations,
                ).len() as int]);
            }
        }
        lemma_declarations_read_back(others, after);
        lemma_skip_twice(s, first_len, print_declarations(others).len() as int);
    }
}

/// The words of the pairs of an annotation.
pub open spec fn print_pairs(pairs: Pairs) -> Seq<Word>
    decreases pairs.len(),
{
    if pairs.len() == 0 {
        Seq::empty()
    } else {
        seq![
            Word { kind: APITokenKind::Identifier, text: pairs[0].0 },
            Word { kind: APITokenKind::Colon, text: ":"@ },
            Word { kind: APITokenKind::Identifier, text: pairs[0].1 },
        ] + print_pairs(pairs.skip(1))
    }
}

/// The words of a server annotation.
pub open spec fn print_annotation(pairs: Pairs) -> Seq<Word> {
    seq![
        Word { kind: APITokenKind::Server, text: "@server"@ },
        Word { kind: APITokenKind::OpenParen, text: "("@ },
    ] + print_pairs(pairs) + seq![Word { kind: APITokenKind::CloseParen, text: ")"@ }]
}

/// A handler as it is written. The method is written as any word that
/// spells its name, in capitals or not. Where the handler names no request
/// type, empty parentheses may stand; where it names no response type, the
/// word `returns` may stand alone or with empty parentheses.
pub ghost struct HandlerSpelling {
    pub handler: HandlerView,
    pub method: Word,
    pub empty_request: bool,
    pub bare_returns: bool,
    pub empty_response: bool,
}

/// Whether the written method spells the method of the handler.
pub open spec fn method_fits(spelling: HandlerSpelling) -> bool {
    same_ignoring_ascii_case(spelling.method.text, spelling.handler.method.name_view())
}

/// The words of the request of a handler: the request type in
/// parentheses, or empty parentheses, or nothing.
pub open spec fn print_request(spelling: HandlerSpelling) -> Seq<Word> {
    match spelling.handler.req_type {
        Some(name) => seq![
            Word { kind: APITokenKind::OpenParen, text: "("@ },
            Word { kind: APITokenKind::Identifier, text: name },
            Word { kind: APITokenKind::CloseParen, text: ")"@ },
        ],
        None => if spelling.empty_request {
            seq![
                Word { kind: APITokenKind::OpenParen, text: "("@ },
                Word { kind: APITokenKind::CloseParen, text: ")"@ },
            ]
        } else {
            Seq::empty()
        },
    }
}

/// The words of the response of a handler: `returns` and the response
/// type in parentheses, or `returns` with empty parentheses, or `returns`
/// alone, or nothing.
pub open spec fn print_response(spelling: HandlerSpelling) -> Seq<Word> {
    match spelling.handler.resp_type {
        Some(name) => seq![
            Word { kind: APITokenKind::RespReturns, text: "returns"@ },
            Word { kind: APITokenKind::OpenParen, text: "("@ },
            Word { kind: APITokenKind::Identifier, text: name },
            Word { kind: APITokenKind::CloseParen, text: ")"@ },
        ],
        None => if spelling.bare_returns && spelling.empty_response {
            seq![
                Word { kind: APITokenKind::RespReturns, text: "returns"@ },
                Word { kind: APITokenKind::OpenParen, text: "("@ },
                Word { kind: APITokenKind::CloseParen, text: ")"@ },
            ]
        } else if spelling.bare_returns {
            seq![Word { kind: APITokenKind::RespReturns, text: "returns"@ }]
        } else {
            Seq::empty()
        },
    }
}

/// Whether the written handler ends with the closing parenthesis of its
/// response, after which nothing more is looked at.
pub open spec fn ends_closed(spelling: HandlerSpelling) -> bool {
    spelling.handler.resp_type is Some || (spelling.bare_returns && spelling.empty_response)
}

/// The words of a handler: `@handler`, its name, its method and its path,
/// its request and its response.
pub open spec fn print_handler(spelling: HandlerSpelling) -> Seq<Word> {
    seq![
        Word { kind: APITokenKind::Handler, text: "@handler"@ },
        Word { kind: APITokenKind::Identifier, text: spelling.handler.name },
        spelling.method,
        Word { kind: APITokenKind::RoutePath, text: spelling.handler.path },
    ] + print_request(spelling) + print_response(spelling)
}

/// The words of handlers in a row.
pub open spec fn print_handlers(handlers: Seq<HandlerSpelling>) -> Seq<Word>
    decreases handlers.len(),
{
    if handlers.len() == 0 {
        Seq::empty()
    } else {
        print_handler(handlers[0]) + print_handlers(handlers.skip(1))
    }
}

/// The handlers that the spellings write.
pub open spec fn written_handlers(handlers: Seq<HandlerSpelling>) -> Seq<HandlerView> {
    Seq::new(handlers.len(), |i: int| handlers[i].handler)
}

/// A service as it is written: its name, the pairs of its annotation as
/// they are given, also where a key comes twice, and its handlers.
pub ghost struct ServiceSource {
    pub name: Seq<char>,
    pub anotation: Option<Pairs>,
    pub handlers: Seq<HandlerSpelling>,
}

/// The words of a service block.
pub open spec fn print_service(service: ServiceSource) -> Seq<Word> {
    (match service.anotation {
        Some(pairs) => print_annotation(pairs),
        None => Seq::empty(),
    }) + seq![
        Word { kind: APITokenKind::Service, text: "service"@ },
        Word { kind: APITokenKind::Identifier, text: service.name },
        Word { kind: APITokenKind::OpenBrace, text: "{"@ },
    ] + print_handlers(service.handlers) + seq![
        Word { kind: APITokenKind::CloseBrace, text: "}"@ },
    ]
}

/// The service as it is read: the annotation holds what a map holds that
/// was filled with the written pairs.
pub open spec fn service_read(service: ServiceSource) -> ServiceView {
    ServiceView {
        name: service.name,
        anotation: match service.anotation {
            Some(pairs) => Some(collect_pairs(pairs)),
            None => None,
        },
        handlers: written_handlers(service.handlers),
    }
}

/// Tokens that begin with the words of pairs are read as those pairs. The
/// token that follows must be no identifier.
pub proof fn lemma_pairs_read_back(pairs: Pairs, s: Tokens)
    requires
        begins_with(s, print_pairs(pairs)),
        no_kind_at(s, print_pairs(pairs).len() as int, APITokenKind::Identifier),
    ensures
        spec_parse_kv_pairs(s) == (pairs, s.skip(print_pairs(pairs).len() as int)),
    decreases pairs.len(),
{
    if pairs.len() == 0 {
        assert(s.skip(0) =~= s);
    } else {
        let others = pairs.skip(1);
        let first = seq![
            Word { kind: APITokenKind::Identifier, text: pairs[0].0 },
            Word { kind: APITokenKind::Colon, text: ":"@ },
            Word { kind: APITokenKind::Identifier, text: pairs[0].1 },
        ];
        lemma_begins_split(s, first, print_pairs(others));
        assert(s.skip(1)[0] == s[1]);
        lemma_skip_twice(s, 1, 1);
        assert(s.skip(2)[0] == s[2]);
        lemma_skip_twice(s, 2, 1);
        let after = s.skip(3);
        if print_pairs(others).len() < after.len() {
            assert(after[print_pairs(others).len() as int] == s[print_pairs(pairs).len() as int]);
        }
        lemma_pairs_read_back(others, after);
        lemma_skip_twice(s, 3, print_pairs(others).len() as int);
        assert(seq![pairs[0]] + others =~= pairs);
    }
}

/// Tokens that begin with the words of a server annotation are read as
/// what a map holds that was filled with its pairs.
pub proof fn lemma_annotation_read_back(pairs: Pairs, s: Tokens)
    requires
        begins_with(s, print_annotation(pairs)),
    ensures
        spec_parse_service_anotation(s) == Ok::<(Pairs, Tokens), Seq<char>>(
            (collect_pairs(pairs), s.skip(print_annotation(pairs).len() as int)),
        ),
{
    let head = seq![
        Word { kind: APITokenKind::Server, text: "@server"@ },
        Word { kind: APITokenKind::OpenParen, text: "("@ },
    ];
    let close = seq![Word { kind: APITokenKind::CloseParen, text: ")"@ }];
    let n = print_pairs(pairs).len() as int;
    lemma_begins_split(s, head + print_pairs(pairs), close);
    lemma_begins_split(s, head, print_pairs(pairs));
    assert(s.skip(1)[0] == s[1]);
    lemma_skip_twice(s, 1, 1);
    let after_open = s.skip(2);
    assert(after_open[n] == s[2 + n]);
    lemma_pairs_read_back(pairs, after_open);
    lemma_skip_twice(s, 2, n);
    assert(s.skip(2 + n)[0] == s[2 + n]);
    lemma_skip_twice(s, 2 + n, 1);
}

/// A word that spells the name of a method, in capitals or not, is read
/// as that method.
pub proof fn lemma_method_read_back(method: HttpMethod, s: Tokens)
    requires
        s.len() > 0,
        same_ignoring_ascii_case(s[0].text, method.name_view()),
    ensures
        spec_parse_http_method(s) == Ok::<(HttpMethod, Tokens), Seq<char>>((method, s.skip(1))),
{
    reveal_strlit("GET");
    reveal_strlit("POST");
    vstd::utf8::is_ascii_chars_encode_utf8("GET"@);
    vstd::utf8::is_ascii_chars_encode_utf8("POST"@);
}

/// The words `get`, `GET`, `post` and `POST` spell their methods.
pub proof fn lemma_method_spellings()
    ensures
        same_ignoring_ascii_case("get"@, HttpMethod::GET.name_view()),
        same_ignoring_ascii_case("GET"@, HttpMethod::GET.name_view()),
        same_ignoring_ascii_case("post"@, HttpMethod::POST.name_view()),
        same_ignoring_ascii_case("POST"@, HttpMethod::POST.name_view()),
{
    reveal_strlit("get");
    reveal_strlit("GET");
    reveal_strlit("post");
    reveal_strlit("POST");
    vstd::utf8::is_ascii_chars_encode_utf8("get"@);
    vstd::utf8::is_ascii_chars_encode_utf8("GET"@);
    vstd::utf8::is_ascii_chars_encode_utf8("post"@);
    vstd::utf8::is_ascii_chars_encode_utf8("POST"@);
    assert(same_ignoring_ascii_case("get"@, "GET"@));
    assert(same_ignoring_ascii_case("post"@, "POST"@));
}

/// Whether the token at `at`, if there is one, is none that an open
/// parenthesis, a type name or a closing parenthesis of a handler could be.
pub open spec fn ends_parens(s: Tokens, at: int) -> bool {
    &&& no_kind_at(s, at, APITokenKind::OpenParen)
    &&& no_kind_at(s, at, APITokenKind::Identifier)
    &&& no_kind_at(s, at, APITokenKind::CloseParen)
}

/// Whether the token at `at`, if there is one, can go on a handler of
/// which the response is not closed: it is none of `returns`, `(`, an
/// identifier, `)`.
pub open spec fn ends_handler(s: Tokens, at: int) -> bool {
    no_kind_at(s, at, APITokenKind::RespReturns) && ends_parens(s, at)
}

/// What the three optional tokens of a request, or of a response after
/// `returns`, give: the type name if one stands there, and the tokens left.
pub open spec fn spec_opt_parens(s: Tokens) -> (Option<Seq<char>>, Tokens) {
    let after_open = spec_opt_token(APITokenKind::OpenParen, s).1;
    let (name, after_name) = spec_opt_token(APITokenKind::Identifier, after_open);
    (token_text(name), spec_opt_token(APITokenKind::CloseParen, after_name).1)
}

/// Tokens that begin with the words of a request are read as that
/// request. Where nothing is written, the token that stands there must be
/// none that a request could take.
pub proof fn lemma_request_read_back(spelling: HandlerSpelling, s: Tokens)
    requires
        begins_with(s, print_request(spelling)),
        print_request(spelling).len() == 0 ==> ends_parens(s, 0),
    ensures
        spec_opt_parens(s) == (
            spelling.handler.req_type,
            s.skip(print_request(spelling).len() as int),
        ),
{
    assert(s.skip(0) =~= s);
    let n = print_request(spelling).len() as int;
    if n > 0 {
        assert(s.skip(1)[0] == s[1]);
        lemma_skip_twice(s, 1, 1);
        if n == 3 {
            assert(s.skip(2)[0] == s[2]);
            lemma_skip_twice(s, 2, 1);
        }
    }
}

/// Tokens that begin with the words of a response are read as that
/// response. Where the response is not closed, the token that follows
/// must be none that the handler could take.
pub proof fn lemma_response_read_back(spelling: HandlerSpelling, s: Tokens)
    requires
        begins_with(s, print_response(spelling)),
        !ends_closed(spelling) ==> ends_handler(s, print_response(spelling).len() as int),
    ensures
        spec_opt_parens(spec_opt_token(APITokenKind::RespReturns, s).1) == (
            spelling.handler.resp_type,
            s.skip(print_response(spelling).len() as int),
        ),
{
    assert(s.skip(0) =~= s);
    let n = print_response(spelling).len() as int;
    if n > 0 {
        let after = s.skip(1);
        assert(after.skip(0) =~= after);
        if n > 1 {
            assert(after[0] == s[1]);
            assert(after.skip(1)[0] == s[2]);
            lemma_skip_twice(s, 1, 1);
            if n == 4 {
                assert(s.skip(2).skip(1)[0] == s[3]);
                lemma_skip_twice(s, 2, 1);
                lemma_skip_twice(s, 3, 1);
            } else {
                lemma_skip_twice(s, 2, 1);
            }
        } else {
            if after.len() > 0 {
                assert(after[0] == s[1]);
            }
        }
    }
}

/// Tokens that begin with the words of a handler are read as that
/// handler, however its method, its request and its response are
/// written. Where the response is not closed, the token that follows must
/// be none that the handler could take.
#[verifier::rlimit(50)]
pub proof fn lemma_handler_read_back(spelling: HandlerSpelling, s: Tokens)
    requires
        method_fits(spelling),
        begins_with(s, print_handler(spelling)),
        !ends_closed(spelling) ==> ends_handler(s, print_handler(spelling).len() as int),
    ensures
        spec_parse_handler(s) == Ok::<(HandlerView, Tokens), Seq<char>>(
            (spelling.handler, s.skip(print_handler(spelling).len() as int)),
        ),
{
    let handler = spelling.handler;
    let head = seq![
        Word { kind: APITokenKind::Handler, text: "@handler"@ },
        Word { kind: APITokenKind::Identifier, text: handler.name },
        spelling.method,
        Word { kind: APITokenKind::RoutePath, text: handler.path },
    ];
    let req = print_request(spelling);
    let resp = print_response(spelling);
    let a = req.len() as int;
    let b = resp.len() as int;
    lemma_begins_split(s, head + req, resp);
    lemma_begins_split(s, head, req);
    assert(s.skip(1)[0] == s[1]);
    lemma_skip_twice(s, 1, 1);
    assert(s.skip(2)[0] == s[2]);
    lemma_method_read_back(handler.method, s.skip(2));
    lemma_skip_twice(s, 2, 1);
    assert(s.skip(3)[0] == s[3]);
    lemma_skip_twice(s, 3, 1);
    let after_path = s.skip(4);
    let after_req = s.skip(4 + a);
    if a == 0 && after_path.len() > 0 {
        assert(after_path[0] == s[4]);
        if b > 0 {
            assert(resp[0].kind == APITokenKind::RespReturns);
        }
    }
    lemma_request_read_back(spelling, after_path);
    lemma_skip_twice(s, 4, a);
    if b < after_req.len() {
        assert(after_req[b] == s[4 + a + b]);
    }
    lemma_response_read_back(spelling, after_req);
    lemma_skip_twice(s, 4 + a, b);
    assert(spec_parse_handler(s) == ({
        let (req_type, after) = spec_opt_parens(after_path);
        let (resp_type, rest) = spec_opt_parens(
            spec_opt_token(APITokenKind::RespReturns, after).1,
        );
        Ok::<(HandlerView, Tokens), Seq<char>>(
            (
                HandlerView {
                    name: handler.name,
                    method: handler.method,
                    path: handler.path,
                    req_type,
                    resp_type,
                },
                rest,
            ),
        )
    }));
}

/// Tokens that begin with the words of handlers in a row are read as
/// those handlers. The token that follows must neither begin a handler nor
/// go on one.
pub proof fn lemma_handlers_read_back(handlers: Seq<HandlerSpelling>, s: Tokens)
    requires
        forall|i: int| 0 <= i < handlers.len() ==> method_fits(#[trigger] handlers[i]),
        begins_with(s, print_handlers(handlers)),
        no_kind_at(s, print_handlers(handlers).len() as int, APITokenKind::Handler),
        ends_handler(s, print_handlers(handlers).len() as int),
    ensures
        spec_parse_handlers(s) == (
            written_handlers(handlers),
            s.skip(print_handlers(handlers).len() as int),
        ),
    decreases handlers.len(),
{
    if handlers.len() == 0 {
        assert(s.skip(0) =~= s);
        assert(written_handlers(handlers) =~= Seq::<HandlerView>::empty());
    } else {
        let first = handlers[0];
        let others = handlers.skip(1);
        let first_len = print_handler(first).len() as int;
        lemma_begins_split(s, print_handler(first), print_handlers(others));
        let after = s.skip(first_len);
        if others.len() > 0 {
            assert(print_handlers(others)[0].kind == APITokenKind::Handler);
            assert(after[0] == s[first_len]);
        }
        assert forall|kind: APITokenKind|
            no_kind_at(s, print_handlers(handlers).len() as int, kind) implies no_kind_at(
            after,
            print_handlers(others).len() as int,
            kind,
        ) by {
            if print_handlers(others).len() < after.len() {
                assert(after[print_handlers(others).len() as int] == s[print_handlers(
                    handlers,
                ).len() as int]);
            }
        }
        assert(method_fits(first));
        assert forall|i: int| 0 <= i < others.len() implies method_fits(#[trigger] others[i]) by {
            assert(others[i] == handlers[i + 1]);
        }
        lemma_handler_read_back(first, s);
        lemma_handlers_read_back(others, after);
        lemma_skip_twice(s, first_len, print_handlers(others).len() as int);
        assert(seq![first.handler] + written_handlers(others) =~= written_handlers(handlers));
    }
}

/// Tokens that begin with the words of a service block are read as that
/// service.
#[verifier::rlimit(50)]
pub proof fn lemma_service_read_back(service: ServiceSource, s: Tokens)
    requires
        forall|i: int|
            0 <= i < service.handlers.len() ==> method_fits(#[trigger] service.handlers[i]),
        begins_with(s, print_service(service)),
    ensures
        spec_parse_service(s) == Ok::<(ServiceView, Tokens), Seq<char>>(
            (service_read(service), s.skip(print_service(service).len() as int)),
        ),
{
    let anotation: Seq<Word> = match service.anotation {
        Some(pairs) => print_annotation(pairs),
        None => Seq::empty(),
    };
    let head = seq![
        Word { kind: APITokenKind::Service, text: "service"@ },
        Word { kind: APITokenKind::Identifier, text: service.name },
        Word { kind: APITokenKind::OpenBrace, text: "{"@ },
    ];
    let close = seq![Word { kind: APITokenKind::CloseBrace, text: "}"@ }];
    let a = anotation.len() as int;
    let n = print_handlers(service.handlers).len() as int;
    lemma_begins_split(s, anotation + head + print_handlers(service.handlers), close);
    lemma_begins_split(s, anotation + head, print_handlers(service.handlers));
    lemma_begins_split(s, anotation, head);
    let after_anotation = s.skip(a);
    assert(after_anotation[0] == s[a]);
    match service.anotation {
        Some(pairs) => {
            lemma_annotation_read_back(pairs, s);
        },
        None => {
            assert(s.skip(0) =~= s);
        },
    }
    assert(spec_opt_service_anotation(s) == (service_read(service).anotation, after_anotation));
    lemma_skip_twice(s, a, 1);
    assert(s.skip(a + 1)[0] == s[a + 1]);
    lemma_skip_twice(s, a + 1, 1);
    assert(s.skip(a + 2)[0] == s[a + 2]);
    lemma_skip_twice(s, a + 2, 1);
    let after_open = s.skip(a + 3);
    assert(after_open[n] == s[a + 3 + n]);
    lemma_handlers_read_back(service.handlers, after_open);
    lemma_skip_twice(s, a + 3, n);
    assert(s.skip(a + 3 + n)[0] == s[a + 3 + n]);
    lemma_skip_twice(s, a + 3 + n, 1);
}

/// A document as it is written: declaration statements, then a service.
pub ghost struct DocumentSource {
    pub declarations: Seq<Declaration>,
    pub service: ServiceSource,
}

/// The words of a document.
pub open spec fn print_document(document: DocumentSource) -> Seq<Word> {
    print_declarations(document.declarations) + print_service(document.service)
}

/// The document as it is read.
pub open spec fn document_read(document: DocumentSource) -> APIStmtView {
    APIStmtView {
        type_struct: all_structs(document.declarations),
        service: service_read(document.service),
    }
}

/// Reading gives back what was written. Whatever the declaration
/// statements and the service are, tokens that begin with the words of the
/// document match the grammar; the document that comes out holds the
/// declared structs in their order, as many as were declared, and the
/// handlers of the service, as many as were written; what follows the
/// closing brace of the service is handed back.
#[verifier::rlimit(50)]
pub proof fn lemma_document_read_back(document: DocumentSource, s: Tokens)
    requires
        forall|i: int|
            0 <= i < document.service.handlers.len() ==> method_fits(
                #[trigger] document.service.handlers[i],
            ),
        begins_with(s, print_document(document)),
    ensures
        spec_parse_api(s) == Ok::<(APIStmtView, Tokens), Seq<char>>(
            (document_read(document), s.skip(print_document(document).len() as int)),
        ),
        document_read(document).type_struct.len() == declared_count(document.declarations),
        document_read(document).service.handlers.len() == document.service.handlers.len(),
{
    let n = print_declarations(document.declarations).len() as int;
    lemma_begins_split(
        s,
        print_declarations(document.declarations),
        print_service(document.service),
    );
    let after = s.skip(n);
    assert(after[0] == s[n]);
    assert(print_service(document.service)[0].kind == APITokenKind::Server || print_service(
        document.service,
    )[0].kind == APITokenKind::Service);
    lemma_declarations_read_back(document.declarations, s);
    lemma_service_read_back(document.service, after);
    lemma_skip_twice(s, n, print_service(document.service).len() as int);
    lemma_declared_count(document.declarations);
}

} // verus!
