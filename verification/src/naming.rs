//! Names that can be written: a document whose names are identifiers, whose
//! paths are route paths and whose tags are tag annotations is written in
//! words of which each is read as it is written.

use crate::annotation::Pairs;
use crate::lexical::{
    word_bool, word_get, word_handler, word_int, word_int32, word_int64, word_map, word_post,
    word_returns, word_server, word_service, word_string, word_struct, word_type,
};
use crate::munch::{is_identifier_text, is_route_path_text, word_kind};
use crate::printing::{
    print_annotation, print_declaration, print_declarations, print_document, print_field,
    print_fields, print_handler, print_handlers, print_pairs, print_request, print_response,
    print_service, print_struct, print_structs, print_type, Declaration, DocumentSource,
    HandlerSpelling, ServiceSource, StructSpelling, Word,
};
use crate::struct_ref::{FieldType, FieldView};
use crate::token::APITokenKind;
use crate::writing::{
    is_tag_text, lemma_at_word_well_written, lemma_path_well_written, lemma_symbol_well_written,
    lemma_tag_well_written, lemma_word_kinds, lemma_word_well_written, well_written,
};
use vstd::prelude::*;
use vstd::utf8::{encode_utf8, is_ascii_chars_encode_utf8};

verus! {

/// Whether a text can be written as a name: it is an identifier, and no
/// keyword.
pub open spec fn is_name(text: Seq<char>) -> bool {
    is_identifier_text(encode_utf8(text)) && word_kind(encode_utf8(text))
        == APITokenKind::Identifier
}

/// Whether a text can be written as a path: it is a route path.
pub open spec fn is_path(text: Seq<char>) -> bool {
    is_route_path_text(encode_utf8(text))
}

/// Whether a text can be written as a tag: it is a tag annotation.
pub open spec fn is_tag(text: Seq<char>) -> bool {
    is_tag_text(encode_utf8(text))
}

/// Whether all of the words are read as they are written.
pub open spec fn all_well_written(words: Seq<Word>) -> bool {
    forall|i: int| 0 <= i < words.len() ==> well_written(#[trigger] words[i])
}

/// Words of two runs are all well written if those of each run are.
pub proof fn lemma_all_add(first: Seq<Word>, second: Seq<Word>)
    requires
        all_well_written(first),
        all_well_written(second),
    ensures
        all_well_written(first + second),
{
    assert forall|i: int| 0 <= i < (first + second).len() implies well_written(
        #[trigger] (first + second)[i],
    ) by {
        if i < first.len() {
            assert((first + second)[i] == first[i]);
        } else {
            assert((first + second)[i] == second[i - first.len()]);
        }
    }
}

/// The word `int` is read as it is written.
proof fn lemma_word_int()
    ensures
        well_written(Word { kind: APITokenKind::IntDataType, text: "int"@ }),
{
    reveal_strlit("int");
    is_ascii_chars_encode_utf8("int"@);
    assert(encode_utf8("int"@) =~= word_int());
    lemma_word_kinds();
    assert(is_identifier_text(word_int()));
    lemma_word_well_written("int"@);
}

/// The word `int32` is read as it is written.
proof fn lemma_word_int32()
    ensures
        well_written(Word { kind: APITokenKind::IntDataType, text: "int32"@ }),
{
    reveal_strlit("int32");
    is_ascii_chars_encode_utf8("int32"@);
    assert(encode_utf8("int32"@) =~= word_int32());
    lemma_word_kinds();
    assert(is_identifier_text(word_int32()));
    lemma_word_well_written("int32"@);
}

/// The word `int64` is read as it is written.
proof fn lemma_word_int64()
    ensures
        well_written(Word { kind: APITokenKind::IntDataType, text: "int64"@ }),
{
    reveal_strlit("int64");
    is_ascii_chars_encode_utf8("int64"@);
    assert(encode_utf8("int64"@) =~= word_int64());
    lemma_word_kinds();
    assert(is_identifier_text(word_int64()));
    lemma_word_well_written("int64"@);
}

/// The word `string` is read as it is written.
proof fn lemma_word_string()
    ensures
        well_written(Word { kind: APITokenKind::StringDataType, text: "string"@ }),
{
    reveal_strlit("string");
    is_ascii_chars_encode_utf8("string"@);
    assert(encode_utf8("string"@) =~= word_string());
    lemma_word_kinds();
    assert(is_identifier_text(word_string()));
    lemma_word_well_written("string"@);
}

/// The word `bool` is read as it is written.
proof fn lemma_word_bool()
    ensures
        well_written(Word { kind: APITokenKind::BoolDataType, text: "bool"@ }),
{
    reveal_strlit("bool");
    is_ascii_chars_encode_utf8("bool"@);
    assert(encode_utf8("bool"@) =~= word_bool());
    lemma_word_kinds();
    assert(is_identifier_text(word_bool()));
    lemma_word_well_written("bool"@);
}

/// The word `map` is read as it is written.
proof fn lemma_word_map()
    ensures
        well_written(Word { kind: APITokenKind::MapDataType, text: "map"@ }),
{
    reveal_strlit("map");
    is_ascii_chars_encode_utf8("map"@);
    assert(encode_utf8("map"@) =~= word_map());
    lemma_word_kinds();
    assert(is_identifier_text(word_map()));
    lemma_word_well_written("map"@);
}

/// The word `type` is read as it is written.
proof fn lemma_word_type()
    ensures
        well_written(Word { kind: APITokenKind::Type, text: "type"@ }),
{
    reveal_strlit("type");
    is_ascii_chars_encode_utf8("type"@);
    assert(encode_utf8("type"@) =~= word_type());
    lemma_word_kinds();
    assert(is_identifier_text(word_type()));
    lemma_word_well_written("type"@);
}

/// The word `struct` is read as it is written.
proof fn lemma_word_struct()
    ensures
        well_written(Word { kind: APITokenKind::Struct, text: "struct"@ }),
{
    reveal_strlit("struct");
    is_ascii_chars_encode_utf8("struct"@);
    assert(encode_utf8("struct"@) =~= word_struct());
    lemma_word_kinds();
    assert(is_identifier_text(word_struct()));
    lemma_word_well_written("struct"@);
}

/// The word `service` is read as it is written.
proof fn lemma_word_service()
    ensures
        well_written(Word { kind: APITokenKind::Service, text: "service"@ }),
{
    reveal_strlit("service");
    is_ascii_chars_encode_utf8("service"@);
    assert(encode_utf8("service"@) =~= word_service());
    lemma_word_kinds();
    assert(is_identifier_text(word_service()));
    lemma_word_well_written("service"@);
}

/// The word `returns` is read as it is written.
proof fn lemma_word_returns()
    ensures
        well_written(Word { kind: APITokenKind::RespReturns, text: "returns"@ }),
{
    reveal_strlit("returns");
    is_ascii_chars_encode_utf8("returns"@);
    assert(encode_utf8("returns"@) =~= word_returns());
    lemma_word_kinds();
    assert(is_identifier_text(word_returns()));
    lemma_word_well_written("returns"@);
}

/// The word `get` is read as it is written.
proof fn lemma_word_get()
    ensures
        well_written(Word { kind: APITokenKind::HttpMethod, text: "get"@ }),
{
    reveal_strlit("get");
    is_ascii_chars_encode_utf8("get"@);
    assert(encode_utf8("get"@) =~= word_get());
    lemma_word_kinds();
    assert(is_identifier_text(word_get()));
    lemma_word_well_written("get"@);
}

/// The word `post` is read as it is written.
proof fn lemma_word_post()
    ensures
        well_written(Word { kind: APITokenKind::HttpMethod, text: "post"@ }),
{
    reveal_strlit("post");
    is_ascii_chars_encode_utf8("post"@);
    assert(encode_utf8("post"@) =~= word_post());
    lemma_word_kinds();
    assert(is_identifier_text(word_post()));
    lemma_word_well_written("post"@);
}

/// The word `@server` is read as it is written.
proof fn lemma_word_server()
    ensures
        well_written(Word { kind: APITokenKind::Server, text: "@server"@ }),
{
    reveal_strlit("@server");
    is_ascii_chars_encode_utf8("@server"@);
    assert(encode_utf8("@server"@) =~= word_server());
    lemma_at_word_well_written(APITokenKind::Server, "@server"@);
}

/// The word `@handler` is read as it is written.
proof fn lemma_word_handler()
    ensures
        well_written(Word { kind: APITokenKind::Handler, text: "@handler"@ }),
{
    reveal_strlit("@handler");
    is_ascii_chars_encode_utf8("@handler"@);
    assert(encode_utf8("@handler"@) =~= word_handler());
    lemma_at_word_well_written(APITokenKind::Handler, "@handler"@);
}

/// The symbol `{` is read as it is written.
proof fn lemma_word_open_brace()
    ensures
        well_written(Word { kind: APITokenKind::OpenBrace, text: "{"@ }),
{
    reveal_strlit("{");
    is_ascii_chars_encode_utf8("{"@);
    assert(encode_utf8("{"@) =~= seq!['{' as u8]);
    lemma_symbol_well_written(APITokenKind::OpenBrace, "{"@);
}

/// The symbol `}` is read as it is written.
proof fn lemma_word_close_brace()
    ensures
        well_written(Word { kind: APITokenKind::CloseBrace, text: "}"@ }),
{
    reveal_strlit("}");
    is_ascii_chars_encode_utf8("}"@);
    assert(encode_utf8("}"@) =~= seq!['}' as u8]);
    lemma_symbol_well_written(APITokenKind::CloseBrace, "}"@);
}

/// The symbol `(` is read as it is written.
proof fn lemma_word_open_paren()
    ensures
        well_written(Word { kind: APITokenKind::OpenParen, text: "("@ }),
{
    reveal_strlit("(");
    is_ascii_chars_encode_utf8("("@);
    assert(encode_utf8("("@) =~= seq!['(' as u8]);
    lemma_symbol_well_written(APITokenKind::OpenParen, "("@);
}

/// The symbol `)` is read as it is written.
proof fn lemma_word_close_paren()
    ensures
        well_written(Word { kind: APITokenKind::CloseParen, text: ")"@ }),
{
    reveal_strlit(")");
    is_ascii_chars_encode_utf8(")"@);
    assert(encode_utf8(")"@) =~= seq![')' as u8]);
    lemma_symbol_well_written(APITokenKind::CloseParen, ")"@);
}

/// The symbol `[` is read as it is written.
proof fn lemma_word_open_bracket()
    ensures
        well_written(Word { kind: APITokenKind::OpenBracket, text: "["@ }),
{
    reveal_strlit("[");
    is_ascii_chars_encode_utf8("["@);
    assert(encode_utf8("["@) =~= seq!['[' as u8]);
    lemma_symbol_well_written(APITokenKind::OpenBracket, "["@);
}

/// The symbol `]` is read as it is written.
proof fn lemma_word_close_bracket()
    ensures
        well_written(Word { kind: APITokenKind::CloseBracket, text: "]"@ }),
{
    reveal_strlit("]");
    is_ascii_chars_encode_utf8("]"@);
    assert(encode_utf8("]"@) =~= seq![']' as u8]);
    lemma_symbol_well_written(APITokenKind::CloseBracket, "]"@);
}

/// The symbol `:` is read as it is written.
proof fn lemma_word_colon()
    ensures
        well_written(Word { kind: APITokenKind::Colon, text: ":"@ }),
{
    reveal_strlit(":");
    is_ascii_chars_encode_utf8(":"@);
    assert(encode_utf8(":"@) =~= seq![':' as u8]);
    lemma_symbol_well_written(APITokenKind::Colon, ":"@);
}

/// The words that the grammar knows by heart are read as they are written.
pub proof fn lemma_fixed_words()
    ensures
        well_written(Word { kind: APITokenKind::IntDataType, text: "int"@ }),
        well_written(Word { kind: APITokenKind::IntDataType, text: "int32"@ }),
        well_written(Word { kind: APITokenKind::IntDataType, text: "int64"@ }),
        well_written(Word { kind: APITokenKind::StringDataType, text: "string"@ }),
        well_written(Word { kind: APITokenKind::BoolDataType, text: "bool"@ }),
        well_written(Word { kind: APITokenKind::MapDataType, text: "map"@ }),
        well_written(Word { kind: APITokenKind::Type, text: "type"@ }),
        well_written(Word { kind: APITokenKind::Struct, text: "struct"@ }),
        well_written(Word { kind: APITokenKind::Service, text: "service"@ }),
        well_written(Word { kind: APITokenKind::RespReturns, text: "returns"@ }),
        well_written(Word { kind: APITokenKind::HttpMethod, text: "get"@ }),
        well_written(Word { kind: APITokenKind::HttpMethod, text: "post"@ }),
        well_written(Word { kind: APITokenKind::Server, text: "@server"@ }),
        well_written(Word { kind: APITokenKind::Handler, text: "@handler"@ }),
        well_written(Word { kind: APITokenKind::OpenBrace, text: "{"@ }),
        well_written(Word { kind: APITokenKind::CloseBrace, text: "}"@ }),
        well_written(Word { kind: APITokenKind::OpenParen, text: "("@ }),
        well_written(Word { kind: APITokenKind::CloseParen, text: ")"@ }),
        well_written(Word { kind: APITokenKind::OpenBracket, text: "["@ }),
        well_written(Word { kind: APITokenKind::CloseBracket, text: "]"@ }),
        well_written(Word { kind: APITokenKind::Colon, text: ":"@ }),
{
    lemma_word_int();
    lemma_word_int32();
    lemma_word_int64();
    lemma_word_string();
    lemma_word_bool();
    lemma_word_map();
    lemma_word_type();
    lemma_word_struct();
    lemma_word_service();
    lemma_word_returns();
    lemma_word_get();
    lemma_word_post();
    lemma_word_server();
    lemma_word_handler();
    lemma_word_open_brace();
    lemma_word_close_brace();
    lemma_word_open_paren();
    lemma_word_close_paren();
    lemma_word_open_bracket();
    lemma_word_close_bracket();
    lemma_word_colon();
}

/// Whether the names of a field can be written.
pub open spec fn field_named(field: FieldView) -> bool {
    is_name(field.name) && (field.tag matches Some(tag) ==> is_tag(tag))
}

/// Whether the names of a struct declaration can be written.
pub open spec fn struct_named(spelling: StructSpelling) -> bool {
    is_name(spelling.def.name) && forall|i: int|
        0 <= i < spelling.def.fields.len() ==> field_named(#[trigger] spelling.def.fields[i])
}

/// Whether the names of struct declarations can be written.
pub open spec fn structs_named(spellings: Seq<StructSpelling>) -> bool {
    forall|i: int| 0 <= i < spellings.len() ==> struct_named(#[trigger] spellings[i])
}

/// Whether the names of a declaration statement can be written.
pub open spec fn declaration_named(declaration: Declaration) -> bool {
    match declaration {
        Declaration::Single(spelling) => struct_named(spelling),
        Declaration::Block(first, others) => struct_named(first) && structs_named(others),
    }
}

/// Whether the keys and the values of an annotation can be written.
pub open spec fn pairs_named(pairs: Pairs) -> bool {
    forall|i: int|
        0 <= i < pairs.len() ==> is_name((#[trigger] pairs[i]).0) && is_name(pairs[i].1)
}

/// Whether a method can be written as the word: the word is `get` or
/// `post` as the scanner knows them, or it is a name, which the scanner
/// takes for an identifier, as it does with capitals.
pub open spec fn method_written(word: Word) -> bool {
    ||| word == (Word { kind: APITokenKind::HttpMethod, text: "get"@ })
    ||| word == (Word { kind: APITokenKind::HttpMethod, text: "post"@ })
    ||| (word.kind == APITokenKind::Identifier && is_name(word.text))
}

/// Whether the names, the method and the path of a handler can be written.
pub open spec fn handler_named(spelling: HandlerSpelling) -> bool {
    &&& is_name(spelling.handler.name)
    &&& method_written(spelling.method)
    &&& is_path(spelling.handler.path)
    &&& spelling.handler.req_type matches Some(name) ==> is_name(name)
    &&& spelling.handler.resp_type matches Some(name) ==> is_name(name)
}

/// Whether the names of a service can be written.
pub open spec fn service_named(service: ServiceSource) -> bool {
    &&& is_name(service.name)
    &&& service.anotation matches Some(pairs) ==> pairs_named(pairs)
    &&& forall|i: int|
        0 <= i < service.handlers.len() ==> handler_named(#[trigger] service.handlers[i])
}

/// Whether the names of a document can be written.
pub open spec fn document_named(document: DocumentSource) -> bool {
    &&& forall|i: int|
        0 <= i < document.declarations.len() ==> declaration_named(
            #[trigger] document.declarations[i],
        )
    &&& service_named(document.service)
}

/// A name is read as an identifier.
pub proof fn lemma_name_written(text: Seq<char>)
    requires
        is_name(text),
    ensures
        well_written(Word { kind: APITokenKind::Identifier, text }),
{
    lemma_word_well_written(text);
}

/// The words of a field type are read as they are written.
pub proof fn lemma_type_written(t: FieldType)
    ensures
        all_well_written(print_type(t)),
    decreases t,
{
    lemma_fixed_words();
    match t {
        FieldType::Array(item) => {
            lemma_type_written(*item);
            let head = seq![
                Word { kind: APITokenKind::OpenBracket, text: "["@ },
                Word { kind: APITokenKind::CloseBracket, text: "]"@ },
            ];
            lemma_all_add(head, print_type(*item));
        },
        FieldType::Mapping(key, value) => {
            lemma_type_written(*key);
            lemma_type_written(*value);
            let head = seq![
                Word { kind: APITokenKind::MapDataType, text: "map"@ },
                Word { kind: APITokenKind::OpenBracket, text: "["@ },
            ];
            let close = seq![Word { kind: APITokenKind::CloseBracket, text: "]"@ }];
            lemma_all_add(head, print_type(*key));
            lemma_all_add(head + print_type(*key), close);
            lemma_all_add(head + print_type(*key) + close, print_type(*value));
        },
        _ => {},
    }
}

/// The words of fields are read as they are written, if their names can
/// be written.
pub proof fn lemma_fields_written(fields: Seq<FieldView>)
    requires
        forall|i: int| 0 <= i < fields.len() ==> field_named(#[trigger] fields[i]),
    ensures
        all_well_written(print_fields(fields)),
    decreases fields.len(),
{
    if fields.len() > 0 {
        let field = fields[0];
        assert(field_named(field));
        let name = seq![Word { kind: APITokenKind::Identifier, text: field.name }];
        let tag: Seq<Word> = match field.tag {
            Some(tag) => seq![Word { kind: APITokenKind::TagAnnotation, text: tag }],
            None => Seq::empty(),
        };
        lemma_name_written(field.name);
        if field.tag is Some {
            lemma_tag_well_written(field.tag->0);
        }
        lemma_type_written(field.field_type);
        lemma_all_add(name, print_type(field.field_type));
        lemma_all_add(name + print_type(field.field_type), tag);
        assert forall|i: int| 0 <= i < fields.skip(1).len() implies field_named(
            #[trigger] fields.skip(1)[i],
        ) by {
            assert(fields.skip(1)[i] == fields[i + 1]);
        }
        lemma_fields_written(fields.skip(1));
        lemma_all_add(print_field(field), print_fields(fields.skip(1)));
    }
}

/// The words of a struct declaration are read as they are written, if its
/// names can be written.
pub proof fn lemma_struct_written(spelling: StructSpelling)
    requires
        struct_named(spelling),
    ensures
        all_well_written(print_struct(spelling)),
{
    lemma_fixed_words();
    let type_word: Seq<Word> = if spelling.with_type {
        seq![Word { kind: APITokenKind::Type, text: "type"@ }]
    } else {
        Seq::empty()
    };
    let name = seq![Word { kind: APITokenKind::Identifier, text: spelling.def.name }];
    let struct_word: Seq<Word> = if spelling.with_struct {
        seq![Word { kind: APITokenKind::Struct, text: "struct"@ }]
    } else {
        Seq::empty()
    };
    let open = seq![Word { kind: APITokenKind::OpenBrace, text: "{"@ }];
    let close = seq![Word { kind: APITokenKind::CloseBrace, text: "}"@ }];
    let fields = print_fields(spelling.def.fields);
    lemma_name_written(spelling.def.name);
    lemma_fields_written(spelling.def.fields);
    lemma_all_add(type_word, name);
    lemma_all_add(type_word + name, struct_word);
    lemma_all_add(type_word + name + struct_word, open);
    lemma_all_add(type_word + name + struct_word + open, fields);
    lemma_all_add(type_word + name + struct_word + open + fields, close);
}

/// The words of struct declarations are read as they are written, if
/// their names can be written.
pub proof fn lemma_structs_written(spellings: Seq<StructSpelling>)
    requires
        structs_named(spellings),
    ensures
        all_well_written(print_structs(spellings)),
    decreases spellings.len(),
{
    if spellings.len() > 0 {
        assert(struct_named(spellings[0]));
        lemma_struct_written(spellings[0]);
        assert forall|i: int| 0 <= i < spellings.skip(1).len() implies struct_named(
            #[trigger] spellings.skip(1)[i],
        ) by {
            assert(spellings.skip(1)[i] == spellings[i + 1]);
        }
        lemma_structs_written(spellings.skip(1));
        lemma_all_add(print_struct(spellings[0]), print_structs(spellings.skip(1)));
    }
}

/// The words of declaration statements are read as they are written, if
/// their names can be written.
pub proof fn lemma_declarations_written(declarations: Seq<Declaration>)
    requires
        forall|i: int|
            0 <= i < declarations.len() ==> declaration_named(#[trigger] declarations[i]),
    ensures
        all_well_written(print_declarations(declarations)),
    decreases declarations.len(),
{
    if declarations.len() > 0 {
        assert(declaration_named(declarations[0]));
        match declarations[0] {
            Declaration::Single(spelling) => {
                lemma_struct_written(spelling);
            },
            Declaration::Block(first, others) => {
                lemma_fixed_words();
                let head = seq![
                    Word { kind: APITokenKind::Type, text: "type"@ },
                    Word { kind: APITokenKind::OpenParen, text: "("@ },
                ];
                let close = seq![Word { kind: APITokenKind::CloseParen, text: ")"@ }];
                lemma_struct_written(first);
                lemma_structs_written(others);
                lemma_all_add(head, print_struct(first));
                lemma_all_add(head + print_struct(first), print_structs(others));
                lemma_all_add(head + print_struct(first) + print_structs(others), close);
            },
        }
        assert forall|i: int| 0 <= i < declarations.skip(1).len() implies declaration_named(
            #[trigger] declarations.skip(1)[i],
        ) by {
            assert(declarations.skip(1)[i] == declarations[i + 1]);
        }
        lemma_declarations_written(declarations.skip(1));
        lemma_all_add(
            print_declaration(declarations[0]),
            print_declarations(declarations.skip(1)),
        );
    }
}

/// The words of the pairs of an annotation are read as they are written,
/// if the keys and the values can be written.
pub proof fn lemma_pairs_written(pairs: Pairs)
    requires
        pairs_named(pairs),
    ensures
        all_well_written(print_pairs(pairs)),
    decreases pairs.len(),
{
    if pairs.len() > 0 {
        lemma_fixed_words();
        assert(is_name(pairs[0].0) && is_name(pairs[0].1));
        lemma_name_written(pairs[0].0);
        lemma_name_written(pairs[0].1);
        let first = seq![
            Word { kind: APITokenKind::Identifier, text: pairs[0].0 },
            Word { kind: APITokenKind::Colon, text: ":"@ },
            Word { kind: APITokenKind::Identifier, text: pairs[0].1 },
        ];
        assert forall|i: int| 0 <= i < pairs.skip(1).len() implies is_name(
            (#[trigger] pairs.skip(1)[i]).0,
        ) && is_name(pairs.skip(1)[i].1) by {
            assert(pairs.skip(1)[i] == pairs[i + 1]);
        }
        lemma_pairs_written(pairs.skip(1));
        lemma_all_add(first, print_pairs(pairs.skip(1)));
    }
}

/// The words of handlers are read as they are written, if their names,
/// methods and paths can be written.
pub proof fn lemma_handlers_written(handlers: Seq<HandlerSpelling>)
    requires
        forall|i: int| 0 <= i < handlers.len() ==> handler_named(#[trigger] handlers[i]),
    ensures
        all_well_written(print_handlers(handlers)),
    decreases handlers.len(),
{
    if handlers.len() > 0 {
        let spelling = handlers[0];
        let handler = spelling.handler;
        assert(handler_named(spelling));
        lemma_fixed_words();
        lemma_name_written(handler.name);
        lemma_path_well_written(handler.path);
        if spelling.method.kind == APITokenKind::Identifier {
            lemma_name_written(spelling.method.text);
        }
        let head = seq![
            Word { kind: APITokenKind::Handler, text: "@handler"@ },
            Word { kind: APITokenKind::Identifier, text: handler.name },
            spelling.method,
            Word { kind: APITokenKind::RoutePath, text: handler.path },
        ];
        if handler.req_type is Some {
            lemma_name_written(handler.req_type->0);
        }
        if handler.resp_type is Some {
            lemma_name_written(handler.resp_type->0);
        }
        lemma_all_add(head, print_request(spelling));
        lemma_all_add(head + print_request(spelling), print_response(spelling));
        assert forall|i: int| 0 <= i < handlers.skip(1).len() implies handler_named(
            #[trigger] handlers.skip(1)[i],
        ) by {
            assert(handlers.skip(1)[i] == handlers[i + 1]);
        }
        lemma_handlers_written(handlers.skip(1));
        lemma_all_add(print_handler(spelling), print_handlers(handlers.skip(1)));
    }
}

/// The words of a service block are read as they are written, if its
/// names can be written.
pub proof fn lemma_service_written(service: ServiceSource)
    requires
        service_named(service),
    ensures
        all_well_written(print_service(service)),
{
    lemma_fixed_words();
    let anotation: Seq<Word> = match service.anotation {
        Some(pairs) => print_annotation(pairs),
        None => Seq::empty(),
    };
    let head = seq![
        Word { kind: APITokenKind::Service, text: "service"@ },
        Word { kind: APITokenKind::Identifier, text: service.name },
        Word { kind: APITokenKind::OpenBrace, text: "{"@ },
    ];
    let close = seq![Word { kind: APITokenKind::CloseBrace, text: "}"@ }];
    match service.anotation {
        Some(pairs) => {
            let open = seq![
                Word { kind: APITokenKind::Server, text: "@server"@ },
                Word { kind: APITokenKind::OpenParen, text: "("@ },
            ];
            let shut = seq![Word { kind: APITokenKind::CloseParen, text: ")"@ }];
            lemma_pairs_written(pairs);
            lemma_all_add(open, print_pairs(pairs));
            lemma_all_add(open + print_pairs(pairs), shut);
        },
        None => {},
    }
    lemma_name_written(service.name);
    lemma_handlers_written(service.handlers);
    lemma_all_add(anotation, head);
    lemma_all_add(anotation + head, print_handlers(service.handlers));
    lemma_all_add(anotation + head + print_handlers(service.handlers), close);
}

/// The words of a document are read as they are written, if its names
/// can be written.
pub proof fn lemma_document_written(document: DocumentSource)
    requires
        document_named(document),
    ensures
        all_well_written(print_document(document)),
{
    lemma_declarations_written(document.declarations);
    lemma_service_written(document.service);
    lemma_all_add(print_declarations(document.declarations), print_service(document.service));
}

} // verus!
