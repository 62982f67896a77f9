//! Counting the words of a written document: it holds one opening brace
//! for each struct and one for the service, and one `@handler` for each
//! handler.

use crate::annotation::Pairs;
use crate::common::Tokens;
use crate::parser::spec_parse_api;
use crate::printing::{
    begins_with, declared_count, lemma_document_read_back, method_fits, print_annotation,
    print_declaration, print_declarations, print_document, print_field, print_fields, print_handler,
    print_handlers, print_pairs, print_request, print_response, print_service, print_struct,
    print_structs, print_type, Declaration, DocumentSource, HandlerSpelling, ServiceSource,
    StructSpelling, Word,
};

use crate::struct_ref::{FieldType, FieldView};
use crate::token::APITokenKind;
use vstd::prelude::*;

verus! {

/// One if the word is of the kind, else zero.
pub open spec fn one_if(word: Word, kind: APITokenKind) -> nat {
    if word.kind == kind {
        1
    } else {
        0
    }
}

/// How many of the words are of the given kind.
pub open spec fn count_kind(words: Seq<Word>, kind: APITokenKind) -> nat
    decreases words.len(),
{
    if words.len() == 0 {
        0
    } else {
        count_kind(words.drop_last(), kind) + one_if(words.last(), kind)
    }
}

/// Whether the kind is one of the two that are counted here: the opening
/// brace and `@handler`.
pub open spec fn counted(kind: APITokenKind) -> bool {
    kind == APITokenKind::OpenBrace || kind == APITokenKind::Handler
}

/// The words of two runs are counted run by run.
pub proof fn lemma_count_add(first: Seq<Word>, second: Seq<Word>, kind: APITokenKind)
    ensures
        count_kind(first + second, kind) == count_kind(first, kind) + count_kind(second, kind),
    decreases second.len(),
{
    if second.len() == 0 {
        assert(first + second =~= first);
    } else {
        assert((first + second).drop_last() =~= first + second.drop_last());
        lemma_count_add(first, second.drop_last(), kind);
    }
}

/// Up to four words are counted one by one.
pub proof fn lemma_count_few(words: Seq<Word>, kind: APITokenKind)
    requires
        words.len() <= 4,
    ensures
        words.len() == 0 ==> count_kind(words, kind) == 0,
        words.len() == 1 ==> count_kind(words, kind) == one_if(words[0], kind),
        words.len() == 2 ==> count_kind(words, kind) == one_if(words[0], kind) + one_if(
            words[1],
            kind,
        ),
        words.len() == 3 ==> count_kind(words, kind) == one_if(words[0], kind) + one_if(
            words[1],
            kind,
        ) + one_if(words[2], kind),
        words.len() == 4 ==> count_kind(words, kind) == one_if(words[0], kind) + one_if(
            words[1],
            kind,
        ) + one_if(words[2], kind) + one_if(words[3], kind),
    decreases words.len(),
{
    if words.len() > 0 {
        lemma_count_few(words.drop_last(), kind);
    }
}

/// The words of a field type hold neither an opening brace nor `@handler`.
pub proof fn lemma_count_type(t: FieldType, kind: APITokenKind)
    requires
        counted(kind),
    ensures
        count_kind(print_type(t), kind) == 0,
    decreases t,
{
    match t {
        FieldType::Array(item) => {
            let head = seq![
                Word { kind: APITokenKind::OpenBracket, text: "["@ },
                Word { kind: APITokenKind::CloseBracket, text: "]"@ },
            ];
            lemma_count_few(head, kind);
            lemma_count_type(*item, kind);
            lemma_count_add(head, print_type(*item), kind);
        },
        FieldType::Mapping(key, value) => {
            let head = seq![
                Word { kind: APITokenKind::MapDataType, text: "map"@ },
                Word { kind: APITokenKind::OpenBracket, text: "["@ },
            ];
            let close = seq![Word { kind: APITokenKind::CloseBracket, text: "]"@ }];
            lemma_count_few(head, kind);
            lemma_count_few(close, kind);
            lemma_count_type(*key, kind);
            lemma_count_type(*value, kind);
            lemma_count_add(head, print_type(*key), kind);
            lemma_count_add(head + print_type(*key), close, kind);
            lemma_count_add(head + print_type(*key) + close, print_type(*value), kind);
        },
        _ => {
            lemma_count_few(print_type(t), kind);
        },
    }
}

/// The words of fields hold neither an opening brace nor `@handler`.
pub proof fn lemma_count_fields(fields: Seq<FieldView>, kind: APITokenKind)
    requires
        counted(kind),
    ensures
        count_kind(print_fields(fields), kind) == 0,
    decreases fields.len(),
{
    if fields.len() > 0 {
        let field = fields[0];
        let name = seq![Word { kind: APITokenKind::Identifier, text: field.name }];
        let tag: Seq<Word> = match field.tag {
            Some(tag) => seq![Word { kind: APITokenKind::TagAnnotation, text: tag }],
            None => Seq::empty(),
        };
        lemma_count_few(name, kind);
        lemma_count_few(tag, kind);
        lemma_count_type(field.field_type, kind);
        lemma_count_add(name, print_type(field.field_type), kind);
        lemma_count_add(name + print_type(field.field_type), tag, kind);
        lemma_count_fields(fields.skip(1), kind);
        lemma_count_add(print_field(field), print_fields(fields.skip(1)), kind);
    }
}

/// The words of a struct declaration hold one opening brace and no
/// `@handler`.
pub proof fn lemma_count_struct(spelling: StructSpelling, kind: APITokenKind)
    requires
        counted(kind),
    ensures
        count_kind(print_struct(spelling), kind) == one_if(
            Word { kind: APITokenKind::OpenBrace, text: "{"@ },
            kind,
        ),
{
    let type_word: Seq<Word> = if spelling.with_type {
        seq![Word { kind: APITokenKind::Type, text: "type"@ }]
    } else {
        Seq::empty()
    };
    let name = seq![Word { kind: APITokenKind::Identifier, text: spelling.def.name }];
    let struct_word: Seq<Word> = if spelling.with_struct {
        seq![Word { kind: APITokenKind::Struct, text: "struct"@ }]
    } else {
        Seq::empty()
    };
    let open = seq![Word { kind: APITokenKind::OpenBrace, text: "{"@ }];
    let close = seq![Word { kind: APITokenKind::CloseBrace, text: "}"@ }];
    let fields = print_fields(spelling.def.fields);
    lemma_count_few(type_word, kind);
    lemma_count_few(name, kind);
    lemma_count_few(struct_word, kind);
    lemma_count_few(open, kind);
    lemma_count_few(close, kind);
    lemma_count_fields(spelling.def.fields, kind);
    lemma_count_add(type_word, name, kind);
    lemma_count_add(type_word + name, struct_word, kind);
    lemma_count_add(type_word + name + struct_word, open, kind);
    lemma_count_add(type_word + name + struct_word + open, fields, kind);
    lemma_count_add(type_word + name + struct_word + open + fields, close, kind);
}

/// The words of struct declarations in a row hold one opening brace for
/// each, and no `@handler`.
pub proof fn lemma_count_structs(spellings: Seq<StructSpelling>, kind: APITokenKind)
    requires
        counted(kind),
    ensures
        count_kind(print_structs(spellings), kind) == if kind == APITokenKind::OpenBrace {
            spellings.len()
        } else {
            0
        },
    decreases spellings.len(),
{
    if spellings.len() > 0 {
        lemma_count_struct(spellings[0], kind);
        lemma_count_structs(spellings.skip(1), kind);
        lemma_count_add(print_struct(spellings[0]), print_structs(spellings.skip(1)), kind);
    }
}

/// The words of declaration statements hold one opening brace for each
/// struct that they declare, and no `@handler`.
pub proof fn lemma_count_declarations(declarations: Seq<Declaration>, kind: APITokenKind)
    requires
        counted(kind),
    ensures
        count_kind(print_declarations(declarations), kind) == if kind == APITokenKind::OpenBrace {
            declared_count(declarations)
        } else {
            0
        },
    decreases declarations.len(),
{
    if declarations.len() > 0 {
        match declarations[0] {
            Declaration::Single(spelling) => {
                lemma_count_struct(spelling, kind);
            },
            Declaration::Block(first, others) => {
                let head = seq![
                    Word { kind: APITokenKind::Type, text: "type"@ },
                    Word { kind: APITokenKind::OpenParen, text: "("@ },
                ];
                let close = seq![Word { kind: APITokenKind::CloseParen, text: ")"@ }];
                lemma_count_few(head, kind);
                lemma_count_few(close, kind);
                lemma_count_struct(first, kind);
                lemma_count_structs(others, kind);
                lemma_count_add(head, print_struct(first), kind);
                lemma_count_add(head + print_struct(first), print_structs(others), kind);
                lemma_count_add(
                    head + print_struct(first) + print_structs(others),
                    close,
                    kind,
                );
            },
        }
        lemma_count_declarations(declarations.skip(1), kind);
        lemma_count_add(
            print_declaration(declarations[0]),
            print_declarations(declarations.skip(1)),
            kind,
        );
    }
}

/// The words of the pairs of an annotation hold neither an opening brace
/// nor `@handler`.
pub proof fn lemma_count_pairs(pairs: Pairs, kind: APITokenKind)
    requires
        counted(kind),
    ensures
        count_kind(print_pairs(pairs), kind) == 0,
    decreases pairs.len(),
{
    if pairs.len() > 0 {
        let first = seq![
            Word { kind: APITokenKind::Identifier, text: pairs[0].0 },
            Word { kind: APITokenKind::Colon, text: ":"@ },
            Word { kind: APITokenKind::Identifier, text: pairs[0].1 },
        ];
        lemma_count_few(first, kind);
        lemma_count_pairs(pairs.skip(1), kind);
        lemma_count_add(first, print_pairs(pairs.skip(1)), kind);
    }
}

/// The words of handlers in a row hold one `@handler` for each, and no
/// opening brace, if no method is written as a brace or as `@handler`.
pub proof fn lemma_count_handlers(handlers: Seq<HandlerSpelling>, kind: APITokenKind)
    requires
        counted(kind),
        forall|i: int| 0 <= i < handlers.len() ==> !counted((#[trigger] handlers[i]).method.kind),
    ensures
        count_kind(print_handlers(handlers), kind) == if kind == APITokenKind::Handler {
            handlers.len()
        } else {
            0
        },
    decreases handlers.len(),
{
    if handlers.len() > 0 {
        let spelling = handlers[0];
        assert(!counted(spelling.method.kind));
        let head = seq![
            Word { kind: APITokenKind::Handler, text: "@handler"@ },
            Word { kind: APITokenKind::Identifier, text: spelling.handler.name },
            spelling.method,
            Word { kind: APITokenKind::RoutePath, text: spelling.handler.path },
        ];
        let req = print_request(spelling);
        let resp = print_response(spelling);
        lemma_count_few(head, kind);
        lemma_count_few(req, kind);
        lemma_count_few(resp, kind);
        lemma_count_add(head, req, kind);
        lemma_count_add(head + req, resp, kind);
        assert forall|i: int| 0 <= i < handlers.skip(1).len() implies !counted(
            (#[trigger] handlers.skip(1)[i]).method.kind,
        ) by {
            assert(handlers.skip(1)[i] == handlers[i + 1]);
        }
        lemma_count_handlers(handlers.skip(1), kind);
        lemma_count_add(print_handler(spelling), print_handlers(handlers.skip(1)), kind);
    }
}

/// Whether no method is written as an opening brace or as `@handler`.
pub open spec fn methods_uncounted(handlers: Seq<HandlerSpelling>) -> bool {
    forall|i: int| 0 <= i < handlers.len() ==> !counted((#[trigger] handlers[i]).method.kind)
}

/// The words of a service block hold one `@handler` for each handler, and
/// the one opening brace of the service.
pub proof fn lemma_count_service(service: ServiceSource, kind: APITokenKind)
    requires
        counted(kind),
        methods_uncounted(service.handlers),
    ensures
        count_kind(print_service(service), kind) == if kind == APITokenKind::Handler {
            service.handlers.len()
        } else {
            1
        },
{
    let anotation: Seq<Word> = match service.anotation {
        Some(pairs) => print_annotation(pairs),
        None => Seq::empty(),
    };
    let head = seq![
        Word { kind: APITokenKind::Service, text: "service"@ },
        Word { kind: APITokenKind::Identifier, text: service.name },
        Word { kind: APITokenKind::OpenBrace, text: "{"@ },
    ];
    let close = seq![Word { kind: APITokenKind::CloseBrace, text: "}"@ }];
    match service.anotation {
        Some(pairs) => {
            let open = seq![
                Word { kind: APITokenKind::Server, text: "@server"@ },
                Word { kind: APITokenKind::OpenParen, text: "("@ },
            ];
            let shut = seq![Word { kind: APITokenKind::CloseParen, text: ")"@ }];
            lemma_count_few(open, kind);
            lemma_count_few(shut, kind);
            lemma_count_pairs(pairs, kind);
            lemma_count_add(open, print_pairs(pairs), kind);
            lemma_count_add(open + print_pairs(pairs), shut, kind);
        },
        None => {
            lemma_count_few(anotation, kind);
        },
    }
    lemma_count_few(head, kind);
    lemma_count_few(close, kind);
    lemma_count_handlers(service.handlers, kind);
    lemma_count_add(anotation, head, kind);
    lemma_count_add(anotation + head, print_handlers(service.handlers), kind);
    lemma_count_add(anotation + head + print_handlers(service.handlers), close, kind);
}

/// A written document holds one opening brace for each declared struct
/// and one more for the service, and one `@handler` for each handler.
pub proof fn lemma_count_document(document: DocumentSource)
    requires
        methods_uncounted(document.service.handlers),
    ensures
        count_kind(print_document(document), APITokenKind::OpenBrace) == declared_count(
            document.declarations,
        ) + 1,
        count_kind(print_document(document), APITokenKind::Handler)
            == document.service.handlers.len(),
{
    lemma_count_declarations(document.declarations, APITokenKind::OpenBrace);
    lemma_count_declarations(document.declarations, APITokenKind::Handler);
    lemma_count_service(document.service, APITokenKind::OpenBrace);
    lemma_count_service(document.service, APITokenKind::Handler);
    lemma_count_add(
        print_declarations(document.declarations),
        print_service(document.service),
        APITokenKind::OpenBrace,
    );
    lemma_count_add(
        print_declarations(document.declarations),
        print_service(document.service),
        APITokenKind::Handler,
    );
}

/// Tokens that spell a written document are read as a document with as
/// many structs as the written document holds opening braces before that
/// of its service, and with as many handlers as it holds `@handler`.
pub proof fn lemma_document_counts(document: DocumentSource, s: Tokens)
    requires
        forall|i: int|
            0 <= i < document.service.handlers.len() ==> method_fits(
                #[trigger] document.service.handlers[i],
            ),
        methods_uncounted(document.service.handlers),
        begins_with(s, print_document(document)),
    ensures
        spec_parse_api(s) matches Ok((read, _)) && read.type_struct.len() + 1 == count_kind(
            print_document(document),
            APITokenKind::OpenBrace,
        ) && read.service.handlers.len() == count_kind(
            print_document(document),
            APITokenKind::Handler,
        ),
{
    lemma_document_read_back(document, s);
    lemma_count_document(document);
}

} // verus!
