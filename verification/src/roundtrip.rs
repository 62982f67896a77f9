//! The front end as a whole: a document that is written down as a source
//! text is read back from that text as it was.

use crate::common::Tokens;
use crate::lexical::{is_space, scan};
use crate::naming::{document_named, lemma_document_written};
use crate::parser::{spec_parse_api, spec_parse_source, APIStmtView};
use crate::printing::{
    begins_with, declared_count, document_read, lemma_document_read_back, method_fits,
    print_document, DocumentSource,
};
use crate::token::TokenView;
use crate::writing::{are_gaps, lemma_scan_written_after_lead, spells_words, write_words};
use vstd::prelude::*;
use vstd::utf8::encode_utf8;

verus! {

/// The bytes of a document as it is written: its words, each with its
/// gap of white space after it, which may be empty.
pub open spec fn write_document(document: DocumentSource, gaps: Seq<Seq<u8>>) -> Seq<u8> {
    write_words(print_document(document), gaps)
}

/// Reading gives back what was written, from the text on. Take any
/// declaration statements, single or in blocks, in any mixture, and any
/// service, with its handlers written in any of their forms: the method in
/// capitals or not, the request in parentheses, with empty parentheses or
/// not at all, the response after `returns`, with empty parentheses, with
/// `returns` alone or not at all. Let the names be identifiers and no
/// keywords, the paths route paths and the tags tag annotations. Write the
/// words one after the other, with any white space before the first and
/// after each, or with none between two words that cannot run together.
/// The source text is scanned into one token for each word, the tokens
/// are parsed without failure and without rest, and the
/// document that comes out is the one that was written: it holds the
/// declared structs, as many as were declared, and the handlers of the
/// service, as many as were written.
pub proof fn lemma_written_document_is_read(
    document: DocumentSource,
    lead: Seq<u8>,
    gaps: Seq<Seq<u8>>,
    source: Seq<char>,
)
    requires
        document_named(document),
        forall|i: int|
            0 <= i < document.service.handlers.len() ==> method_fits(
                #[trigger] document.service.handlers[i],
            ),
        forall|i: int| 0 <= i < lead.len() ==> is_space(#[trigger] lead[i]),
        are_gaps(gaps, print_document(document)),
        encode_utf8(source) == lead + write_document(document, gaps),
    ensures
        spells_words(scan(source), print_document(document)),
        spec_parse_api(scan(source)) == Ok::<(APIStmtView, Tokens), Seq<char>>(
            (document_read(document), Seq::empty()),
        ),
        spec_parse_source(source) == Ok::<APIStmtView, Seq<char>>(document_read(document)),
        document_read(document).type_struct.len() == declared_count(document.declarations),
        document_read(document).service.handlers.len() == document.service.handlers.len(),
{
    let words = print_document(document);
    lemma_document_written(document);
    lemma_scan_written_after_lead(lead, words, gaps);
    let tokens = scan(source);
    assert(begins_with(tokens, words));
    lemma_document_read_back(document, tokens);
    assert(tokens.skip(words.len() as int) =~= Seq::<TokenView>::empty());
}

} // verus!
