//! The document: type declarations followed by one service block.

use crate::common::{is_rest_of, lemma_rest_of_rest, IResult, Input, Parsed, Tokens};
use crate::error::PError;
use crate::lexical::scan;
use crate::service::{parse_service, spec_parse_service, Service, ServiceView};
use crate::struct_ref::{
    parse_struct_stmt1, spec_parse_struct_stmt1, struct_views, StructDef, StructDefView,
};
use crate::token::{token_views, tokenize};
use vstd::prelude::*;

verus! {

/// A document: its struct declarations in the order in which they were
/// met, and its service.
#[derive(Debug)]
pub struct APIStmt {
    pub type_struct: Vec<StructDef>,
    pub service: Service,
}

/// A document as a mathematical value.
pub ghost struct APIStmtView {
    pub type_struct: Seq<StructDefView>,
    pub service: ServiceView,
}

impl View for APIStmt {
    type V = APIStmtView;

    open spec fn view(&self) -> APIStmtView {
        APIStmtView { type_struct: struct_views(self.type_struct@), service: self.service@ }
    }
}

/// A document: the declarations, then the service block where they end.
/// Tokens may be left after the service; they are handed back, not refused.
pub open spec fn spec_parse_api(s: Tokens) -> Parsed<APIStmtView> {
    let (type_struct, after_structs) = spec_parse_struct_stmt1(s);
    match spec_parse_service(after_structs) {
        Err(message) => Err(message),
        Ok((service, rest)) => Ok((APIStmtView { type_struct, service }, rest)),
    }
}

/// Parses a document.
pub fn parse_api<'a>(i: Input<'a>) -> (r: IResult<'a, APIStmt>)
    ensures
        match spec_parse_api(token_views(i@)) {
            Ok((value, rest)) => r matches Ok((left, found)) && found@ == value && token_views(
                left@,
            ) == rest && left@.len() < i@.len() && is_rest_of(left@, i@),
            Err(message) => r matches Err(e) && e@ == message,
        },
{
    let (after_structs, type_struct) = match parse_struct_stmt1(i) {
        Ok(found) => found,
        Err(e) => {
            return Err(e);
        },
    };
    match parse_service(after_structs) {
        Ok((left, service)) => {
            proof {
                lemma_rest_of_rest(left@, after_structs@, i@);
            }
            Ok((left, APIStmt { type_struct, service }))
        },
        Err(e) => Err(e),
    }
}

/// The document of a source text: that of its tokens. What no rule of
/// the scanner accepts ends the tokens, and tokens after the service are
/// left aside.
pub open spec fn spec_parse_source(source: Seq<char>) -> Result<APIStmtView, Seq<char>> {
    match spec_parse_api(scan(source)) {
        Ok((document, _)) => Ok(document),
        Err(message) => Err(message),
    }
}

/// Scans a source text and parses its tokens into a document.
pub fn parse_source(source: &str) -> (r: Result<APIStmt, PError>)
    ensures
        match spec_parse_source(source@) {
            Ok(document) => r matches Ok(found) && found@ == document,
            Err(message) => r matches Err(e) && e@ == message,
        },
{
    let tokens = tokenize(source);
    match parse_api(tokens.as_slice()) {
        Ok((_, document)) => Ok(document),
        Err(e) => Err(e),
    }
}

} // verus!
