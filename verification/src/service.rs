//! The service block: the server annotation, the service and its handlers,
//! and the rules that parse them.

use crate::common::{
    is_rest_of, lemma_rest_of_all, lemma_rest_of_rest, match_text_case_insensitive, match_token,
    opt_token, spec_match_text_case_insensitive, spec_match_token, spec_opt_token, text_message,
    IResult, Input, Parsed, Tokens,
};
use crate::annotation::{annotation_pairs, collect_annotation, collect_pairs, pair_views, Pairs};
use crate::token::{token_views, APITokenKind, TokenView};
use indexmap::IndexMap;
use vstd::prelude::*;

verus! {

/// The method of a handler.
#[derive(Debug, Clone, Copy, PartialEq, Eq, Structural)]
pub enum HttpMethod {
    GET,
    POST,
}

impl HttpMethod {
    /// The name of the method in capitals.
    pub open spec fn name_view(self) -> Seq<char> {
        match self {
            HttpMethod::GET => "GET"@,
            HttpMethod::POST => "POST"@,
        }
    }

    /// The name of the method in capitals.
    pub fn as_str(&self) -> (r: &'static str)
        ensures
            r@ == self.name_view(),
    {
        match self {
            HttpMethod::GET => "GET",
            HttpMethod::POST => "POST",
        }
    }

    /// The name of the method in capitals.
    pub fn to_string(&self) -> (r: String)
        ensures
            r@ == self.name_view(),
    {
        self.as_str().to_owned()
    }
}

/// A handler of a service. The two types are names as they were written:
/// nothing here looks them up among the structs.
#[derive(Debug)]
pub struct Handler {
    pub name: String,
    pub method: HttpMethod,
    pub path: String,
    pub req_type: Option<String>,
    pub resp_type: Option<String>,
}

/// A service: its name, the server annotation if one stood before it, and
/// its handlers in the order in which they were declared.
#[derive(Debug, Default)]
pub struct Service {
    pub name: String,
    pub anotation: Option<IndexMap<String, String>>,
    pub handlers: Vec<Handler>,
}

/// A handler as a mathematical value.
pub ghost struct HandlerView {
    pub name: Seq<char>,
    pub method: HttpMethod,
    pub path: Seq<char>,
    pub req_type: Option<Seq<char>>,
    pub resp_type: Option<Seq<char>>,
}

/// A service as a mathematical value.
pub ghost struct ServiceView {
    pub name: Seq<char>,
    pub anotation: Option<Pairs>,
    pub handlers: Seq<HandlerView>,
}

/// The view of a text that may be absent.
pub open spec fn text_view(text: Option<String>) -> Option<Seq<char>> {
    match text {
        Some(text) => Some(text@),
        None => None,
    }
}

/// The text of a token that may be absent.
pub open spec fn token_text(token: Option<TokenView>) -> Option<Seq<char>> {
    match token {
        Some(token) => Some(token.text),
        None => None,
    }
}

impl View for Handler {
    type V = HandlerView;

    open spec fn view(&self) -> HandlerView {
        HandlerView {
            name: self.name@,
            method: self.method,
            path: self.path@,
            req_type: text_view(self.req_type),
            resp_type: text_view(self.resp_type),
        }
    }
}

/// The views of a sequence of handlers.
pub open spec fn handler_views(handlers: Seq<Handler>) -> Seq<HandlerView> {
    Seq::new(handlers.len(), |i: int| handlers[i]@)
}

impl View for Service {
    type V = ServiceView;

    open spec fn view(&self) -> ServiceView {
        ServiceView {
            name: self.name@,
            anotation: match self.anotation {
                Some(map) => Some(annotation_pairs(map)),
                None => None,
            },
            handlers: handler_views(self.handlers@),
        }
    }
}

/// One pair of an annotation: an identifier, `:`, an identifier.
pub open spec fn spec_parse_kv_pair(s: Tokens) -> Parsed<(Seq<char>, Seq<char>)> {
    match spec_match_token(APITokenKind::Identifier, s) {
        Err(message) => Err(message),
        Ok((key, after_key)) => match spec_match_token(APITokenKind::Colon, after_key) {
            Err(message) => Err(message),
            Ok((_, after_colon)) => match spec_match_token(APITokenKind::Identifier, after_colon) {
                Err(message) => Err(message),
                Ok((value, rest)) => Ok(((key.text, value.text), rest)),
            },
        },
    }
}

/// As many pairs as stand in a row. It never fails.
pub open spec fn spec_parse_kv_pairs(s: Tokens) -> (Pairs, Tokens)
    decreases s.len(),
{
    match spec_parse_kv_pair(s) {
        Ok((pair, rest)) => if rest.len() < s.len() {
            (seq![pair] + spec_parse_kv_pairs(rest).0, spec_parse_kv_pairs(rest).1)
        } else {
            (Seq::empty(), s)
        },
        Err(_) => (Seq::empty(), s),
    }
}

/// The server annotation: `@server`, `(`, pairs, `)`. Its value is what a
/// map holds that was filled with the pairs in their order: a key that
/// comes again keeps its first place and takes the later value.
pub open spec fn spec_parse_service_anotation(s: Tokens) -> Parsed<Pairs> {
    match spec_match_token(APITokenKind::Server, s) {
        Err(message) => Err(message),
        Ok((_, after_server)) => match spec_match_token(APITokenKind::OpenParen, after_server) {
            Err(message) => Err(message),
            Ok((_, after_open)) => {
                let (pairs, after_pairs) = spec_parse_kv_pairs(after_open);
                match spec_match_token(APITokenKind::CloseParen, after_pairs) {
                    Err(message) => Err(message),
                    Ok((_, rest)) => Ok((collect_pairs(pairs), rest)),
                }
            },
        },
    }
}

/// The method of a handler: a token that spells `GET` or `POST`, in
/// capitals or not. The failure is that of `POST`.
pub open spec fn spec_parse_http_method(s: Tokens) -> Parsed<HttpMethod> {
    if spec_match_text_case_insensitive("GET"@, s) is Ok {
        Ok((HttpMethod::GET, s.skip(1)))
    } else if spec_match_text_case_insensitive("POST"@, s) is Ok {
        Ok((HttpMethod::POST, s.skip(1)))
    } else {
        Err(text_message("POST"@, s))
    }
}

/// A handler: `@handler`, its name, its method, its path; then, each only
/// if it stands there, `(`, the name of the request type, `)`; then, again
/// each only if it stands there, `returns`, `(`, the name of the response
/// type, `)`.
pub open spec fn spec_parse_handler(s: Tokens) -> Parsed<HandlerView> {
    match spec_match_token(APITokenKind::Handler, s) {
        Err(message) => Err(message),
        Ok((_, after_handler)) => match spec_match_token(APITokenKind::Identifier, after_handler) {
            Err(message) => Err(message),
            Ok((name, after_name)) => match spec_parse_http_method(after_name) {
                Err(message) => Err(message),
                Ok((method, after_method)) => match spec_match_token(
                    APITokenKind::RoutePath,
                    after_method,
                ) {
                    Err(message) => Err(message),
                    Ok((path, after_path)) => {
                        let after_open = spec_opt_token(APITokenKind::OpenParen, after_path).1;
                        let (req_type, after_req) = spec_opt_token(
                            APITokenKind::Identifier,
                            after_open,
                        );
                        let after_close = spec_opt_token(APITokenKind::CloseParen, after_req).1;
                        let after_returns = spec_opt_token(
                            APITokenKind::RespReturns,
                            after_close,
                        ).1;
                        let after_open2 = spec_opt_token(APITokenKind::OpenParen, after_returns).1;
                        let (resp_type, after_resp) = spec_opt_token(
                            APITokenKind::Identifier,
                            after_open2,
                        );
                        let rest = spec_opt_token(APITokenKind::CloseParen, after_resp).1;
                        Ok(
                            (
                                HandlerView {
                                    name: name.text,
                                    method,
                                    path: path.text,
                                    req_type: token_text(req_type),
                                    resp_type: token_text(resp_type),
                                },
                                rest,
                            ),
                        )
                    },
                },
            },
        },
    }
}

/// As many handlers as stand in a row. It never fails.
pub open spec fn spec_parse_handlers(s: Tokens) -> (Seq<HandlerView>, Tokens)
    decreases s.len(),
{
    match spec_parse_handler(s) {
        Ok((handler, rest)) => if rest.len() < s.len() {
            (seq![handler] + spec_parse_handlers(rest).0, spec_parse_handlers(rest).1)
        } else {
            (Seq::empty(), s)
        },
        Err(_) => (Seq::empty(), s),
    }
}

/// The server annotation if one stands at the front; nothing otherwise.
pub open spec fn spec_opt_service_anotation(s: Tokens) -> (Option<Pairs>, Tokens) {
    match spec_parse_service_anotation(s) {
        Ok((pairs, rest)) => (Some(pairs), rest),
        Err(_) => (None, s),
    }
}

/// The service block: the server annotation if it stands there, `service`,
/// the name, `{`, the handlers, `}`.
pub open spec fn spec_parse_service(s: Tokens) -> Parsed<ServiceView> {
    let (anotation, after_anotation) = spec_opt_service_anotation(s);
    match spec_match_token(APITokenKind::Service, after_anotation) {
        Err(message) => Err(message),
        Ok((_, after_service)) => match spec_match_token(APITokenKind::Identifier, after_service) {
            Err(message) => Err(message),
            Ok((name, after_name)) => match spec_match_token(APITokenKind::OpenBrace, after_name) {
                Err(message) => Err(message),
                Ok((_, after_open)) => {
                    let (handlers, after_handlers) = spec_parse_handlers(after_open);
                    match spec_match_token(APITokenKind::CloseBrace, after_handlers) {
                        Err(message) => Err(message),
                        Ok((_, rest)) => Ok(
                            (ServiceView { name: name.text, anotation, handlers }, rest),
                        ),
                    }
                },
            },
        },
    }
}

/// Parses one pair of an annotation.
pub fn parse_kv_pair<'a>(i: Input<'a>) -> (r: IResult<'a, (String, String)>)
    ensures
        match spec_parse_kv_pair(token_views(i@)) {
            Ok((value, rest)) => r matches Ok((left, found)) && (found.0@, found.1@) == value
                && token_views(left@) == rest && left@.len() < i@.len() && is_rest_of(left@, i@),
            Err(message) => r matches Err(e) && e@ == message,
        },
{
    let (after_key, key) = match match_token(APITokenKind::Identifier, i) {
        Ok(found) => found,
        Err(e) => {
            return Err(e);
        },
    };
    let (after_colon, _) = match match_token(APITokenKind::Colon, after_key) {
        Ok(found) => found,
        Err(e) => {
            return Err(e);
        },
    };
    proof {
        lemma_rest_of_rest(after_colon@, after_key@, i@);
    }
    match match_token(APITokenKind::Identifier, after_colon) {
        Ok((left, value)) => {
            proof {
                lemma_rest_of_rest(left@, after_colon@, i@);
            }
            Ok((left, (key.at().to_owned(), value.at().to_owned())))
        },
        Err(e) => Err(e),
    }
}

/// Parses as many pairs as stand in a row.
pub fn parse_kv_pairs<'a>(i: Input<'a>) -> (r: IResult<'a, Vec<(String, String)>>)
    ensures
        r matches Ok((left, found)) && pair_views(found@) == spec_parse_kv_pairs(
            token_views(i@),
        ).0 && token_views(left@) == spec_parse_kv_pairs(token_views(i@)).1 && left@.len()
            <= i@.len() && is_rest_of(left@, i@),
{
    let mut pairs: Vec<(String, String)> = Vec::new();
    let mut cur = i;
    proof {
        lemma_rest_of_all(i@);
    }
    loop
        invariant
            cur@.len() <= i@.len(),
            is_rest_of(cur@, i@),
            spec_parse_kv_pairs(token_views(i@)).0 == pair_views(pairs@) + spec_parse_kv_pairs(
                token_views(cur@),
            ).0,
            spec_parse_kv_pairs(token_views(i@)).1 == spec_parse_kv_pairs(token_views(cur@)).1,
        decreases cur@.len(),
    {
        match parse_kv_pair(cur) {
            Ok((left, pair)) => {
                proof {
                    let done = pair_views(pairs@);
                    let one = seq![(pair.0@, pair.1@)];
                    let more = spec_parse_kv_pairs(token_views(left@)).0;
                    assert(pair_views(pairs@.push(pair)) =~= done + one);
                    assert((done + one) + more =~= done + (one + more));
                }
                pairs.push(pair);
                proof {
                    lemma_rest_of_rest(left@, cur@, i@);
                }
                cur = left;
            },
            Err(_) => {
                assert(pair_views(pairs@) + Seq::<(Seq<char>, Seq<char>)>::empty() =~= pair_views(
                    pairs@,
                ));
                return Ok((cur, pairs));
            },
        }
    }
}

/// Parses the server annotation.
pub fn parse_service_anotation<'a>(i: Input<'a>) -> (r: IResult<'a, IndexMap<String, String>>)
    ensures
        match spec_parse_service_anotation(token_views(i@)) {
            Ok((value, rest)) => r matches Ok((left, found)) && annotation_pairs(found) == value
                && token_views(left@) == rest && left@.len() < i@.len() && is_rest_of(left@, i@),
            Err(message) => r matches Err(e) && e@ == message,
        },
{
    let (after_server, _) = match match_token(APITokenKind::Server, i) {
        Ok(found) => found,
        Err(e) => {
            return Err(e);
        },
    };
    let (after_open, _) = match match_token(APITokenKind::OpenParen, after_server) {
        Ok(found) => found,
        Err(e) => {
            return Err(e);
        },
    };
    proof {
        lemma_rest_of_rest(after_open@, after_server@, i@);
    }
    let (after_pairs, pairs) = match parse_kv_pairs(after_open) {
        Ok(found) => found,
        Err(e) => {
            return Err(e);
        },
    };
    proof {
        lemma_rest_of_rest(after_pairs@, after_open@, i@);
    }
    match match_token(APITokenKind::CloseParen, after_pairs) {
        Ok((left, _)) => {
            proof {
                lemma_rest_of_rest(left@, after_pairs@, i@);
            }
            Ok((left, collect_annotation(&pairs)))
        },
        Err(e) => Err(e),
    }
}

/// Parses the method of a handler.
pub fn parse_http_method<'a>(i: Input<'a>) -> (r: IResult<'a, HttpMethod>)
    ensures
        match spec_parse_http_method(token_views(i@)) {
            Ok((value, rest)) => r matches Ok((left, found)) && found == value && token_views(
                left@,
            ) == rest && left@.len() < i@.len() && is_rest_of(left@, i@),
            Err(message) => r matches Err(e) && e@ == message,
        },
{
    match match_text_case_insensitive("GET", i) {
        Ok((left, _)) => {
            return Ok((left, HttpMethod::GET));
        },
        Err(_) => {},
    }
    match match_text_case_insensitive("POST", i) {
        Ok((left, _)) => Ok((left, HttpMethod::POST)),
        Err(e) => Err(e),
    }
}

/// Parses a handler.
pub fn parse_handler<'a>(i: Input<'a>) -> (r: IResult<'a, Handler>)
    ensures
        match spec_parse_handler(token_views(i@)) {
            Ok((value, rest)) => r matches Ok((left, found)) && found@ == value && token_views(
                left@,
            ) == rest && left@.len() < i@.len() && is_rest_of(left@, i@),
            Err(message) => r matches Err(e) && e@ == message,
        },
{
    let (after_handler, _) = match match_token(APITokenKind::Handler, i) {
        Ok(found) => found,
        Err(e) => {
            return Err(e);
        },
    };
    let (after_name, name) = match match_token(APITokenKind::Identifier, after_handler) {
        Ok(found) => found,
        Err(e) => {
            return Err(e);
        },
    };
    proof {
        lemma_rest_of_rest(after_name@, after_handler@, i@);
    }
    let (after_method, method) = match parse_http_method(after_name) {
        Ok(found) => found,
        Err(e) => {
            return Err(e);
        },
    };
    proof {
        lemma_rest_of_rest(after_method@, after_name@, i@);
    }
    let (after_path, path) = match match_token(APITokenKind::RoutePath, after_method) {
        Ok(found) => found,
        Err(e) => {
            return Err(e);
        },
    };
    proof {
        lemma_rest_of_rest(after_path@, after_method@, i@);
    }
    let (after_open, _) = opt_token(APITokenKind::OpenParen, after_path);
    proof {
        lemma_rest_of_rest(after_open@, after_path@, i@);
    }
    let (after_req, req_token) = opt_token(APITokenKind::Identifier, after_open);
    proof {
        lemma_rest_of_rest(after_req@, after_open@, i@);
    }
    let (after_close, _) = opt_token(APITokenKind::CloseParen, after_req);
    proof {
        lemma_rest_of_rest(after_close@, after_req@, i@);
    }
    let (after_returns, _) = opt_token(APITokenKind::RespReturns, after_close);
    proof {
        lemma_rest_of_rest(after_returns@, after_close@, i@);
    }
    let (after_open2, _) = opt_token(APITokenKind::OpenParen, after_returns);
    proof {
        lemma_rest_of_rest(after_open2@, after_returns@, i@);
    }
    let (after_resp, resp_token) = opt_token(APITokenKind::Identifier, after_open2);
    proof {
        lemma_rest_of_rest(after_resp@, after_open2@, i@);
    }
    let (left, _) = opt_token(APITokenKind::CloseParen, after_resp);
    proof {
        lemma_rest_of_rest(left@, after_resp@, i@);
    }
    let req_type = match req_token {
        Some(token) => Some(token.at().to_owned()),
        None => None,
    };
    let resp_type = match resp_token {
        Some(token) => Some(token.at().to_owned()),
        None => None,
    };
    Ok(
        (
            left,
            Handler {
                name: name.at().to_owned(),
                method,
                path: path.at().to_owned(),
                req_type,
                resp_type,
            },
        ),
    )
}

/// Parses as many handlers as stand in a row.
pub fn parse_handlers<'a>(i: Input<'a>) -> (r: (Input<'a>, Vec<Handler>))
    ensures
        handler_views(r.1@) == spec_parse_handlers(token_views(i@)).0,
        token_views(r.0@) == spec_parse_handlers(token_views(i@)).1,
        r.0@.len() <= i@.len(),
        is_rest_of(r.0@, i@),
{
    let mut handlers: Vec<Handler> = Vec::new();
    let mut cur = i;
    proof {
        lemma_rest_of_all(i@);
    }
    loop
        invariant
            cur@.len() <= i@.len(),
            is_rest_of(cur@, i@),
            spec_parse_handlers(token_views(i@)).0 == handler_views(handlers@)
                + spec_parse_handlers(token_views(cur@)).0,
            spec_parse_handlers(token_views(i@)).1 == spec_parse_handlers(token_views(cur@)).1,
        decreases cur@.len(),
    {
        match parse_handler(cur) {
            Ok((left, handler)) => {
                proof {
                    let done = handler_views(handlers@);
                    let more = spec_parse_handlers(token_views(left@)).0;
                    assert(handler_views(handlers@.push(handler)) =~= done + seq![handler@]);
                    assert((done + seq![handler@]) + more =~= done + (seq![handler@] + more));
                }
                handlers.push(handler);
                proof {
                    lemma_rest_of_rest(left@, cur@, i@);
                }
                cur = left;
            },
            Err(_) => {
                assert(handler_views(handlers@) + Seq::<HandlerView>::empty() =~= handler_views(
                    handlers@,
                ));
                return (cur, handlers);
            },
        }
    }
}

/// Parses the service block.
pub fn parse_service<'a>(i: Input<'a>) -> (r: IResult<'a, Service>)
    ensures
        match spec_parse_service(token_views(i@)) {
            Ok((value, rest)) => r matches Ok((left, found)) && found@ == value && token_views(
                left@,
            ) == rest && left@.len() < i@.len() && is_rest_of(left@, i@),
            Err(message) => r matches Err(e) && e@ == message,
        },
{
    let (after_anotation, anotation) = match parse_service_anotation(i) {
        Ok((left, map)) => (left, Some(map)),
        Err(_) => (i, None),
    };
    proof {
        lemma_rest_of_all(i@);
    }
    let (after_service, _) = match match_token(APITokenKind::Service, after_anotation) {
        Ok(found) => found,
        Err(e) => {
            return Err(e);
        },
    };
    proof {
        lemma_rest_of_rest(after_service@, after_anotation@, i@);
    }
    let (after_name, name) = match match_token(APITokenKind::Identifier, after_service) {
        Ok(found) => found,
        Err(e) => {
            return Err(e);
        },
    };
    proof {
        lemma_rest_of_rest(after_name@, after_service@, i@);
    }
    let (after_open, _) = match match_token(APITokenKind::OpenBrace, after_name) {
        Ok(found) => found,
        Err(e) => {
            return Err(e);
        },
    };
    proof {
        lemma_rest_of_rest(after_open@, after_name@, i@);
    }
    let (after_handlers, handlers) = parse_handlers(after_open);
    proof {
        lemma_rest_of_rest(after_handlers@, after_open@, i@);
    }
    match match_token(APITokenKind::CloseBrace, after_handlers) {
        Ok((left, _)) => {
            proof {
                lemma_rest_of_rest(left@, after_handlers@, i@);
            }
            Ok((left, Service { name: name.at().to_owned(), anotation, handlers }))
        },
        Err(e) => Err(e),
    }
}

} // verus!
