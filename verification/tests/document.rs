use goctl_rs::common::{decimal, match_text, match_text_case_insensitive, match_token};
use goctl_rs::error::PError;
use goctl_rs::parser::{parse_api, parse_source};
use goctl_rs::token::{tokenize, APITokenKind};

#[test]
fn test_parse_api() {
    let source = r#"
        type (
            PostFormReq struct {
                Name    string   `form:"name"`
                Age     int      `form:"age"`
            }
            PostFormResp struct {
                Total int64 `json:"total"`
            }
        )
        type GetFormReq struct {
            Name  string `form:"name,omitempty"`
            Age   int64  `form:"age" json:"age"`
        }
        type GetFormResp struct {
            Total int64 `json:"total"`
        }

        @server (
            group:   json
            jwt:     Auth
            timeout: 3m
        )
        service example {
            @handler getForm
            get /example/form (GetFormReq) returns (GetFormResp)
        
            @handler postJson
            post /example/json (PostJsonReq) returns (PostJsonResp)
        }
        "#;
    let input = tokenize(source);

    let result = parse_api(&input);
    let (rest, api_var) = result.unwrap();
    println!("{:#?}", api_var);
    assert!(rest.is_empty());
    assert_eq!(api_var.type_struct.len(), 4);
    assert_eq!(api_var.type_struct[0].name, "PostFormReq");
    assert_eq!(api_var.type_struct[3].name, "GetFormResp");
    assert_eq!(api_var.service.handlers.len(), 2);
    assert_eq!(api_var.service.anotation.as_ref().map(|m| m.len()), Some(3));
    assert_eq!(api_var.service.handlers[1].resp_type.as_deref(), Some("PostJsonResp"));
}

#[test]
fn counts_of_structs_and_handlers() {
    let mut source = String::new();
    for n in 0..5 {
        source.push_str(&format!("type S{} struct {{ a int b []string }}\n", n));
    }
    source.push_str("type ( T0 struct { } T1 { x bool } )\n");
    source.push_str("service s {\n");
    for n in 0..7 {
        source.push_str(&format!("@handler h{} post /h/{} (S{})\n", n, n, n));
    }
    source.push_str("}\n");
    let input = tokenize(&source);
    let (rest, api) = parse_api(&input).unwrap();
    assert!(rest.is_empty());
    assert_eq!(api.type_struct.len(), 7);
    assert_eq!(api.service.handlers.len(), 7);
    assert_eq!(input.iter().filter(|t| t.kind() == APITokenKind::Handler).count(), 7);
}

#[test]
fn a_document_without_declarations() {
    let input = tokenize("service s { @handler h get / }");
    let (rest, api) = parse_api(&input).unwrap();
    assert!(rest.is_empty());
    assert!(api.type_struct.is_empty());
    assert_eq!(api.service.handlers[0].path, "/");
}

#[test]
fn tokens_after_the_service_are_handed_back() {
    let input = tokenize("service s { } type A struct { }");
    let (rest, api) = parse_api(&input).unwrap();
    assert_eq!(rest.len(), 5);
    assert_eq!(rest[0].kind(), APITokenKind::Type);
    assert!(api.type_struct.is_empty());
}

#[test]
fn malformed_documents_fail() {
    let input = tokenize("type A struct { x int service s { }");
    assert_eq!(
        parse_api(&input).unwrap_err().0,
        "Expected API Token Service, found Type at type (0..4)"
    );
    let input = tokenize("type A struct { x int }");
    assert_eq!(parse_api(&input).unwrap_err().0, "API Token Service does not match");
    let input = tokenize("");
    assert_eq!(parse_api(&input).unwrap_err().0, "API Token Service does not match");
    let input = tokenize("type A struct { } service s { @handler h get /p ");
    assert_eq!(parse_api(&input).unwrap_err().0, "API Token CloseBrace does not match");
    // What follows bytes that no rule accepts is not scanned, so the
    // service block is never seen.
    let input = tokenize("type A struct { } # service s { }");
    assert_eq!(parse_api(&input).unwrap_err().0, "API Token Service does not match");
}

#[test]
fn single_token_rules() {
    let input = tokenize("type Name");
    let (rest, token) = match_token(APITokenKind::Type, &input).unwrap();
    assert_eq!(rest.len(), 1);
    assert_eq!(token.text(), "type");
    assert_eq!(
        match_token(APITokenKind::Struct, &input).unwrap_err().0,
        "Expected API Token Struct, found Type at type (0..4)"
    );
    assert_eq!(
        match_token(APITokenKind::Struct, &[]).unwrap_err().0,
        "API Token Struct does not match"
    );
    let (rest, token) = match_text("type", &input).unwrap();
    assert_eq!(rest.len(), 1);
    assert_eq!(token.kind(), APITokenKind::Type);
    assert_eq!(
        match_text("Type", &input).unwrap_err().0,
        "Json Text Type does not match, found Type at type (0..4)"
    );
    assert_eq!(
        match_text("typ", &input).unwrap_err().0,
        "Json Text typ does not match, found Type at type (0..4)"
    );
    assert_eq!(match_text("type", &[]).unwrap_err().0, "Json Text type does not match");
    let (rest, token) = match_text_case_insensitive("TYPE", &input).unwrap();
    assert_eq!(rest.len(), 1);
    assert_eq!(token.text(), "type");
    assert_eq!(
        match_text_case_insensitive("TYPES", &input).unwrap_err().0,
        "Json Text TYPES does not match, found Type at type (0..4)"
    );
    let input = tokenize("`k:\"\u{c9}\"`");
    assert!(match_text_case_insensitive("`K:\"\u{c9}\"`", &input).is_ok());
    assert!(match_text_case_insensitive("`k:\"\u{e9}\"`", &input).is_err());
}

#[test]
fn failure_from_a_message() {
    let failure: Result<(&[goctl_rs::token::APIToken], u8), PError> = PError::from("no match");
    assert_eq!(failure.unwrap_err().0, "no match");
}

#[test]
fn a_source_is_scanned_and_parsed_in_one_step() {
    let api = parse_source("type A struct { x []int } service s { @handler h post /h (A) }").unwrap();
    assert_eq!(api.type_struct.len(), 1);
    assert_eq!(api.type_struct[0].fields[0].name, "x");
    assert_eq!(api.service.name, "s");
    assert_eq!(api.service.handlers[0].req_type.as_deref(), Some("A"));
    assert_eq!(
        parse_source("type A struct { x []int }").unwrap_err().0,
        "API Token Service does not match"
    );
    assert_eq!(
        parse_source("service s { ").unwrap_err().0,
        "API Token CloseBrace does not match"
    );
    // Tokens after the service are left aside, and so is what follows
    // bytes that no rule accepts.
    assert!(parse_source("service s { } } }").is_ok());
    assert!(parse_source("service s { } # {").is_ok());
}

#[test]
fn a_written_document_is_read_back() {
    let words = [
        "type", "(", "A", "struct", "{", "x", "map", "[", "string", "]", "[", "]", "int64",
        "`json:\"x\"`", "y", "bool", "}", "type", "B", "{", "}", ")", "C", "struct", "{", "}",
        "@server", "(", "k", ":", "v", "k", ":", "3m", ")", "service", "s", "{", "@handler", "a",
        "get", "/a/b/", "(", "A", ")", "returns", "(", "B", ")", "@handler", "b", "post", "/",
        "}",
    ];
    let mut source = String::new();
    for word in words {
        source.push_str(word);
        source.push(' ');
    }
    let tokens = tokenize(&source);
    assert_eq!(tokens.len(), words.len());
    for (token, word) in tokens.iter().zip(words.iter()) {
        assert_eq!(token.text(), *word);
    }
    let api = parse_source(&source).unwrap();
    let names: Vec<&str> = api.type_struct.iter().map(|s| s.name.as_str()).collect();
    assert_eq!(names, vec!["A", "B", "C"]);
    assert_eq!(api.type_struct[0].fields.len(), 2);
    assert_eq!(api.type_struct[0].fields[0].tag.as_deref(), Some("`json:\"x\"`"));
    let anotation = api.service.anotation.unwrap();
    assert_eq!(anotation.len(), 1);
    assert_eq!(anotation["k"], "3m");
    assert_eq!(api.service.handlers.len(), 2);
    assert_eq!(api.service.handlers[0].path, "/a/b/");
    assert_eq!(api.service.handlers[0].resp_type.as_deref(), Some("B"));
    assert_eq!(api.service.handlers[1].path, "/");
    assert_eq!(api.service.handlers[1].req_type, None);
}

#[test]
fn numbers_in_decimal_digits() {
    for number in [0usize, 1, 9, 10, 11, 99, 100, 101, 1234567890, usize::MAX] {
        assert_eq!(decimal(number), number.to_string());
    }
}

#[test]
fn a_failure_tells_the_place_of_the_token_that_it_found() {
    let source = "service  s\n{ @handler h get /p\n\t]";
    let failure = parse_source(source).unwrap_err();
    assert_eq!(failure.0, "Expected API Token CloseBrace, found CloseBracket at ] (32..33)");
    assert_eq!(&source[32..33], "]");
}

#[test]
fn handlers_are_read_back_in_all_their_forms() {
    let words = [
        "type", "A", "struct", "{", "}", "type", "(", "B", "{", "}", ")", "C", "{", "}",
        "service", "s", "{",
        "@handler", "a", "GET", "/a",
        "@handler", "b", "Post", "/b", "(", ")",
        "@handler", "c", "get", "/c", "(", "A", ")",
        "@handler", "d", "POST", "/d", "(", "A", ")", "returns", "(", "B", ")",
        "@handler", "e", "post", "/e", "returns",
        "@handler", "f", "get", "/f", "returns", "(", ")",
        "@handler", "g", "get", "/g", "(", ")", "returns", "(", "C", ")",
        "}",
    ];
    let mut source = String::new();
    for word in words {
        source.push_str(word);
        source.push(' ');
    }
    let tokens = tokenize(&source);
    assert_eq!(tokens.len(), words.len());
    let (rest, api) = parse_api(&tokens).unwrap();
    assert!(rest.is_empty());
    assert_eq!(api.type_struct.len(), 3);
    assert_eq!(api.service.handlers.len(), 7);
    let found: Vec<(&str, Option<&str>, Option<&str>)> = api
        .service
        .handlers
        .iter()
        .map(|h| (h.method.as_str(), h.req_type.as_deref(), h.resp_type.as_deref()))
        .collect();
    assert_eq!(
        found,
        vec![
            ("GET", None, None),
            ("POST", None, None),
            ("GET", Some("A"), None),
            ("POST", Some("A"), Some("B")),
            ("POST", None, None),
            ("GET", None, None),
            ("GET", None, Some("C")),
        ]
    );
}

#[test]
fn what_follows_a_stop_byte_changes_nothing() {
    let prefix = "type A struct { x int `json:\"x\"` }\n";
    let whole_tokens = tokenize(prefix);
    assert!(goctl_rs::token::tokenize_strict(prefix).is_ok());
    for rest in ["#", "# service s { }", "\"quoted\" type B { }", "\u{e9}t\u{e9} int", "#$x"] {
        let source = format!("{}{}", prefix, rest);
        let tokens = tokenize(&source);
        assert_eq!(tokens.len(), whole_tokens.len(), "{}", rest);
        for (a, b) in tokens.iter().zip(whole_tokens.iter()) {
            assert_eq!(a.kind(), b.kind());
            assert_eq!(a.text(), b.text());
            assert_eq!(a.span(), b.span());
        }
        assert_eq!(
            goctl_rs::token::tokenize_strict(&source).map(|t| t.len()),
            Err(goctl_rs::token::Unscanned { at: prefix.len() })
        );
    }
}

#[test]
fn words_may_stand_side_by_side() {
    let source = "\n\ttype A struct{x []int`json:\"x\"`y map[string]bool}type(B{}C struct{})\
        @server(k:v)service s{@handler h GET /p(A)returns(B)@handler i post /q/}";
    let api = parse_source(source).unwrap();
    let names: Vec<&str> = api.type_struct.iter().map(|s| s.name.as_str()).collect();
    assert_eq!(names, vec!["A", "B", "C"]);
    assert_eq!(api.type_struct[0].fields.len(), 2);
    assert_eq!(api.service.anotation.as_ref().map(|m| m.len()), Some(1));
    assert_eq!(api.service.handlers.len(), 2);
    assert_eq!(api.service.handlers[0].req_type.as_deref(), Some("A"));
    assert_eq!(api.service.handlers[0].resp_type.as_deref(), Some("B"));
    assert_eq!(api.service.handlers[1].path, "/q/");
    assert_eq!(tokenize(source).len(), 51);
}
