use goctl_rs::token::{tokenize, tokenize_strict, APIToken, APITokenKind, APITokenizer, Unscanned};

fn kinds(source: &str) -> Vec<APITokenKind> {
    tokenize(source).iter().map(|t| t.kind()).collect()
}

fn texts(source: &str) -> Vec<String> {
    tokenize(source).iter().map(|t| t.text().to_string()).collect()
}

#[test]
fn it_works() {
    assert_eq!(2 + 2, 4);
}

#[test]
fn it_tokenizer() {
    let source = r#"
            type GetFormReq struct {
                Name    string   `form:"name,omitempty"`
                Age     int64    `form:"age" json:"age"`
                Hobbits []string `form:"hobbits"`
            }
            type GetFormResp struct {
                Total int64 `json:"total"`
            }

            @server (
                group:   json
	            jwt:     Auth
	            timeout: 3m
            )
            service UserService {
                @handler getForm
	            get /example/form (GetFormReq) returns (GetFormResp)
            }
        "#;

    let mut tokenizer = APITokenizer::new(source);
    let mut count = 0;
    while let Some(token) = tokenizer.next_token() {
        println!("{:#?}", token);
        count += 1;
    }
    assert_eq!(count, 51);
    assert!(tokenizer.next_token().is_none());
    let tokens = tokenize(source);
    assert_eq!(tokens.len(), 51);
    assert_eq!(tokens[0].kind(), APITokenKind::Type);
    assert_eq!(tokens[1].kind(), APITokenKind::Identifier);
    assert_eq!(tokens[1].text(), "GetFormReq");
    assert_eq!(tokens[2].kind(), APITokenKind::Struct);
    assert_eq!(tokens[6].kind(), APITokenKind::TagAnnotation);
    assert_eq!(tokens[6].text(), r#"`form:"name,omitempty"`"#);
    assert_eq!(tokens[9].text(), r#"`form:"age" json:"age"`"#);
    assert_eq!(tokens[50].kind(), APITokenKind::CloseBrace);
}

#[test]
fn token_spans_are_byte_offsets() {
    let source = "  type  A1 {";
    let tokens = tokenize(source);
    assert_eq!(tokens.len(), 3);
    assert_eq!(tokens[0].span(), 2..6);
    assert_eq!(tokens[1].span(), 8..10);
    assert_eq!(tokens[2].span(), 11..12);
    for token in &tokens {
        assert_eq!(token.text(), &source[token.span()]);
        assert_eq!(token.text(), token.at());
        assert_eq!(token.source(), source);
    }
}

#[test]
fn white_space_gives_no_token() {
    assert!(tokenize("").is_empty());
    assert!(tokenize(" \t\r\n\x0c ").is_empty());
    assert_eq!(kinds(" {\t}\r(\n)\x0c[ ] :"), vec![
        APITokenKind::OpenBrace,
        APITokenKind::CloseBrace,
        APITokenKind::OpenParen,
        APITokenKind::CloseParen,
        APITokenKind::OpenBracket,
        APITokenKind::CloseBracket,
        APITokenKind::Colon,
    ]);
}

#[test]
fn keywords_win_over_identifiers_of_the_same_length() {
    assert_eq!(
        kinds("type struct service returns map string bool get post"),
        vec![
            APITokenKind::Type,
            APITokenKind::Struct,
            APITokenKind::Service,
            APITokenKind::RespReturns,
            APITokenKind::MapDataType,
            APITokenKind::StringDataType,
            APITokenKind::BoolDataType,
            APITokenKind::HttpMethod,
            APITokenKind::HttpMethod,
        ]
    );
    assert_eq!(
        kinds("int int8 int16 int32 int64 float32 float64"),
        vec![
            APITokenKind::IntDataType,
            APITokenKind::IntDataType,
            APITokenKind::IntDataType,
            APITokenKind::IntDataType,
            APITokenKind::IntDataType,
            APITokenKind::FloatDataType,
            APITokenKind::FloatDataType,
        ]
    );
    assert_eq!(kinds("@server @handler"), vec![APITokenKind::Server, APITokenKind::Handler]);
}

#[test]
fn the_longest_text_wins() {
    for word in [
        "types", "structs", "services", "returnsx", "maps", "strings", "boolean", "gets", "poster",
        "int1", "int3", "int6", "int128", "int164", "float", "float3", "float320", "typ", "GET",
        "Type", "_", "_a$", "a$b", "3m", "0", "9_x",
    ] {
        let tokens = tokenize(word);
        assert_eq!(tokens.len(), 1, "{}", word);
        assert_eq!(tokens[0].kind(), APITokenKind::Identifier, "{}", word);
        assert_eq!(tokens[0].text(), word);
    }
    assert_eq!(kinds("@serverless"), vec![APITokenKind::Server, APITokenKind::Identifier]);
    assert_eq!(texts("@serverless"), vec!["@server", "less"]);
    assert_eq!(texts("@handlers"), vec!["@handler", "s"]);
}

#[test]
fn route_paths_are_single_tokens() {
    for path in ["/", "/a", "/a/", "/example/form", "/a_b/c9/", "/0"] {
        let tokens = tokenize(path);
        assert_eq!(tokens.len(), 1, "{}", path);
        assert_eq!(tokens[0].kind(), APITokenKind::RoutePath);
        assert_eq!(tokens[0].text(), path);
    }
    assert_eq!(texts("/a//b"), vec!["/a/", "/b"]);
    assert_eq!(texts("//"), vec!["/", "/"]);
    assert_eq!(texts("/a/(Req)"), vec!["/a/", "(", "Req", ")"]);
    assert_eq!(texts("/a$"), vec!["/a"]);
}

#[test]
fn tag_annotations_are_single_tokens() {
    for tag in [
        r#"`json:"name"`"#,
        r#"`json:""`"#,
        r#"`form:"age" json:"age"`"#,
        "`a:\"x\"\t\n b_1:\"y`z\" `",
        "`k:\"caf\u{e9} \u{4e2d}\"`",
        "`a:\"1\"\u{a0}\u{2003}\u{3000}\u{85}\u{1680}\u{2028}\u{2029}\u{202f}\u{205f}\u{0b}b:\"2\"`",
        "`a:\"1\"b:\"2\"`",
    ] {
        let tokens = tokenize(tag);
        assert_eq!(tokens.len(), 1, "{}", tag);
        assert_eq!(tokens[0].kind(), APITokenKind::TagAnnotation);
        assert_eq!(tokens[0].text(), tag);
        assert_eq!(tokens[0].span(), 0..tag.len());
    }
    for broken in [
        "`", "``", "`json`", "`json:`", r#"`json:"a`"#, r#"`json:"a""#, r#"`json:"a" x`"#,
        r#"` json:"a"`"#, r#"`:"a"`"#, r#"`a-b:"c"`"#, "`a:\"1\"\u{200b}`",
    ] {
        assert!(tokenize(broken).is_empty(), "{}", broken);
    }
}

#[test]
fn scanning_ends_at_the_first_bytes_that_no_rule_accepts() {
    let tokens = tokenize("type A { name string } # service B { }");
    assert_eq!(tokens.len(), 6);
    assert_eq!(tokens[5].kind(), APITokenKind::CloseBrace);
    assert_eq!(tokens[5].span(), 21..22);
    let whole = tokenize("type A { name string } ");
    assert_eq!(whole.len(), 6);
    for (a, b) in tokens.iter().zip(whole.iter()) {
        assert_eq!(a.kind(), b.kind());
        assert_eq!(a.text(), b.text());
        assert_eq!(a.span(), b.span());
    }
    assert_eq!(texts("a $ b"), vec!["a"]);
    assert_eq!(texts("a$ b"), vec!["a$", "b"]);
    assert_eq!(texts("a \u{e9} b"), vec!["a"]);
    assert_eq!(texts("a @serve b"), vec!["a"]);
    assert_eq!(texts("a \" b"), vec!["a"]);
    assert!(tokenize("$").is_empty());
    assert!(tokenize("\u{b}a").is_empty());
}

#[test]
fn the_tokenizer_stays_at_its_end() {
    let mut tokenizer = APITokenizer::new("a # b");
    let first: Option<APIToken> = tokenizer.next_token();
    assert_eq!(first.map(|t| t.text()), Some("a"));
    assert!(tokenizer.next_token().is_none());
    assert!(tokenizer.next_token().is_none());
}

#[test]
fn kind_names() {
    assert_eq!(APITokenKind::Whitespace.name(), "Whitespace");
    assert_eq!(APITokenKind::OpenBrace.name(), "OpenBrace");
    assert_eq!(APITokenKind::IntDataType.name(), "IntDataType");
    assert_eq!(APITokenKind::FloatDataType.name(), "FloatDataType");
    assert_eq!(APITokenKind::TagAnnotation.name(), "TagAnnotation");
    assert_eq!(APITokenKind::RespReturns.name(), "RespReturns");
    assert_eq!(APITokenKind::RoutePath.name(), "RoutePath");
}

#[test]
fn strict_scanning_tells_where_it_ended() {
    assert_eq!(tokenize_strict("").map(|t| t.len()), Ok(0));
    assert_eq!(tokenize_strict(" type A { } \n").map(|t| t.len()), Ok(4));
    assert_eq!(
        tokenize_strict("type A { name string } # service B { }").map(|t| t.len()),
        Err(Unscanned { at: 23 })
    );
    assert_eq!(tokenize_strict("$").map(|t| t.len()), Err(Unscanned { at: 0 }));
    assert_eq!(tokenize_strict("a  \u{e9}").map(|t| t.len()), Err(Unscanned { at: 3 }));
    assert_eq!(tokenize_strict("a `k:\"v\"").map(|t| t.len()), Err(Unscanned { at: 2 }));
    let mut tokenizer = APITokenizer::new("ab  # c");
    assert_eq!(tokenizer.offset(), 0);
    assert!(tokenizer.next_token().is_some());
    assert_eq!(tokenizer.offset(), 2);
    assert!(tokenizer.next_token().is_none());
    assert_eq!(tokenizer.offset(), 4);
    assert!(tokenizer.next_token().is_none());
    assert_eq!(tokenizer.offset(), 4);
}
