use goctl_rs::annotation::collect_annotation;
use goctl_rs::service::{
    parse_handler, parse_http_method, parse_kv_pairs, parse_service, parse_service_anotation,
    HttpMethod,
};
use goctl_rs::token::tokenize;

#[test]
fn it_parse_service() {
    let source = r#"
        @server (
            group:   json
            jwt:     Auth
            timeout: 3ms
        )
        service example {
            @handler getForm
            get /example/form (GetFormReq) returns (GetFormResp)
        
            @handler postJson
            post /example/json (PostJsonReq) returns (PostJsonResp)
        }
        "#;
    let tokens = tokenize(source);
    let res = parse_service(&tokens);

    let (rest, service_res) = res.unwrap();
    println!("{:#?}", service_res);
    assert!(rest.is_empty());
    assert_eq!(service_res.name, "example");
    let anotation = service_res.anotation.unwrap();
    let pairs: Vec<(&str, &str)> = anotation.iter().map(|(k, v)| (k.as_str(), v.as_str())).collect();
    assert_eq!(pairs, vec![("group", "json"), ("jwt", "Auth"), ("timeout", "3ms")]);
    assert_eq!(service_res.handlers.len(), 2);
    assert_eq!(service_res.handlers[0].name, "getForm");
    assert_eq!(service_res.handlers[0].method, HttpMethod::GET);
    assert_eq!(service_res.handlers[0].path, "/example/form");
    assert_eq!(service_res.handlers[0].req_type.as_deref(), Some("GetFormReq"));
    assert_eq!(service_res.handlers[0].resp_type.as_deref(), Some("GetFormResp"));
    assert_eq!(service_res.handlers[1].name, "postJson");
    assert_eq!(service_res.handlers[1].method, HttpMethod::POST);
    assert_eq!(service_res.handlers[1].path, "/example/json");
}

#[test]
fn it_parse_service_anotation() {
    let source = r#"
            @server (
                group:   json
                jwt:     Auth
                timeout: 3m
            )
        "#;
    let tokens = tokenize(source);
    let res = parse_service_anotation(&tokens);

    let anotation_res = res.unwrap().1;
    println!("{:#?}", anotation_res);
    let keys: Vec<&str> = anotation_res.keys().map(|k| k.as_str()).collect();
    assert_eq!(keys, vec!["group", "jwt", "timeout"]);
    assert_eq!(anotation_res["timeout"], "3m");
}

#[test]
fn it_parse_kv_pairs() {
    let source = r#"
            group:   json
            jwt:     Auth
            timeout: 3m
        "#;
    let tokens = tokenize(source);
    let res = parse_kv_pairs(&tokens);

    let kv_pairs_res = res.unwrap().1;
    println!("{:#?}", kv_pairs_res);
    assert_eq!(
        kv_pairs_res,
        vec![
            ("group".to_string(), "json".to_string()),
            ("jwt".to_string(), "Auth".to_string()),
            ("timeout".to_string(), "3m".to_string()),
        ]
    );
}

#[test]
fn it_parse_handler() {
    let source = r#"
            @handler GetFormReq 
            get /form/req returns (GetFormReq)
        "#;
    let tokens = tokenize(source);
    let res = parse_handler(&tokens);

    let handler_res = res.unwrap().1;
    println!("{:#?}", handler_res);
    assert_eq!(handler_res.name, "GetFormReq");
    assert_eq!(handler_res.method, HttpMethod::GET);
    assert_eq!(handler_res.path, "/form/req");
    assert_eq!(handler_res.req_type, None);
    assert_eq!(handler_res.resp_type.as_deref(), Some("GetFormReq"));
}

#[test]
fn annotation_keeps_the_order_of_its_keys() {
    let tokens = tokenize("@server ( k1: v1 k2: v2 )");
    let (rest, map) = parse_service_anotation(&tokens).unwrap();
    assert!(rest.is_empty());
    let pairs: Vec<(&str, &str)> = map.iter().map(|(k, v)| (k.as_str(), v.as_str())).collect();
    assert_eq!(pairs, vec![("k1", "v1"), ("k2", "v2")]);
}

#[test]
fn a_key_that_comes_again_takes_the_later_value() {
    let tokens = tokenize("@server ( k: v1 k: v2 )");
    let (_, map) = parse_service_anotation(&tokens).unwrap();
    assert_eq!(map.len(), 1);
    assert_eq!(map["k"], "v2");
    let tokens = tokenize("@server ( a: 1 b: 2 a: 3 c: 4 b: 5 )");
    let (_, map) = parse_service_anotation(&tokens).unwrap();
    let pairs: Vec<(&str, &str)> = map.iter().map(|(k, v)| (k.as_str(), v.as_str())).collect();
    assert_eq!(pairs, vec![("a", "3"), ("b", "5"), ("c", "4")]);
}

#[test]
fn collect_annotation_fills_in_order() {
    let pairs = vec![
        ("x".to_string(), "1".to_string()),
        ("y".to_string(), "2".to_string()),
        ("x".to_string(), "3".to_string()),
    ];
    let map = collect_annotation(&pairs);
    let found: Vec<(&str, &str)> = map.iter().map(|(k, v)| (k.as_str(), v.as_str())).collect();
    assert_eq!(found, vec![("x", "3"), ("y", "2")]);
    assert!(collect_annotation(&Vec::new()).is_empty());
}

#[test]
fn empty_annotation() {
    let tokens = tokenize("@server ( ) service");
    let (rest, map) = parse_service_anotation(&tokens).unwrap();
    assert_eq!(rest.len(), 1);
    assert!(map.is_empty());
}

#[test]
fn annotation_failures() {
    let tokens = tokenize("@server ( k: v");
    assert_eq!(
        parse_service_anotation(&tokens).unwrap_err().0,
        "API Token CloseParen does not match"
    );
    let tokens = tokenize("@server ( k: int )");
    assert_eq!(
        parse_service_anotation(&tokens).unwrap_err().0,
        "Expected API Token CloseParen, found Identifier at k (10..11)"
    );
    let tokens = tokenize("service x { }");
    assert_eq!(
        parse_service_anotation(&tokens).unwrap_err().0,
        "Expected API Token Server, found Service at service (0..7)"
    );
    let tokens = tokenize("@server k: v )");
    assert_eq!(
        parse_service_anotation(&tokens).unwrap_err().0,
        "Expected API Token OpenParen, found Identifier at k (8..9)"
    );
}

fn handler_types(rest_of_handler: &str) -> (Option<String>, Option<String>, usize) {
    let source = format!("@handler h {}", rest_of_handler);
    let tokens = tokenize(&source);
    let (rest, handler) = parse_handler(&tokens).unwrap();
    assert_eq!(handler.name, "h");
    assert_eq!(handler.method, HttpMethod::GET);
    assert_eq!(handler.path, "/path");
    (handler.req_type, handler.resp_type, rest.len())
}

#[test]
fn handler_with_and_without_its_optional_parts() {
    assert_eq!(handler_types("get /path"), (None, None, 0));
    assert_eq!(handler_types("get /path ()"), (None, None, 0));
    assert_eq!(handler_types("get /path (Req)"), (Some("Req".to_string()), None, 0));
    assert_eq!(
        handler_types("get /path (Req) returns (Resp)"),
        (Some("Req".to_string()), Some("Resp".to_string()), 0)
    );
    assert_eq!(handler_types("get /path returns"), (None, None, 0));
    assert_eq!(handler_types("get /path returns (Resp)"), (None, Some("Resp".to_string()), 0));
    assert_eq!(handler_types("get /path returns ()"), (None, None, 0));
    assert_eq!(handler_types("get /path () returns ()"), (None, None, 0));
    assert_eq!(handler_types("get /path (Req) returns"), (Some("Req".to_string()), None, 0));
    assert_eq!(handler_types("get /path }"), (None, None, 1));
    assert_eq!(handler_types("get /path (Req) @handler"), (Some("Req".to_string()), None, 1));
}

#[test]
fn methods_in_any_case() {
    for (word, method) in [
        ("get", HttpMethod::GET),
        ("GET", HttpMethod::GET),
        ("Get", HttpMethod::GET),
        ("gEt", HttpMethod::GET),
        ("post", HttpMethod::POST),
        ("POST", HttpMethod::POST),
        ("Post", HttpMethod::POST),
    ] {
        let tokens = tokenize(word);
        let (rest, found) = parse_http_method(&tokens).unwrap();
        assert!(rest.is_empty());
        assert_eq!(found, method);
    }
    for (word, kind) in [
        ("put", "Identifier"),
        ("delete", "Identifier"),
        ("gets", "Identifier"),
        ("ge", "Identifier"),
        ("posts", "Identifier"),
        ("patch", "Identifier"),
        ("{", "OpenBrace"),
        ("/get", "RoutePath"),
    ] {
        let tokens = tokenize(word);
        assert_eq!(tokens.len(), 1);
        assert_eq!(
            parse_http_method(&tokens).unwrap_err().0,
            format!(
                "Json Text POST does not match, found {} at {} (0..{})",
                kind,
                word,
                word.len()
            )
        );
    }
    assert_eq!(parse_http_method(&[]).unwrap_err().0, "Json Text POST does not match");
    assert_eq!(HttpMethod::GET.to_string(), "GET");
    assert_eq!(HttpMethod::POST.to_string(), "POST");
    assert_eq!(HttpMethod::POST.as_str(), "POST");
}

#[test]
fn handler_failures() {
    let tokens = tokenize("@handler h put /path");
    assert_eq!(
        parse_handler(&tokens).unwrap_err().0,
        "Json Text POST does not match, found Identifier at put (11..14)"
    );
    let tokens = tokenize("@handler h get path");
    assert_eq!(
        parse_handler(&tokens).unwrap_err().0,
        "Expected API Token RoutePath, found Identifier at path (15..19)"
    );
    let tokens = tokenize("@handler get /path");
    assert_eq!(
        parse_handler(&tokens).unwrap_err().0,
        "Expected API Token Identifier, found HttpMethod at get (9..12)"
    );
    let tokens = tokenize("handler h get /path");
    assert_eq!(
        parse_handler(&tokens).unwrap_err().0,
        "Expected API Token Handler, found Identifier at handler (0..7)"
    );
    let tokens = tokenize("@handler h get");
    assert_eq!(parse_handler(&tokens).unwrap_err().0, "API Token RoutePath does not match");
}

#[test]
fn service_without_annotation_and_without_handlers() {
    let tokens = tokenize("service s { }");
    let (rest, service) = parse_service(&tokens).unwrap();
    assert!(rest.is_empty());
    assert_eq!(service.name, "s");
    assert!(service.anotation.is_none());
    assert!(service.handlers.is_empty());
}

#[test]
fn service_failures() {
    let tokens = tokenize("service s { @handler h get /p");
    assert_eq!(parse_service(&tokens).unwrap_err().0, "API Token CloseBrace does not match");
    let tokens = tokenize("@server ( k: v service s { }");
    assert_eq!(
        parse_service(&tokens).unwrap_err().0,
        "Expected API Token Service, found Server at @server (0..7)"
    );
    let tokens = tokenize("service { }");
    assert_eq!(
        parse_service(&tokens).unwrap_err().0,
        "Expected API Token Identifier, found OpenBrace at { (8..9)"
    );
    let tokens = tokenize("service s { @handler h put /p }");
    assert_eq!(
        parse_service(&tokens).unwrap_err().0,
        "Expected API Token CloseBrace, found Handler at @handler (12..20)"
    );
    assert_eq!(parse_service(&[]).unwrap_err().0, "API Token Service does not match");
}
