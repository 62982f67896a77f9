use goctl_rs::struct_ref::{
    parse_array_type, parse_field, parse_field_type, parse_map_type, parse_nest_struct,
    parse_one_struct, parse_struct_stmt, parse_struct_stmt1, FieldType,
};
use goctl_rs::token::tokenize;

fn field_type(source: &str) -> FieldType {
    let input = tokenize(source);
    let (rest, found) = parse_field_type(&input).unwrap();
    assert!(rest.is_empty());
    found
}

fn array_of(item: FieldType) -> FieldType {
    FieldType::Array(Box::new(item))
}

fn map_of(key: FieldType, value: FieldType) -> FieldType {
    FieldType::Mapping(Box::new(key), Box::new(value))
}

#[test]
fn test_parse_struct() {
    let source = r#"
        type (
            PostFormReq struct {
                Name    string   `form:"name"`
                Age     int      `form:"age"`
            }
            PostFormResp struct {
                Total int64 `json:"total"`
            }
        )
        type GetFormReq struct {
            Name  []string `form:"name,omitempty"`
            Age   int64  `form:"age" json:"age"`
        }
        type GetFormResp struct {
            Total int64 `json:"total"`
        }
        
        "#;
    let input = tokenize(source);
    let result = parse_struct_stmt1(&input);

    let (rest, struct_def) = result.unwrap();
    println!("{:#?}", struct_def);
    assert!(rest.is_empty());
    let names: Vec<&str> = struct_def.iter().map(|s| s.name.as_str()).collect();
    assert_eq!(names, vec!["PostFormReq", "PostFormResp", "GetFormReq", "GetFormResp"]);
    assert_eq!(struct_def[0].fields.len(), 2);
    assert_eq!(struct_def[0].fields[1].name, "Age");
    assert_eq!(struct_def[0].fields[1].field_type, FieldType::Int);
    assert_eq!(struct_def[2].fields[0].field_type, array_of(FieldType::String));
    assert_eq!(struct_def[2].fields[1].tag.as_deref(), Some(r#"`form:"age" json:"age"`"#));
    assert_eq!(struct_def[3].fields[0].field_type, FieldType::Int64);
}

#[test]
fn test_parse_field() {
    let source = r#"name string `json:"name"`"#;
    let input = tokenize(source);
    let result = parse_field(&input);

    let field_var = result.unwrap().1;
    println!("{:#?}", field_var);
    assert_eq!(field_var.name, "name");
    assert_eq!(field_var.field_type, FieldType::String);
    assert_eq!(field_var.tag.as_deref(), Some(r#"`json:"name"`"#));
}

#[test]
fn field_without_tag() {
    let input = tokenize("name string }");
    let (rest, field) = parse_field(&input).unwrap();
    assert_eq!(field.name, "name");
    assert_eq!(field.tag, None);
    assert_eq!(rest.len(), 1);
}

#[test]
fn test_parse_field_type() {
    let source = "string";
    let input = tokenize(source);
    let result = parse_field_type(&input);

    let field_type = result.unwrap().1;
    assert_eq!(field_type, FieldType::String);
}

#[test]
fn test_parse_field_type_array() {
    let source = "[]int";
    let input = tokenize(source);
    let result = parse_array_type(&input);

    let field_type = result.unwrap().1;
    println!("{:#?}", field_type);
    assert_eq!(field_type, array_of(FieldType::Int));
}

#[test]
fn test_parse_field_type_map() {
    let source = "map[string]map[string][]int";
    let input = tokenize(source);
    let result = parse_map_type(&input);

    let field_type = result.unwrap().1;
    println!("{:#?}", field_type);
    assert_eq!(
        field_type,
        map_of(FieldType::String, map_of(FieldType::String, array_of(FieldType::Int)))
    );
}

#[test]
fn scalar_words_give_their_own_type() {
    assert_eq!(field_type("int"), FieldType::Int);
    assert_eq!(field_type("int32"), FieldType::Int32);
    assert_eq!(field_type("int64"), FieldType::Int64);
    assert_eq!(field_type("string"), FieldType::String);
    assert_eq!(field_type("bool"), FieldType::Bool);
    for other in ["int", "int32", "string", "bool", "[]int64"] {
        assert_ne!(field_type(other), FieldType::Int64);
    }
    for (word, kind) in [
        ("int8", "IntDataType"),
        ("int16", "IntDataType"),
        ("float32", "FloatDataType"),
        ("float64", "FloatDataType"),
        ("Int64", "Identifier"),
        ("INT64", "Identifier"),
        ("map", "MapDataType"),
        ("Foo", "Identifier"),
        ("{", "OpenBrace"),
    ] {
        let input = tokenize(word);
        assert_eq!(input.len(), 1);
        let error = parse_field_type(&input).unwrap_err();
        assert_eq!(
            error.0,
            format!(
                "Json Text bool does not match, found {} at {} (0..{})",
                kind,
                word,
                word.len()
            )
        );
    }
    assert_eq!(parse_field_type(&[]).unwrap_err().0, "Json Text bool does not match");
}

#[test]
fn nested_types() {
    assert_eq!(field_type("[]int"), array_of(FieldType::Int));
    assert_eq!(field_type("[][]bool"), array_of(array_of(FieldType::Bool)));
    assert_eq!(
        field_type("map[string][]int"),
        map_of(FieldType::String, array_of(FieldType::Int))
    );
    assert_eq!(
        field_type("map[string]map[string]int"),
        map_of(FieldType::String, map_of(FieldType::String, FieldType::Int))
    );
    assert_eq!(
        field_type("map[[]int32]int64"),
        map_of(array_of(FieldType::Int32), FieldType::Int64)
    );
    assert_eq!(
        field_type("[]map[map[int]bool]string"),
        array_of(map_of(map_of(FieldType::Int, FieldType::Bool), FieldType::String))
    );
}

#[test]
fn type_rules_fail_with_the_message_of_the_token_they_miss() {
    let input = tokenize("int");
    assert_eq!(
        parse_array_type(&input).unwrap_err().0,
        "Expected API Token OpenBracket, found IntDataType at int (0..3)"
    );
    let input = tokenize("[");
    assert_eq!(parse_array_type(&input).unwrap_err().0, "API Token CloseBracket does not match");
    let input = tokenize("[]");
    assert_eq!(parse_array_type(&input).unwrap_err().0, "Json Text bool does not match");
    let input = tokenize("map[string int");
    assert_eq!(
        parse_map_type(&input).unwrap_err().0,
        "Expected API Token CloseBracket, found IntDataType at int (11..14)"
    );
    assert_eq!(parse_map_type(&[]).unwrap_err().0, "API Token MapDataType does not match");
    let input = tokenize("map[string int");
    assert_eq!(
        parse_field_type(&input).unwrap_err().0,
        "Json Text bool does not match, found MapDataType at map (0..3)"
    );
}

#[test]
fn the_rule_that_stands_first_wins() {
    let input = tokenize("type ( A struct { } B struct { } )");
    let (rest, structs) = parse_struct_stmt(&input).unwrap();
    assert!(rest.is_empty());
    assert_eq!(structs.len(), 2);
    assert_eq!(structs[0].name, "A");
    assert_eq!(structs[1].name, "B");
    // The rule for a row of declarations never fails: it would give no
    // struct here and take no token, had it been tried first.
    let (rest, structs) = goctl_rs::struct_ref::parse_many_struct(&input).unwrap();
    assert_eq!(rest.len(), input.len());
    assert!(structs.is_empty());
    let input = tokenize("type A struct { } type B struct { }");
    let (rest, structs) = parse_struct_stmt(&input).unwrap();
    assert!(rest.is_empty());
    assert_eq!(structs.len(), 2);
    // Blocks and single declarations in any mixture, over the whole region.
    let input = tokenize("type ( A struct { } ) type B struct { }");
    let (rest, structs) = parse_struct_stmt(&input).unwrap();
    assert!(rest.is_empty());
    let names: Vec<&str> = structs.iter().map(|s| s.name.as_str()).collect();
    assert_eq!(names, vec!["A", "B"]);
    let input = tokenize("type B struct { } type ( A { } C { } ) D { } service s { }");
    let (rest, structs) = parse_struct_stmt(&input).unwrap();
    assert_eq!(rest.len(), 4);
    let names: Vec<&str> = structs.iter().map(|s| s.name.as_str()).collect();
    assert_eq!(names, vec!["B", "A", "C", "D"]);
}

#[test]
fn block_of_declarations() {
    let input = tokenize("type ( A struct { } B struct { } )");
    let (rest, structs) = parse_nest_struct(&input).unwrap();
    assert!(rest.is_empty());
    let names: Vec<&str> = structs.iter().map(|s| s.name.as_str()).collect();
    assert_eq!(names, vec!["A", "B"]);
    assert!(structs[0].fields.is_empty());
    let (rest, structs) = parse_struct_stmt1(&input).unwrap();
    assert!(rest.is_empty());
    assert_eq!(structs.len(), 2);
    // A block declares one struct at least.
    let input = tokenize("type ( )");
    assert_eq!(
        parse_nest_struct(&input).unwrap_err().0,
        "Expected API Token Identifier, found CloseParen at ) (7..8)"
    );
    let (rest, structs) = parse_struct_stmt1(&input).unwrap();
    assert_eq!(rest.len(), 3);
    assert!(structs.is_empty());
    let (rest, structs) = parse_struct_stmt(&input).unwrap();
    assert_eq!(rest.len(), 3);
    assert!(structs.is_empty());
    let input = tokenize("type ( A { x int } type B struct { } ) service");
    let (rest, structs) = parse_nest_struct(&input).unwrap();
    assert_eq!(rest.len(), 1);
    assert_eq!(structs.len(), 2);
    assert_eq!(structs[0].fields.len(), 1);
}

#[test]
fn one_struct_with_and_without_its_keywords() {
    for source in ["type A struct { x int }", "A struct { x int }", "type A { x int }", "A { x int }"]
    {
        let input = tokenize(source);
        let (rest, def) = parse_one_struct(&input).unwrap();
        assert!(rest.is_empty());
        assert_eq!(def.name, "A");
        assert_eq!(def.fields.len(), 1);
        assert_eq!(def.fields[0].name, "x");
    }
    let input = tokenize("type A struct { x int x string }");
    let (_, def) = parse_one_struct(&input).unwrap();
    assert_eq!(def.fields.len(), 2);
    assert_eq!(def.fields[0].name, def.fields[1].name);
}

#[test]
fn a_struct_without_its_closing_brace_fails() {
    let input = tokenize("type A struct { x int");
    assert_eq!(parse_one_struct(&input).unwrap_err().0, "API Token CloseBrace does not match");
    let input = tokenize("type A struct { x int service");
    assert_eq!(
        parse_one_struct(&input).unwrap_err().0,
        "Expected API Token CloseBrace, found Service at service (22..29)"
    );
    let input = tokenize("type struct { }");
    assert_eq!(
        parse_one_struct(&input).unwrap_err().0,
        "Expected API Token Identifier, found Struct at struct (5..11)"
    );
    let input = tokenize("type A struct x int }");
    assert_eq!(
        parse_one_struct(&input).unwrap_err().0,
        "Expected API Token OpenBrace, found Identifier at x (14..15)"
    );
    let input = tokenize("type ( A struct { }");
    assert_eq!(parse_nest_struct(&input).unwrap_err().0, "API Token CloseParen does not match");
}

#[test]
fn declarations_end_where_no_rule_matches() {
    let input = tokenize("type A struct { } type B struct { service x { }");
    let (rest, structs) = parse_struct_stmt1(&input).unwrap();
    assert_eq!(structs.len(), 1);
    assert_eq!(rest.len(), input.len() - 5);
    let (rest, structs) = parse_struct_stmt1(&[]).unwrap();
    assert!(rest.is_empty());
    assert!(structs.is_empty());
}

#[test]
fn field_type_clone_is_equal() {
    let t = map_of(FieldType::String, array_of(FieldType::Int32));
    assert_eq!(t.clone(), t);
}
