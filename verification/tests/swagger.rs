use goctl_rs::openapi::swagger::{
    definition_of, object_of, object_of_two, operation_of, property_of, response_of,
    schema_fields, schema_of, swagger_json, text, to_swagger, Swagger,
};
use goctl_rs::parser::parse_api;
use goctl_rs::struct_ref::FieldType;
use goctl_rs::token::tokenize;
use serde::ser::SerializeMap;
use serde_json::Value;

fn json(text: &str) -> Value {
    serde_json::from_str(text).unwrap()
}

fn swagger_of(source: &str) -> Swagger {
    let input = tokenize(source);
    to_swagger(parse_api(&input).unwrap().1)
}

#[test]
fn it_to_swagger() {
    let source = r#"
        type (
            PostFormReq struct {
                Name    string   `form:"name"`
                Age     []int      `form:"age"`
            }
            PostFormResp struct {
                Total int64 `json:"total"`
                State []string `json:"state"`
            }
        )
        type GetFormReq struct {
            Name  string `form:"name,omitempty"`
            Age   int64  `form:"age" json:"age"`
        }
        type GetFormResp struct {
            Total int64 `json:"total"`
            Times []int32 `json:"times"`
        }

        @server (
            group:   json
            jwt:     Auth
            timeout: 3m
        )
        service example {
            @handler getForm
            get /example/form (GetFormReq) returns (GetFormResp)

            @handler postJson
            post /example/json (PostFormReq) returns (PostFormResp)
        }
        "#;
    let input = tokenize(source);
    let result = parse_api(&input);

    let api_data = result.unwrap().1;
    let swagger = to_swagger(api_data);
    println!("{}", swagger.to_string());
    let expected = json(
        r##"{
          "openapi": "3.0.3",
          "info": { "version": "1.0.0", "title": "Generated Swagger API" },
          "paths": {
            "/example/form": {
              "GET": {
                "summary": "getForm",
                "responses": {
                  "200": {
                    "description": "successful operation",
                    "content": {
                      "application/json": {
                        "schema": { "$ref": "#/components/schemas/GetFormResp" }
                      }
                    }
                  }
                }
              }
            },
            "/example/json": {
              "POST": {
                "summary": "postJson",
                "responses": {
                  "200": {
                    "description": "successful operation",
                    "content": {
                      "application/json": {
                        "schema": { "$ref": "#/components/schemas/PostFormResp" }
                      }
                    }
                  }
                }
              }
            }
          },
          "components": {
            "schemas": {
              "PostFormReq": {
                "type": "object",
                "properties": {
                  "name": { "type": "string", "description": "Name" },
                  "age": {
                    "type": "array",
                    "items": { "type": "integer", "format": "int" },
                    "description": "Age"
                  }
                }
              },
              "PostFormResp": {
                "type": "object",
                "properties": {
                  "total": { "type": "integer", "format": "int64", "description": "Total" },
                  "state": {
                    "type": "array",
                    "items": { "type": "string" },
                    "description": "State"
                  }
                }
              },
              "GetFormReq": {
                "type": "object",
                "properties": {
                  "name": { "type": "string", "description": "Name" },
                  "age": { "type": "integer", "format": "int64", "description": "Age" }
                }
              },
              "GetFormResp": {
                "type": "object",
                "properties": {
                  "total": { "type": "integer", "format": "int64", "description": "Total" },
                  "times": {
                    "type": "array",
                    "items": { "type": "integer", "format": "int32" },
                    "description": "Times"
                  }
                }
              }
            }
          }
        }"##,
    );
    assert_eq!(swagger.to_json(), expected);
    assert_eq!(json(&swagger.to_string()), expected);
    assert_eq!(
        swagger.to_string(),
        serde_json::to_string_pretty(&expected).unwrap()
    );
}

/// A field type as the JSON writer takes it: the members of its schema,
/// one after the other as the library gives them.
struct Written<'a>(&'a FieldType);

impl serde::Serialize for Written<'_> {
    fn serialize<S>(&self, serializer: S) -> Result<S::Ok, S::Error>
    where
        S: serde::Serializer,
    {
        let fields = schema_fields(self.0);
        let mut state = serializer.serialize_map(Some(fields.len()))?;
        for (key, value) in &fields {
            state.serialize_entry(key, value)?;
        }
        state.end()
    }
}

#[test]
fn test_serialize_field_type() {
    let cases: Vec<(&str, FieldType, &str)> = vec![
        (
            "test1",
            FieldType::Int,
            r#"{"type":"integer","format":"int"}"#,
        ),
        (
            "test2",
            FieldType::Int32,
            r#"{"type":"integer","format":"int32"}"#,
        ),
        (
            "test3",
            FieldType::Int64,
            r#"{"type":"integer","format":"int64"}"#,
        ),
        ("test4", FieldType::String, r#"{"type":"string"}"#),
        ("test5", FieldType::Bool, r#"{"type":"boolean"}"#),
        (
            "test6",
            FieldType::Array(Box::new(FieldType::Int)),
            r#"{"type":"array","items":{"format":"int","type":"integer"}}"#,
        ),
        (
            "test7",
            FieldType::Mapping(Box::new(FieldType::String), Box::new(FieldType::Int)),
            r#"{"type":"object","additionalProperties":{"format":"int","type":"integer"}}"#,
        ),
    ];

    for (case_name, field_type, expected) in cases {
        let actual = serde_json::to_string(&Written(&field_type)).unwrap();
        assert_eq!(actual, expected, "{}", case_name);
    }
}

#[test]
fn field_type_schemas() {
    let cases: Vec<(&str, FieldType, &str)> = vec![
        ("test1", FieldType::Int, r#"{"type":"integer","format":"int"}"#),
        ("test2", FieldType::Int32, r#"{"type":"integer","format":"int32"}"#),
        ("test3", FieldType::Int64, r#"{"type":"integer","format":"int64"}"#),
        ("test4", FieldType::String, r#"{"type":"string"}"#),
        ("test5", FieldType::Bool, r#"{"type":"boolean"}"#),
        (
            "test6",
            FieldType::Array(Box::new(FieldType::Int)),
            r#"{"type":"array","items":{"format":"int","type":"integer"}}"#,
        ),
        (
            "test7",
            FieldType::Mapping(Box::new(FieldType::String), Box::new(FieldType::Int)),
            r#"{"type":"object","additionalProperties":{"format":"int","type":"integer"}}"#,
        ),
        (
            "nested",
            FieldType::Mapping(
                Box::new(FieldType::Int),
                Box::new(FieldType::Array(Box::new(FieldType::Mapping(
                    Box::new(FieldType::Bool),
                    Box::new(FieldType::Bool),
                )))),
            ),
            r#"{"type":"object","additionalProperties":{"type":"array","items":
                {"type":"object","additionalProperties":{"type":"boolean"}}}}"#,
        ),
    ];

    for (case_name, field_type, expected) in cases {
        let actual = Value::Object(schema_of(&field_type));
        assert_eq!(actual, json(expected), "{}", case_name);
    }
}

#[test]
fn small_json_values() {
    assert_eq!(text("a \"b\""), Value::String("a \"b\"".to_string()));
    assert_eq!(object_of("k", text("v")), json(r#"{"k":"v"}"#));
    assert_eq!(object_of_two("k", text("v"), "l", text("w")), json(r#"{"k":"v","l":"w"}"#));
    assert_eq!(object_of_two("k", text("v"), "k", text("w")), json(r#"{"k":"w"}"#));
}

#[test]
fn properties_go_by_the_name_in_small_letters() {
    let input = tokenize("type A struct { UserName string userName int }");
    let api = goctl_rs::struct_ref::parse_one_struct(&input).unwrap().1;
    assert_eq!(
        property_of(&api.fields[0]),
        json(r#"{"type":"string","description":"UserName"}"#)
    );
    assert_eq!(
        definition_of(&api),
        json(
            r#"{"type":"object","properties":{
                "username":{"type":"integer","format":"int","description":"userName"}}}"#
        )
    );
}

#[test]
fn small_letters_are_those_of_unicode() {
    let def = goctl_rs::struct_ref::StructDef {
        name: "A".to_string(),
        fields: vec![goctl_rs::struct_ref::Field {
            name: "\u{c9}T\u{c9}".to_string(),
            field_type: FieldType::Bool,
            tag: None,
        }],
    };
    assert_eq!(
        definition_of(&def),
        json(
            "{\"type\":\"object\",\"properties\":{
                \"\u{e9}t\u{e9}\":{\"type\":\"boolean\",\"description\":\"\u{c9}T\u{c9}\"}}}"
        )
    );
}

#[test]
fn responses_and_operations() {
    assert_eq!(response_of(&None), json(r#"{"description":"OK"}"#));
    assert_eq!(
        response_of(&Some("R".to_string())),
        json(
            r##"{"description":"successful operation",
                "content":{"application/json":{"schema":{"$ref":"#/components/schemas/R"}}}}"##
        )
    );
    let input = tokenize("@handler ping get /ping");
    let handler = goctl_rs::service::parse_handler(&input).unwrap().1;
    assert_eq!(
        operation_of(&handler),
        json(r#"{"summary":"ping","responses":{"200":{"description":"OK"}}}"#)
    );
}

#[test]
fn methods_of_one_path_share_its_item() {
    let swagger = swagger_of(
        "service s {
            @handler a get /p returns (A)
            @handler b post /p
            @handler c get /q
            @handler d GET /p
        }",
    );
    let document = swagger.to_json();
    let paths = document["paths"].as_object().unwrap();
    assert_eq!(paths.len(), 2);
    let item = paths["/p"].as_object().unwrap();
    assert_eq!(item.len(), 2);
    assert_eq!(item["GET"]["summary"], "d");
    assert_eq!(item["GET"]["responses"]["200"]["description"], "OK");
    assert_eq!(item["POST"]["summary"], "b");
    assert_eq!(paths["/q"]["GET"]["summary"], "c");
}

#[test]
fn a_later_struct_of_the_same_name_stays() {
    let swagger = swagger_of("type A struct { x int } type A struct { y bool } service s { }");
    let document = swagger.to_json();
    let schemas = document["components"]["schemas"].as_object().unwrap();
    assert_eq!(schemas.len(), 1);
    assert_eq!(
        schemas["A"],
        json(r#"{"type":"object","properties":{"y":{"type":"boolean","description":"y"}}}"#)
    );
}

#[test]
fn empty_description() {
    let swagger = Swagger::new();
    assert_eq!(
        swagger.to_json(),
        json(
            r#"{"openapi":"3.0.3","info":{"version":"1.0.0","title":"Generated Swagger API"},
                "paths":{},"components":{"schemas":{}}}"#
        )
    );
    let mut swagger = Swagger::new();
    swagger.append_def("D", text("d"));
    swagger.append_path("/p", "GET", text("o"));
    swagger.append_path("/p", "PUT", text("u"));
    assert_eq!(swagger.to_json()["components"]["schemas"], json(r#"{"D":"d"}"#));
    assert_eq!(swagger.to_json()["paths"], json(r#"{"/p":{"GET":"o","PUT":"u"}}"#));
    assert_eq!(
        Swagger::new().to_string(),
        "{\n  \"components\": {\n    \"schemas\": {}\n  },\n  \"info\": {\n    \"title\": \"Generated Swagger API\",\n    \"version\": \"1.0.0\"\n  },\n  \"openapi\": \"3.0.3\",\n  \"paths\": {}\n}"
    );
}

#[test]
fn text_of_a_whole_document() {
    let input = tokenize("type A struct { N int } service s { @handler h get /p returns (A) }");
    let api = parse_api(&input).unwrap().1;
    let text = swagger_json(api);
    let expected = json(
        r##"{"openapi":"3.0.3","info":{"version":"1.0.0","title":"Generated Swagger API"},
            "paths":{"/p":{"GET":{"summary":"h","responses":{"200":{
              "description":"successful operation",
              "content":{"application/json":{"schema":{"$ref":"#/components/schemas/A"}}}}}}}},
            "components":{"schemas":{"A":{"type":"object","properties":{
              "n":{"type":"integer","format":"int","description":"N"}}}}}}"##,
    );
    assert_eq!(json(&text), expected);
    assert!(text.starts_with("{\n  \"components\": {\n    \"schemas\": {\n      \"A\": {"));
}
