//! From a parsed document to its OpenAPI description: one schema for each
//! struct, one operation for each handler.

use crate::json::{
    clone_value, has_member, insert_member, json_of, lowercase, lowercase_of, member_mut,
    members_mut, members_of, new_members, no_members, object_value, pretty_text, render_pretty,
    text_value, JsonView,
};
use crate::parser::{APIStmt, APIStmtView};
use crate::service::{Handler, HandlerView};
use crate::struct_ref::{
    field_views, struct_views, Field, FieldType, FieldView, StructDef, StructDefView,
};
use crate::service::handler_views;
use serde_json::Value;
use vstd::prelude::*;
use vstd::string::StringExecFns;

verus! {

/// The members of a JSON object.
pub type Members = Map<Seq<char>, JsonView>;

/// The members of a schema of the given JSON type.
pub open spec fn typed(name: Seq<char>) -> Members {
    no_members().insert("type"@, JsonView::Text(name))
}

/// The members of the schema of a field type: the three integer types are
/// integers of their own format; an array has the schema of its items; a
/// map is an object whose further properties have the schema of its
/// values, whatever its keys are.
pub open spec fn schema_members(t: FieldType) -> Members
    decreases t,
{
    match t {
        FieldType::Int => typed("integer"@).insert("format"@, JsonView::Text("int"@)),
        FieldType::Int32 => typed("integer"@).insert("format"@, JsonView::Text("int32"@)),
        FieldType::Int64 => typed("integer"@).insert("format"@, JsonView::Text("int64"@)),
        FieldType::String => typed("string"@),
        FieldType::Bool => typed("boolean"@),
        FieldType::Array(item) => typed("array"@).insert(
            "items"@,
            JsonView::Object(schema_members(*item)),
        ),
        FieldType::Mapping(_, value) => typed("object"@).insert(
            "additionalProperties"@,
            JsonView::Object(schema_members(*value)),
        ),
    }
}

/// The members of the schema of a field type in the order in which they
/// are written where the schema stands alone: the type first.
pub open spec fn schema_entries(t: FieldType) -> Seq<(Seq<char>, JsonView)> {
    match t {
        FieldType::Int => seq![
            ("type"@, JsonView::Text("integer"@)),
            ("format"@, JsonView::Text("int"@)),
        ],
        FieldType::Int32 => seq![
            ("type"@, JsonView::Text("integer"@)),
            ("format"@, JsonView::Text("int32"@)),
        ],
        FieldType::Int64 => seq![
            ("type"@, JsonView::Text("integer"@)),
            ("format"@, JsonView::Text("int64"@)),
        ],
        FieldType::String => seq![("type"@, JsonView::Text("string"@))],
        FieldType::Bool => seq![("type"@, JsonView::Text("boolean"@))],
        FieldType::Array(item) => seq![
            ("type"@, JsonView::Text("array"@)),
            ("items"@, JsonView::Object(schema_members(*item))),
        ],
        FieldType::Mapping(_, value) => seq![
            ("type"@, JsonView::Text("object"@)),
            ("additionalProperties"@, JsonView::Object(schema_members(*value))),
        ],
    }
}

/// The members that come of entries which are put in one after the other.
pub open spec fn members_from(entries: Seq<(Seq<char>, JsonView)>) -> Members
    decreases entries.len(),
{
    if entries.len() == 0 {
        no_members()
    } else {
        members_from(entries.drop_last()).insert(entries.last().0, entries.last().1)
    }
}

/// The members of a schema are its entries, whatever their order.
pub proof fn lemma_schema_entries(t: FieldType)
    ensures
        members_from(schema_entries(t)) == schema_members(t),
{
    let entries = schema_entries(t);
    if entries.len() == 2 {
        assert(entries.drop_last() =~= seq![entries[0]]);
        assert(entries.drop_last().drop_last() =~= Seq::<(Seq<char>, JsonView)>::empty());
    } else {
        assert(entries.drop_last() =~= Seq::<(Seq<char>, JsonView)>::empty());
    }
    reveal_with_fuel(members_from, 3);
}

/// What entries are, as mathematical values.
pub open spec fn entry_views(entries: Seq<(String, Value)>) -> Seq<(Seq<char>, JsonView)> {
    Seq::new(entries.len(), |i: int| (entries[i].0@, json_of(entries[i].1)))
}

/// The property of a field: the schema of its type, described by its name.
pub open spec fn property_json(field: FieldView) -> JsonView {
    JsonView::Object(
        schema_members(field.field_type).insert("description"@, JsonView::Text(field.name)),
    )
}

/// The properties of fields, each under its name in small letters. Of two
/// fields with the same such name the later one stays.
pub open spec fn properties_json(fields: Seq<FieldView>) -> Members
    decreases fields.len(),
{
    if fields.len() == 0 {
        no_members()
    } else {
        properties_json(fields.drop_last()).insert(
            lowercase_of(fields.last().name),
            property_json(fields.last()),
        )
    }
}

/// The schema of a struct: an object with the properties of its fields.
pub open spec fn definition_json(def: StructDefView) -> JsonView {
    JsonView::Object(
        typed("object"@).insert("properties"@, JsonView::Object(properties_json(def.fields))),
    )
}

/// The schemas of structs, each under its name. Of two structs with the
/// same name the later one stays.
pub open spec fn definitions_json(structs: Seq<StructDefView>) -> Members
    decreases structs.len(),
{
    if structs.len() == 0 {
        no_members()
    } else {
        definitions_json(structs.drop_last()).insert(
            structs.last().name,
            definition_json(structs.last()),
        )
    }
}

/// The response of an operation: a reference to the schema of the
/// response type where the handler names one, and a plain `OK` otherwise.
pub open spec fn response_json(resp_type: Option<Seq<char>>) -> JsonView {
    match resp_type {
        Some(name) => JsonView::Object(
            no_members().insert("description"@, JsonView::Text("successful operation"@)).insert(
                "content"@,
                JsonView::Object(
                    no_members().insert(
                        "application/json"@,
                        JsonView::Object(
                            no_members().insert(
                                "schema"@,
                                JsonView::Object(
                                    no_members().insert(
                                        "$ref"@,
                                        JsonView::Text("#/components/schemas/"@ + name),
                                    ),
                                ),
                            ),
                        ),
                    ),
                ),
            ),
        ),
        None => JsonView::Object(no_members().insert("description"@, JsonView::Text("OK"@))),
    }
}

/// The operation of a handler: its name as the summary, and its response
/// under the status 200.
pub open spec fn operation_json(handler: HandlerView) -> JsonView {
    JsonView::Object(
        no_members().insert("summary"@, JsonView::Text(handler.name)).insert(
            "responses"@,
            JsonView::Object(no_members().insert("200"@, response_json(handler.resp_type))),
        ),
    )
}

/// The members of the item of a path: those that the paths hold for it, and
/// none where they hold no item for it.
pub open spec fn path_item(paths: Members, path: Seq<char>) -> Members {
    if paths.contains_key(path) {
        paths[path]->Object_0
    } else {
        no_members()
    }
}

/// The paths after an operation was put under a path and a method: the
/// item of the path keeps its other methods.
pub open spec fn add_path(
    paths: Members,
    path: Seq<char>,
    method: Seq<char>,
    operation: JsonView,
) -> Members {
    paths.insert(path, JsonView::Object(path_item(paths, path).insert(method, operation)))
}

/// The paths of handlers: the operation of each under its path and the
/// name of its method. Of two handlers with the same path and method the
/// later one stays.
pub open spec fn paths_json(handlers: Seq<HandlerView>) -> Members
    decreases handlers.len(),
{
    if handlers.len() == 0 {
        no_members()
    } else {
        add_path(
            paths_json(handlers.drop_last()),
            handlers.last().path,
            handlers.last().method.name_view(),
            operation_json(handlers.last()),
        )
    }
}

/// What an OpenAPI description holds: the JSON value of its paths and
/// that of its schemas.
pub ghost struct SwaggerView {
    pub paths: JsonView,
    pub definitions: JsonView,
}

/// Whether every item of the paths is an object.
pub open spec fn items_are_objects(paths: Members) -> bool {
    forall|path: Seq<char>| paths.contains_key(path) ==> #[trigger] paths[path] is Object
}

/// The description of a parsed document.
pub open spec fn swagger_of(api: APIStmtView) -> SwaggerView {
    SwaggerView {
        paths: JsonView::Object(paths_json(api.service.handlers)),
        definitions: JsonView::Object(definitions_json(api.type_struct)),
    }
}

/// The whole JSON document of a description.
pub open spec fn document_json(swagger: SwaggerView) -> JsonView {
    JsonView::Object(
        no_members().insert("openapi"@, JsonView::Text("3.0.3"@)).insert(
            "info"@,
            JsonView::Object(
                no_members().insert("version"@, JsonView::Text("1.0.0"@)).insert(
                    "title"@,
                    JsonView::Text("Generated Swagger API"@),
                ),
            ),
        ).insert("paths"@, swagger.paths).insert(
            "components"@,
            JsonView::Object(no_members().insert("schemas"@, swagger.definitions)),
        ),
    )
}

/// The JSON value that holds a text.
pub fn text(content: &str) -> (value: Value)
    ensures
        json_of(value) == JsonView::Text(content@),
{
    text_value(content.to_owned())
}

/// The JSON object with one member.
pub fn object_of(key: &str, value: Value) -> (object: Value)
    ensures
        json_of(object) == JsonView::Object(no_members().insert(key@, json_of(value))),
{
    let mut members = new_members();
    insert_member(&mut members, key.to_owned(), value);
    object_value(members)
}

/// The JSON object with two members.
pub fn object_of_two(key: &str, value: Value, key2: &str, value2: Value) -> (object: Value)
    ensures
        json_of(object) == JsonView::Object(
            no_members().insert(key@, json_of(value)).insert(key2@, json_of(value2)),
        ),
{
    let mut members = new_members();
    insert_member(&mut members, key.to_owned(), value);
    insert_member(&mut members, key2.to_owned(), value2);
    object_value(members)
}

/// The members of the schema of a field type.
pub fn schema_of(field_type: &FieldType) -> (members: serde_json::Map<String, Value>)
    ensures
        members_of(members) == schema_members(*field_type),
    decreases *field_type,
{
    let mut members = new_members();
    match field_type {
        FieldType::Int => {
            insert_member(&mut members, "type".to_owned(), text("integer"));
            insert_member(&mut members, "format".to_owned(), text("int"));
        },
        FieldType::Int32 => {
            insert_member(&mut members, "type".to_owned(), text("integer"));
            insert_member(&mut members, "format".to_owned(), text("int32"));
        },
        FieldType::Int64 => {
            insert_member(&mut members, "type".to_owned(), text("integer"));
            insert_member(&mut members, "format".to_owned(), text("int64"));
        },
        FieldType::String => {
            insert_member(&mut members, "type".to_owned(), text("string"));
        },
        FieldType::Bool => {
            insert_member(&mut members, "type".to_owned(), text("boolean"));
        },
        FieldType::Array(item) => {
            let items = object_value(schema_of(&**item));
            insert_member(&mut members, "type".to_owned(), text("array"));
            insert_member(&mut members, "items".to_owned(), items);
        },
        FieldType::Mapping(_, value) => {
            let values = object_value(schema_of(&**value));
            insert_member(&mut members, "type".to_owned(), text("object"));
            insert_member(&mut members, "additionalProperties".to_owned(), values);
        },
    }
    members
}

/// The members of the schema of a field type in the order in which they
/// are written where the schema stands alone.
pub fn schema_fields(field_type: &FieldType) -> (fields: Vec<(String, Value)>)
    ensures
        entry_views(fields@) == schema_entries(*field_type),
{
    let mut fields: Vec<(String, Value)> = Vec::new();
    match field_type {
        FieldType::Int => {
            fields.push(("type".to_owned(), text("integer")));
            fields.push(("format".to_owned(), text("int")));
        },
        FieldType::Int32 => {
            fields.push(("type".to_owned(), text("integer")));
            fields.push(("format".to_owned(), text("int32")));
        },
        FieldType::Int64 => {
            fields.push(("type".to_owned(), text("integer")));
            fields.push(("format".to_owned(), text("int64")));
        },
        FieldType::String => {
            fields.push(("type".to_owned(), text("string")));
        },
        FieldType::Bool => {
            fields.push(("type".to_owned(), text("boolean")));
        },
        FieldType::Array(item) => {
            fields.push(("type".to_owned(), text("array")));
            fields.push(("items".to_owned(), object_value(schema_of(&**item))));
        },
        FieldType::Mapping(_, value) => {
            fields.push(("type".to_owned(), text("object")));
            fields.push(("additionalProperties".to_owned(), object_value(schema_of(&**value))));
        },
    }
    assert(entry_views(fields@) =~= schema_entries(*field_type));
    fields
}

/// The property of a field.
pub fn property_of(field: &Field) -> (value: Value)
    ensures
        json_of(value) == property_json(field@),
{
    let mut members = schema_of(&field.field_type);
    insert_member(&mut members, "description".to_owned(), text(field.name.as_str()));
    object_value(members)
}

/// The schema of a struct.
pub fn definition_of(def: &StructDef) -> (value: Value)
    ensures
        json_of(value) == definition_json(def@),
{
    let mut props = new_members();
    let mut done: usize = 0;
    while done < def.fields.len()
        invariant
            done <= def.fields@.len(),
            members_of(props) == properties_json(field_views(def.fields@).take(done as int)),
        decreases def.fields@.len() - done,
    {
        let field = &def.fields[done];
        proof {
            let all = field_views(def.fields@);
            assert(all.take(done + 1).drop_last() =~= all.take(done as int));
            assert(all.take(done + 1).last() == field@);
        }
        insert_member(&mut props, lowercase(field.name.as_str()), property_of(field));
        done += 1;
    }
    assert(field_views(def.fields@).take(done as int) =~= field_views(def.fields@));
    object_of_two("type", text("object"), "properties", object_value(props))
}

/// The response of an operation.
pub fn response_of(resp_type: &Option<String>) -> (value: Value)
    ensures
        json_of(value) == response_json(crate::service::text_view(*resp_type)),
{
    match resp_type {
        Some(name) => {
            let reference = String::from_str("#/components/schemas/").concat(name.as_str());
            let schema = object_of("$ref", text_value(reference));
            let content = object_of("application/json", object_of("schema", schema));
            object_of_two("description", text("successful operation"), "content", content)
        },
        None => object_of("description", text("OK")),
    }
}

/// The operation of a handler.
pub fn operation_of(handler: &Handler) -> (value: Value)
    ensures
        json_of(value) == operation_json(handler@),
{
    let responses = object_of("200", response_of(&handler.resp_type));
    object_of_two("summary", text(handler.name.as_str()), "responses", responses)
}

/// An OpenAPI description in the making: its paths and its schemas.
pub struct Swagger {
    paths: Value,
    definitions: Value,
}

impl View for Swagger {
    type V = SwaggerView;

    closed spec fn view(&self) -> SwaggerView {
        SwaggerView { paths: json_of(self.paths), definitions: json_of(self.definitions) }
    }
}

impl Swagger {
    /// Whether the description is as its functions make it: its paths
    /// and its schemas are JSON objects, and so is the item of every path.
    /// The two functions that add to a description ask for this.
    pub closed spec fn well_formed(self) -> bool {
        &&& json_of(self.paths) is Object
        &&& json_of(self.definitions) is Object
        &&& items_are_objects(json_of(self.paths)->Object_0)
    }

    /// A description without paths and without schemas.
    pub fn new() -> (swagger: Swagger)
        ensures
            swagger.well_formed(),
            swagger@ == (SwaggerView {
                paths: JsonView::Object(no_members()),
                definitions: JsonView::Object(no_members()),
            }),
    {
        Swagger { paths: object_value(new_members()), definitions: object_value(new_members()) }
    }

    /// Puts an operation under a path and a method. The item of the path
    /// keeps its other methods; an operation that stood under the same
    /// path and method gives way.
    pub fn append_path(&mut self, path: &str, method: &str, operation: Value)
        requires
            old(self).well_formed(),
        ensures
            final(self).well_formed(),
            final(self)@ == (SwaggerView {
                paths: JsonView::Object(
                    add_path(old(self)@.paths->Object_0, path@, method@, json_of(operation)),
                ),
                definitions: old(self)@.definitions,
            }),
    {
        match members_mut(&mut self.paths) {
            Some(path_entry) => {
                if !has_member(path_entry, path) {
                    insert_member(path_entry, path.to_owned(), object_value(new_members()));
                }
                match member_mut(path_entry, path) {
                    Some(item) => {
                        match members_mut(item) {
                            Some(method_entry) => {
                                insert_member(method_entry, method.to_owned(), operation);
                            },
                            None => {},
                        }
                    },
                    None => {},
                }
            },
            None => {},
        }
        proof {
            let before = old(self)@.paths->Object_0;
            let after = add_path(before, path@, method@, json_of(operation));
            assert(self@.paths->Object_0 =~= after);
        }
    }

    /// Puts a schema under a name. A schema that stood under the same
    /// name gives way.
    pub fn append_def(&mut self, name: &str, def: Value)
        requires
            old(self).well_formed(),
        ensures
            final(self).well_formed(),
            final(self)@ == (SwaggerView {
                paths: old(self)@.paths,
                definitions: JsonView::Object(
                    old(self)@.definitions->Object_0.insert(name@, json_of(def)),
                ),
            }),
    {
        match members_mut(&mut self.definitions) {
            Some(def_entry) => {
                insert_member(def_entry, name.to_owned(), def);
            },
            None => {},
        }
    }

    /// The whole JSON document of the description.
    pub fn to_json(&self) -> (value: Value)
        ensures
            json_of(value) == document_json(self@),
    {
        let info = object_of_two("version", text("1.0.0"), "title", text("Generated Swagger API"));
        let components = object_of("schemas", clone_value(&self.definitions));
        let mut members = new_members();
        insert_member(&mut members, "openapi".to_owned(), text("3.0.3"));
        insert_member(&mut members, "info".to_owned(), info);
        insert_member(&mut members, "paths".to_owned(), clone_value(&self.paths));
        insert_member(&mut members, "components".to_owned(), components);
        object_value(members)
    }

    /// The JSON document of the description as text, laid out for
    /// reading.
    pub fn to_string(&self) -> (text: String)
        ensures
            text@ == pretty_text(document_json(self@)),
    {
        match render_pretty(&self.to_json()) {
            Some(text) => text,
            None => String::new(),
        }
    }
}

/// The description of a parsed document: a schema for each struct, in the
/// order of the structs, and an operation for each handler, in the order
/// of the handlers.
pub fn to_swagger(api_data: APIStmt) -> (swagger: Swagger)
    ensures
        swagger.well_formed(),
        swagger@ == swagger_of(api_data@),
{
    let mut swagger = Swagger::new();
    let mut done: usize = 0;
    while done < api_data.type_struct.len()
        invariant
            done <= api_data.type_struct@.len(),
            swagger.well_formed(),
            swagger@.paths == JsonView::Object(no_members()),
            swagger@.definitions == JsonView::Object(
                definitions_json(struct_views(api_data.type_struct@).take(done as int)),
            ),
        decreases api_data.type_struct@.len() - done,
    {
        let struct_def = &api_data.type_struct[done];
        proof {
            let all = struct_views(api_data.type_struct@);
            assert(all.take(done + 1).drop_last() =~= all.take(done as int));
            assert(all.take(done + 1).last() == struct_def@);
        }
        swagger.append_def(struct_def.name.as_str(), definition_of(struct_def));
        done += 1;
    }
    assert(struct_views(api_data.type_struct@).take(done as int) =~= struct_views(
        api_data.type_struct@,
    ));
    let mut handled: usize = 0;
    while handled < api_data.service.handlers.len()
        invariant
            handled <= api_data.service.handlers@.len(),
            swagger.well_formed(),
            swagger@.definitions == JsonView::Object(
                definitions_json(struct_views(api_data.type_struct@)),
            ),
            swagger@.paths == JsonView::Object(
                paths_json(handler_views(api_data.service.handlers@).take(handled as int)),
            ),
        decreases api_data.service.handlers@.len() - handled,
    {
        let handler = &api_data.service.handlers[handled];
        proof {
            let all = handler_views(api_data.service.handlers@);
            assert(all.take(handled + 1).drop_last() =~= all.take(handled as int));
            assert(all.take(handled + 1).last() == handler@);
        }
        swagger.append_path(
            handler.path.as_str(),
            handler.method.as_str(),
            operation_of(handler),
        );
        handled += 1;
    }
    assert(handler_views(api_data.service.handlers@).take(handled as int) =~= handler_views(
        api_data.service.handlers@,
    ));
    swagger
}

/// The description of a parsed document as JSON text, laid out for
/// reading.
pub fn swagger_json(api_data: APIStmt) -> (text: String)
    ensures
        text@ == pretty_text(document_json(swagger_of(api_data@))),
{
    to_swagger(api_data).to_string()
}

} // verus!
