//! Type declarations: field types, fields and structs, and the rules that
//! parse them.

use crate::common::{
    is_rest_of, lemma_rest_of_all, lemma_rest_of_rest, match_text, match_token, opt_token,
    spec_match_text, spec_match_token, spec_opt_token, text_message, IResult, Input, Parsed, Tokens,
};
use crate::token::{token_views, APITokenKind};
use vstd::prelude::*;

verus! {

/// The type of a field.
#[derive(Debug, PartialEq)]
pub enum FieldType {
    Int,
    Int32,
    Int64,
    String,
    Bool,
    Array(Box<FieldType>),
    Mapping(Box<FieldType>, Box<FieldType>),
}

impl Clone for FieldType {
    fn clone(&self) -> (r: Self)
        ensures
            r == *self,
        decreases *self,
    {
        match self {
            FieldType::Int => FieldType::Int,
            FieldType::Int32 => FieldType::Int32,
            FieldType::Int64 => FieldType::Int64,
            FieldType::String => FieldType::String,
            FieldType::Bool => FieldType::Bool,
            FieldType::Array(item) => FieldType::Array(Box::new((**item).clone())),
            FieldType::Mapping(key, value) => FieldType::Mapping(
                Box::new((**key).clone()),
                Box::new((**value).clone()),
            ),
        }
    }
}

/// A field of a struct: its name, its type, and the tag annotation that
/// followed it, as it was written.
#[derive(Debug)]
pub struct Field {
    pub name: String,
    pub field_type: FieldType,
    pub tag: Option<String>,
}

/// A struct declaration: its name and its fields in the order in which
/// they were declared. Two fields may bear the same name, and so may two
/// structs of a document: the grammar refuses neither.
#[derive(Debug)]
pub struct StructDef {
    pub name: String,
    pub fields: Vec<Field>,
}

/// A field as a mathematical value.
pub ghost struct FieldView {
    pub name: Seq<char>,
    pub field_type: FieldType,
    pub tag: Option<Seq<char>>,
}

/// A struct declaration as a mathematical value.
pub ghost struct StructDefView {
    pub name: Seq<char>,
    pub fields: Seq<FieldView>,
}

impl View for Field {
    type V = FieldView;

    open spec fn view(&self) -> FieldView {
        FieldView {
            name: self.name@,
            field_type: self.field_type,
            tag: match self.tag {
                Some(tag) => Some(tag@),
                None => None,
            },
        }
    }
}

/// The views of a sequence of fields.
pub open spec fn field_views(fields: Seq<Field>) -> Seq<FieldView> {
    Seq::new(fields.len(), |i: int| fields[i]@)
}

impl View for StructDef {
    type V = StructDefView;

    open spec fn view(&self) -> StructDefView {
        StructDefView { name: self.name@, fields: field_views(self.fields@) }
    }
}

/// The views of a sequence of struct declarations.
pub open spec fn struct_views(structs: Seq<StructDef>) -> Seq<StructDefView> {
    Seq::new(structs.len(), |i: int| structs[i]@)
}

/// A field type: the array form, else the map form, else one of the scalar
/// words `string`, `int`, `int32`, `int64`, `bool`, tried in this order. The
/// failure is that of the last word.
pub open spec fn spec_parse_field_type(s: Tokens) -> Parsed<FieldType>
    decreases s.len(), 1nat,
{
    if spec_parse_array_type(s) is Ok {
        spec_parse_array_type(s)
    } else if spec_parse_map_type(s) is Ok {
        spec_parse_map_type(s)
    } else if spec_match_text("string"@, s) is Ok {
        Ok((FieldType::String, s.skip(1)))
    } else if spec_match_text("int"@, s) is Ok {
        Ok((FieldType::Int, s.skip(1)))
    } else if spec_match_text("int32"@, s) is Ok {
        Ok((FieldType::Int32, s.skip(1)))
    } else if spec_match_text("int64"@, s) is Ok {
        Ok((FieldType::Int64, s.skip(1)))
    } else if spec_match_text("bool"@, s) is Ok {
        Ok((FieldType::Bool, s.skip(1)))
    } else {
        Err(text_message("bool"@, s))
    }
}

/// An array type: `[`, `]`, and the type of the items.
pub open spec fn spec_parse_array_type(s: Tokens) -> Parsed<FieldType>
    decreases s.len(), 0nat,
{
    match spec_match_token(APITokenKind::OpenBracket, s) {
        Err(message) => Err(message),
        Ok((_, after_open)) => match spec_match_token(APITokenKind::CloseBracket, after_open) {
            Err(message) => Err(message),
            Ok((_, after_close)) => match spec_parse_field_type(after_close) {
                Err(message) => Err(message),
                Ok((item, rest)) => Ok((FieldType::Array(Box::new(item)), rest)),
            },
        },
    }
}

/// A map type: `map`, `[`, the type of the keys, `]`, and the type of the
/// values. (No rule hands back more tokens than it was given; the test on
/// the lengths is what lets the definition recurse.)
pub open spec fn spec_parse_map_type(s: Tokens) -> Parsed<FieldType>
    decreases s.len(), 0nat,
{
    match spec_match_token(APITokenKind::MapDataType, s) {
        Err(message) => Err(message),
        Ok((_, after_map)) => match spec_match_token(APITokenKind::OpenBracket, after_map) {
            Err(message) => Err(message),
            Ok((_, after_open)) => match spec_parse_field_type(after_open) {
                Err(message) => Err(message),
                Ok((key, after_key)) => match spec_match_token(
                    APITokenKind::CloseBracket,
                    after_key,
                ) {
                    Err(message) => Err(message),
                    Ok((_, after_close)) => if after_close.len() < s.len() {
                        match spec_parse_field_type(after_close) {
                            Err(message) => Err(message),
                            Ok((value, rest)) => Ok(
                                (FieldType::Mapping(Box::new(key), Box::new(value)), rest),
                            ),
                        }
                    } else {
                        Err(Seq::empty())
                    },
                },
            },
        },
    }
}

/// A field: an identifier, a field type, and a tag annotation if one follows.
pub open spec fn spec_parse_field(s: Tokens) -> Parsed<FieldView> {
    match spec_match_token(APITokenKind::Identifier, s) {
        Err(message) => Err(message),
        Ok((name, after_name)) => match spec_parse_field_type(after_name) {
            Err(message) => Err(message),
            Ok((field_type, after_type)) => {
                let (tag, rest) = spec_opt_token(APITokenKind::TagAnnotation, after_type);
                Ok(
                    (
                        FieldView {
                            name: name.text,
                            field_type,
                            tag: match tag {
                                Some(token) => Some(token.text),
                                None => None,
                            },
                        },
                        rest,
                    ),
                )
            },
        },
    }
}

/// As many fields as stand in a row. It ends at the first tokens that are
/// no field, and never fails.
pub open spec fn spec_parse_fields(s: Tokens) -> (Seq<FieldView>, Tokens)
    decreases s.len(),
{
    match spec_parse_field(s) {
        Ok((field, rest)) => if rest.len() < s.len() {
            (seq![field] + spec_parse_fields(rest).0, spec_parse_fields(rest).1)
        } else {
            (Seq::empty(), s)
        },
        Err(_) => (Seq::empty(), s),
    }
}

/// One struct declaration: `type` if it stands there, the name, `struct` if
/// it stands there, `{`, the fields, `}`.
pub open spec fn spec_parse_one_struct(s: Tokens) -> Parsed<StructDefView> {
    let after_type = spec_opt_token(APITokenKind::Type, s).1;
    match spec_match_token(APITokenKind::Identifier, after_type) {
        Err(message) => Err(message),
        Ok((name, after_name)) => {
            let after_struct = spec_opt_token(APITokenKind::Struct, after_name).1;
            match spec_match_token(APITokenKind::OpenBrace, after_struct) {
                Err(message) => Err(message),
                Ok((_, after_open)) => {
                    let (fields, after_fields) = spec_parse_fields(after_open);
                    match spec_match_token(APITokenKind::CloseBrace, after_fields) {
                        Err(message) => Err(message),
                        Ok((_, rest)) => Ok((StructDefView { name: name.text, fields }, rest)),
                    }
                },
            }
        },
    }
}

/// As many struct declarations as stand in a row. It never fails.
pub open spec fn spec_parse_many_struct(s: Tokens) -> (Seq<StructDefView>, Tokens)
    decreases s.len(),
{
    match spec_parse_one_struct(s) {
        Ok((def, rest)) => if rest.len() < s.len() {
            (seq![def] + spec_parse_many_struct(rest).0, spec_parse_many_struct(rest).1)
        } else {
            (Seq::empty(), s)
        },
        Err(_) => (Seq::empty(), s),
    }
}

/// A block of declarations: `type`, `(`, one struct declaration or more,
/// `)`. A block that declares no struct fails as the struct declaration
/// does that is missed.
pub open spec fn spec_parse_nest_struct(s: Tokens) -> Parsed<Seq<StructDefView>> {
    match spec_match_token(APITokenKind::Type, s) {
        Err(message) => Err(message),
        Ok((_, after_type)) => match spec_match_token(APITokenKind::OpenParen, after_type) {
            Err(message) => Err(message),
            Ok((_, after_open)) => match spec_parse_one_struct(after_open) {
                Err(message) => Err(message),
                Ok((first, after_first)) => {
                    let (others, after_structs) = spec_parse_many_struct(after_first);
                    match spec_match_token(APITokenKind::CloseParen, after_structs) {
                        Err(message) => Err(message),
                        Ok((_, rest)) => Ok((seq![first] + others, rest)),
                    }
                },
            },
        },
    }
}

/// One struct declaration, as a sequence of one.
pub open spec fn spec_parse_struct_to_vec(s: Tokens) -> Parsed<Seq<StructDefView>> {
    match spec_parse_one_struct(s) {
        Err(message) => Err(message),
        Ok((def, rest)) => Ok((seq![def], rest)),
    }
}

/// The struct statements of a type region: blocks and single declarations
/// in any mixture, over the whole region. At each step the block is tried
/// first, then a single declaration; the region ends where neither
/// matches. It never fails.
pub open spec fn spec_parse_struct_stmt(s: Tokens) -> (Seq<StructDefView>, Tokens) {
    spec_parse_struct_stmt1(s)
}

/// One step of the declarations of a document: a block, else a single
/// declaration.
pub open spec fn spec_parse_struct_step(s: Tokens) -> Parsed<Seq<StructDefView>> {
    if spec_parse_nest_struct(s) is Ok {
        spec_parse_nest_struct(s)
    } else {
        spec_parse_struct_to_vec(s)
    }
}

/// The declarations of a document: blocks and single declarations in any
/// mixture, as long as one of them matches. It never fails; what it leaves
/// is where the service begins.
pub open spec fn spec_parse_struct_stmt1(s: Tokens) -> (Seq<StructDefView>, Tokens)
    decreases s.len(),
{
    match spec_parse_struct_step(s) {
        Ok((structs, rest)) => if rest.len() < s.len() {
            (structs + spec_parse_struct_stmt1(rest).0, spec_parse_struct_stmt1(rest).1)
        } else {
            (Seq::empty(), s)
        },
        Err(_) => (Seq::empty(), s),
    }
}

/// Parses a field type.
pub fn parse_field_type<'a>(i: Input<'a>) -> (r: IResult<'a, FieldType>)
    ensures
        match spec_parse_field_type(token_views(i@)) {
            Ok((value, rest)) => r matches Ok((left, found)) && found == value && token_views(
                left@,
            ) == rest && left@.len() < i@.len() && is_rest_of(left@, i@),
            Err(message) => r matches Err(e) && e@ == message,
        },
    decreases i@.len(), 1nat,
{
    match parse_array_type(i) {
        Ok(found) => {
            return Ok(found);
        },
        Err(_) => {},
    }
    match parse_map_type(i) {
        Ok(found) => {
            return Ok(found);
        },
        Err(_) => {},
    }
    match match_text("string", i) {
        Ok((left, _)) => {
            return Ok((left, FieldType::String));
        },
        Err(_) => {},
    }
    match match_text("int", i) {
        Ok((left, _)) => {
            return Ok((left, FieldType::Int));
        },
        Err(_) => {},
    }
    match match_text("int32", i) {
        Ok((left, _)) => {
            return Ok((left, FieldType::Int32));
        },
        Err(_) => {},
    }
    match match_text("int64", i) {
        Ok((left, _)) => {
            return Ok((left, FieldType::Int64));
        },
        Err(_) => {},
    }
    match match_text("bool", i) {
        Ok((left, _)) => Ok((left, FieldType::Bool)),
        Err(e) => Err(e),
    }
}

/// Parses an array type.
pub fn parse_array_type<'a>(i: Input<'a>) -> (r: IResult<'a, FieldType>)
    ensures
        match spec_parse_array_type(token_views(i@)) {
            Ok((value, rest)) => r matches Ok((left, found)) && found == value && token_views(
                left@,
            ) == rest && left@.len() < i@.len() && is_rest_of(left@, i@),
            Err(message) => r matches Err(e) && e@ == message,
        },
    decreases i@.len(), 0nat,
{
    let (after_open, _) = match match_token(APITokenKind::OpenBracket, i) {
        Ok(found) => found,
        Err(e) => {
            return Err(e);
        },
    };
    let (after_close, _) = match match_token(APITokenKind::CloseBracket, after_open) {
        Ok(found) => found,
        Err(e) => {
            return Err(e);
        },
    };
    proof {
        lemma_rest_of_rest(after_close@, after_open@, i@);
    }
    match parse_field_type(after_close) {
        Ok((left, item)) => {
            proof {
                lemma_rest_of_rest(left@, after_close@, i@);
            }
            Ok((left, FieldType::Array(Box::new(item))))
        },
        Err(e) => Err(e),
    }
}

/// Parses a map type.
pub fn parse_map_type<'a>(i: Input<'a>) -> (r: IResult<'a, FieldType>)
    ensures
        match spec_parse_map_type(token_views(i@)) {
            Ok((value, rest)) => r matches Ok((left, found)) && found == value && token_views(
                left@,
            ) == rest && left@.len() < i@.len() && is_rest_of(left@, i@),
            Err(message) => r matches Err(e) && e@ == message,
        },
    decreases i@.len(), 0nat,
{
    let (after_map, _) = match match_token(APITokenKind::MapDataType, i) {
        Ok(found) => found,
        Err(e) => {
            return Err(e);
        },
    };
    let (after_open, _) = match match_token(APITokenKind::OpenBracket, after_map) {
        Ok(found) => found,
        Err(e) => {
            return Err(e);
        },
    };
    proof {
        lemma_rest_of_rest(after_open@, after_map@, i@);
    }
    let (after_key, key) = match parse_field_type(after_open) {
        Ok(found) => found,
        Err(e) => {
            return Err(e);
        },
    };
    proof {
        lemma_rest_of_rest(after_key@, after_open@, i@);
    }
    let (after_close, _) = match match_token(APITokenKind::CloseBracket, after_key) {
        Ok(found) => found,
        Err(e) => {
            return Err(e);
        },
    };
    proof {
        lemma_rest_of_rest(after_close@, after_key@, i@);
    }
    match parse_field_type(after_close) {
        Ok((left, value)) => {
            proof {
                lemma_rest_of_rest(left@, after_close@, i@);
            }
            Ok((left, FieldType::Mapping(Box::new(key), Box::new(value))))
        },
        Err(e) => Err(e),
    }
}

/// Parses a field.
pub fn parse_field<'a>(i: Input<'a>) -> (r: IResult<'a, Field>)
    ensures
        match spec_parse_field(token_views(i@)) {
            Ok((value, rest)) => r matches Ok((left, found)) && found@ == value && token_views(
                left@,
            ) == rest && left@.len() < i@.len() && is_rest_of(left@, i@),
            Err(message) => r matches Err(e) && e@ == message,
        },
{
    let (after_name, name) = match match_token(APITokenKind::Identifier, i) {
        Ok(found) => found,
        Err(e) => {
            return Err(e);
        },
    };
    let (after_type, field_type) = match parse_field_type(after_name) {
        Ok(found) => found,
        Err(e) => {
            return Err(e);
        },
    };
    proof {
        lemma_rest_of_rest(after_type@, after_name@, i@);
    }
    let (left, tag_token) = opt_token(APITokenKind::TagAnnotation, after_type);
    proof {
        lemma_rest_of_rest(left@, after_type@, i@);
    }
    let tag = match tag_token {
        Some(token) => Some(token.at().to_owned()),
        None => None,
    };
    Ok((left, Field { name: name.at().to_owned(), field_type, tag }))
}

/// Parses as many fields as stand in a row.
pub fn parse_fields<'a>(i: Input<'a>) -> (r: (Input<'a>, Vec<Field>))
    ensures
        field_views(r.1@) == spec_parse_fields(token_views(i@)).0,
        token_views(r.0@) == spec_parse_fields(token_views(i@)).1,
        r.0@.len() <= i@.len(),
        is_rest_of(r.0@, i@),
{
    let mut fields: Vec<Field> = Vec::new();
    let mut cur = i;
    proof {
        lemma_rest_of_all(i@);
    }
    loop
        invariant
            cur@.len() <= i@.len(),
            is_rest_of(cur@, i@),
            spec_parse_fields(token_views(i@)).0 == field_views(fields@) + spec_parse_fields(
                token_views(cur@),
            ).0,
            spec_parse_fields(token_views(i@)).1 == spec_parse_fields(token_views(cur@)).1,
        decreases cur@.len(),
    {
        match parse_field(cur) {
            Ok((left, field)) => {
                proof {
                    let done = field_views(fields@);
                    let more = spec_parse_fields(token_views(left@)).0;
                    assert(field_views(fields@.push(field)) =~= done + seq![field@]);
                    assert((done + seq![field@]) + more =~= done + (seq![field@] + more));
                }
                fields.push(field);
                proof {
                    lemma_rest_of_rest(left@, cur@, i@);
                }
                cur = left;
            },
            Err(_) => {
                assert(field_views(fields@) + Seq::<FieldView>::empty() =~= field_views(fields@));
                return (cur, fields);
            },
        }
    }
}

/// Parses one struct declaration.
pub fn parse_one_struct<'a>(i: Input<'a>) -> (r: IResult<'a, StructDef>)
    ensures
        match spec_parse_one_struct(token_views(i@)) {
            Ok((value, rest)) => r matches Ok((left, found)) && found@ == value && token_views(
                left@,
            ) == rest && left@.len() < i@.len() && is_rest_of(left@, i@),
            Err(message) => r matches Err(e) && e@ == message,
        },
{
    let (after_type, _) = opt_token(APITokenKind::Type, i);
    let (after_name, name) = match match_token(APITokenKind::Identifier, after_type) {
        Ok(found) => found,
        Err(e) => {
            return Err(e);
        },
    };
    proof {
        lemma_rest_of_rest(after_name@, after_type@, i@);
    }
    let (after_struct, _) = opt_token(APITokenKind::Struct, after_name);
    proof {
        lemma_rest_of_rest(after_struct@, after_name@, i@);
    }
    let (after_open, _) = match match_token(APITokenKind::OpenBrace, after_struct) {
        Ok(found) => found,
        Err(e) => {
            return Err(e);
        },
    };
    proof {
        lemma_rest_of_rest(after_open@, after_struct@, i@);
    }
    let (after_fields, fields) = parse_fields(after_open);
    proof {
        lemma_rest_of_rest(after_fields@, after_open@, i@);
    }
    match match_token(APITokenKind::CloseBrace, after_fields) {
        Ok((left, _)) => {
            proof {
                lemma_rest_of_rest(left@, after_fields@, i@);
            }
            Ok((left, StructDef { name: name.at().to_owned(), fields }))
        },
        Err(e) => Err(e),
    }
}

/// Parses as many struct declarations as stand in a row.
pub fn parse_many_struct<'a>(i: Input<'a>) -> (r: IResult<'a, Vec<StructDef>>)
    ensures
        r matches Ok((left, found)) && struct_views(found@) == spec_parse_many_struct(
            token_views(i@),
        ).0 && token_views(left@) == spec_parse_many_struct(token_views(i@)).1 && left@.len()
            <= i@.len() && is_rest_of(left@, i@),
{
    let mut structs: Vec<StructDef> = Vec::new();
    let mut cur = i;
    proof {
        lemma_rest_of_all(i@);
    }
    loop
        invariant
            cur@.len() <= i@.len(),
            is_rest_of(cur@, i@),
            spec_parse_many_struct(token_views(i@)).0 == struct_views(structs@)
                + spec_parse_many_struct(token_views(cur@)).0,
            spec_parse_many_struct(token_views(i@)).1 == spec_parse_many_struct(
                token_views(cur@),
            ).1,
        decreases cur@.len(),
    {
        match parse_one_struct(cur) {
            Ok((left, def)) => {
                proof {
                    let done = struct_views(structs@);
                    let more = spec_parse_many_struct(token_views(left@)).0;
                    assert(struct_views(structs@.push(def)) =~= done + seq![def@]);
                    assert((done + seq![def@]) + more =~= done + (seq![def@] + more));
                }
                structs.push(def);
                proof {
                    lemma_rest_of_rest(left@, cur@, i@);
                }
                cur = left;
            },
            Err(_) => {
                assert(struct_views(structs@) + Seq::<StructDefView>::empty() =~= struct_views(
                    structs@,
                ));
                return Ok((cur, structs));
            },
        }
    }
}

/// Parses a block of declarations.
pub fn parse_nest_struct<'a>(i: Input<'a>) -> (r: IResult<'a, Vec<StructDef>>)
    ensures
        match spec_parse_nest_struct(token_views(i@)) {
            Ok((value, rest)) => r matches Ok((left, found)) && struct_views(found@) == value
                && token_views(left@) == rest && left@.len() < i@.len() && is_rest_of(left@, i@),
            Err(message) => r matches Err(e) && e@ == message,
        },
{
    let (after_type, _) = match match_token(APITokenKind::Type, i) {
        Ok(found) => found,
        Err(e) => {
            return Err(e);
        },
    };
    let (after_open, _) = match match_token(APITokenKind::OpenParen, after_type) {
        Ok(found) => found,
        Err(e) => {
            return Err(e);
        },
    };
    proof {
        lemma_rest_of_rest(after_open@, after_type@, i@);
    }
    let (after_first, first) = match parse_one_struct(after_open) {
        Ok(found) => found,
        Err(e) => {
            return Err(e);
        },
    };
    proof {
        lemma_rest_of_rest(after_first@, after_open@, i@);
    }
    let (after_structs, mut others) = match parse_many_struct(after_first) {
        Ok(found) => found,
        Err(e) => {
            return Err(e);
        },
    };
    proof {
        lemma_rest_of_rest(after_structs@, after_first@, i@);
    }
    match match_token(APITokenKind::CloseParen, after_structs) {
        Ok((left, _)) => {
            let mut structs: Vec<StructDef> = Vec::new();
            structs.push(first);
            proof {
                lemma_rest_of_rest(left@, after_structs@, i@);
                assert(struct_views(structs@ + others@) =~= seq![first@] + struct_views(others@));
            }
            structs.append(&mut others);
            Ok((left, structs))
        },
        Err(e) => Err(e),
    }
}

/// Parses one struct declaration into a vector of one.
pub fn parse_struct_to_vec<'a>(i: Input<'a>) -> (r: IResult<'a, Vec<StructDef>>)
    ensures
        match spec_parse_struct_to_vec(token_views(i@)) {
            Ok((value, rest)) => r matches Ok((left, found)) && struct_views(found@) == value
                && token_views(left@) == rest && left@.len() < i@.len() && is_rest_of(left@, i@),
            Err(message) => r matches Err(e) && e@ == message,
        },
{
    match parse_one_struct(i) {
        Ok((left, def)) => {
            let mut structs: Vec<StructDef> = Vec::new();
            structs.push(def);
            assert(struct_views(structs@) =~= seq![def@]);
            Ok((left, structs))
        },
        Err(e) => Err(e),
    }
}

/// Parses the struct statements of a type region: blocks and single
/// declarations in any mixture, up to where neither matches.
pub fn parse_struct_stmt<'a>(i: Input<'a>) -> (r: IResult<'a, Vec<StructDef>>)
    ensures
        r matches Ok((left, found)) && struct_views(found@) == spec_parse_struct_stmt(
            token_views(i@),
        ).0 && token_views(left@) == spec_parse_struct_stmt(token_views(i@)).1 && left@.len()
            <= i@.len() && is_rest_of(left@, i@),
{
    parse_struct_stmt1(i)
}

/// Parses the declarations of a document, up to where the service begins.
pub fn parse_struct_stmt1<'a>(input: Input<'a>) -> (r: IResult<'a, Vec<StructDef>>)
    ensures
        r matches Ok((left, found)) && struct_views(found@) == spec_parse_struct_stmt1(
            token_views(input@),
        ).0 && token_views(left@) == spec_parse_struct_stmt1(token_views(input@)).1 && left@.len()
            <= input@.len() && is_rest_of(left@, input@),
{
    let mut structs: Vec<StructDef> = Vec::new();
    let mut i = input;
    proof {
        lemma_rest_of_all(input@);
    }
    while !i.is_empty()
        invariant
            i@.len() <= input@.len(),
            is_rest_of(i@, input@),
            spec_parse_struct_stmt1(token_views(input@)).0 == struct_views(structs@)
                + spec_parse_struct_stmt1(token_views(i@)).0,
            spec_parse_struct_stmt1(token_views(input@)).1 == spec_parse_struct_stmt1(
                token_views(i@),
            ).1,
        decreases i@.len(),
    {
        let step = match parse_nest_struct(i) {
            Ok(found) => Ok(found),
            Err(_) => parse_struct_to_vec(i),
        };
        match step {
            Ok((next_input, mut parsed_structs)) => {
                proof {
                    let done = struct_views(structs@);
                    let new = struct_views(parsed_structs@);
                    let more = spec_parse_struct_stmt1(token_views(next_input@)).0;
                    assert(struct_views(structs@ + parsed_structs@) =~= done + new);
                    assert((done + new) + more =~= done + (new + more));
                }
                structs.append(&mut parsed_structs);
                proof {
                    lemma_rest_of_rest(next_input@, i@, input@);
                }
                i = next_input;
            },
            Err(_) => {
                assert(struct_views(structs@) + Seq::<StructDefView>::empty() =~= struct_views(
                    structs@,
                ));
                return Ok((i, structs));
            },
        }
    }
    assert(struct_views(structs@) + Seq::<StructDefView>::empty() =~= struct_views(structs@));
    Ok((i, structs))
}

} // verus!
