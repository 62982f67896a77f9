//! Ordered choice: of the alternatives of a rule the first that matches
//! wins, so their order is part of the grammar.

use crate::common::Tokens;
use crate::struct_ref::{
    spec_parse_array_type, spec_parse_field_type, spec_parse_many_struct, spec_parse_map_type,
    spec_parse_nest_struct, spec_parse_struct_step, spec_parse_struct_stmt, StructDefView,
};
use crate::suffix::{lemma_nest_struct_suffix, lemma_struct_stmt_suffix};
use crate::token::APITokenKind;
use vstd::prelude::*;

verus! {

/// Where the array form matches, the field type is what it gives, also
/// where the first token spells a scalar word or where the map form would
/// match as well; where it does not and the map form matches, the field
/// type is what the map form gives.
pub proof fn lemma_first_type_form_wins(s: Tokens)
    ensures
        spec_parse_array_type(s) is Ok ==> spec_parse_field_type(s) == spec_parse_array_type(s),
        spec_parse_array_type(s) is Err && spec_parse_map_type(s) is Ok ==> spec_parse_field_type(
            s,
        ) == spec_parse_map_type(s),
{
}

/// The rule for declarations in a row takes nothing from tokens that begin
/// a block: it matches, as it always does, with no struct.
pub proof fn lemma_row_takes_no_block(s: Tokens)
    requires
        s.len() >= 2,
        s[0].kind == APITokenKind::Type,
        s[1].kind == APITokenKind::OpenParen,
    ensures
        spec_parse_many_struct(s) == (Seq::<StructDefView>::empty(), s),
{
    assert(s.skip(1)[0] == s[1]);
}

/// The order of the forms bears weight at each step of a type region.
/// Where a block stands at the front, the region takes the block with all
/// its structs and goes on after it. The rule for declarations in a row
/// matches there too, as it always does, with no struct and all tokens
/// left: had it been tried before the block, the region would end here
/// with nothing.
pub proof fn lemma_block_stands_before_row(s: Tokens)
    requires
        spec_parse_nest_struct(s) is Ok,
    ensures
        spec_parse_struct_step(s) == spec_parse_nest_struct(s),
        spec_parse_struct_stmt(s) == ({
            let (structs, rest) = spec_parse_nest_struct(s)->Ok_0;
            (structs + spec_parse_struct_stmt(rest).0, spec_parse_struct_stmt(rest).1)
        }),
        spec_parse_many_struct(s) == (Seq::<StructDefView>::empty(), s),
        spec_parse_struct_stmt(s).1 != spec_parse_many_struct(s).1,
{
    assert(s.skip(1)[0] == s[1]);
    lemma_row_takes_no_block(s);
    lemma_nest_struct_suffix(s);
    let rest = spec_parse_nest_struct(s)->Ok_0.1;
    lemma_struct_stmt_suffix(rest);
}

/// A type region holds its statements one after the other: where a block
/// or a single declaration stands at the front, the region is what that
/// statement declares and then what the region after it declares.
pub proof fn lemma_region_goes_on(s: Tokens)
    requires
        spec_parse_struct_step(s) is Ok,
    ensures
        spec_parse_struct_stmt(s) == ({
            let (structs, rest) = spec_parse_struct_step(s)->Ok_0;
            (structs + spec_parse_struct_stmt(rest).0, spec_parse_struct_stmt(rest).1)
        }),
{
    lemma_struct_stmt_suffix(s);
}

} // verus!
