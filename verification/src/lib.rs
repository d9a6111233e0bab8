//! A reader for a small language that describes named structures and the
//! types of their fields.
//!
//! A schema text such as `point { x int(64)?, y int(64)? }` is read in three
//! steps. The [`tokenizer`] turns the text into a tree of tokens. The
//! [`partials`] turn the tokens into the structures as they are written,
//! with the help of the [`descriptor`] for the type of each field. The
//! [`linker`] gives every field its type, looking up the names of other
//! structures of the same text.
//!
//! Every function states what it returns over the mathematical value of its
//! arguments: a text is a `Seq<char>`, and each type of the library has a
//! value that `deep_view` gives.
use vstd::prelude::*;
use crate::error::result_view;
use crate::error::EbdbErrorView;
use crate::error::EbdbResult;
use crate::linker::lemma_linked_well_formed;
use crate::linker::linked;
use crate::linker::schema_well_formed;
use crate::model::Structure;
use crate::model::StructureView;
use crate::partials::lemma_collector_distinct;
use crate::partials::partial_structures_of;
use crate::tokenizer::tokens_of;
use crate::tokenizer::Tokenizer;

pub mod descriptor;
pub mod error;
pub mod linker;
pub mod literal;
pub mod model;
pub mod name_map;
pub mod partials;
pub mod text;
pub mod tokenizer;

verus! {

/// The counterpart of [`from_string`]: it takes nothing and gives nothing.
pub fn to_string() {
}

/// The schema that a text writes: its tokens, the structures that they
/// write, and the type of every field; or the first error on the way.
pub open spec fn schema_of(text: Seq<char>) -> Result<Seq<StructureView>, EbdbErrorView> {
    match tokens_of(text) {
        Ok(tokens) => match partial_structures_of(tokens) {
            Ok(declared) => linked(declared),
            Err(e) => Err(e),
        },
        Err(e) => Err(e),
    }
}

/// Every schema that a text writes is well formed.
pub proof fn lemma_schema_well_formed(text: Seq<char>)
    requires
        schema_of(text) is Ok,
    ensures
        schema_well_formed(schema_of(text)->Ok_0),
{
    let tokens = tokens_of(text)->Ok_0;
    lemma_collector_distinct(tokens, tokens.len() as int);
    lemma_linked_well_formed(partial_structures_of(tokens)->Ok_0);
}

/// Reads a schema from its text.
pub fn from_string(text: String) -> (result: EbdbResult<Vec<Structure>>)
    ensures
        result_view(result) == schema_of(text@),
        result matches Ok(structures) ==> schema_well_formed(structures.deep_view()),
{
    let tokens = match Tokenizer::new(text.as_str()).parse() {
        Ok(tokens) => tokens,
        Err(e) => {
            return Err(e);
        },
    };
    let partial = match partials::parse(tokens) {
        Ok(partial) => partial,
        Err(e) => {
            return Err(e);
        },
    };
    partials::link(partial)
}

} // verus!
