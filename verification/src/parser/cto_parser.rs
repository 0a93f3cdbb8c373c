//! CTO source parsing: not supported yet; models load from the JSON
//! metamodel.

use vstd::prelude::*;
use crate::error::{ConcertoError, ErrorView};
use crate::model_file::ModelFile;

verus! {

/// Parses `.cto` source into a model. Not supported yet: always the parse
/// error that points at the JSON metamodel loader.
pub fn parse_cto(input: &str) -> (r: Result<ModelFile, ConcertoError>)
    ensures
        r matches Err(e) && e@ == ErrorView::Parse(
            "cto parser not implemented yet -- use ModelManager::add_model_from_json()"@,
        ),
{
    Err(ConcertoError::Parse(String::from_str("cto parser not implemented yet -- use ModelManager::add_model_from_json()")))
}

} // verus!
