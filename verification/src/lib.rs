//! Verified core of the AXON build runtime: the project IR, its canonical
//! paths, dependency graph and validation, and the decisions of the
//! execution pipeline.
pub mod text;
pub mod canonicalizer;
pub mod ordmap;
pub mod schema;
pub mod pipeline;
pub mod linker;
pub mod validator;
pub mod parser;
pub mod json;
pub mod paths;
pub mod spec_md;
pub mod patterns;
pub mod win32;
pub mod platform;
pub mod spec_ir;
pub mod spec_parser;
pub mod harness;
pub mod slicer;
pub mod task_flow;
pub mod phases;
pub mod topology;
pub mod semantic;
pub mod rewrite;
pub mod model;
pub mod dispatcher;
pub mod board;
pub mod spec_extractor;
pub mod gates;

use vstd::prelude::*;
use crate::schema::ProjectIR;
use crate::text::owned;
use crate::spec_extractor::{extract_panics, extracted, ExtractedSpec, SpecExtractor};

verus! {

/// Version of the IR format written by this library.
pub const IR_VERSION: &'static str = "0.0.28";

/// Oldest IR format this library reads.
pub const MIN_IR_VERSION: &'static str = "0.0.28";

/// An IR is usable only when it has at least one component.
pub fn check_version(ir: &ProjectIR) -> (r: Result<(), String>)
    ensures
        r is Ok <==> ir.components.view().len() > 0,
        r matches Err(m) ==> m@ == "Empty IR - no components found"@,
{
    if ir.components.is_empty() {
        return Err(owned("Empty IR - no components found"));
    }
    Ok(())
}

/// A fresh IR without components.
pub fn create_empty_ir() -> (r: ProjectIR)
    ensures
        r.is_empty_default(),
{
    ProjectIR::new()
}

/// Finds a specification in free text (see `SpecExtractor::extract`).
pub fn extract_spec(text: &str) -> (r: Option<ExtractedSpec>)
    requires
        !extract_panics(text@),
    ensures
        match r {
            Some(f) => extracted(text@) == Some(f@),
            None => extracted(text@) is None,
        },
{
    SpecExtractor::extract(text)
}

} // verus!
