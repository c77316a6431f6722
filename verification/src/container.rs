//! Project container directory structure: the standard sub-directories of a
//! project and the mapping from tool slugs to their output directory.

use vstd::prelude::*;

use crate::text::str_eq;

verus! {

/// IFC/BIM models.
pub const DIR_MODELS: &'static str = "models";
/// BCF issue sets.
pub const DIR_ISSUES: &'static str = "issues";
/// Generated reports (PDF).
pub const DIR_REPORTS: &'static str = "reports";
/// Calculation results (heat loss, etc.).
pub const DIR_CALCULATIONS: &'static str = "calculations";
/// BIM validation results.
pub const DIR_VALIDATION: &'static str = "validation";
/// 2D drawings.
pub const DIR_DRAWINGS: &'static str = "drawings";
/// Default manifest filename.
pub const DEFAULT_MANIFEST_FILENAME: &'static str = "project.wefc";
/// Manifest file extension.
pub const MANIFEST_EXTENSION: &'static str = ".wefc";
/// Subdirectory used by projects laid out before the container model.
pub const LEGACY_SUBDIR: &'static str = "99_overige_documenten";

/// The output directory that a tool slug maps to.
pub open spec fn output_dir_spec(tool: Seq<char>) -> Seq<char> {
    if tool == "bcf-platform"@ {
        DIR_ISSUES@
    } else if tool == "bim-validator"@ {
        DIR_VALIDATION@
    } else if tool == "warmteverlies"@ || tool == "isso51"@ {
        DIR_CALCULATIONS@
    } else if tool == "reports"@ || tool == "openaec-reports"@ {
        DIR_REPORTS@
    } else if tool == "2d-studio"@ || tool == "open-2d-studio"@ {
        DIR_DRAWINGS@
    } else {
        // "pdf-studio", "open-pdf-studio" and every unknown slug.
        DIR_REPORTS@
    }
}

/// Map a tool slug to its output directory in the project container.
///
/// Unknown tools fall back to `reports`.
pub fn output_dir_for_tool(tool: &str) -> (r: &'static str)
    ensures
        r@ == output_dir_spec(tool@),
{
    if str_eq(tool, "bcf-platform") {
        DIR_ISSUES
    } else if str_eq(tool, "bim-validator") {
        DIR_VALIDATION
    } else if str_eq(tool, "warmteverlies") || str_eq(tool, "isso51") {
        DIR_CALCULATIONS
    } else if str_eq(tool, "reports") || str_eq(tool, "openaec-reports") {
        DIR_REPORTS
    } else if str_eq(tool, "2d-studio") || str_eq(tool, "open-2d-studio") {
        DIR_DRAWINGS
    } else if str_eq(tool, "pdf-studio") || str_eq(tool, "open-pdf-studio") {
        DIR_REPORTS
    } else {
        DIR_REPORTS
    }
}

} // verus!
