use vstd::prelude::*;
use vstd::string::StringExecFns;

verus! {

/// The stem used where the input path has none.
pub const DEFAULT_STEM: &'static str = "output";

/// The stem that the output files are named after.
pub open spec fn stem_or_default(stem: Option<&str>) -> Seq<char> {
    match stem {
        Some(stem) => stem@,
        None => DEFAULT_STEM@,
    }
}

/// The file names of the two outputs for an input whose file name has the
/// given stem: first that of the full image, `<stem>-full.png`, then that of
/// the logical image, `<stem>-logical.png`.
pub fn output_names(stem: Option<&str>) -> (names: (String, String))
    ensures
        names.0@ == stem_or_default(stem) + "-full.png"@,
        names.1@ == stem_or_default(stem) + "-logical.png"@,
{
    let stem = match stem {
        Some(stem) => stem,
        None => DEFAULT_STEM,
    };
    let full = String::from_str(stem).concat("-full.png");
    let logical = String::from_str(stem).concat("-logical.png");
    (full, logical)
}

} // verus!
