use vstd::prelude::*;

verus! {

/// Options of the text quality report.
#[derive(Debug, Clone, Copy)]
pub struct TextReportArgs {
    /// Print the whole report, issue list included.
    pub verbose: bool,
}

impl Default for TextReportArgs {
    /// The short form.
    fn default() -> (a: Self)
        ensures
            !a.verbose,
    {
        TextReportArgs { verbose: false }
    }
}

} // verus!
