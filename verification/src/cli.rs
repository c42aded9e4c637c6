//! The run options that drive the pipeline. The command-line surface parses
//! into a copy of this struct and hands it over; nothing here is presentation.

use vstd::prelude::*;

verus! {

/// One run's options.
pub struct Cli {
    /// Directories to scan; the working directory when empty.
    pub paths: Vec<String>,
    /// Where to write the JSON report, if anywhere.
    pub json_output: Option<String>,
    /// Whether the JSON report also goes to standard output.
    pub print_json: bool,
    /// Whether missing metadata is fetched from the registries.
    pub fetch_licenses: bool,
    /// A substring query that filters the inventory, if given.
    pub search: Option<String>,
    /// Whether the table omits the source column.
    pub hide_source: bool,
}

impl Cli {
    /// Options that scan the working directory and render everything.
    pub fn new() -> (r: Cli)
        ensures
            r.paths@.len() == 0,
            r.json_output is None,
            !r.print_json,
            !r.fetch_licenses,
            r.search is None,
            !r.hide_source,
    {
        Cli {
            paths: Vec::new(),
            json_output: None,
            print_json: false,
            fetch_licenses: false,
            search: None,
            hide_source: false,
        }
    }
}

} // verus!
