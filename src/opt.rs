use vstd::prelude::*;

verus! {

/// The command line's settings.
#[derive(Debug)]
pub struct Opt {
    /// Report each decision on standard error.
    pub debug: bool,
    /// The file to write to, in place of the dated one.
    pub output_file: Option<String>,
    /// The configuration file, in place of the usual one.
    pub config: Option<String>,
}

impl Opt {
    /// The journal file: the one given on the command line, else `dated`, the name made
    /// from the configured pattern.
    pub fn output_file_name(&self, dated: String) -> (r: String)
        ensures
            match &self.output_file {
                Some(p) => r@ == p@,
                None => r@ == dated@,
            },
    {
        match &self.output_file {
            Some(p) => p.clone(),
            None => dated,
        }
    }
}

} // verus!
