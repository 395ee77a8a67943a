use vstd::prelude::*;

verus! {

/// Where a report goes: standard output, a file, or both.
#[derive(Clone, Debug)]
pub enum ModePrinter {
    /// Standard output only.
    Console,
    /// The file at the given path only, overwritten.
    File(String),
    /// The file at the given path, then standard output.
    Mixed(String),
}

/// One destination that a report is written to.
#[derive(Clone, Debug)]
pub enum OutputTarget {
    Stdout,
    File(String),
}

impl ModePrinter {
    /// The destinations to write a report to, in order.
    pub fn targets(&self) -> (r: Vec<OutputTarget>)
        ensures
            match self {
                ModePrinter::Console => r@.len() == 1 && r@[0] is Stdout,
                ModePrinter::File(p) => r@.len() == 1 && r@[0] == OutputTarget::File(*p),
                ModePrinter::Mixed(p) => r@.len() == 2 && r@[0] == OutputTarget::File(*p)
                    && r@[1] is Stdout,
            },
    {
        match self {
            ModePrinter::Console => vec![OutputTarget::Stdout],
            ModePrinter::File(p) => vec![OutputTarget::File(p.clone())],
            ModePrinter::Mixed(p) => vec![OutputTarget::File(p.clone()), OutputTarget::Stdout],
        }
    }

    /// A destination of a file path writes to that file and to standard output.
    pub fn from_path(path: String) -> (r: Self)
        ensures
            r == ModePrinter::Mixed(path),
    {
        ModePrinter::Mixed(path)
    }
}

impl Default for ModePrinter {
    fn default() -> (r: Self)
        ensures
            r is Console,
    {
        ModePrinter::Console
    }
}

} // verus!
