use vstd::prelude::*;

verus! {

/// The target layouts: the fetched archive as it came, or one of three CAD tools.
#[derive(Clone, Copy, Debug, PartialEq, Eq, Structural)]
pub enum Ecad {
    Zip,
    Eagle,
    EasyEda,
    KiCad,
}

/// One configured target: a layout and the directory its output goes to.
#[derive(Clone, Debug)]
pub struct Format {
    pub ecad: Ecad,
    pub output_path: String,
}

impl Format {
    pub fn new(ecad: Ecad, output_path: String) -> (r: Format)
        ensures
            r.ecad == ecad,
            r.output_path == output_path,
    {
        Format { ecad, output_path }
    }
}

} // verus!
