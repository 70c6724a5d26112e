//! Parts of the API model with behaviour of their own.
use vstd::prelude::*;

verus! {

/// A configuration file that a template renders.
#[derive(Clone, Debug)]
pub struct ConfigurationFile {
    pub path: String,
    pub template_path: String,
    pub mode: Option<String>,
    pub overwrite_path_if_present: Option<bool>,
}

impl ConfigurationFile {
    /// Whether the file should be written, given whether something already
    /// exists at its path: always, unless overwriting is switched off
    /// (`Some(false)`) and the path exists.
    pub fn should_render(&self, path_exists: bool) -> (r: bool)
        ensures
            r == !(self.overwrite_path_if_present == Some(false) && path_exists),
    {
        let no_overwrite = match self.overwrite_path_if_present {
            Some(b) => !b,
            None => false,
        };
        !no_overwrite || !path_exists
    }
}

} // verus!
