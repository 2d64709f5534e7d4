//! Identification of one file under processing: its original path and the
//! temporary output path the engines commit through.

use vstd::prelude::*;
use vstd::string::StringExecFns;

verus! {

/// The file extensions the engines accept, lowercase and case-sensitive.
pub open spec fn supported_ext(e: Seq<char>) -> bool {
    e == "pdf"@ || e == "docx"@ || e == "xlsx"@ || e == "png"@ || e == "jpeg"@ || e == "jpg"@
}

/// The original path of a file and its temporary output path, derived
/// deterministically by appending a fixed suffix.
#[derive(Debug)]
pub struct DataPaths {
    pub old_path: String,
    pub temp_path: String,
}

impl DataPaths {
    /// The temporary path is always the original path with the suffix added.
    pub open spec fn wf(&self) -> bool {
        self.temp_path@ == self.old_path@ + "_temp"@
    }

    pub open spec fn old_spec(&self) -> Seq<char> {
        self.old_path@
    }

    pub open spec fn temp_spec(&self) -> Seq<char> {
        self.temp_path@
    }

    pub fn new(path: String) -> (r: DataPaths)
        ensures
            r.wf(),
            r.old_spec() == path@,
    {
        let temp = path.clone().concat("_temp");
        DataPaths { old_path: path, temp_path: temp }
    }

    /// Whether a lowercase file extension names a supported document format.
    pub fn is_supported(extension: &str) -> (r: bool)
        ensures
            r == supported_ext(extension@),
    {
        let ext = extension.to_owned();
        ext == String::from_str("pdf") || ext == String::from_str("docx") || ext
            == String::from_str("xlsx") || ext == String::from_str("png") || ext
            == String::from_str("jpeg") || ext == String::from_str("jpg")
    }

    pub fn old_owned(&self) -> (r: String)
        ensures
            r@ == self.old_spec(),
    {
        self.old_path.clone()
    }

    pub fn old_ref(&self) -> (r: &str)
        ensures
            r@ == self.old_spec(),
    {
        self.old_path.as_str()
    }

    pub fn temp_owned(&self) -> (r: String)
        ensures
            r@ == self.temp_spec(),
    {
        self.temp_path.clone()
    }

    pub fn temp(&self) -> (r: &str)
        ensures
            r@ == self.temp_spec(),
    {
        self.temp_path.as_str()
    }
}

} // verus!
