//! A program in XMIR, the XML form of a parsed source.

use crate::failure::Failure;
use vstd::prelude::*;

verus! {

/// A program in XMIR.
pub struct Xmir {
    /// The XML text.
    xml: String,
}

impl View for Xmir {
    type V = Seq<char>;

    closed spec fn view(&self) -> Seq<char> {
        self.xml@
    }
}

impl Xmir {
    /// A program of the given XML text, which is taken as it is.
    pub fn from_string(xml: String) -> (r: Result<Xmir, Failure>)
        ensures
            r matches Ok(x) && x@ == xml@,
    {
        Ok(Xmir { xml })
    }

    /// The XML text.
    pub fn as_str(&self) -> (s: &str)
        ensures
            s@ == self@,
    {
        self.xml.as_str()
    }
}

} // verus!
