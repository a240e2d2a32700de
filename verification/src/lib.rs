pub mod chapter;
pub mod events;
pub mod laws;
pub mod marker;
pub mod transducer;

use vstd::prelude::*;
use vstd::string::StringExecFns;

verus! {

/// The preprocessor: recognizes kramdown-style paragraph class annotations
/// of the form `{:.class-name}` on the first line of a paragraph and wraps
/// the paragraph in a block container carrying those classes.
pub struct Classy;

impl Classy {
    pub fn new() -> (r: Classy)
        ensures
            r == Classy,
    {
        Classy
    }

    /// The name this preprocessor goes by.
    pub fn name(&self) -> (r: &'static str)
        ensures
            r@ == "classy"@,
    {
        "classy"
    }

    /// Only the HTML renderer is supported.
    pub fn supports_renderer(&self, renderer: &str) -> (r: bool)
        ensures
            r == (renderer@ == "html"@),
    {
        let given: String = renderer.to_owned();
        let html: String = String::from_str("html");
        given.eq(&html)
    }
}

impl Default for Classy {
    fn default() -> (r: Self)
        ensures
            r == Classy,
    {
        Classy
    }
}

} // verus!
