use vstd::prelude::*;

verus! {

/// Why a request description could not be turned into a request.
#[derive(Debug, Clone, PartialEq, Eq)]
pub enum RequestError {
    /// The description's structure is malformed; holds the offending text.
    Parse(String),
    /// A template could not be rendered; holds the template and the renderer's reason.
    Template(String, String),
}

impl RequestError {
    pub open spec fn is_parse(&self) -> bool {
        self is Parse
    }

    pub open spec fn is_template(&self) -> bool {
        self is Template
    }
}

} // verus!
