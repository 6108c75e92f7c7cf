//! The ways in which composing or rendering a site can fail.

use vstd::prelude::*;

verus! {

/// A failure of a route table operation. Each one is final: the table or
/// the render that met it is lost.
#[derive(Clone, Copy, Debug, PartialEq, Eq, Structural)]
pub enum RouterError {
    /// A path is empty or does not start with `/`.
    InvalidPath,
    /// A path is already taken by a route or a redirect.
    RouteConflict,
    /// A scope already has a fallback page.
    FallbackConflict,
    /// The path of a fallback page is already taken by a page.
    FallbackRouteConflict,
    /// Following a redirect leads back to a path already passed.
    RedirectCycle,
}

impl RouterError {
    /// What went wrong, in words.
    pub open spec fn description(self) -> Seq<char> {
        match self {
            RouterError::InvalidPath => "paths must start with a `/`"@,
            RouterError::RouteConflict => "a handler for the path already exists"@,
            RouterError::FallbackConflict => "a fallback handler for the scope already exists"@,
            RouterError::FallbackRouteConflict =>
                "a route already exists at the path of a fallback page"@,
            RouterError::RedirectCycle => "a chain of redirects runs into a cycle"@,
        }
    }

    /// Returns what went wrong, in words.
    pub fn message(&self) -> (text: String)
        ensures
            text@ == self.description(),
    {
        match self {
            RouterError::InvalidPath => "paths must start with a `/`".to_owned(),
            RouterError::RouteConflict => "a handler for the path already exists".to_owned(),
            RouterError::FallbackConflict => {
                "a fallback handler for the scope already exists".to_owned()
            },
            RouterError::FallbackRouteConflict => {
                "a route already exists at the path of a fallback page".to_owned()
            },
            RouterError::RedirectCycle => "a chain of redirects runs into a cycle".to_owned(),
        }
    }
}

} // verus!
