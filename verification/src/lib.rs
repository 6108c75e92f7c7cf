//! Composition and rendering of static sites: a table of routes, redirects
//! and fallback pages is built up, checked for conflicts, and turned into
//! the set of files that a static host serves.

pub mod chains;
pub mod error;
pub mod keyed;
pub mod laws;
pub mod page;
pub mod path;
pub mod path_map;
pub mod plan;
pub mod redirects;
pub mod render;
pub mod router;
pub mod routes;
pub mod table;
pub mod text;

pub use error::RouterError;
pub use page::Page;
pub use path_map::PathMap;
pub use redirects::{Redirect, RedirectList, RedirectListRenderer, RedirectPageRenderer};
pub use render::{OutputMap, RenderConfig, RenderMap};
pub use router::{get, redirect, Response, Router};
pub use routes::{RouteList, RouteListRenderer};
