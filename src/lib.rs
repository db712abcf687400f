//! A composable HTTP router core: path-pattern compilation, route and
//! middleware registration with nested scopes, and the decisions of the
//! per-request dispatch pipeline.
pub mod error;
pub mod matcher;
pub mod pattern;
pub mod params;
pub mod dispatch;
pub mod method;
pub mod route;
pub mod router;
pub mod builder;
pub mod responses;
pub mod size_unit;

pub use builder::RouterBuilder;
pub use dispatch::{Action, Outcome, Plan, Stage};
pub use error::{Error, ErrorKind};
pub use method::Method;
pub use params::{PathParams, RouteParams};
pub use router::{Dispatch, Middleware, Router};
