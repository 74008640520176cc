//! A small routing layer for web applications: handlers are registered under
//! path patterns such as `/users/{id}`, and incoming requests are dispatched to
//! the first registered route that matches, with the named segments of the path
//! bound as parameters.
//!
//! The functions of this crate are verified against the contracts they state.
//! One contract is taken on trust: that of `core::str::from_utf8`, in
//! `json`.

pub mod config;
pub mod http;
pub mod json;
pub mod matcher;
pub mod params;
pub mod pattern;
pub mod router;
pub mod search;
pub mod table;
pub mod text;

pub use crate::config::FlaskConfig;
pub use crate::http::json_response;
pub use crate::http::text_response;
pub use crate::http::Method;
pub use crate::http::Request;
pub use crate::http::Response;
pub use crate::json::body_text;
pub use crate::json::Json;
pub use crate::json::JsonError;
pub use crate::matcher::extract_path_params;
pub use crate::matcher::match_route_pattern;
pub use crate::params::RouteParams;
pub use crate::router::Dispatch;
pub use crate::router::FlaskApp;
pub use crate::table::Route;
pub use crate::table::RouteTable;
