//! The parameters of a PostgreSQL session as a connection pooler keeps them:
//! set for the session, for a transaction or locally, reset, committed and
//! rolled back, and compared with what a server has.
pub mod buffer;
pub mod error;
pub mod fingerprint;
pub mod laws;
pub mod model;
pub mod order;
pub mod ordered;
pub mod parameters;
pub mod query;
pub mod state;
pub mod text;
pub mod tracking;
pub mod value;

pub use error::Error;
pub use ordered::ParameterMap;
pub use parameters::Parameters;
pub use query::{MergeResult, Query};
pub use value::{Column, Parameter, ParameterValue};
