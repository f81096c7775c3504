//! What the services of the registry share: the errors that cross a service
//! boundary, and the deployment environment.

pub mod actor;
pub mod canister_api;
pub mod constants;
pub mod errors;
