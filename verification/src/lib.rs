//! A serverless function host runtime.
//!
//! The library hosts a compiled sandboxed module: it extracts the
//! routing metadata embedded in the module's custom sections, routes
//! inbound requests to the functions the module declares, and runs each
//! invocation against a handle-based resource table that keeps
//! host-owned request, response and cookie resources on this side of
//! the trust boundary.
//!
//! - [`codec`] frames and splits the length-prefixed records inside a
//!   custom section.
//! - [`json`] is the descriptor grammar those records carry.
//! - [`metadata`] walks a module's custom sections into its routing
//!   and configuration metadata.
//! - [`table`] is the kind-tagged, handle-indexed store of one
//!   invocation's resources.
//! - [`host`] is the call surface sandboxed code reaches the table
//!   through.
//! - [`router`] matches inbound requests against declared triggers.
//! - [`dispatch`] drives one invocation from instantiation to
//!   teardown.
//! - [`env`] resolves required configuration at server start.

pub mod codec;
pub mod cookies;
pub mod dispatch;
pub mod encode;
pub mod env;
pub mod host;
pub mod json;
pub mod metadata;
pub mod resource;
pub mod router;
pub mod table;
pub mod text;

pub use codec::FramingError;
pub use dispatch::Invocation;
pub use dispatch::Phase;
pub use dispatch::RunEvent;
pub use env::EnvironmentProvider;
pub use env::parse_env_var;
pub use metadata::Function;
pub use metadata::FunctionInput;
pub use metadata::FunctionOutput;
pub use metadata::FunctionTrigger;
pub use metadata::Metadata;
pub use metadata::Method;
pub use resource::CookieData;
pub use resource::RequestData;
pub use resource::Resource;
pub use resource::ResourceKind;
pub use resource::ResponseData;
pub use resource::SameSite;
pub use table::HostError;
pub use table::ResourceTable;
