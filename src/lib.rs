//! Core logic of a configuration-driven HTTP API server: the build artifact's
//! framing, the endpoint set, schema-derived endpoints and checksums, the
//! method-aware router, request parameter extraction, the session gate and the
//! placeholder substitution of the SQL executor.

pub mod assemble;
pub mod checksum;
pub mod codec;
pub mod discovery;
pub mod endpoint;
pub mod execute;
pub mod gate;
pub mod login;
pub mod params;
pub mod pool;
pub mod project;
pub mod reply;
pub mod router;
pub mod text;
