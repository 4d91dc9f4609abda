//! A gateway that presents S3-compatible buckets as a folder hierarchy,
//! with the decisions of its storage client and of its OIDC trust engine
//! stated and proved.

pub mod bindings;
pub mod config;
pub mod delete;
pub mod retry;
pub mod s3;
pub mod sso;
pub mod text;
pub mod upload;
