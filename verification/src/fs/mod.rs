//! Storage descriptions: backends, their capabilities, local paths and the
//! entries that listings hold.
pub mod backend;
pub mod cloud;
pub mod connect;
pub mod copy;
pub mod local;
pub mod remote;
pub mod selecting;
pub mod types;
