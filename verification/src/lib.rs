//! Core of a desktop chat assistant.
//!
//! Two things are done here, and both are proved to do what they say:
//!
//! * a reply that a model provider streams is decoded: bytes are assembled
//!   into text ([`assembler`]), text is cut into frames ([`frame`]), and the
//!   decoded frames are folded into the updates that the user sees
//!   ([`decoder`], [`session`]); the request that asks for the reply is built
//!   from the conversation and the settings ([`request`], [`config`],
//!   [`provider`]);
//! * attachments are classified by the extension of their path ([`path`]),
//!   and stored once per content, under the digest of what is stored
//!   ([`attachment`], [`store`]).
//!
//! The network, the file system and the database are the caller's: the
//! library takes what was read and says what is to be written.
//! [`bindings`] holds the calls into other crates, whose contracts are
//! believed rather than proved.

pub mod assembler;
pub mod attachment;
pub mod bindings;
pub mod body;
pub mod config;
pub mod decoder;
pub mod error;
pub mod frame;
pub mod json;
pub mod path;
pub mod platform;
pub mod provider;
pub mod request;
pub mod session;
pub mod store;
pub mod text;
pub mod wire;
