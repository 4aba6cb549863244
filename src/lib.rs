//! Client-side data model for chat-completion APIs, together with a verified
//! incremental decoder for streamed (server-sent events) responses.
pub mod chat;
pub mod endpoints;
pub mod frames;
pub mod images;
