//! An embeddable ESMTP receiver.
//!
//! The per-connection session state machine (`session`) interprets SMTP
//! commands (`command`, `params`, `path`), consults an application-supplied
//! handler (`handler`), and queues well-formed replies (`reply`) in the
//! connection's buffers (`buf`); `connection` turns its decisions into what
//! to do with the socket, and `data` undoes dot-stuffing in message data.
//! `domain` and `imap4` hold domain names and pieces of IMAP syntax.
pub mod buf;
pub mod command;
pub mod connection;
pub mod data;
pub mod domain;
pub mod handler;
pub mod imap4;
pub mod null;
pub mod params;
pub mod path;
pub mod reply;
pub mod scribe;
pub mod session;
