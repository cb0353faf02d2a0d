//! The protocol core of a newcamd 525 client, free of I/O: framing and
//! encryption of messages, the login handshake, the state of a running
//! connection, and the command lines of the programs built on it.

use vstd::prelude::*;

pub mod arguments;
pub mod cipher;
pub mod cli;
pub mod client;
pub mod crypto;
pub mod ecm_reader;
pub mod error;
pub mod frame;
pub mod handshake;
pub mod hex;
pub mod key;
pub mod laws;
pub mod md5_crypt;
pub mod number;
pub mod protocol;
pub mod text;

pub use client::{Client, Connection, EcmRequest, EcmResponse, NewcamdConfig, RawRequest};
pub use error::{NewcamdError, Result};
pub use handshake::{CardData, CardProvider};

verus! {

/// The client under its longer name.
pub type NewcamdClient = Client;

} // verus!
