//! Campus portal sign-in.
pub mod auth;
pub mod cli;
pub mod clock;
pub mod common;
pub mod crypto;
pub mod detect;
pub mod form;
pub mod gui;
pub mod http;
pub mod ipv4;
pub mod json;
pub mod laws;
pub mod login;
pub mod net;
pub mod offline;
pub mod page;
pub mod selfsvc;
pub mod store;
pub mod text;
pub mod utf16;
