//! What holds of the library as a whole, said of its inputs and its results.
pub mod auth;
pub mod calls;
pub mod cli;
pub mod form;
pub mod gui;
pub mod http;
pub mod log;
pub mod login;
pub mod net;
pub mod offline;
pub mod page;
pub mod spa;
pub mod store;
pub mod text;
pub mod utf16;
