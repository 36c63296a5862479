//! A marketplace for software, paid for in Monero: accounts, money,
//! fundraisers, and the upload, search and download of software.
pub mod auth;
pub mod bytes;
pub mod db;
pub mod denial;
pub mod fundraiser;
pub mod logging;
pub mod money;
pub mod outside;
pub mod software;
pub mod text;
pub mod wallet;
