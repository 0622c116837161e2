//! Reconciles a DAT manifest of wanted files against the HTML directory
//! listings of a Myrient file server and plans resumable transfers of the
//! files that the server offers.

pub mod catalog;
pub mod constants;
pub mod dat;
pub mod inventory;
pub mod myrient;
pub mod page;
pub mod report;
pub mod text;
pub mod transfer;
