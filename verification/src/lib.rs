//! The logic of a bridge that shares the clipboard of a desktop with one phone.
//!
//! Everything that talks to the outside is left to the program around this library:
//! it performs what the functions here ask for and tells them what came of it.
//!
//! - [`protocol`], [`sync`] and [`session`] share copies with a server on the phone.
//! - [`transport`] brings that server up and takes it down.
//! - [`wayland`] follows the desktop's clipboard.
//! - [`adb`], [`devices`], [`identities`] and [`tracking`] know the phones.
//! - [`pairing`], [`discovery`] and [`attempt`] pair new ones.
//! - [`command`], [`config`] and [`daemon`] carry out what the user wants.
//! - [`process`] and [`random`] stand for helpers and random tokens; [`address`],
//!   [`bytes`], [`clock`], [`lists`] and [`text`] are the groundwork.
pub mod adb;
pub mod address;
pub mod attempt;
pub mod bytes;
pub mod clock;
pub mod command;
pub mod config;
pub mod daemon;
pub mod devices;
pub mod discovery;
pub mod identities;
pub mod lists;
pub mod pairing;
pub mod process;
pub mod protocol;
pub mod random;
pub mod session;
pub mod sync;
pub mod text;
pub mod tracking;
pub mod transport;
pub mod wayland;

pub use random::random_hex;
