//! Rules and decisions of the ScreenGuard agent, session helper and server.
use vstd::prelude::*;

pub mod address;
pub mod clock;
pub mod config;
pub mod db;
pub mod enforcement;
pub mod filter;
pub mod ids;
pub mod ipc;
pub mod json;
pub mod link;
pub mod native;
pub mod policy;
pub mod proxy;
pub mod release_check;
pub mod runtime;
pub mod service;
pub mod text;
pub mod tray;
pub mod unifi;
pub mod update;

verus! {

} // verus!
