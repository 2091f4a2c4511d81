//! Verified core of a dock-and-trailer operations board: field permissions,
//! shift and date rules, trailer grouping, schedule assembly, sign-in
//! decisions and part-alert bookkeeping.
use vstd::prelude::*;

pub mod text;
pub mod structs;
pub mod permissions;
pub mod dates;
pub mod helpers;
pub mod grouping;
pub mod alerts;
pub mod auth;
pub mod ldap;
pub mod azure;
pub mod email_config;
pub mod ws;
pub mod week;
pub mod records;

verus! {
} // verus!
