//! A small CardDAV contact bridge: vCard parsing and serialization, the
//! WebDAV multistatus handling used against a Baikal server, and the
//! decisions of the JSON API, each with its contract.

pub mod text;
pub mod vcard;
pub mod vcard_laws;
pub mod dav;
pub mod xml;
pub mod multistatus;
pub mod api;
pub mod config;
