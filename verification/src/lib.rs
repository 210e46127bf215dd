//! The core of a controller that keeps a packet filter in step with a
//! declarative policy and supervises a tunnel.
//!
//! The policy names peers and the source addresses that each may use
//! ([`config`]). From it the controller derives the set of allowed addresses
//! ([`policy`]) and replaces the rules of the packet filter by a chain that
//! drops everything but traffic from these addresses ([`firewall`]). What is
//! done in which order, for a check, a start or a reload, is decided by the
//! controller of an invocation ([`lifecycle`]).
//!
//! The library decides and does not act: it hands its caller the next
//! request or action and takes back what came of it. The one thing it reads
//! by itself is the effective user id of the process. What it decides is
//! stated in contracts and laws that are proved of it.

pub mod address;
pub mod config;
pub mod errors;
pub mod firewall;
pub mod lifecycle;
pub mod policy;
