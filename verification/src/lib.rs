//! A declarative sandbox launcher core: named profiles carry a sandbox
//! policy, the policy compiles to a flat, deterministically ordered
//! argument sequence for the `bwrap` isolation primitive, and identity
//! lookups are prepared as `getent` invocations whose output is injected
//! into the sandbox through fixed descriptor slots.

pub mod config;
pub mod exit;
pub mod laws;
pub mod getent;
pub mod launch;
pub mod strutil;

pub use exit::Exit;
