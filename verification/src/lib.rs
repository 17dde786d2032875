//! Kolam Ikan core: entry versioning and the staged-context bridge protocol.
//!
//! A user writes entries, grouped into streams, snapshots an entry's content
//! as numbered versions, stages entries for export, and relays them by hand to
//! a chat service. A pasted response is tied to the export that asked for it
//! by a short key that travels in a marker.
//!
//! - [`store`] is the mathematical model: four tables, what makes them
//!   well-formed, and what each operation makes of them.
//! - [`database`] is the store itself, with the operations proved against the
//!   model; [`commands`] are the same operations with the clock and fresh
//!   identifiers supplied.
//! - [`bridge`] makes keys and reads them out of pasted text.
//! - [`laws`] states what holds across operations; [`invariants`] and
//!   [`seqs`] hold the lemmas underneath.
//! - [`codec`], [`migrations`], [`tutorial`] and [`stamps`] are what the
//!   persistence around the store needs from it: lists in text columns, the
//!   statements that bring an older file up to date, the content of the first
//!   start, and the time and identifiers taken from outside.

pub mod bridge;
pub mod codec;
pub mod commands;
pub mod database;
pub mod invariants;
pub mod laws;
pub mod migrations;
pub mod models;
pub mod seqs;
pub mod stamps;
pub mod store;
pub mod tutorial;
