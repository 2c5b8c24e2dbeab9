//! Core of a real-time collaboration server for a multi-user canvas
//! editor.
//!
//! Clients join named rooms and exchange updates about canvases, their
//! elements, presence, selections and access control. This crate holds
//! the authoritative room state machine and everything it decides: the
//! data model and its invariants, the command handlers, the join
//! handshake, and the wire codec. Every mutating operation returns the
//! frames it owes, so the transport layer around this crate only moves
//! bytes and never touches the rules.
//!
//! The modules, leaves first: [`digits`] and [`ident`] print and parse
//! numbers and identifiers; [`color`] normalizes colors; [`element`] and
//! [`user`] model what a canvas and a roster hold; [`state`] owns rooms
//! and the registry; [`selection`], [`elements`] and [`commands`] apply
//! inbound commands; [`codec`] reads and writes the wire text; [`join`]
//! validates and performs admission.

pub mod color;
pub mod digits;
pub mod ident;
pub mod user;
pub mod element;
pub mod selection;
pub mod elements;
pub mod commands;
pub mod state;
pub mod codec;
pub mod join;
