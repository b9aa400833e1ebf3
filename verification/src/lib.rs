//! Core of a scripture reading application: an in-memory model of the
//! book/verse store, the query layer over it, and the selection state
//! that keeps the displayed chapter consistent with the user's choice.
//! The host application loads the relational store from disk and renders
//! the selection; everything in this crate is verified.

pub mod store;
pub mod selection;
