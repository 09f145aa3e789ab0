//! Core logic of a small single-page video browser: a client-side router,
//! a parser for the fetched video catalog, the view state it feeds, and the
//! pure composition of the rendered views.

pub mod catalog;
pub mod digits;
pub mod route;
pub mod state;
pub mod video;
pub mod view;
