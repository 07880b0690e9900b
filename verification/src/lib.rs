//! Tabbed terminal layout state: binary trees of split panels, one tree per
//! tab, and the operations a terminal front end performs on them.
pub mod panel;
pub mod sequences;
pub mod title;
pub mod state;
pub mod keys;
