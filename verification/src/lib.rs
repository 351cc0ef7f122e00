//! A lending library: books, members and loans, with the rules that govern
//! them stated as contracts and proved.

pub mod time;
pub mod model;
pub mod tables;
pub mod state;
pub mod library;
pub mod laws;
