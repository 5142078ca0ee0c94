//! What the library promises, told by what goes in and what comes out.
pub mod answers;
pub mod board;
pub mod chart;
pub mod compare;
pub mod display;
pub mod dummy;
pub mod mail;
pub mod page;
pub mod record;
pub mod screen;
pub mod settings;
pub mod tell;
pub mod words;
