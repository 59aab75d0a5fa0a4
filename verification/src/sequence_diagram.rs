//! Sequence diagrams: participants, and the messages and blocks between
//! them in the order of time.

pub mod layout;
pub mod model;
pub mod parser;
pub mod render;

pub use model::{ArrowStyle, Element, Message, Participant, SequenceDiagram};
pub use parser::Parser;
pub use render::{render, render_with_file_css};
