//! Class diagrams: entities with fields and methods, and the relationships
//! between them.

pub mod detect;
pub mod layers;
pub mod layout;
pub mod model;
pub mod parser;
pub mod render;
pub mod route;
pub mod statements;

pub use detect::is_class_diagram;
pub use model::{
    ClassDef, ClassDiagram, ClassType, Field, Method, RelationType, Relationship, Visibility,
};
pub use parser::Parser;
pub use render::{render, render_with_file_css};
