pub mod text;
pub mod names;
pub mod errors;
pub mod sig;
pub mod model;
pub mod emit;
pub mod xmlsrc;
pub mod generate;
pub mod laws;
pub mod composition;
pub mod code_laws;
