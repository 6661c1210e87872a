pub mod laws;
pub mod locate;
pub mod parse;
pub mod session;
pub mod stats;
pub mod text;
