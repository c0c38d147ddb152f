pub mod token_handling;
pub mod typesetting;
pub mod laws;
