//! A streaming line editor: addressable print, delete, substitute and quit
//! commands applied line by line to a text stream.
pub mod pattern;
pub mod transformers;
pub mod reader;
pub mod command;
pub mod engine;
pub mod script;
