//! A scanner for a small dynamically typed scripting language: it turns source
//! text into a sequence of tokens that ends in an end-of-input token, together
//! with the lexical errors met on the way.
pub mod chars;
pub mod token;
pub mod lexicon;
pub mod scanner;
pub mod laws;
