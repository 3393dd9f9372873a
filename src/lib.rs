//! An expression calculator — lexer, recursive-descent parser and an evaluator
//! that plans each statement's arithmetic — together with the small tools around
//! it: sorting and searching, a Mersenne Twister and a password generator built
//! on it, union-find, a braille canvas, text tables and frames, and amounts of
//! money in Chinese financial numerals.

// the calculator
pub mod chars;
pub mod symbols;
pub mod lexer;
pub mod ast;
pub mod parser;
pub mod env;

// algorithms
pub mod sorting;
pub mod search;
pub mod union_find;
pub mod mt19937;
pub mod passwd;

// text and drawing
mod text;
pub mod canvas;
pub mod shading;
pub mod terminal;
pub mod tables;
pub mod framed;
pub mod money;
