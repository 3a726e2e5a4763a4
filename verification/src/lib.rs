//! A lexical-analysis front end: raw source text goes in, an ordered list of
//! typed tokens with character offsets comes out.
//!
//! The crate is split into the token model ([`token`]), character
//! classification ([`chars`]), the recognizers for the concrete token
//! categories ([`lexers`]), and the scanning engine that drives them
//! ([`lexer`]).

pub mod chars;
pub mod lexer;
pub mod lexers;
pub mod token;
