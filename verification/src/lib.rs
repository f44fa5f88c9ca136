//! A validation engine for a JSON-like text format.
//!
//! The library is split into a scanner and a validator.  The scanner
//! ([`lexer::Lexer`]) turns a character buffer into a stream of classified
//! tokens ([`token::Token`]); the validator ([`validator::JsonValidator`])
//! decides whether a complete token stream denotes a well-formed document.
//! Every executable function carries a contract relating it to a
//! mathematical model of scanning and validation.

pub mod lexer;
pub mod token;
pub mod validator;
