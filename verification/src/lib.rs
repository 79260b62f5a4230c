//! A verified library for the front end of the Helios programming language:
//! its syntax kinds, lexer, parser, source-file inspection and diagnostics.

pub mod actor;
pub mod arena;
pub mod building;
pub mod cursor;
pub mod human;
pub mod indent;
pub mod lexer;
pub mod location;
pub mod utf8;
pub mod syntax_kind;
pub mod text;
pub mod text_sync;
pub mod diagnostic;
pub mod event;
pub mod files;
pub mod formatting;
pub mod green;
pub mod message;
pub mod parse;
pub mod parser;
pub mod precedence;
pub mod protocol;
pub mod repl;
pub mod report;
pub mod query;
pub mod server;
pub mod sink;
pub mod source;
pub mod span;
