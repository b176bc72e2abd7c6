//! A verified toolchain core for a minimal eight-instruction tape language:
//! a lexer, a parser that checks loop delimiters, an infinite byte tape, an
//! interpreter over in-memory byte channels, and an assembly code generator
//! with globally unique loop labels.

pub mod error;
pub mod token;
pub mod tape;
pub mod parser;
pub mod decimal;
pub mod io;
pub mod compiler;
pub mod runner;
pub mod assembler;
