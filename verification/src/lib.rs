//! A shell-style glob engine: a tokenizer for `*`, `?` and `[...]` wildcard
//! words, a compiler from token sequences to regex-flavoured match
//! expressions, and a resolver that walks the filesystem for matching paths.

pub mod builtins;
pub mod interpreter;
pub mod resolver;
