//! Lexical retrieval text: query escaping and normalization, the CJK bigram
//! tokenizer, and the searchable form of a chunk.

pub mod cjk;
pub mod query;
pub mod schema;
