//! A line-oriented parser for a small markdown dialect.
//!
//! The inline engine turns one line of text into spans (plain text, bold,
//! italic, bold-italic, strikethrough, hyperlink); a thin block layer
//! recognises headers, images, horizontal rules, quotes and paragraphs and
//! hands the text of each block to the inline engine.
pub mod error;
pub mod markdown;
pub mod parse;
