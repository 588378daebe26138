//! Flashcards embedded in outline pages: discovery, extraction, metadata codec,
//! side store and range-preserving rewrite.

pub mod text;
pub mod num;
pub mod decimal;
pub mod time;
pub mod codec;
pub mod identity;
pub mod outline;
pub mod card_text;
pub mod storage;
pub mod side_store;
pub mod locator;
pub mod select;
pub mod laws;
pub mod output;
