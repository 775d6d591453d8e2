//! A gallery of images from NovelAI: what their files tell, an index to search, and
//! what helps to sort them out.
//!
//! - [`png`], [`json`] and [`nai`] read the metadata in a file, in its text chunks or
//!   hidden in its alpha channel.
//! - [`weights`] and [`tags`] turn prompts into tags.
//! - [`pixels`] and [`hash`] make thumbnails and perceptual hashes; [`dup`] groups
//!   hashes that lie close together.
//! - [`sql`] is the connection to SQLite. What SQLite answers is not predicted: each
//!   request and its answer are on record, and contracts speak of the record.
//! - [`db`], [`query`], [`tree`] and [`duplicates`] ask the index; [`scanner`] decides
//!   what a scan is to do, and [`store`] writes what it found.
//! - [`paths`] and [`serve`] say which file a request is about.
//! - [`text`] and [`tidy`] have what all of these need of text.
//!
//! What holds of them as a whole is stated and proved beside them or in modules of its
//! own:
//!
//! - [`metadata`] says which members and texts of a file become which field.
//! - [`prompts`], [`filing`] and [`casing`] say which tags a prompt has, and how they are
//!   filed.
//! - [`columns`] and [`reading`] look columns up by name in the text of statements, and
//!   say which value is written to, and read from, which of them.
//! - [`asking`] says what a search asks, [`arranging`] what is shown of near-duplicates.
//! - [`keeping`] says what a scan writes, [`marking`] what a user can change.

pub mod arranging;
pub mod asking;
pub mod casing;
pub mod columns;
pub mod db;
pub mod dup;
pub mod duplicates;
pub mod filing;
pub mod hash;
pub mod json;
pub mod keeping;
pub mod marking;
pub mod metadata;
pub mod nai;
pub mod paths;
pub mod pixels;
pub mod png;
pub mod prompts;
pub mod query;
pub mod reading;
pub mod scanner;
pub mod serve;
pub mod sql;
pub mod store;
pub mod tags;
pub mod text;
pub mod tidy;
pub mod tree;
pub mod weights;
