//! A verified directory-listing engine.
//!
//! Given a set of filesystem paths, already resolved to entries with
//! their metadata captured, the engine filters and orders them,
//! decides how they are laid out, and renders them as lines of text:
//! one name per line, a grid packed to the terminal's width, a table
//! of metadata columns, or the two combined.
//!
//! The pieces, leaves first:
//!
//! - [`fs`] holds the entry model: a file with its captured metadata,
//!   and a directory with its repository flag.
//! - [`natural`] compares texts in natural order, runs of digits
//!   counting as numbers.
//! - [`filter`] removes hidden entries and sorts the rest: a stable
//!   sort by the chosen field, an optional whole-sequence reversal,
//!   and an optional pass that moves directories first.
//! - [`grid`] packs entries of known widths into the most columns
//!   that fit a width budget.
//! - [`column`] resolves which metadata columns a details table
//!   shows.
//! - [`render`] turns entries into lines under each of the four
//!   views.
//! - [`dir_action`], [`view`], [`options`] and [`misfire`] hold the
//!   checked configuration and what can go wrong with it.
//! - [`exa`] drives the whole run: it splits the named paths into
//!   plain files and directories to list, and works a queue of
//!   directories, deciding headings, separators and recursion.
//!
//! Reading paths, calling `stat`, and writing to the output sink are
//! the caller's side of the boundary: the engine takes plain values
//! in and hands lines of text back.  The lines are plain, monochrome
//! text: the colour decision is deduced and carried in the view
//! configuration, but painting them is the palette collaborator's
//! work, which sits outside this crate.

pub mod column;
pub mod dir_action;
pub mod exa;
pub mod filter;
pub mod fs;
pub mod grid;
pub mod misfire;
pub mod natural;
pub mod options;
pub mod output;
pub mod render;
pub mod text;
pub mod view;
