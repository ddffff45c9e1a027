//! Inline test fixtures: a tree of files written as one block of text.
//!
//! A fixture is an ordered list of files, each a path and a text. In its text
//! form a line `//- /path` opens a file, which holds the lines up to the next
//! such line; a block without such a line is a single file.
//!
//! - [`Fixture::parse`] reads the text form, after [`trim_indent`] has taken
//!   off the indentation that the block shares with the code around it;
//!   [`parse_before_after`] reads two fixtures parted by a line `=>`.
//! - [`Fixture::render`] and [`FixtureRenderer`] write a fixture back as
//!   text, the latter with path filters, redacted lines and normalized
//!   hashes, for comparison with a snapshot.
//! - [`TempFixture`] plans how a fixture lies below a root directory, and
//!   which fixture a walk of that directory gives back.
//! - [`assert_fixture_eq`] compares two fixtures and says where they differ.
//!
//! The library touches neither disk nor processes: it computes what is to be
//! written and run, and reads what came back. Every function has a contract
//! over sequences of characters, and [`laws`] holds what is proved of the
//! functions together.

pub mod disk;
pub mod equality;
pub mod fixture;
pub mod fs_standards;
pub mod indent;
pub mod laws;
pub mod pattern;
pub mod render;
pub mod text;

pub use disk::TempFixture;
pub use equality::{assert_fixture_eq, Mismatch};
pub use fixture::{parse_before_after, Fixture, FixtureFile, ParseError};
pub use indent::trim_indent;
pub use render::{FixtureRenderer, InvalidPattern};
