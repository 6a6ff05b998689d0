//! Small verified routines on owned strings, borrowed strings and string
//! slices.
//!
//! * [`word`] is the mathematical model: what the first word of a text is,
//!   and the laws that follow from it.
//! * [`encoding`] relates the words of a text's characters to the words of
//!   its UTF-8 bytes.
//! * [`slices`] finds the first word of a byte slice and of a `&str`.
//! * [`moves`] and [`borrows`] hold the routines that pass a `String` by
//!   value and by reference.

pub mod borrows;
pub mod encoding;
pub mod moves;
pub mod slices;
pub mod word;

pub use borrows::{calculate_len_with_ref, change};
pub use moves::{calculate_length, gives_ownership, takes_and_gives_back};
pub use slices::{first_word, first_word_span};
pub use word::SPACE;
