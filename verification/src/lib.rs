//! A figure that says, or thinks, a message: the layout of the speech
//! bubble, and the framing of an image for a terminal that can draw one.
//!
//! - [`wrap`] breaks a message into body lines that fit a width.
//! - [`bubble`] frames the body lines with the glyphs from [`glyphs`].
//! - [`graphics`] holds the cursor steps and the escape-sequence frames of
//!   the terminal graphics protocol, [`transfer`] decides what is sent, and
//!   [`terminal`] reads the terminal's reply.
//! - [`codec`] is the boundary to the base64 and PNG encodings.
//! - [`animal`] and [`options`] fill in the figure and settle the choices
//!   of a run.
//! - [`text`] holds the character-level helpers that the others share.
//!
//! The library performs no input or output. What is to be written to the
//! terminal or into shared memory is returned to the caller.

pub mod animal;
pub mod bubble;
pub mod codec;
pub mod glyphs;
pub mod graphics;
pub mod options;
pub mod terminal;
pub mod text;
pub mod transfer;
pub mod wrap;
