//! An owned byte buffer with value semantics, meant as the internal
//! representation of raw field and record data inside a CSV-style parser
//! that must tolerate arbitrary 8-bit encodings, not just UTF-8.
//!
//! The one type here, [`bytestr::ByteString`], stores any byte sequence
//! without validation, compares and hashes by its bytes alone, offers
//! read-only slicing, and converts to text only through a single fallible
//! UTF-8 validation step that hands the original bytes back unchanged on
//! failure.

pub mod bytestr;
