//! Reconciles exported meme records with the images that exist on disk and
//! prepares the metadata that is stamped into each image.
//!
//! The stages run in one pass and in input order: a byte stream is framed
//! into documents ([`stream`]), tag references are resolved to names
//! ([`tags`]), image references are matched against the files that exist
//! ([`images`]), and the surviving records are turned into the metadata
//! fields to write ([`exif`], with the wide-string encoding of [`utf16`]).
//! Nothing here touches the file system: callers hand in bytes and file
//! names and carry out the writes that [`exif`] asks for.
pub mod text;
pub mod types;
pub mod stream;
pub mod report;
pub mod tags;
pub mod paths;
pub mod images;
pub mod utf16;
pub mod exif;
