//! Support code for an image browser: listing the images and folders of a
//! directory in natural order, and turning image bytes into a data URI.
pub mod image;
pub mod listing;
