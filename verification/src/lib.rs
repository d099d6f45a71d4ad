//! The logic of a screen reading overlay.
//!
//! The overlay is a transparent window. What the screen shows below it is given to
//! a text recogniser, which answers with an hOCR document. The words of the
//! document are drawn over the screen; the words under the cursor are highlighted,
//! and a click reports them.
//!
//! - [`title`] and [`dom`] read the parts of an hOCR document, and [`hocr`] reads
//!   its lines and words.
//! - [`binary32`] compares single-precision numbers by their bit patterns.
//! - [`bbox`] holds words and lines with their boxes on the screen, and [`mesh`]
//!   lays out the backgrounds of the lines for the graphics device.
//! - [`state`] is what the overlay remembers, [`events`] decides what it does on an
//!   event, and [`screen`] chooses surface formats and the area to capture.
pub mod bbox;
pub mod binary32;
pub mod dom;
pub mod events;
pub mod hocr;
pub mod mesh;
pub mod screen;
pub mod state;
pub mod title;
