//! Recognition of the reward screen.
//!
//! A captured [`frame`] is read in four steps. The [`theme`] of the interface
//! is detected from the colours in the band where the [`layout`] puts the
//! names of the rewards. The band is cut into one part for each name
//! ([`segment`], [`screen`]). The picture of each part is prepared for a text
//! recogniser, and what it answers is taken down and brought into canonical
//! form ([`ocr`], [`normalize`]). The canonical text is resolved against the
//! [`catalog`] by edit [`distance`], ties going by dictionary order
//! ([`lexical`]), and the items found are valued and ranked ([`ranking`]).
//! [`pipeline`] strings the steps together. [`trigger`] tells from the game's
//! log when a screen is due, and [`annotate`] marks on the frame what was
//! read.

pub mod annotate;
pub mod catalog;
pub mod distance;
pub mod frame;
pub mod layout;
pub mod lexical;
pub mod normalize;
pub mod ocr;
pub mod pipeline;
pub mod ranking;
pub mod screen;
pub mod segment;
pub mod theme;
pub mod trigger;
