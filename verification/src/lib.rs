//! Pixel-art animations on a character-cell console that is driven only by
//! "set the colors" and "write a string" calls.
//!
//! A frame is a grid of palette colors ([`frame`], [`color`]). The
//! compositor turns a frame into its maximal single-color runs
//! ([`compositor`]); [`composition`] proves that these paint the frame cell
//! for cell and that no shorter list of writes does. A run becomes console
//! text as a string of glyph units ([`glyph`]). The player ([`player`])
//! sequences the frames of an animation: it names one console call after
//! the other ([`sink`]), and the driver around it makes each call and
//! reports how it went. [`trace`] proves what every run of the player looks
//! like.

pub mod color;
pub mod composition;
pub mod compositor;
pub mod frame;
pub mod glyph;
pub mod player;
pub mod sink;
pub mod trace;
