//! Rendering of a note schedule into framed audio.
//!
//! A track names, beat by beat, the keys that its instruments play. The
//! [`music_box`] turns it into a stream of samples, and says of every
//! sample what it is made of; [`streaming`] cuts the stream into chunks and
//! frames them as the packets of [`wire`].
//!
//! The engine works on integers throughout. It decides when a note starts
//! and ends, which voices sound, and how a sample moves through the lines of
//! a reverb. The arithmetic on the samples themselves is left to whoever
//! evaluates the signals that the engine yields.

pub mod delay;
pub mod gain;
pub mod input;
pub mod kick;
pub mod lone_note;
pub mod mixer;
pub mod music_box;
pub mod node;
pub mod oscillator;
pub mod performance;
pub mod pitch;
pub mod streaming;
pub mod track;
pub mod voice;
pub mod wire;
