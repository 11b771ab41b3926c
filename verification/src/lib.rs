//! Spectrogram core library.
//!
//! The verified pieces of a windowed discrete-Fourier-transform spectrogram
//! viewer: a WAV sample codec ([`wav`]), the signed sample encoding it rests
//! on ([`sample`]), and the windowing arithmetic of the spectrogram builder
//! ([`window`]).

pub mod sample;
pub mod wav;
pub mod window;
