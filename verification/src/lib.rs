//! The ear of Mori: a hotkey begins a recording, what is said is transcribed, and the text appears
//! where the user types.
//!
//! This crate holds what the ear decides and computes. It opens no file and no connection: it says
//! what is to be read, asked or pressed, and takes what came of it.
//!
//! - [`text`], [`float`], [`json`], [`wav`] and [`calendar`] are the ground: texts as sequences of
//!   characters, floating point arithmetic in whole numbers, JSON documents, WAV files and points in
//!   time.
//! - [`hotkey`], [`wayland_hotkey`], [`cli`] and [`config`] are what the user sets and presses.
//! - [`audio`] and [`voice_activity`] are about recordings, [`local_stt`], [`conversion`], [`stt`],
//!   [`stt_prompt`], [`cleanup`], [`watchdog`] and [`pipeline`] about their way to a text,
//!   [`session`], [`preview`] and [`paste`] about the text's way to the user.
//! - [`multipart`] and [`service`] serve other programs on this machine.
//! - [`mode_command`], [`mode_ui`] and [`mode_voice`] switch between recognisers; [`orders`] says
//!   which words are a command, and [`dictation`] which are none.
pub mod text;
pub mod float;
pub mod json;
pub mod wav;
pub mod calendar;
pub mod hotkey;
pub mod wayland_hotkey;
pub mod cli;
pub mod config;
pub mod audio;
pub mod voice_activity;
pub mod local_stt;
pub mod conversion;
pub mod stt;
pub mod stt_prompt;
pub mod cleanup;
pub mod watchdog;
pub mod pipeline;
pub mod session;
pub mod preview;
pub mod paste;
pub mod multipart;
pub mod service;
pub mod mode_command;
pub mod dictation;
pub mod orders;
pub mod mode_ui;
pub mod mode_voice;
