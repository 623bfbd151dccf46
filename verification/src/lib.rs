//! Policy core of the 0xin tiling compositor: configuration vocabulary and
//! parsing, directional focus, workspace bookkeeping, and the small state
//! machines around the embedded scripting layer.

pub mod action;
pub mod backend;
pub mod capture;
pub mod commit;
pub mod config;
pub mod control;
pub mod cursor;
pub mod defaults;
pub mod desk;
pub mod drive;
pub mod events;
pub mod host;
pub mod keybind;
pub mod lock;
pub mod module;
pub mod names;
pub mod neighbor;
pub mod order;
pub mod outputs;
pub mod park;
pub mod parse;
pub mod plugins;
pub mod pointer;
pub mod power;
pub mod refresh;
pub mod registrars;
pub mod seqs;
pub mod session;
pub mod settings;
pub mod staging;
pub mod text;
pub mod touch;
pub mod wallpaper;
