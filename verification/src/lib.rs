//! Builds of a character, and duels fought with them.

pub mod calendar;
pub mod combat;
pub mod equip;
pub mod game;
pub mod history;
pub mod hotkeys;
pub mod i18n;
pub mod item;
pub mod library;
pub mod loading;
pub mod magic;
pub mod native_ui;
pub mod net_appear;
pub mod notify;
pub mod offsets;
pub mod order;
pub mod panel;
pub mod snap;
pub mod stats;
pub mod storage;
pub mod sync;
pub mod text;
pub mod tga;
