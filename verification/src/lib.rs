//! Verified core logic of the OpenDeskTools clipboard toolbox.
pub mod dib;
pub mod le_bytes;
pub mod text;
pub mod hdrop;
pub mod clipboard;
pub mod listener;
pub mod png_image;
pub mod writer;
pub mod autostart;
pub mod surface_window;
pub mod foreground;
pub mod pointer;
pub mod decimal;
pub mod settings_store;
pub mod text_lists;
pub mod settings;
pub mod history;
pub mod service;
pub mod input;
pub mod clipboard_commands;
pub mod startup;
pub mod controller;
pub mod commands;
