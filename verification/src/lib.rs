//! Verified core of a node-based video effects editor: the node schema and
//! library, the editor and engine graph rules, frame byte handling, stream
//! bookkeeping and the launcher's inter-process messages.
pub mod reach;
pub mod text;
pub mod schema;
pub mod colors;
pub mod sorted;
pub mod library;
pub mod catalog;
pub mod values;
pub mod graph;
pub mod sync;
pub mod execution;
pub mod effects;
pub mod frames;
pub mod readback;
pub mod ipc;
pub mod streams;
pub mod projects;
pub mod editor;
pub mod midi;
pub mod bridge;
pub mod session;
pub mod launcher_ui;
pub mod output_view;
