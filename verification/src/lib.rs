//! The decisions of a fighting-game mod editor: what it says to the running game and makes of the
//! answers, which project it offers to resume, where the files of a mod belong, and which of them
//! make up a live preview of a costume.
//!
//! Everything here works on plain values. Texts stand for paths, bit patterns for floating-point
//! numbers, nanoseconds for points in time, and listings for folders; sockets, files and the formats
//! of outside crates are left to the application around it.
pub mod address;
pub mod carrier;
pub mod events;
pub mod float;
pub mod frames;
pub mod hub;
pub mod inventory;
pub mod json;
pub mod link;
pub mod motions;
pub mod ordering;
pub mod outbox;
pub mod overrides;
pub mod paths;
pub mod pool;
pub mod preparation;
pub mod reader;
pub mod selection;
pub mod session;
pub mod snapshots;
pub mod sorted;
pub mod support;
pub mod text;
pub mod textures;
pub mod transfer;
pub mod wire;
pub mod workspace;
