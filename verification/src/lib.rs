//! Frame model and viewer logic for comparing two raw YUV 4:2:0 video files: the frames
//! and their difference, a reader's position in a file, the display settings and how
//! user input changes them, and the geometry of what the window shows.
pub mod yuv;
pub mod reader;
pub mod ui;
pub mod layout;
