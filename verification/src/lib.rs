//! The verified core of a camera app for the Newbound app server: the camera
//! listings it reads, the command lines it runs, where it files video segments
//! and keyframes, and the bookkeeping of recording sessions.

pub mod text;
pub mod decimal;
pub mod clock;
pub mod paths;
pub mod commands;
pub mod probe;
pub mod session;
pub mod settings;
pub mod streams;
