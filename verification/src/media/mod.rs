pub mod video_codec;
pub mod paths;
pub mod discover;
pub mod timebase;
pub mod stream;
pub mod io;
pub mod job;
