//! Peer-to-peer video conferencing core.

pub mod addr;
pub mod audio;
pub mod audio_mixer;
pub mod b64;
pub mod bandwidth;
pub mod broadcaster;
pub mod control;
pub mod dispatch;
pub mod jitter;
pub mod kitty;
pub mod net;
pub mod peer_map;
pub mod pool;
pub mod protocol;
pub mod room;
pub mod session;
pub mod term;
pub mod text;
pub mod tui;
pub mod video_capture;
pub mod video_compositor;
pub mod video_decode;
pub mod video_display;
pub mod video_display_window;
pub mod video_encode;
pub mod vimage;
pub mod wire;
