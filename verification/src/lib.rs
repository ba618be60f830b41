//! Moving one file or directory between two machines that share nothing but
//! a screen and a webcam each.
//!
//! The library holds the protocol: the frame envelope, the link handshake,
//! the windowed transfer, the fallback ladder, and the decisions behind the
//! packing step and the terminal interface. Everything that touches a camera,
//! a terminal or a file lives in the program around it.
pub mod accepting;
pub mod agreement;
pub mod cli;
pub mod clock;
pub mod completion;
pub mod delivery;
pub mod detect;
pub mod digest;
pub mod error;
pub mod frame;
pub mod ladder;
pub mod link;
pub mod link_recv;
pub mod link_send;
pub mod live;
pub mod machine;
pub mod offering;
pub mod operator;
pub mod optical;
pub mod pack;
pub mod qr;
pub mod receive;
pub mod receiving;
pub mod sending;
pub mod recovery;
pub mod session;
pub mod text;
pub mod transport;
pub mod tui;
pub mod window;
pub mod wire;

pub use error::{Error, Result};
