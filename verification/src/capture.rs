//! The capture runtime on the USB side: DUML keep-alive commands, the EP0 event
//! stream, plug-in sessions and the video.
pub mod duml;
pub mod ep0;
pub mod options;
pub mod session;
pub mod video;

pub use self::duml::{build_command, crc16, crc8};
pub use self::options::{pick_udc, Options};
pub use self::session::Session;
pub use self::video::find_sps;
