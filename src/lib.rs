//! Reading and writing the binary blob that holds a host's default
//! connection (proxy) settings.

pub mod bytes;
pub mod flags;
pub mod bypass;
pub mod codec;
pub mod settings;

pub use bypass::{join_bypass_list, parse_bypass_list, trim_str};
pub use codec::{DecodeError, EncodeError, Error};
pub use flags::{Flags, AUTO_DETECT, AUTO_PROXY_URL, DIRECT, PROXY};
pub use settings::{DefaultConnectionSettings, DEFAULT_RESERVED_A};
