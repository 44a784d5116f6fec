//! Build-time helper for driving the `xmake` build tool and reporting link
//! metadata back to the host build pipeline.
//!
//! The verified core of this crate is the line-oriented build-info decoding
//! protocol, the output channel filter that isolates the machine-readable
//! payload from the tool's mixed output stream, and the link-directive
//! emitter that reconciles declared links with the install directory.

pub mod config;
pub mod decode;
pub mod emit;
pub mod filter;
pub mod laws;
pub mod pathclean;
pub mod strutil;
pub mod version;

pub use config::Config;
pub use decode::BuildInfo;
pub use decode::InfoMap;
pub use decode::Link;
pub use decode::LinkKind;
pub use decode::ParsingError;
pub use decode::Source;
pub use decode::parse_info_pairs;
pub use decode::parse_scalar_field;
pub use decode::subkeys_of;
