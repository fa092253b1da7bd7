//! Synchronous access to a TNRG BitBabbler White or Black hardware RNG.
//!
//! The USB stack is reached through [`transport::UsbHandle`] and
//! [`transport::UsbBackend`]; everything above them — device selection,
//! FTDI/MPSSE framing and status checks, retries, folding and range
//! sampling — is verified here.

pub mod device;
pub mod error;
pub mod fold;
pub mod policy;
pub mod protocol;
pub mod transport;

pub use device::{BitBabbler, DeviceInfo, DeviceVariant};
pub use error::{BitBabblerError, ProtocolOperation, UsbErrorKind, UsbOperation};
pub use fold::Fold;
