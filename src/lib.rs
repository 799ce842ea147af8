//! Core of the kaya sync agent: the credential vault, the native-messaging
//! frame codec, the settings record, the directory synchronisation planner and
//! the message dispatcher.

pub mod dispatch;
pub mod error;
pub mod framing;
pub mod mime;
pub mod paths;
pub mod settings;
pub mod sync;
pub mod text;
pub mod vault;
