//! The decisions of a virtual display driver.
//!
//! `proto` is the contract between the streaming host and the driver: wire structures,
//! result codes and object names. `session`, `identity`, `modes`, `edid`, `ring`,
//! `modepush` and `tdr` decide which requests are accepted, what the session table holds,
//! which frames a ring drops and when a mode list may be published. `dispatch` puts them
//! behind control requests, and `shell` behind the callbacks of the operating system.
//! `host` is the other side: the values of the host's C interface and a stress tool.
//!
//! Nothing here touches the operating system. Time, adapters, buffers and the results of
//! calls are handed in as values; what is to be done about them is handed back.

pub mod adapter;
pub mod dispatch;
pub mod edid;
pub mod error;
pub mod headers;
pub mod host;
pub mod identity;
pub mod idmap;
pub mod luminance;
pub mod modepush;
pub mod modes;
pub mod permanent;
pub mod persist;
pub mod proto;
pub mod ring;
pub mod session;
pub mod shell;
pub mod tdr;
