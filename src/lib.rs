//! Receive side of the active stage of a Remote Desktop Protocol client.
//!
//! - `framing`: the outer X.224 / fast-path framing of server PDUs.
//! - `mcs`, `share`, `transport`: the slow-path layers (X.224 data, MCS Send
//!   Data, static channel chunks, Share Control and Share Data headers).
//! - `x224`, `dvc`, `reassembly`, `gfx`: dispatch of slow-path PDUs to the
//!   global channel and to dynamic virtual channels, their reassembly, and
//!   the graphics pipeline channel.
//! - `fast_path`, `rfx`, `rfx_messages`, `rlgr`, `rfx_tile`, `dwt`, `region`,
//!   `image`: the RemoteFX decoder and the framebuffer it draws into.
//! - `session`: one pass of the active-stage loop.
use vstd::prelude::*;

pub mod dvc;
pub mod dwt;
pub mod error;
pub mod fast_path;
pub mod framing;
pub mod gfx;
pub mod image;
pub mod mcs;
pub mod reassembly;
pub mod region;
pub mod rfx;
pub mod rfx_messages;
pub mod rfx_tile;
pub mod rlgr;
pub mod session;
pub mod share;
pub mod transport;
pub mod wire;
pub mod x224;
pub mod zgfx;
