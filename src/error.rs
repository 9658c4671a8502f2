//! The error taxonomy of the active stage.
use vstd::prelude::*;

verus! {

/// Errors of the RemoteFX codec.
#[derive(Clone, Copy, Debug, PartialEq, Eq)]
pub enum RfxError {
    /// A message block is shorter than its header announces, or the input ends inside it.
    NotEnoughBytes,
    /// A block carries another type than the one expected at this point.
    UnexpectedBlockType(u16),
    /// A length field disagrees with the layout of its block.
    InvalidBlockLength,
    /// The entropy algorithm field holds neither RLGR1 nor RLGR3.
    InvalidEntropyAlgorithm(u16),
    /// A tile names a quantization table that the tile set does not carry.
    InvalidQuantIndex(u8),
    /// The RLGR stream of a tile component is malformed.
    RlgrFailed,
    /// A tile lies outside the 16-bit coordinate space.
    TileOutOfRange,
}

/// Errors of the active stage, from framing up to the codecs.
#[derive(Clone, Debug, PartialEq, Eq)]
pub enum RdpError {
    /// The input ends before the record does.
    NotEnoughBytes,
    /// The low two bits of the first byte select no known action.
    InvalidActionCode(u8),
    /// A fast-path packet announces a length shorter than its own header.
    NullLengthFastPath { bytes_read: usize },
    /// A length field disagrees with the record that holds it.
    InvalidLength,
    /// An X.224 Data TPDU header is malformed.
    X224Error,
    /// An MCS PDU is malformed or of a kind that this stage does not expect.
    McsError,
    /// The server sent an MCS Disconnect Provider Ultimatum with this reason.
    UnexpectedDisconnection(u8),
    /// Data arrived on a known static channel that this stage does not serve.
    UnexpectedChannel(u16),
    /// Data arrived on a static channel that was never joined.
    UnknownChannel(u16),
    /// A PDU was parsed but is not of the class expected here.
    UnexpectedPdu,
    /// A required field holds the wrong value (for example a channel id).
    InvalidResponse,
    /// The Share Control or Share Data header is malformed.
    ShareHeaderError,
    /// A Save Session Info PDU is malformed.
    SessionError(SessionError),
    /// The server reported an error through a Set Error Info PDU.
    ServerError(u32),
    /// A Send Data PDU on a static channel carries no user data.
    StaticChannelNotConnected,
    /// A dynamic virtual channel PDU is malformed.
    DvcError,
    /// A graphics pipeline PDU is malformed.
    GfxError,
    /// The ZGFX segment wrapper of a graphics pipeline message is malformed.
    ZgfxError,
    /// Data for a dynamic channel that is not open.
    AccessToNonExistingChannel(u32),
    /// A message for a dynamic channel name that is not open.
    AccessToNonExistingChannelName(String),
    /// A RemoteFX frame could not be decoded.
    Rfx(RfxError),
    /// The RemoteFX header messages lack the Context or the Channels message.
    MandatoryHeaderIsAbsent,
    /// The RemoteFX Channels message announces no channel.
    NoRfxChannelsAnnounced,
    /// A fast-path update PDU is malformed.
    FastPathError,
}

/// The errors by which the slow-path processor reports the channel of a PDU.
pub open spec fn is_channel_error(e: RdpError) -> bool {
    e is UnexpectedChannel || e is UnknownChannel
}

/// Errors of the Save Session Info PDU.
#[derive(Clone, Copy, Debug, PartialEq, Eq)]
pub enum SessionError {
    NotEnoughBytes,
    InvalidSaveSessionInfoType,
    InvalidDomainNameSize,
    InvalidUserNameSize,
    InvalidLogonVersion2,
    InvalidLogonVersion2Size,
    InvalidAutoReconnectPacketSize,
    InvalidAutoReconnectVersion,
    InvalidLogonErrorType,
    InvalidLogonErrorData,
}

} // verus!
