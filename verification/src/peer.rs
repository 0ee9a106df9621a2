//! How the two sides connect to each other.

use vstd::prelude::*;

verus! {

/// The label of the data channel that files go through.
pub const CHANNEL_LABEL: &'static str = "data";

/// Whether a data channel with this label is the one that files go through.
pub fn is_file_channel(label: &str) -> (yes: bool)
    ensures
        yes == (label@ == "data"@),
{
    label.to_owned() == CHANNEL_LABEL.to_owned()
}

/// How a data channel delivers: in order or not, how long or how often it tries,
/// which protocol runs over it, and under which number it was agreed upon.
pub struct ChannelOptions {
    pub ordered: Option<bool>,
    pub max_packet_life_time: Option<u16>,
    pub max_retransmits: Option<u16>,
    pub protocol: Option<String>,
    pub negotiated: Option<u16>,
}

/// How the channel that files go through delivers: in order, and with nothing
/// else settled.
pub fn file_channel_options() -> (options: ChannelOptions)
    ensures
        options == (ChannelOptions {
            ordered: Some(true),
            max_packet_life_time: None,
            max_retransmits: None,
            protocol: None,
            negotiated: None,
        }),
{
    ChannelOptions {
        ordered: Some(true),
        max_packet_life_time: None,
        max_retransmits: None,
        protocol: None,
        negotiated: None,
    }
}

/// The server that a peer learns its own address from.
pub fn ice_server_url() -> (url: String)
    ensures
        url@ == "stun:stun.l.google.com:19302"@,
{
    "stun:stun.l.google.com:19302".to_owned()
}

/// How the connection to the peer stands.
pub enum PeerState {
    Unspecified,
    New,
    Connecting,
    Connected,
    Disconnected,
    Failed,
    Closed,
}

/// Whether the transfer is over once the connection stands so: it is when the
/// connection has failed. One that is merely interrupted may come back.
pub fn ends_transfer(state: &PeerState) -> (yes: bool)
    ensures
        yes == (state is Failed),
{
    matches!(state, PeerState::Failed)
}

} // verus!
