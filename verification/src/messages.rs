//! What is said of a transfer: its status, its errors, the header of a file.

use vstd::prelude::*;

verus! {

/// How far a transfer has come.
pub enum RTCStatus {
    /// Received remote SDP offer/answer. Ready to start P2P connection.
    SdpExchanged,
    /// Opened data channel. Ready to send/receive data.
    Connected,
    /// Data channel closed. Connection is closed.
    Finished,
    /// Error occurred. Connection is closed.
    Error(String),
}

/// What an [`RTCStatus`] says.
pub enum StatusModel {
    SdpExchanged,
    Connected,
    Finished,
    Error(Seq<char>),
}

impl View for RTCStatus {
    type V = StatusModel;

    open spec fn view(&self) -> StatusModel {
        match self {
            RTCStatus::SdpExchanged => StatusModel::SdpExchanged,
            RTCStatus::Connected => StatusModel::Connected,
            RTCStatus::Finished => StatusModel::Finished,
            RTCStatus::Error(text) => StatusModel::Error(text@),
        }
    }
}

/// A file that could not be sent, and why.
pub struct RTCFileError {
    pub file_id: String,
    pub error: String,
}

/// What goes before the bytes of a file: which file it is, and the token that
/// the receiver gave out for it.
pub struct FileHeader {
    pub id: String,
    pub token: String,
}

/// Statuses that say the same are the same, error texts to the letter.
pub proof fn law_statuses_are_told_apart(a: RTCStatus, b: RTCStatus)
    requires
        a@ == b@,
    ensures
        match (a, b) {
            (RTCStatus::SdpExchanged, RTCStatus::SdpExchanged) => true,
            (RTCStatus::Connected, RTCStatus::Connected) => true,
            (RTCStatus::Finished, RTCStatus::Finished) => true,
            (RTCStatus::Error(x), RTCStatus::Error(y)) => x@ == y@,
            _ => false,
        },
{
}

} // verus!
