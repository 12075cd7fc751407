//! The messages two transfer peers exchange.  Their byte encoding is done
//! outside the library; each travels as one length-prefixed frame
//! (see `wire`).
use vstd::prelude::*;

verus! {

/// Asks the receiver to take a file.
#[derive(Debug)]
pub struct TransferRequest {
    pub file_id: String,
    pub file_name: String,
    /// Where the file goes below the receiver's download directory, for a
    /// file that is part of a folder.
    pub relative_path: Option<String>,
    pub file_size: u64,
    pub chunk_size: u32,
    pub device_id: String,
    pub password_hash: Option<String>,
    /// How many data streams carry the chunks, when more than one.
    pub stream_count: Option<u32>,
}

/// The receiver's answer to a [`TransferRequest`].
#[derive(Debug)]
pub struct TransferResponse {
    pub file_id: String,
    pub accepted: bool,
    pub save_path: Option<String>,
    /// The first chunk the receiver still needs, when it already holds some.
    pub resume_from_chunk: Option<u32>,
}

/// One chunk of a file, with the CRC-32 of its bytes.
#[derive(Debug)]
pub struct ChunkData {
    pub file_id: String,
    pub chunk_index: u32,
    pub data: Vec<u8>,
    pub checksum: u32,
    pub compressed: bool,
}

#[derive(Debug)]
pub struct ChunkAck {
    pub file_id: String,
    pub chunk_index: u32,
}

/// The end of a file, with the SHA-256 of all its bytes.
#[derive(Debug)]
pub struct TransferComplete {
    pub file_id: String,
    pub file_hash: [u8; 32],
}

#[derive(Debug)]
pub struct TransferError {
    pub file_id: String,
    pub error: String,
}

#[derive(Debug)]
pub struct AuthRequest {
    pub device_id: String,
    pub password_hash: Option<String>,
}

#[derive(Debug)]
pub struct AuthResponse {
    pub accepted: bool,
    pub reason: Option<String>,
}

/// A chat message sent directly to a peer.
#[derive(Debug)]
pub struct TextMessage {
    pub id: String,
    pub from_instance_id: String,
    pub from_instance_name: String,
    pub content: String,
    /// Milliseconds since the Unix epoch.
    pub timestamp: u64,
}

#[derive(Debug)]
pub struct TextAck {
    pub message_id: String,
}

/// Opens one of the several data streams of a transfer.
#[derive(Debug)]
pub struct DataStreamHeader {
    pub file_id: String,
    pub stream_index: u32,
}

#[derive(Debug)]
pub enum Message {
    TransferRequest(TransferRequest),
    TransferResponse(TransferResponse),
    ChunkData(ChunkData),
    ChunkAck(ChunkAck),
    TransferComplete(TransferComplete),
    TransferError(TransferError),
    AuthRequest(AuthRequest),
    AuthResponse(AuthResponse),
    TextMessage(TextMessage),
    TextAck(TextAck),
    DataStreamHeader(DataStreamHeader),
}

} // verus!
