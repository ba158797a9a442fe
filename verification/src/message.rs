use crate::addr::Addr;
use vstd::prelude::*;

verus! {

/// What a node wants done with an item once it has been located on the
/// network: save it to disk, remove it, play it, or relocate ("order") it
/// to a new holder.
#[derive(Clone, Copy, PartialEq, Eq, Structural, Debug)]
pub enum FileInstructions {
    Get,
    Remove,
    Play,
    Order,
}

/// How the node's own store changed, reported to the embedding
/// application so it can refresh whatever it shows the user.
#[derive(Clone, Copy, PartialEq, Eq, Structural, Debug)]
pub enum FileStatus {
    New,
    Delete,
}

/// A write acknowledgement sent back to the origin of a store request.
#[derive(Clone, PartialEq, Eq, Debug)]
pub enum Message {
    DataStored { key: String },
}

/// The content of one decoded wire message.  Membership tables travel as
/// plain entry lists here; the wire encoding that carries them is the
/// embedding application's concern.
#[derive(Clone, PartialEq, Eq, Debug)]
pub enum Content {
    /// Store an item and replicate it onward.
    PushToDB { key: String, value: Vec<u8>, from: Addr },
    /// Store an item as the single redundant copy pushed by `from`.
    RedundantPushToDB { key: String, value: Vec<u8>, from: Addr },
    /// Adopt a new name; the requested one was already taken.
    ChangePeerName { value: String },
    /// Merge these membership entries and re-broadcast the merged table.
    SendNetworkTable { entries: Vec<(String, Addr)> },
    /// Merge these membership entries without re-broadcasting.
    SendNetworkUpdateTable { entries: Vec<(String, Addr)> },
    /// Join handshake: asks for the table under a candidate name.
    RequestForTable { value: String },
    /// Locate an item somewhere on the network.
    FindFile { key: String },
    /// Existence query: does the receiver hold `key`?
    ExistFile { key: String, id: u64 },
    /// Existence response: the sender holds `key`.
    ExistFileResponse { key: String, id: u64 },
    /// Ask for an item's content, tagged by the original intent.
    GetFile { key: String, instr: FileInstructions },
    /// An item's content, tagged by the original intent.
    GetFileResponse { key: String, value: Vec<u8>, instr: FileInstructions },
    /// A write acknowledgement; produces no state change.
    Response { message: Message },
    /// The peer at `addr` is leaving the network.
    ExitPeer { addr: Addr },
    /// Remove this member from the membership table.
    DeleteFromNetwork { name: String },
    /// Fan a status request out to every known peer.
    SelfStatusRequest,
    /// Reply with the local item names and the node's name.
    StatusRequest,
    /// The item names one peer holds.
    StatusResponse { files: Vec<String>, name: String },
    /// Play a locally stored item.
    PlayAudioRequest { name: String },
    /// The peer at `addr` stopped answering and was declared lost.
    DroppedPeer { addr: Addr },
    /// Take over an item as its new redundant holder.
    OrderSongRequest { key: String },
    /// Drop the local copy of an item that was removed network-wide.
    DeleteFileRequest { key: String },
}

/// One wire message: a content plus the sender's address.
#[derive(Clone, PartialEq, Eq, Debug)]
pub struct Notification {
    pub content: Content,
    pub from: Addr,
}

/// An effect that a state transition asks its surroundings to perform.
/// The state machine never does I/O itself: it returns these, and the
/// embedding application sends, saves, plays, renders, or exits.
#[derive(Clone, PartialEq, Eq, Debug)]
pub enum Action {
    /// Encode `content` and send it to `to` over one connection.
    Send { to: Addr, content: Content },
    /// Hand the bytes to the disk-writing collaborator.
    SaveToDisk { key: String, value: Vec<u8> },
    /// Hand the bytes to the playback collaborator.
    Play { key: String, value: Vec<u8> },
    /// Hand another peer's item names to the display collaborator.
    ShowRemoteFiles { files: Vec<String>, name: String },
    /// The local store changed; the application may refresh its view.
    DatabaseChanged { key: String, status: FileStatus },
    /// Shut the process down; only an explicit leave produces this.
    Terminate,
}

} // verus!
