//! Protocol messages exchanged between server and client, together with
//! their mathematical models used in contracts.

use vstd::prelude::*;

verus! {

/// One synchronized file as it travels over the wire: a workspace-relative
/// `name`, the full text `data`, and whether the client should treat the
/// entry as read-only.  A directory marker carries `data == "dir"` and
/// `read_only == true`; a deletion marker carries empty `data` and
/// `read_only == true`.
#[derive(Debug, Clone, PartialEq, Eq, Hash, PartialOrd, Ord)]
pub struct CCFsFile {
    pub name: String,
    pub data: String,
    pub read_only: bool,
}

/// One chunk of a streamed upload: the chunk itself and a flag that marks
/// the final chunk of the transfer.
#[derive(Debug, Clone, PartialEq, Eq, Hash, PartialOrd, Ord)]
pub struct CCPartialFile(pub CCFsFile, pub bool);

/// A client upload: either the complete content in one message, or one
/// chunk of a longer transfer.
#[derive(Debug, Clone, PartialEq, Eq, Hash, PartialOrd, Ord)]
pub enum CCFile {
    Full(CCFsFile),
    Partial(CCPartialFile),
}

/// Every protocol message.  `S2c` variants travel server to client only,
/// `C2s` variants client to server only; a server-direction variant
/// arriving from a client is a protocol violation.
#[derive(Debug, Clone, PartialEq, Eq, Hash, PartialOrd, Ord)]
pub enum PacketTypes {
    S2cHb,
    S2cSync,
    S2cSyncF(CCFsFile),
    C2sHb,
    C2sSync(CCFile),
    C2sComp(u32),
    C2sReady,
}

/// The envelope that actually goes on the wire: the packet under the
/// single key `p`.
#[derive(Debug, Clone)]
pub struct WsPacket {
    pub packet: PacketTypes,
}

/// Model of a [`CCFsFile`]: its strings as character sequences.
pub struct FileModel {
    pub name: Seq<char>,
    pub data: Seq<char>,
    pub read_only: bool,
}

/// Model of a [`CCFile`].
pub enum TransferModel {
    Full(FileModel),
    Partial(FileModel, bool),
}

/// Model of a [`PacketTypes`] value (and of the [`WsPacket`] that wraps it).
pub enum PacketModel {
    S2cHb,
    S2cSync,
    S2cSyncF(FileModel),
    C2sHb,
    C2sSync(TransferModel),
    C2sComp(u32),
    C2sReady,
}

impl View for CCFsFile {
    type V = FileModel;

    open spec fn view(&self) -> FileModel {
        FileModel { name: self.name@, data: self.data@, read_only: self.read_only }
    }
}

impl View for CCPartialFile {
    type V = (FileModel, bool);

    open spec fn view(&self) -> (FileModel, bool) {
        (self.0@, self.1)
    }
}

impl View for CCFile {
    type V = TransferModel;

    open spec fn view(&self) -> TransferModel {
        match self {
            CCFile::Full(f) => TransferModel::Full(f@),
            CCFile::Partial(p) => TransferModel::Partial(p.0@, p.1),
        }
    }
}

impl View for PacketTypes {
    type V = PacketModel;

    open spec fn view(&self) -> PacketModel {
        match self {
            PacketTypes::S2cHb => PacketModel::S2cHb,
            PacketTypes::S2cSync => PacketModel::S2cSync,
            PacketTypes::S2cSyncF(f) => PacketModel::S2cSyncF(f@),
            PacketTypes::C2sHb => PacketModel::C2sHb,
            PacketTypes::C2sSync(t) => PacketModel::C2sSync(t@),
            PacketTypes::C2sComp(id) => PacketModel::C2sComp(*id),
            PacketTypes::C2sReady => PacketModel::C2sReady,
        }
    }
}

impl View for WsPacket {
    type V = PacketModel;

    open spec fn view(&self) -> PacketModel {
        self.packet@
    }
}

impl WsPacket {
    /// Wraps a packet in the wire envelope.
    pub fn new(packet: PacketTypes) -> (r: Self)
        ensures
            r.packet == packet,
    {
        Self { packet }
    }
}

impl CCPartialFile {
    /// The chunk carried by this message.
    pub fn file(&self) -> (r: &CCFsFile)
        ensures
            r == self.0,
    {
        &self.0
    }

    /// True on the final chunk of a transfer.
    pub fn done(&self) -> (r: bool)
        ensures
            r == self.1,
    {
        self.1
    }
}

impl Default for CCFsFile {
    /// The empty file entry: empty name and data, writable.
    fn default() -> (r: Self)
        ensures
            r@.name.len() == 0,
            r@.data.len() == 0,
            !r@.read_only,
    {
        Self { name: String::new(), data: String::new(), read_only: false }
    }
}

impl Default for CCPartialFile {
    /// An empty, non-final chunk.
    fn default() -> (r: Self)
        ensures
            r@.0.name.len() == 0,
            r@.0.data.len() == 0,
            !r@.0.read_only,
            !r@.1,
    {
        Self(CCFsFile::default(), false)
    }
}

} // verus!
