//! Translation of filesystem change notifications into outbound sync
//! packets.  The watcher itself lives outside; it hands in one event at a
//! time as plain values (kind, directory flag, path segments) together
//! with the file's text where one was read.

use vstd::prelude::*;
use crate::packet::{CCFsFile, PacketTypes};
use crate::wirepath::{is_under, to_wire, wire_of_spec};

verus! {

/// The kind of a filesystem change notification.
#[derive(Debug, Clone, Copy, PartialEq, Eq)]
pub enum FsEventKind {
    Created,
    Modified,
    Removed,
    Other,
}

/// The directory marker content.
pub open spec fn dir_marker() -> Seq<char> {
    seq!['d', 'i', 'r']
}

/// The sync packet for one change event already translated to a wire
/// name: directories are announced with the `dir` marker, regular files
/// with their full text, removals with empty read-only content; any other
/// event kind produces nothing.
pub fn sync_event_packet(kind: FsEventKind, is_dir: bool, name: String, data: String) -> (r:
    Option<PacketTypes>)
    ensures
        match r {
            Some(p) => match p@ {
                crate::packet::PacketModel::S2cSyncF(f) => {
                    &&& f.name == name@
                    &&& match kind {
                        FsEventKind::Created | FsEventKind::Modified => if is_dir {
                            f.data == dir_marker() && f.read_only
                        } else {
                            f.data == data@ && !f.read_only
                        },
                        FsEventKind::Removed => f.data.len() == 0 && f.read_only,
                        FsEventKind::Other => false,
                    }
                },
                _ => false,
            },
            None => kind == FsEventKind::Other,
        },
{
    match kind {
        FsEventKind::Created | FsEventKind::Modified => {
            if is_dir {
                let marker = String::from_str("dir");
                proof {
                    reveal_strlit("dir");
                    assert(marker@ =~= dir_marker());
                }
                Some(PacketTypes::S2cSyncF(CCFsFile { name, data: marker, read_only: true }))
            } else {
                Some(PacketTypes::S2cSyncF(CCFsFile { name, data, read_only: false }))
            }
        },
        FsEventKind::Removed => Some(
            PacketTypes::S2cSyncF(CCFsFile { name, data: String::new(), read_only: true }),
        ),
        FsEventKind::Other => None,
    }
}

/// The outbound packet for one raw change event: events whose path does
/// not lie under the bound workspace root are dropped, all others are
/// classified by [`sync_event_packet`] under their wire-relative name.
pub fn change_event_packet(
    abs: &Vec<String>,
    root: &Vec<String>,
    kind: FsEventKind,
    is_dir: bool,
    data: String,
) -> (r: Option<PacketTypes>)
    ensures
        match r {
            Some(p) => {
                &&& abs.deep_view().len() > root.deep_view().len()
                &&& abs.deep_view().subrange(0, root.deep_view().len() as int)
                    == root.deep_view()
                &&& match p@ {
                    crate::packet::PacketModel::S2cSyncF(f) => {
                        &&& f.name == wire_of_spec(abs.deep_view(), root.deep_view().len() as int)
                        &&& match kind {
                            FsEventKind::Created | FsEventKind::Modified => if is_dir {
                                f.data == dir_marker() && f.read_only
                            } else {
                                f.data == data@ && !f.read_only
                            },
                            FsEventKind::Removed => f.data.len() == 0 && f.read_only,
                            FsEventKind::Other => false,
                        }
                    },
                    _ => false,
                }
            },
            None => kind == FsEventKind::Other || !(abs.deep_view().len() > root.deep_view().len()
                && abs.deep_view().subrange(0, root.deep_view().len() as int) == root.deep_view()),
        },
{
    if is_under(abs, root) {
        let name = to_wire(abs, root.len());
        sync_event_packet(kind, is_dir, name, data)
    } else {
        None
    }
}

} // verus!
