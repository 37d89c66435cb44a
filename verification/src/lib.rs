//! Verified core of a small file-synchronization server.
//!
//! A client connects over a bidirectional byte-stream, binds a workspace
//! id, and exchanges compressed packets with the server: heartbeats, full
//! and partial file uploads, and change notifications for the watched
//! workspace directory.  Everything that decides or computes lives here;
//! the transport, the filesystem and the watcher are driven from outside
//! through plain values and the actions this library hands back.

use vstd::prelude::*;

pub mod packet;
pub mod strutil;
pub mod codec;
pub mod events;
pub mod json;
pub mod session;
pub mod wirepath;

verus! {

/// A session is considered dead when more than this many time-units have
/// passed since the last client heartbeat.
pub const HEARTBEAT_TIMEOUT: u64 = 10;

/// True iff the client has missed the heartbeat window: strictly more than
/// [`HEARTBEAT_TIMEOUT`] time-units have elapsed since `last_hb`.
/// A clock reading earlier than `last_hb` never counts as a timeout.
pub fn heartbeat_expired(now: u64, last_hb: u64) -> (r: bool)
    ensures
        r <==> now > last_hb + HEARTBEAT_TIMEOUT,
{
    now > last_hb && now - last_hb > HEARTBEAT_TIMEOUT
}

/// The bootstrap command handed to a client that fetched `/start`: a
/// one-liner that downloads and runs the loader from this host.
pub fn start_script(addr: &String) -> (r: String)
    ensures
        r@ == "shell.run('wget run http://"@ + addr@ + "/init.lua "@ + addr@ + "')"@,
{
    let mut out = String::new();
    out.append("shell.run('wget run http://");
    out.append(addr.as_str());
    out.append("/init.lua ");
    out.append(addr.as_str());
    out.append("')");
    proof {
        assert(out@ =~= "shell.run('wget run http://"@ + addr@ + "/init.lua "@ + addr@ + "')"@);
    }
    out
}

} // verus!
