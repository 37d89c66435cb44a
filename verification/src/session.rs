//! The per-connection session state machine.  Every decision the server
//! takes for one connection is a pure step from the session state and an
//! input (an inbound packet, a timer tick, a transport close) to the next
//! state and a list of actions; the caller performs the actions (sends,
//! filesystem writes, watch toggles) in order.

use vstd::prelude::*;
use crate::packet::{CCFile, FileModel, PacketModel, PacketTypes, TransferModel};
use crate::strutil::{dec_nat, u32_to_dec};
use crate::wirepath::{join_from, join_slash, local_path_spec, to_local, wire_name_ok};
use crate::HEARTBEAT_TIMEOUT;

verus! {

/// One side effect the caller must perform.
#[derive(Debug, Clone)]
pub enum Action {
    /// Encode this packet and send it over the connection.
    Send(PacketTypes),
    /// Create this directory and any missing parents.
    EnsureDir(String),
    /// Write `data` as the complete content of the file at `path`,
    /// replacing what was there.
    WriteFull { path: String, data: String },
    /// Create (or truncate) the file at `path` and keep it open as the
    /// transfer handle registered under `name`.
    OpenHandle { name: String, path: String },
    /// Append `data` to the open transfer handle registered under `name`.
    AppendHandle { name: String, path: String, data: String },
    /// Close and drop the transfer handle registered under `name`.
    CloseHandle { name: String },
    /// Start watching this directory recursively.
    Watch(String),
    /// Stop watching this directory.
    Unwatch(String),
    /// Close the connection; nothing may be sent after this.
    CloseConnection,
}

/// Model of an [`Action`].
pub enum ActionModel {
    Send(PacketModel),
    EnsureDir(Seq<char>),
    WriteFull { path: Seq<char>, data: Seq<char> },
    OpenHandle { name: Seq<char>, path: Seq<char> },
    AppendHandle { name: Seq<char>, path: Seq<char>, data: Seq<char> },
    CloseHandle { name: Seq<char> },
    Watch(Seq<char>),
    Unwatch(Seq<char>),
    CloseConnection,
}

impl View for Action {
    type V = ActionModel;

    open spec fn view(&self) -> ActionModel {
        match self {
            Action::Send(p) => ActionModel::Send(p@),
            Action::EnsureDir(d) => ActionModel::EnsureDir(d@),
            Action::WriteFull { path, data } => ActionModel::WriteFull {
                path: path@,
                data: data@,
            },
            Action::OpenHandle { name, path } => ActionModel::OpenHandle {
                name: name@,
                path: path@,
            },
            Action::AppendHandle { name, path, data } => ActionModel::AppendHandle {
                name: name@,
                path: path@,
                data: data@,
            },
            Action::CloseHandle { name } => ActionModel::CloseHandle { name: name@ },
            Action::Watch(d) => ActionModel::Watch(d@),
            Action::Unwatch(d) => ActionModel::Unwatch(d@),
            Action::CloseConnection => ActionModel::CloseConnection,
        }
    }
}

impl DeepView for Action {
    type V = ActionModel;

    open spec fn deep_view(&self) -> ActionModel {
        self@
    }
}

/// Model of a [`Session`]: open transfer handles as `(name, path)` pairs
/// in the order they were opened.
pub struct SessionModel {
    pub last_hb: u64,
    pub comp_id: u32,
    pub parts: Seq<(Seq<char>, Seq<char>)>,
    pub watch_active: bool,
    pub closed: bool,
}

/// Per-connection session state.
#[derive(Debug)]
pub struct Session {
    /// Time-unit stamp of the last heartbeat received from the client.
    pub last_hb: u64,
    /// The bound workspace id; 0 until the client binds one.
    pub comp_id: u32,
    /// Open partial-transfer handles: the wire name and the local path of
    /// each file whose upload has started and is not yet done.
    pub parts: Vec<(String, String)>,
    /// True after the client announced it is ready and the workspace
    /// directory is being watched.
    pub watch_active: bool,
    /// True once the session has terminated; no step accepts a closed
    /// session.
    pub closed: bool,
}

impl View for Session {
    type V = SessionModel;

    open spec fn view(&self) -> SessionModel {
        SessionModel {
            last_hb: self.last_hb,
            comp_id: self.comp_id,
            parts: Seq::new(self.parts@.len(), |i: int| (self.parts@[i].0@, self.parts@[i].1@)),
            watch_active: self.watch_active,
            closed: self.closed,
        }
    }
}

/// The segments of the workspace directory for id `id`: `./comp/<id>`.
pub open spec fn comp_root_spec(id: u32) -> Seq<Seq<char>> {
    seq![seq!['.'], seq!['c', 'o', 'm', 'p'], dec_nat(id as nat)]
}

/// The workspace directory for id `id` as a path string.
pub open spec fn comp_root_str(id: u32) -> Seq<char> {
    join_slash(comp_root_spec(id))
}

/// The local path string a wire name resolves to under workspace `id`.
pub open spec fn local_file_str(id: u32, name: Seq<char>) -> Seq<char> {
    join_slash(local_path_spec(name, comp_root_spec(id)))
}

/// The parent directory of that path, as a string.
pub open spec fn local_parent_str(id: u32, name: Seq<char>) -> Seq<char> {
    join_slash(local_path_spec(name, comp_root_spec(id)).drop_last())
}

/// True iff a transfer handle is registered under `name`.
pub open spec fn has_part(parts: Seq<(Seq<char>, Seq<char>)>, name: Seq<char>) -> bool {
    exists|i: int| 0 <= i < parts.len() && parts[i].0 == name
}

/// The index of the handle registered under `name`.
pub open spec fn part_index(parts: Seq<(Seq<char>, Seq<char>)>, name: Seq<char>) -> int
    decreases parts.len(),
{
    if parts.len() == 0 {
        0
    } else if parts[0].0 == name {
        0
    } else {
        1 + part_index(parts.drop_first(), name)
    }
}

/// `parts` with the handle registered under `name` removed.
pub open spec fn remove_part(parts: Seq<(Seq<char>, Seq<char>)>, name: Seq<char>) -> Seq<
    (Seq<char>, Seq<char>),
> {
    let i = part_index(parts, name);
    parts.subrange(0, i) + parts.subrange(i + 1, parts.len() as int)
}

/// The actions that release a session's resources: close every open
/// transfer handle in order, then stop the watch if one is active.
/// None of them sends anything.
pub open spec fn cleanup_actions(s: SessionModel) -> Seq<ActionModel> {
    Seq::new(s.parts.len(), |i: int| ActionModel::CloseHandle { name: s.parts[i].0 }) + if s
        .watch_active {
        seq![ActionModel::Unwatch(comp_root_str(s.comp_id))]
    } else {
        Seq::<ActionModel>::empty()
    }
}

/// The closed session that `s` becomes on termination.
pub open spec fn closed_state(s: SessionModel) -> SessionModel {
    SessionModel {
        parts: Seq::empty(),
        watch_active: false,
        closed: true,
        ..s
    }
}

/// Termination by the server (heartbeat timeout or protocol violation):
/// release everything, then drop the connection.
pub open spec fn close_step(s: SessionModel) -> (SessionModel, Seq<ActionModel>) {
    (closed_state(s), cleanup_actions(s).push(ActionModel::CloseConnection))
}

/// What one inbound client packet does to the session.
pub open spec fn step_packet(s: SessionModel, now: u64, p: PacketModel) -> (
    SessionModel,
    Seq<ActionModel>,
) {
    match p {
        PacketModel::C2sHb => (SessionModel { last_hb: now, ..s }, Seq::empty()),
        PacketModel::C2sComp(id) => (
            SessionModel { comp_id: id, ..s },
            seq![ActionModel::EnsureDir(comp_root_str(id))],
        ),
        PacketModel::C2sReady => (
            SessionModel { watch_active: true, ..s },
            seq![ActionModel::Watch(comp_root_str(s.comp_id))],
        ),
        PacketModel::C2sSync(t) => step_transfer(s, t),
        // A server-direction packet from the client is a protocol
        // violation: terminate.
        PacketModel::S2cHb | PacketModel::S2cSync | PacketModel::S2cSyncF(_) => close_step(s),
    }
}

/// What one upload message does to the session.
pub open spec fn step_transfer(s: SessionModel, t: TransferModel) -> (
    SessionModel,
    Seq<ActionModel>,
) {
    match t {
        TransferModel::Full(f) => {
            if wire_name_ok(f.name) {
                (
                    s,
                    seq![
                        ActionModel::EnsureDir(local_parent_str(s.comp_id, f.name)),
                        ActionModel::WriteFull {
                            path: local_file_str(s.comp_id, f.name),
                            data: f.data,
                        },
                    ],
                )
            } else {
                (s, Seq::empty())
            }
        },
        TransferModel::Partial(f, done) => {
            if wire_name_ok(f.name) {
                let path = local_file_str(s.comp_id, f.name);
                if has_part(s.parts, f.name) {
                    // The upload continues into the handle it was opened
                    // with, at the path recorded when it was opened.
                    let stored = s.parts[part_index(s.parts, f.name)].1;
                    let append = ActionModel::AppendHandle {
                        name: f.name,
                        path: stored,
                        data: f.data,
                    };
                    if done {
                        (
                            SessionModel { parts: remove_part(s.parts, f.name), ..s },
                            seq![append, ActionModel::CloseHandle { name: f.name }],
                        )
                    } else {
                        (s, seq![append])
                    }
                } else {
                    let open_acts = seq![
                        ActionModel::EnsureDir(local_parent_str(s.comp_id, f.name)),
                        ActionModel::OpenHandle { name: f.name, path },
                        ActionModel::AppendHandle { name: f.name, path, data: f.data },
                    ];
                    if done {
                        (s, open_acts.push(ActionModel::CloseHandle { name: f.name }))
                    } else {
                        (SessionModel { parts: s.parts.push((f.name, path)), ..s }, open_acts)
                    }
                }
            } else {
                (s, Seq::empty())
            }
        },
    }
}

/// What one heartbeat-timer tick does: terminate a session whose client
/// has been silent for more than the timeout, otherwise send a heartbeat.
pub open spec fn step_hb_tick(s: SessionModel, now: u64) -> (SessionModel, Seq<ActionModel>) {
    if now > s.last_hb + HEARTBEAT_TIMEOUT {
        close_step(s)
    } else {
        (s, seq![ActionModel::Send(PacketModel::S2cHb)])
    }
}

/// A session whose client has missed the heartbeat window is terminated
/// by the very tick that observes it, whenever that tick runs.
pub proof fn lemma_heartbeat_timeout(s: SessionModel, now: u64)
    requires
        now > s.last_hb + HEARTBEAT_TIMEOUT,
    ensures
        step_hb_tick(s, now).0.closed,
        step_hb_tick(s, now).1.last() == ActionModel::CloseConnection,
{
}

/// Nothing is sent while a session terminates, and a closed session
/// takes no further step, so no frame follows the close.
pub proof fn lemma_close_sends_nothing(s: SessionModel)
    ensures
        forall|i: int|
            0 <= i < close_step(s).1.len() ==> !(#[trigger] close_step(s).1[i] is Send),
        close_step(s).0.closed,
{
    let acts = close_step(s).1;
    assert forall|i: int| 0 <= i < acts.len() implies !(#[trigger] acts[i] is Send) by {
        if i < cleanup_actions(s).len() {
            if i < s.parts.len() {
                assert(acts[i] == (ActionModel::CloseHandle { name: s.parts[i].0 }));
            } else {
                assert(acts[i] == ActionModel::Unwatch(comp_root_str(s.comp_id)));
            }
        } else {
            assert(acts[i] == ActionModel::CloseConnection);
        }
    }
}

impl Session {
    /// A fresh session at clock reading `now`: workspace 0, no open
    /// handles, not watching.
    pub fn new(now: u64) -> (r: Session)
        ensures
            r@ == (SessionModel {
                last_hb: now,
                comp_id: 0,
                parts: Seq::empty(),
                watch_active: false,
                closed: false,
            }),
    {
        let r = Session {
            last_hb: now,
            comp_id: 0,
            parts: Vec::new(),
            watch_active: false,
            closed: false,
        };
        proof {
            assert(r@.parts =~= Seq::<(Seq<char>, Seq<char>)>::empty());
        }
        r
    }

    /// On connection start: announce a fresh session so the client drops
    /// any prior assumptions and expects a full resync.
    pub fn on_start(&self) -> (r: Vec<Action>)
        requires
            !self.closed,
        ensures
            r.deep_view() =~= seq![ActionModel::Send(PacketModel::S2cSync)],
    {
        let mut acts: Vec<Action> = Vec::new();
        acts.push(Action::Send(PacketTypes::S2cSync));
        acts
    }

    /// One heartbeat-timer tick.
    pub fn hb_tick(&mut self, now: u64) -> (r: Vec<Action>)
        requires
            !old(self).closed,
        ensures
            final(self)@ == step_hb_tick(old(self)@, now).0,
            r.deep_view() =~= step_hb_tick(old(self)@, now).1,
    {
        if crate::heartbeat_expired(now, self.last_hb) {
            self.close_now()
        } else {
            let mut acts: Vec<Action> = Vec::new();
            acts.push(Action::Send(PacketTypes::S2cHb));
            acts
        }
    }

    /// On transport close (the client disconnected): release handles and
    /// the watch; content already written stays on disk.
    pub fn on_transport_close(&mut self) -> (r: Vec<Action>)
        requires
            !old(self).closed,
        ensures
            final(self)@ == closed_state(old(self)@),
            r.deep_view() =~= cleanup_actions(old(self)@),
    {
        let mut acts: Vec<Action> = Vec::new();
        let ghost m = self@;
        let mut k: usize = 0;
        while k < self.parts.len()
            invariant
                k <= self.parts.len(),
                self@ == m,
                acts@.len() == k,
                forall|i: int|
                    0 <= i < k ==> (#[trigger] acts@[i])@ == (ActionModel::CloseHandle {
                        name: m.parts[i].0,
                    }),
            decreases self.parts.len() - k,
        {
            let name = self.parts[k].0.clone();
            proof {
                assert(name@ == m.parts[k as int].0);
            }
            acts.push(Action::CloseHandle { name });
            k += 1;
        }
        if self.watch_active {
            let root = comp_root_string(self.comp_id);
            acts.push(Action::Unwatch(root));
        }
        self.parts = Vec::new();
        self.watch_active = false;
        self.closed = true;
        proof {
            assert(self@.parts =~= Seq::<(Seq<char>, Seq<char>)>::empty());
            assert(self@ == closed_state(m));
            assert forall|i: int| 0 <= i < acts@.len() implies acts.deep_view()[i]
                == cleanup_actions(m)[i] by {
                assert(acts.deep_view()[i] == acts@[i]@);
                if i < m.parts.len() {
                    assert(cleanup_actions(m)[i] == (ActionModel::CloseHandle {
                        name: m.parts[i].0,
                    }));
                } else {
                    assert(cleanup_actions(m)[i] == ActionModel::Unwatch(comp_root_str(m.comp_id)));
                }
            }
            assert(acts.deep_view() =~= cleanup_actions(m));
        }
        acts
    }

    /// Terminate on the server's initiative: release everything, then
    /// drop the connection.
    pub(crate) fn close_now(&mut self) -> (r: Vec<Action>)
        requires
            !old(self).closed,
        ensures
            final(self)@ == close_step(old(self)@).0,
            r.deep_view() =~= close_step(old(self)@).1,
    {
        let ghost m = self@;
        let mut acts = self.on_transport_close();
        acts.push(Action::CloseConnection);
        proof {
            assert(acts.deep_view() =~= cleanup_actions(m).push(ActionModel::CloseConnection));
        }
        acts
    }

    /// The index of the open transfer handle for `name`, if any.
    fn find_part(&self, name: &String) -> (r: Option<usize>)
        ensures
            match r {
                Some(i) => {
                    &&& has_part(self@.parts, name@)
                    &&& i < self.parts@.len()
                    &&& i == part_index(self@.parts, name@)
                    &&& self@.parts[i as int].0 == name@
                },
                None => !has_part(self@.parts, name@),
            },
    {
        let mut k: usize = 0;
        while k < self.parts.len()
            invariant
                k <= self.parts.len(),
                forall|j: int| 0 <= j < k ==> (#[trigger] self@.parts[j]).0 != name@,
            decreases self.parts.len() - k,
        {
            if self.parts[k].0 == *name {
                proof {
                    assert(self@.parts[k as int].0 == name@);
                    lemma_part_index_first(self@.parts, name@, k as int);
                }
                return Some(k);
            }
            proof {
                assert(self@.parts[k as int].0 == self.parts@[k as int].0@);
            }
            k += 1;
        }
        proof {
            assert forall|i: int| 0 <= i < self@.parts.len() implies (#[trigger] self@.parts[i]).0
                != name@ by {}
        }
        None
    }

    /// One inbound upload message.
    pub fn handle_transfer(&mut self, t: CCFile) -> (r: Vec<Action>)
        requires
            !old(self).closed,
        ensures
            final(self)@ == step_transfer(old(self)@, t@).0,
            r.deep_view() =~= step_transfer(old(self)@, t@).1,
    {
        let ghost m = self@;
        match t {
            CCFile::Full(f) => {
                let root = comp_root_segments(self.comp_id);
                match to_local(&f.name, &root) {
                    Some(pathsegs) => {
                        proof {
                            crate::wirepath::lemma_split_len(f.name@);
                            assert(pathsegs.deep_view().len() >= 4);
                        }
                        let parent = crate::wirepath::join_prefix(&pathsegs, pathsegs.len() - 1);
                        let path = join_from(&pathsegs, 0);
                        proof {
                            assert(pathsegs.deep_view().subrange(
                                0,
                                pathsegs.deep_view().len() - 1,
                            ) =~= local_path_spec(f.name@, comp_root_spec(m.comp_id)).drop_last());
                            assert(pathsegs.deep_view().subrange(
                                0,
                                pathsegs.deep_view().len() as int,
                            ) =~= local_path_spec(f.name@, comp_root_spec(m.comp_id)));
                        }
                        let mut acts: Vec<Action> = Vec::new();
                        acts.push(Action::EnsureDir(parent));
                        acts.push(Action::WriteFull { path, data: f.data });
                        proof {
                            assert(acts.deep_view() =~= step_transfer(m, t@).1);
                        }
                        acts
                    },
                    None => {
                        let acts: Vec<Action> = Vec::new();
                        proof {
                            assert(acts.deep_view() =~= Seq::<ActionModel>::empty());
                        }
                        acts
                    },
                }
            },
            CCFile::Partial(pf) => {
                let done = pf.1;
                let f = pf.0;
                let root = comp_root_segments(self.comp_id);
                match to_local(&f.name, &root) {
                    None => {
                        let acts: Vec<Action> = Vec::new();
                        proof {
                            assert(acts.deep_view() =~= Seq::<ActionModel>::empty());
                        }
                        acts
                    },
                    Some(pathsegs) => {
                        proof {
                            crate::wirepath::lemma_split_len(f.name@);
                            assert(pathsegs.deep_view().len() >= 4);
                            assert(pathsegs.deep_view().subrange(
                                0,
                                pathsegs.deep_view().len() as int,
                            ) =~= local_path_spec(f.name@, comp_root_spec(m.comp_id)));
                        }
                        match self.find_part(&f.name) {
                            Some(idx) => {
                                let stored_path = self.parts[idx].1.clone();
                                proof {
                                    assert(stored_path@ == m.parts[idx as int].1);
                                }
                                let mut acts: Vec<Action> = Vec::new();
                                acts.push(
                                    Action::AppendHandle {
                                        name: f.name.clone(),
                                        path: stored_path,
                                        data: f.data,
                                    },
                                );
                                if done {
                                    self.parts.remove(idx);
                                    acts.push(Action::CloseHandle { name: f.name });
                                    proof {
                                        assert(self@.parts =~= remove_part(m.parts, f.name@));
                                        assert(self@ == (SessionModel {
                                            parts: remove_part(m.parts, f.name@),
                                            ..m
                                        }));
                                        assert(acts.deep_view() =~= step_transfer(m, t@).1);
                                    }
                                } else {
                                    proof {
                                        assert(self@ == m);
                                        assert(acts.deep_view() =~= step_transfer(m, t@).1);
                                    }
                                }
                                acts
                            },
                            None => {
                                let parent = crate::wirepath::join_prefix(
                                    &pathsegs,
                                    pathsegs.len() - 1,
                                );
                                let path = join_from(&pathsegs, 0);
                                proof {
                                    assert(pathsegs.deep_view().subrange(
                                        0,
                                        pathsegs.deep_view().len() - 1,
                                    ) =~= local_path_spec(
                                        f.name@,
                                        comp_root_spec(m.comp_id),
                                    ).drop_last());
                                }
                                let mut acts: Vec<Action> = Vec::new();
                                acts.push(Action::EnsureDir(parent));
                                acts.push(
                                    Action::OpenHandle { name: f.name.clone(), path: path.clone() },
                                );
                                acts.push(
                                    Action::AppendHandle {
                                        name: f.name.clone(),
                                        path: path.clone(),
                                        data: f.data,
                                    },
                                );
                                if done {
                                    acts.push(Action::CloseHandle { name: f.name });
                                    proof {
                                        assert(self@ == m);
                                        assert(acts.deep_view() =~= step_transfer(m, t@).1);
                                    }
                                } else {
                                    self.parts.push((f.name, path));
                                    proof {
                                        assert(self@.parts =~= m.parts.push(
                                            (
                                                f.name@,
                                                local_file_str(m.comp_id, f.name@),
                                            ),
                                        ));
                                        assert(self@ == (SessionModel {
                                            parts: m.parts.push(
                                                (f.name@, local_file_str(m.comp_id, f.name@)),
                                            ),
                                            ..m
                                        }));
                                        assert(acts.deep_view() =~= step_transfer(m, t@).1);
                                    }
                                }
                                acts
                            },
                        }
                    },
                }
            },
        }
    }

    /// One inbound packet from the client.
    pub fn handle_packet(&mut self, now: u64, p: PacketTypes) -> (r: Vec<Action>)
        requires
            !old(self).closed,
        ensures
            final(self)@ == step_packet(old(self)@, now, p@).0,
            r.deep_view() =~= step_packet(old(self)@, now, p@).1,
    {
        let ghost m = self@;
        match p {
            PacketTypes::C2sHb => {
                self.last_hb = now;
                let acts: Vec<Action> = Vec::new();
                proof {
                    assert(self@ == (SessionModel { last_hb: now, ..m }));
                    assert(acts.deep_view() =~= Seq::<ActionModel>::empty());
                }
                acts
            },
            PacketTypes::C2sComp(id) => {
                self.comp_id = id;
                let mut acts: Vec<Action> = Vec::new();
                acts.push(Action::EnsureDir(comp_root_string(id)));
                proof {
                    assert(self@ == (SessionModel { comp_id: id, ..m }));
                    assert(acts.deep_view() =~= seq![ActionModel::EnsureDir(comp_root_str(id))]);
                }
                acts
            },
            PacketTypes::C2sReady => {
                let root = comp_root_string(self.comp_id);
                self.watch_active = true;
                let mut acts: Vec<Action> = Vec::new();
                acts.push(Action::Watch(root));
                proof {
                    assert(self@ == (SessionModel { watch_active: true, ..m }));
                    assert(acts.deep_view() =~= seq![
                        ActionModel::Watch(comp_root_str(m.comp_id)),
                    ]);
                }
                acts
            },
            PacketTypes::C2sSync(t) => self.handle_transfer(t),
            PacketTypes::S2cHb | PacketTypes::S2cSync | PacketTypes::S2cSyncF(_) => {
                self.close_now()
            },
        }
    }
}

/// No two open handles share a name.
pub open spec fn parts_wf(parts: Seq<(Seq<char>, Seq<char>)>) -> bool {
    forall|i: int, j: int|
        0 <= i < j < parts.len() ==> (#[trigger] parts[i]).0 != (#[trigger] parts[j]).0
}

/// Model of the disk as far as the session's actions touch it: the text
/// at each path.  Directory creation, sends and watch toggles leave it
/// unchanged; a full write replaces the text, opening a handle truncates
/// it, appending through a handle extends it.
pub open spec fn apply_action(fs: Map<Seq<char>, Seq<char>>, a: ActionModel) -> Map<
    Seq<char>,
    Seq<char>,
> {
    match a {
        ActionModel::WriteFull { path, data } => fs.insert(path, data),
        ActionModel::OpenHandle { name, path } => fs.insert(path, Seq::empty()),
        ActionModel::AppendHandle { name, path, data } => fs.insert(
            path,
            if fs.contains_key(path) {
                fs[path] + data
            } else {
                data
            },
        ),
        _ => fs,
    }
}

/// The disk after a list of actions, applied in order.
pub open spec fn apply_actions(fs: Map<Seq<char>, Seq<char>>, acts: Seq<ActionModel>) -> Map<
    Seq<char>,
    Seq<char>,
>
    decreases acts.len(),
{
    if acts.len() == 0 {
        fs
    } else {
        apply_actions(apply_action(fs, acts[0]), acts.drop_first())
    }
}

/// The concatenation of chunk contents in order.
pub open spec fn concat_chunks(chunks: Seq<Seq<char>>) -> Seq<char>
    decreases chunks.len(),
{
    if chunks.len() == 0 {
        Seq::empty()
    } else {
        chunks[0] + concat_chunks(chunks.drop_first())
    }
}

/// The session and disk after a whole sequence of partial chunks for one
/// name, the last chunk and only the last marked done.
pub open spec fn run_partial_chunks(
    s: SessionModel,
    fs: Map<Seq<char>, Seq<char>>,
    name: Seq<char>,
    chunks: Seq<Seq<char>>,
) -> (SessionModel, Map<Seq<char>, Seq<char>>)
    decreases chunks.len(),
{
    if chunks.len() == 0 {
        (s, fs)
    } else {
        let r = step_transfer(
            s,
            TransferModel::Partial(
                FileModel { name, data: chunks[0], read_only: false },
                chunks.len() == 1,
            ),
        );
        run_partial_chunks(r.0, apply_actions(fs, r.1), name, chunks.drop_first())
    }
}

/// Where a handle is registered, `part_index` points at it: in range, at
/// the name, and at the first occurrence.
proof fn lemma_part_index_props(parts: Seq<(Seq<char>, Seq<char>)>, name: Seq<char>)
    requires
        has_part(parts, name),
    ensures
        0 <= part_index(parts, name) < parts.len(),
        parts[part_index(parts, name)].0 == name,
        forall|j: int| 0 <= j < part_index(parts, name) ==> (#[trigger] parts[j]).0 != name,
    decreases parts.len(),
{
    if parts.len() == 0 {
    } else if parts[0].0 == name {
    } else {
        let rest = parts.drop_first();
        assert(has_part(rest, name)) by {
            let w = choose|i: int| 0 <= i < parts.len() && parts[i].0 == name;
            assert(rest[w - 1] == parts[w]);
        }
        lemma_part_index_props(rest, name);
        assert forall|j: int| 0 <= j < part_index(parts, name) implies (#[trigger] parts[j]).0
            != name by {
            if j > 0 {
                assert(parts[j] == rest[j - 1]);
            }
        }
    }
}

/// Removing the handle for `name` from a well-formed handle list leaves
/// no handle for `name`, and the list stays well-formed.
proof fn lemma_remove_part(parts: Seq<(Seq<char>, Seq<char>)>, name: Seq<char>)
    requires
        parts_wf(parts),
        has_part(parts, name),
    ensures
        !has_part(remove_part(parts, name), name),
        parts_wf(remove_part(parts, name)),
        remove_part(parts, name).len() == parts.len() - 1,
{
    lemma_part_index_props(parts, name);
    let idx = part_index(parts, name);
    let out = remove_part(parts, name);
    assert forall|i: int| 0 <= i < out.len() implies (#[trigger] out[i]).0 != name by {
        if i < idx {
            assert(out[i] == parts[i]);
        } else {
            assert(out[i] == parts[i + 1]);
        }
    }
    assert forall|i: int, j: int| 0 <= i < j < out.len() implies (#[trigger] out[i]).0 != (
    #[trigger] out[j]).0 by {
        let pi: int = if i < idx {
            i
        } else {
            i + 1
        };
        let pj: int = if j < idx {
            j
        } else {
            j + 1
        };
        assert(out[i] == parts[pi]);
        assert(out[j] == parts[pj]);
    }
}

/// Every step preserves the handle-list invariant: no two open handles
/// ever share a name.  A fresh session starts with no handles, so the
/// invariant holds of every reachable session.
pub proof fn lemma_step_preserves_parts_wf(s: SessionModel, now: u64, p: PacketModel)
    requires
        parts_wf(s.parts),
    ensures
        parts_wf(step_packet(s, now, p).0.parts),
        parts_wf(step_hb_tick(s, now).0.parts),
        parts_wf(closed_state(s).parts),
{
    if let PacketModel::C2sSync(TransferModel::Partial(f, done)) = p {
        if wire_name_ok(f.name) {
            if has_part(s.parts, f.name) {
                if done {
                    lemma_remove_part(s.parts, f.name);
                }
            } else {
                if !done {
                    let p2 = s.parts.push((f.name, local_file_str(s.comp_id, f.name)));
                    assert forall|i: int, j: int| 0 <= i < j < p2.len() implies (
                    #[trigger] p2[i]).0 != (#[trigger] p2[j]).0 by {
                        if j == p2.len() - 1 {
                            assert(p2[i] == s.parts[i]);
                            assert(s.parts[i].0 != f.name);
                        } else {
                            assert(p2[i] == s.parts[i]);
                            assert(p2[j] == s.parts[j]);
                        }
                    }
                }
            }
        }
    }
}

/// Continuing an open transfer: every remaining chunk is appended to the
/// text at the handle's path, in order, and the final chunk closes and
/// removes the handle.
proof fn lemma_partial_rest(
    s: SessionModel,
    fs: Map<Seq<char>, Seq<char>>,
    name: Seq<char>,
    path: Seq<char>,
    chunks: Seq<Seq<char>>,
)
    requires
        wire_name_ok(name),
        parts_wf(s.parts),
        has_part(s.parts, name),
        s.parts[part_index(s.parts, name)].1 == path,
        fs.contains_key(path),
        chunks.len() >= 1,
    ensures
        ({
            let r = run_partial_chunks(s, fs, name, chunks);
            &&& r.1.contains_key(path)
            &&& r.1[path] == fs[path] + concat_chunks(chunks)
            &&& !has_part(r.0.parts, name)
            &&& parts_wf(r.0.parts)
        }),
    decreases chunks.len(),
{
    reveal_with_fuel(apply_actions, 6);
    reveal_with_fuel(run_partial_chunks, 3);
    let t = TransferModel::Partial(
        FileModel { name, data: chunks[0], read_only: false },
        chunks.len() == 1,
    );
    let st = step_transfer(s, t);
    let fs1 = apply_actions(fs, st.1);
    if chunks.len() == 1 {
        lemma_remove_part(s.parts, name);
        assert(fs1 == fs.insert(path, fs[path] + chunks[0]));
        assert(concat_chunks(chunks.drop_first()) == Seq::<char>::empty());
        assert(fs[path] + chunks[0] =~= fs[path] + concat_chunks(chunks));
        assert(run_partial_chunks(s, fs, name, chunks) == (st.0, fs1));
    } else {
        assert(fs1 == fs.insert(path, fs[path] + chunks[0]));
        assert(st.0 == s);
        lemma_partial_rest(s, fs1, name, path, chunks.drop_first());
        let r = run_partial_chunks(s, fs1, name, chunks.drop_first());
        assert(r.1[path] == fs1[path] + concat_chunks(chunks.drop_first()));
        assert(fs[path] + chunks[0] + concat_chunks(chunks.drop_first()) =~= fs[path]
            + concat_chunks(chunks));
    }
}

/// A whole partial transfer: for any sequence of chunks for one accepted
/// name, with only the last chunk marked done, the text left at the
/// file's path is exactly the concatenation of the chunk contents in
/// receipt order, and no open handle remains for that name.
pub proof fn lemma_partial_transfer(
    s: SessionModel,
    fs: Map<Seq<char>, Seq<char>>,
    name: Seq<char>,
    chunks: Seq<Seq<char>>,
)
    requires
        wire_name_ok(name),
        parts_wf(s.parts),
        !has_part(s.parts, name),
        chunks.len() >= 1,
    ensures
        ({
            let r = run_partial_chunks(s, fs, name, chunks);
            let path = local_file_str(s.comp_id, name);
            &&& r.1.contains_key(path)
            &&& r.1[path] == concat_chunks(chunks)
            &&& !has_part(r.0.parts, name)
        }),
{
    reveal_with_fuel(apply_actions, 6);
    reveal_with_fuel(run_partial_chunks, 3);
    let path = local_file_str(s.comp_id, name);
    let t = TransferModel::Partial(
        FileModel { name, data: chunks[0], read_only: false },
        chunks.len() == 1,
    );
    let st = step_transfer(s, t);
    let fs1 = apply_actions(fs, st.1);
    assert(fs1 == fs.insert(path, Seq::<char>::empty() + chunks[0]));
    assert(Seq::<char>::empty() + chunks[0] =~= chunks[0]);
    if chunks.len() == 1 {
        assert(st.0 == s);
        assert(concat_chunks(chunks) =~= chunks[0] + concat_chunks(chunks.drop_first()));
        assert(chunks[0] + Seq::<char>::empty() =~= chunks[0]);
    } else {
        let s1 = st.0;
        assert(s1.parts == s.parts.push((name, path)));
        assert(parts_wf(s1.parts)) by {
            assert forall|i: int, j: int| 0 <= i < j < s1.parts.len() implies (
            #[trigger] s1.parts[i]).0 != (#[trigger] s1.parts[j]).0 by {
                if j == s1.parts.len() - 1 {
                    assert(s1.parts[i] == s.parts[i]);
                    assert(s.parts[i].0 != name);
                } else {
                    assert(s1.parts[i] == s.parts[i]);
                    assert(s1.parts[j] == s.parts[j]);
                }
            }
        }
        assert(has_part(s1.parts, name)) by {
            assert(s1.parts[s.parts.len() as int].0 == name);
        }
        assert(part_index(s1.parts, name) == s.parts.len()) by {
            assert forall|j: int| 0 <= j < s.parts.len() implies (#[trigger] s1.parts[j]).0
                != name by {
                assert(s1.parts[j] == s.parts[j]);
            }
            lemma_part_index_first(s1.parts, name, s.parts.len() as int);
        }
        lemma_partial_rest(s1, fs1, name, path, chunks.drop_first());
        let r = run_partial_chunks(s1, fs1, name, chunks.drop_first());
        assert(r.1[path] == chunks[0] + concat_chunks(chunks.drop_first()));
    }
}

/// `part_index` returns the first matching index.
proof fn lemma_part_index_first(parts: Seq<(Seq<char>, Seq<char>)>, name: Seq<char>, k: int)
    requires
        0 <= k < parts.len(),
        parts[k].0 == name,
        forall|j: int| 0 <= j < k ==> (#[trigger] parts[j]).0 != name,
    ensures
        part_index(parts, name) == k,
    decreases k,
{
    if k == 0 {
    } else {
        assert(parts[0].0 != name);
        assert(parts.drop_first()[k - 1].0 == name);
        assert forall|j: int| 0 <= j < k - 1 implies (#[trigger] parts.drop_first()[j]).0
            != name by {
            assert(parts.drop_first()[j] == parts[j + 1]);
        }
        lemma_part_index_first(parts.drop_first(), name, k - 1);
    }
}

/// The workspace directory for id `id` as a path string.
pub fn comp_root_string(id: u32) -> (r: String)
    ensures
        r@ == comp_root_str(id),
{
    let mut root: Vec<String> = Vec::new();
    let dot = String::from_str(".");
    let comp = String::from_str("comp");
    proof {
        reveal_strlit(".");
        reveal_strlit("comp");
        assert(dot@ =~= seq!['.']);
        assert(comp@ =~= seq!['c', 'o', 'm', 'p']);
    }
    root.push(dot);
    root.push(comp);
    root.push(u32_to_dec(id));
    proof {
        assert(root.deep_view() =~= comp_root_spec(id));
        assert(root.deep_view().subrange(0, 3) =~= root.deep_view());
    }
    join_from(&root, 0)
}

/// The segments of the workspace directory for id `id`.
pub fn comp_root_segments(id: u32) -> (r: Vec<String>)
    ensures
        r.deep_view() == comp_root_spec(id),
{
    let mut root: Vec<String> = Vec::new();
    let dot = String::from_str(".");
    let comp = String::from_str("comp");
    proof {
        reveal_strlit(".");
        reveal_strlit("comp");
        assert(dot@ =~= seq!['.']);
        assert(comp@ =~= seq!['c', 'o', 'm', 'p']);
    }
    root.push(dot);
    root.push(comp);
    root.push(u32_to_dec(id));
    proof {
        assert(root.deep_view() =~= comp_root_spec(id));
    }
    root
}

} // verus!
