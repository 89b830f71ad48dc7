//! The upload ingestor: a state machine that decides, event by event, what
//! is done with the staging file of one upload.
//!
//! The program around the library receives the body, keeps the staging file
//! outside the storage folder and reports what happened; the machine answers
//! with the next action. A file reaches the storage folder by one rename,
//! and only after its whole body was staged.

use vstd::prelude::*;
use crate::config::Args;
use crate::error::ErrorKind;
use crate::model::{Directory, store};
use crate::name::{is_valid_name, stored_name, sanitize, resolve, resolve_path, lemma_stored_name_valid};

verus! {

/// How far an upload has come.
#[derive(Clone, Copy, Debug, PartialEq, Eq, Structural)]
pub enum Phase {
    /// The body is being received into the staging file.
    Receiving,
    /// The body is staged and flushed, and the rename was asked for.
    Publishing,
    /// The upload is over, one way or the other.
    Closed,
}

/// What the program reports to the machine.
#[derive(Clone, Copy, Debug, PartialEq, Eq, Structural)]
pub enum UploadEvent {
    /// A chunk of this many bytes has arrived.
    Chunk(u64),
    /// The body is complete and the staging file is flushed.
    EndOfStream,
    /// The rename into the storage folder succeeded.
    Published,
    /// The rename was refused because the name is taken.
    NameTaken,
    /// A write, a flush or the rename failed.
    Failed,
    /// The client went away.
    Cancelled,
}

/// What the machine asks the program to do.
#[derive(Clone, Copy, Debug, PartialEq, Eq, Structural)]
pub enum UploadAction {
    /// Append the chunk of this many bytes to the staging file.
    Append(u64),
    /// Rename the staging file into the storage folder under the stored
    /// name; `replace` says whether a file of that name may be replaced.
    Publish { replace: bool },
    /// Remove the staging file and report this failure.
    Discard(ErrorKind),
    /// Remove the staging file; nobody is left to report to.
    Abandon,
    /// Report success: the stored name and this many bytes.
    Complete { size: u64 },
    /// Nothing to do.
    Nothing,
}

/// One upload, as the contracts see it.
pub struct UploadView {
    pub stored_name: Seq<char>,
    pub limit: nat,
    pub overwrite: bool,
    pub phase: Phase,
    pub staged: nat,
}

impl UploadView {
    /// The stored name is valid and no more is staged than the limit allows.
    pub open spec fn wf(self) -> bool {
        &&& is_valid_name(self.stored_name)
        &&& self.staged <= self.limit
    }

    /// This upload in another phase.
    pub open spec fn in_phase(self, phase: Phase) -> UploadView {
        UploadView { phase, ..self }
    }

    /// This upload with `len` more bytes staged.
    pub open spec fn with_more(self, len: nat) -> UploadView {
        UploadView { staged: self.staged + len, ..self }
    }
}

/// The transition of the machine: the upload after `event`, and the action
/// that the event calls for.
///
/// While receiving, a chunk is appended unless it would take the staged
/// bytes over the limit; then the upload is closed and the staging file
/// discarded. The end of the stream asks for the rename. While publishing,
/// the answer to the rename decides. An event that the phase does not
/// expect changes nothing.
pub open spec fn next(u: UploadView, event: UploadEvent) -> (UploadView, UploadAction) {
    match (u.phase, event) {
        (Phase::Receiving, UploadEvent::Chunk(len)) => if u.staged + len > u.limit {
            (u.in_phase(Phase::Closed), UploadAction::Discard(ErrorKind::PayloadTooLarge))
        } else {
            (u.with_more(len as nat), UploadAction::Append(len))
        },
        (Phase::Receiving, UploadEvent::EndOfStream) => (
            u.in_phase(Phase::Publishing),
            UploadAction::Publish { replace: u.overwrite },
        ),
        (Phase::Receiving, UploadEvent::Failed) => (
            u.in_phase(Phase::Closed),
            UploadAction::Discard(ErrorKind::StorageIo),
        ),
        (Phase::Receiving, UploadEvent::Cancelled) => (
            u.in_phase(Phase::Closed),
            UploadAction::Abandon,
        ),
        (Phase::Publishing, UploadEvent::Published) => (
            u.in_phase(Phase::Closed),
            UploadAction::Complete { size: u.staged as u64 },
        ),
        (Phase::Publishing, UploadEvent::NameTaken) => (
            u.in_phase(Phase::Closed),
            UploadAction::Discard(ErrorKind::NameConflict),
        ),
        (Phase::Publishing, UploadEvent::Failed) => (
            u.in_phase(Phase::Closed),
            UploadAction::Discard(ErrorKind::StorageIo),
        ),
        _ => (u, UploadAction::Nothing),
    }
}

/// One upload in progress.
#[derive(Debug)]
pub struct Upload {
    stored_name: String,
    limit: u64,
    overwrite: bool,
    phase: Phase,
    staged: u64,
}

impl View for Upload {
    type V = UploadView;

    closed spec fn view(&self) -> UploadView {
        UploadView {
            stored_name: self.stored_name@,
            limit: self.limit as nat,
            overwrite: self.overwrite,
            phase: self.phase,
            staged: self.staged as nat,
        }
    }
}

impl Upload {
    #[verifier::type_invariant]
    spec fn inv(self) -> bool {
        self@.wf()
    }

    /// Opens an upload under the name that the client declared, with
    /// `staged` bytes of the body already in the staging file.
    ///
    /// The name is refused as invalid unless it is a valid single segment;
    /// then the staged bytes are refused as too large if they exceed the
    /// configured maximum.
    pub fn begin(declared: Option<&str>, staged: u64, args: &Args) -> (r: Result<Upload, ErrorKind>)
        ensures
            match r {
                Ok(upload) => {
                    &&& declared matches Some(name)
                    &&& is_valid_name(name@)
                    &&& staged <= args.max_file_size
                    &&& upload@ == (UploadView {
                        stored_name: stored_name(name@),
                        limit: args.max_file_size as nat,
                        overwrite: args.overwrite,
                        phase: Phase::Receiving,
                        staged: staged as nat,
                    })
                    &&& upload@.wf()
                },
                Err(kind) => if declared matches Some(name) && is_valid_name(name@) {
                    kind == ErrorKind::PayloadTooLarge && staged > args.max_file_size
                } else {
                    kind == ErrorKind::InvalidName
                },
            },
    {
        match sanitize(declared) {
            Err(kind) => Err(kind),
            Ok(stored_name) => {
                if staged > args.max_file_size {
                    Err(ErrorKind::PayloadTooLarge)
                } else {
                    proof {
                        lemma_stored_name_valid(declared.unwrap()@);
                    }
                    Ok(
                        Upload {
                            stored_name,
                            limit: args.max_file_size,
                            overwrite: args.overwrite,
                            phase: Phase::Receiving,
                            staged,
                        },
                    )
                }
            },
        }
    }

    /// Takes one event and answers with the action that it calls for.
    pub fn step(&mut self, event: UploadEvent) -> (action: UploadAction)
        ensures
            (final(self)@, action) == next(old(self)@, event),
            final(self)@.wf(),
    {
        proof {
            use_type_invariant(&*self);
        }
        match self.phase {
            Phase::Receiving => match event {
                UploadEvent::Chunk(len) => {
                    if len > self.limit - self.staged {
                        self.phase = Phase::Closed;
                        UploadAction::Discard(ErrorKind::PayloadTooLarge)
                    } else {
                        self.staged = self.staged + len;
                        UploadAction::Append(len)
                    }
                },
                UploadEvent::EndOfStream => {
                    self.phase = Phase::Publishing;
                    UploadAction::Publish { replace: self.overwrite }
                },
                UploadEvent::Failed => {
                    self.phase = Phase::Closed;
                    UploadAction::Discard(ErrorKind::StorageIo)
                },
                UploadEvent::Cancelled => {
                    self.phase = Phase::Closed;
                    UploadAction::Abandon
                },
                _ => UploadAction::Nothing,
            },
            Phase::Publishing => match event {
                UploadEvent::Published => {
                    self.phase = Phase::Closed;
                    UploadAction::Complete { size: self.staged }
                },
                UploadEvent::NameTaken => {
                    self.phase = Phase::Closed;
                    UploadAction::Discard(ErrorKind::NameConflict)
                },
                UploadEvent::Failed => {
                    self.phase = Phase::Closed;
                    UploadAction::Discard(ErrorKind::StorageIo)
                },
                _ => UploadAction::Nothing,
            },
            Phase::Closed => UploadAction::Nothing,
        }
    }

    /// The name under which the file is stored.
    pub fn stored_name(&self) -> (name: &str)
        ensures
            name@ == self@.stored_name,
            is_valid_name(name@),
    {
        proof {
            use_type_invariant(self);
        }
        self.stored_name.as_str()
    }

    /// Where the staging file is renamed to: the stored name inside the
    /// storage folder `folder`.
    pub fn destination(&self, folder: &str) -> (path: String)
        ensures
            path@ == resolve(folder@, self@.stored_name),
    {
        resolve_path(folder, self.stored_name.as_str())
    }

    /// How far the upload has come.
    pub fn phase(&self) -> (phase: Phase)
        ensures
            phase == self@.phase,
    {
        self.phase
    }

    /// How many bytes are in the staging file.
    pub fn staged(&self) -> (staged: u64)
        ensures
            staged == self@.staged,
            staged <= self@.limit,
    {
        proof {
            use_type_invariant(self);
        }
        self.staged
    }

    /// The largest body that this upload accepts.
    pub fn limit(&self) -> (limit: u64)
        ensures
            limit == self@.limit,
    {
        self.limit
    }

    /// Whether the rename may replace a stored file.
    pub fn overwrite(&self) -> (overwrite: bool)
        ensures
            overwrite == self@.overwrite,
    {
        self.overwrite
    }
}

/// The file system as one upload meets it: the storage folder, the staging
/// file, and what the client has been told so far.
pub struct World {
    pub dir: Directory,
    pub staging: Seq<u8>,
    pub report: Option<Result<(Seq<char>, nat), ErrorKind>>,
}

/// The world after the program has performed `action` for the upload
/// stored as `name`; `chunk` is the chunk at hand, for an append.
pub open spec fn perform(world: World, name: Seq<char>, action: UploadAction, chunk: Seq<u8>) -> World {
    match action {
        UploadAction::Append(_) => World { staging: world.staging + chunk, ..world },
        UploadAction::Publish { replace } => if replace || !world.dir.contains_key(name) {
            World { dir: world.dir.insert(name, world.staging), staging: Seq::empty(), ..world }
        } else {
            world
        },
        UploadAction::Discard(kind) => World {
            staging: Seq::empty(),
            report: Some(Err(kind)),
            ..world
        },
        UploadAction::Abandon => World { staging: Seq::empty(), ..world },
        UploadAction::Complete { size } => World { report: Some(Ok((name, size as nat))), ..world },
        UploadAction::Nothing => world,
    }
}

/// The event by which a working file system answers the action.
pub open spec fn answer(world: World, name: Seq<char>, action: UploadAction) -> UploadEvent {
    match action {
        UploadAction::Publish { replace } => if replace || !world.dir.contains_key(name) {
            UploadEvent::Published
        } else {
            UploadEvent::NameTaken
        },
        _ => UploadEvent::Cancelled,
    }
}

/// The upload and the world after the chunks have arrived one by one.
pub open spec fn receive(u: UploadView, world: World, chunks: Seq<Seq<u8>>) -> (UploadView, World)
    decreases chunks.len(),
{
    if chunks.len() == 0 {
        (u, world)
    } else {
        let (u1, action) = next(u, UploadEvent::Chunk(chunks.first().len() as u64));
        receive(u1, perform(world, u.stored_name, action, chunks.first()), chunks.drop_first())
    }
}

/// The upload and the world after the stream has ended and the rename,
/// where one was asked for, has been answered.
pub open spec fn finish(u: UploadView, world: World) -> (UploadView, World) {
    let (u1, publish) = next(u, UploadEvent::EndOfStream);
    let world1 = perform(world, u.stored_name, publish, Seq::empty());
    if publish is Publish {
        let (u2, last) = next(u1, answer(world, u.stored_name, publish));
        (u2, perform(world1, u.stored_name, last, Seq::empty()))
    } else {
        (u1, world1)
    }
}

/// A whole upload on a working file system: the chunks, the end of the
/// stream, the rename.
pub open spec fn run(u: UploadView, world: World, chunks: Seq<Seq<u8>>) -> (UploadView, World) {
    let (u1, world1) = receive(u, world, chunks);
    finish(u1, world1)
}

/// Only a rename changes the storage folder, and it puts there the whole
/// staging file under the stored name.
pub proof fn lemma_only_publish_changes_folder(
    world: World,
    name: Seq<char>,
    action: UploadAction,
    chunk: Seq<u8>,
)
    ensures
        perform(world, name, action, chunk).dir == world.dir || (action is Publish && perform(
            world,
            name,
            action,
            chunk,
        ).dir == world.dir.insert(name, world.staging)),
{
}

/// The machine keeps within its limit, never changes the stored name or
/// the settings, and a closed upload stays closed.
pub proof fn lemma_step_preserves(u: UploadView, event: UploadEvent)
    requires
        u.wf(),
    ensures
        next(u, event).0.wf(),
        next(u, event).0.stored_name == u.stored_name,
        next(u, event).0.limit == u.limit,
        next(u, event).0.overwrite == u.overwrite,
        next(u, event).0.staged >= u.staged,
        u.phase == Phase::Closed ==> next(u, event) == (u, UploadAction::Nothing),
{
}

/// The rename is asked for only at the end of the stream, and success is
/// reported only in answer to a rename that succeeded.
pub proof fn lemma_publish_only_after_stream(u: UploadView, event: UploadEvent)
    ensures
        next(u, event).1 is Publish <==> u.phase == Phase::Receiving && event
            == UploadEvent::EndOfStream,
        next(u, event).1 is Complete <==> u.phase == Phase::Publishing && event
            == UploadEvent::Published,
{
}

/// A chunk that takes the staged bytes over the limit, be it by one byte,
/// closes the upload as too large: the staging file is discarded and no
/// rename follows.
pub proof fn lemma_chunk_over_limit(u: UploadView, len: u64)
    requires
        u.phase == Phase::Receiving,
        u.staged + len > u.limit,
    ensures
        next(u, UploadEvent::Chunk(len)) == (
            u.in_phase(Phase::Closed),
            UploadAction::Discard(ErrorKind::PayloadTooLarge),
        ),
        forall|event: UploadEvent| next(u.in_phase(Phase::Closed), event).1 == UploadAction::Nothing,
{
}

/// A cancelled or failed upload is closed with its staging file removed,
/// and the storage folder is as it was.
pub proof fn lemma_abort_discards(u: UploadView, world: World, event: UploadEvent)
    requires
        u.phase == Phase::Receiving,
        event == UploadEvent::Cancelled || event == UploadEvent::Failed,
    ensures
        next(u, event).0.phase == Phase::Closed,
        perform(world, u.stored_name, next(u, event).1, Seq::empty()).dir == world.dir,
        perform(world, u.stored_name, next(u, event).1, Seq::empty()).staging == Seq::<u8>::empty(),
{
}

/// Chunks that arrive at a closed upload change nothing.
proof fn lemma_receive_closed(u: UploadView, world: World, chunks: Seq<Seq<u8>>)
    requires
        u.phase == Phase::Closed,
    ensures
        receive(u, world, chunks) == (u, world),
    decreases chunks.len(),
{
    if chunks.len() > 0 {
        lemma_receive_closed(u, world, chunks.drop_first());
    }
}

/// What receiving the chunks comes to. The storage folder is untouched
/// throughout. Where the body fits the limit, all of it is in the staging
/// file; where it does not, the upload is closed, the staging file is gone
/// and the client was told that the payload is too large.
pub proof fn lemma_receive(u: UploadView, world: World, chunks: Seq<Seq<u8>>)
    requires
        u.wf(),
        u.phase == Phase::Receiving,
        world.staging.len() == u.staged,
        world.report is None,
        forall|i: int| 0 <= i < chunks.len() ==> (#[trigger] chunks[i]).len() <= u64::MAX,
    ensures
        ({
            let (after, world1) = receive(u, world, chunks);
            let body = world.staging + chunks.flatten();
            &&& world1.dir == world.dir
            &&& body.len() <= u.limit ==> after == u.with_more(chunks.flatten().len())
                && world1.staging == body && world1.report is None
            &&& body.len() > u.limit ==> after == UploadView {
                phase: Phase::Closed,
                staged: after.staged,
                ..u
            } && world1.staging == Seq::<u8>::empty() && world1.report == Some(
                Err::<(Seq<char>, nat), ErrorKind>(ErrorKind::PayloadTooLarge),
            )
        }),
    decreases chunks.len(),
{
    if chunks.len() == 0 {
        assert(chunks.flatten() == Seq::<u8>::empty());
        assert(world.staging + chunks.flatten() == world.staging);
        assert(u.with_more(0) == u);
    } else {
        let chunk = chunks.first();
        let rest = chunks.drop_first();
        assert(chunk == chunks[0]);
        assert(chunks.flatten() == chunk + rest.flatten());
        assert(world.staging + chunks.flatten() == (world.staging + chunk) + rest.flatten());
        let (u1, action) = next(u, UploadEvent::Chunk(chunk.len() as u64));
        let world1 = perform(world, u.stored_name, action, chunk);
        assert forall|i: int| 0 <= i < rest.len() implies (#[trigger] rest[i]).len()
            <= u64::MAX by {
            assert(rest[i] == chunks[i + 1]);
        }
        if u.staged + chunk.len() > u.limit {
            lemma_receive_closed(u1, world1, rest);
        } else {
            lemma_receive(u1, world1, rest);
            assert(u1.with_more(rest.flatten().len()) == u.with_more(chunks.flatten().len()));
        }
    }
}

/// What the end of the stream comes to for an upload that has received
/// its body: the staging file is stored under the stored name in the folder
/// as it is at that moment, and the client is told the outcome.
pub proof fn lemma_finish_stores(u: UploadView, world: World)
    requires
        u.wf(),
        u.phase == Phase::Receiving,
        u.limit <= u64::MAX,
        world.staging.len() == u.staged,
        world.report is None,
    ensures
        ({
            let (after, world1) = finish(u, world);
            let stored = store(world.dir, u.limit, u.overwrite, u.stored_name, world.staging);
            &&& after.phase == Phase::Closed
            &&& world1.dir == stored.dir
            &&& world1.report == Some(stored.result)
        }),
{
}

/// A whole upload on a working file system does to the storage folder, and
/// tells the client, exactly what storing the body under the stored name
/// means: the file appears whole under the stored name, or the folder
/// stays as it was.
pub proof fn lemma_run_stores(u: UploadView, dir: Directory, chunks: Seq<Seq<u8>>)
    requires
        u.wf(),
        u.phase == Phase::Receiving,
        u.staged == 0,
        u.limit <= u64::MAX,
        forall|i: int| 0 <= i < chunks.len() ==> (#[trigger] chunks[i]).len() <= u64::MAX,
    ensures
        ({
            let world = World { dir, staging: Seq::empty(), report: None };
            let (after, world1) = run(u, world, chunks);
            let stored = store(dir, u.limit, u.overwrite, u.stored_name, chunks.flatten());
            &&& after.phase == Phase::Closed
            &&& world1.dir == stored.dir
            &&& world1.report == Some(stored.result)
        }),
{
    let world = World { dir, staging: Seq::empty(), report: None };
    lemma_receive(u, world, chunks);
    assert(world.staging + chunks.flatten() == chunks.flatten());
    let (u1, world1) = receive(u, world, chunks);
    if chunks.flatten().len() <= u.limit {
        lemma_finish_stores(u1, world1);
    }
}

/// Two uploads of one stored name that race. Each receives its whole body
/// into its own staging file; the one is published first, the other after
/// it, whatever the folder held while that other was still receiving. The
/// folder ends with one more file, under that name, and it holds the whole
/// body of one of the two: that of the later where files are replaced, that
/// of the earlier where they are not. Every other file is as it was.
pub proof fn lemma_racing_runs(
    earlier: UploadView,
    later: UploadView,
    dir: Directory,
    meanwhile: Directory,
    earlier_chunks: Seq<Seq<u8>>,
    later_chunks: Seq<Seq<u8>>,
)
    requires
        earlier.wf(),
        later.wf(),
        earlier.phase == Phase::Receiving,
        later.phase == Phase::Receiving,
        earlier.staged == 0,
        later.staged == 0,
        earlier.stored_name == later.stored_name,
        earlier.limit == later.limit,
        earlier.overwrite == later.overwrite,
        earlier.limit <= u64::MAX,
        earlier_chunks.flatten().len() <= earlier.limit,
        later_chunks.flatten().len() <= later.limit,
        forall|i: int|
            0 <= i < earlier_chunks.len() ==> (#[trigger] earlier_chunks[i]).len() <= u64::MAX,
        forall|i: int| 0 <= i < later_chunks.len() ==> (#[trigger] later_chunks[i]).len() <= u64::MAX,
        !dir.contains_key(earlier.stored_name),
    ensures
        ({
            let start = World { dir, staging: Seq::empty(), report: None };
            let (earlier1, earlier_world) = receive(earlier, start, earlier_chunks);
            let (later1, later_world) = receive(
                later,
                World { dir: meanwhile, ..start },
                later_chunks,
            );
            let (_, published) = finish(earlier1, earlier_world);
            let (_, end) = finish(later1, World { dir: published.dir, ..later_world });
            let name = earlier.stored_name;
            &&& end.dir.dom() == dir.dom().insert(name)
            &&& end.dir[name] == if earlier.overwrite {
                later_chunks.flatten()
            } else {
                earlier_chunks.flatten()
            }
            &&& forall|other: Seq<char>| other != name && dir.contains_key(other) ==> end.dir[other]
                == dir[other]
        }),
{
    let start = World { dir, staging: Seq::empty(), report: None };
    let later_start = World { dir: meanwhile, ..start };
    lemma_receive(earlier, start, earlier_chunks);
    lemma_receive(later, later_start, later_chunks);
    assert(start.staging + earlier_chunks.flatten() == earlier_chunks.flatten());
    assert(later_start.staging + later_chunks.flatten() == later_chunks.flatten());
    let (earlier1, earlier_world) = receive(earlier, start, earlier_chunks);
    let (later1, later_world) = receive(later, later_start, later_chunks);
    lemma_finish_stores(earlier1, earlier_world);
    let (_, published) = finish(earlier1, earlier_world);
    lemma_finish_stores(later1, World { dir: published.dir, ..later_world });
    let (_, end) = finish(later1, World { dir: published.dir, ..later_world });
    assert(end.dir.dom() =~= dir.dom().insert(earlier.stored_name));
}

} // verus!
