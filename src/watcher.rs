use crate::format::Format;
use crate::text::{join, join_path};
use vstd::prelude::*;

verus! {

/// The name of the script run after each save, two levels above the save directory.
pub const REFRESH_SCRIPT: &'static str = "refresh_libraries.sh";

/// The relative path from a save directory to the script's directory.
pub const REFRESH_SCRIPT_DIR: &'static str = "../..";

/// Whether a path names a file whose extension is `zip`, in any case: the last
/// component has a non-empty stem, then a dot, then the three letters.
pub open spec fn is_archive_path(p: Seq<char>) -> bool {
    let n = p.len();
    &&& n >= 5
    &&& p[n - 5] != '/'
    &&& p[n - 4] == '.'
    &&& (p[n - 3] == 'z' || p[n - 3] == 'Z')
    &&& (p[n - 2] == 'i' || p[n - 2] == 'I')
    &&& (p[n - 1] == 'p' || p[n - 1] == 'P')
}

/// The archive paths of `s`, in their order, each as often as it occurs.
pub open spec fn archive_paths(s: Seq<Seq<char>>) -> Seq<Seq<char>>
    decreases s.len(),
{
    if s.len() == 0 {
        Seq::empty()
    } else if is_archive_path(s.last()) {
        archive_paths(s.drop_last()).push(s.last())
    } else {
        archive_paths(s.drop_last())
    }
}

/// How often `p` occurs in `s`.
pub open spec fn occurrences(s: Seq<Seq<char>>, p: Seq<char>) -> nat
    decreases s.len(),
{
    if s.len() == 0 {
        0
    } else {
        occurrences(s.drop_last(), p) + if s.last() == p { 1nat } else { 0nat }
    }
}

/// The views of a list of paths.
pub open spec fn path_views(v: Seq<String>) -> Seq<Seq<char>> {
    v.map_values(|s: String| s@)
}

/// Every path that a file-creation event carries is handed to the pipeline as
/// often as it occurs where it is an archive, and never where it is not.
pub proof fn lemma_only_archives_trigger(s: Seq<Seq<char>>, p: Seq<char>)
    ensures
        is_archive_path(p) ==> occurrences(archive_paths(s), p) == occurrences(s, p),
        !is_archive_path(p) ==> occurrences(archive_paths(s), p) == 0,
    decreases s.len(),
{
    if s.len() > 0 {
        lemma_only_archives_trigger(s.drop_last(), p);
        if is_archive_path(s.last()) {
            let t = archive_paths(s.drop_last()).push(s.last());
            assert(t.drop_last() =~= archive_paths(s.drop_last()));
        }
    }
}

/// The kinds of file-system notification the watcher tells apart.
#[derive(Clone, Copy, Debug, PartialEq, Eq, Structural)]
pub enum EventKind {
    /// A regular file was created.
    CreateFile,
    /// Anything else.
    Other,
}

/// A file-system notification: its kind and the paths it concerns.
#[derive(Clone, Debug)]
pub struct FsEvent {
    pub kind: EventKind,
    pub paths: Vec<String>,
}

/// A message on the watcher's channel.
#[derive(Debug)]
pub enum WatcherEvent {
    /// What the file-system subscription reported: an event, or an error text.
    NotifyResult(Result<FsEvent, String>),
    /// The request to end the worker loop.
    Stop,
}

/// What the worker does with one message.
#[derive(Clone, Debug)]
pub enum Step {
    /// Runs the per-file procedure on each path, in order.
    Process(Vec<String>),
    /// Logs the subscription's error and waits for the next message.
    Report(String),
    /// Leaves the loop on request.
    Exit,
    /// Logs that the channel closed and leaves the loop.
    Disconnected,
}

/// The paths that the worker runs the pipeline on for a received message.
pub open spec fn triggered(ev: WatcherEvent) -> Seq<Seq<char>> {
    match ev {
        WatcherEvent::NotifyResult(Ok(e)) => if e.kind == EventKind::CreateFile {
            archive_paths(path_views(e.paths@))
        } else {
            Seq::empty()
        },
        _ => Seq::empty(),
    }
}

fn archive_path(p: &String) -> (r: bool)
    ensures
        r == is_archive_path(p@),
{
    let s = p.as_str();
    let n = s.unicode_len();
    if n < 5 {
        return false;
    }
    let a = s.get_char(n - 5);
    let b = s.get_char(n - 4);
    let c = s.get_char(n - 3);
    let d = s.get_char(n - 2);
    let e = s.get_char(n - 1);
    a != '/' && b == '.' && (c == 'z' || c == 'Z') && (d == 'i' || d == 'I') && (e == 'p'
        || e == 'P')
}

/// The archive paths of a list, in their order.
pub fn archives(paths: &Vec<String>) -> (r: Vec<String>)
    ensures
        path_views(r@) == archive_paths(path_views(paths@)),
{
    let mut out: Vec<String> = Vec::new();
    let mut i: usize = 0;
    while i < paths.len()
        invariant
            i <= paths@.len(),
            path_views(out@) == archive_paths(path_views(paths@.subrange(0, i as int))),
        decreases paths@.len() - i,
    {
        let ghost before = out@;
        let ghost pre = paths@.subrange(0, i as int);
        let ghost next = paths@.subrange(0, i + 1);
        assert(path_views(next).drop_last() =~= path_views(pre));
        assert(path_views(next).last() == paths@[i as int]@);
        if archive_path(&paths[i]) {
            out.push(paths[i].clone());
            assert(path_views(out@) =~= path_views(before).push(paths@[i as int]@));
        }
        i = i + 1;
    }
    assert(paths@.subrange(0, paths@.len() as int) =~= paths@);
    out
}

/// The worker's decision on one receive: `None` is a closed channel.
pub fn next_step(received: Option<WatcherEvent>) -> (r: Step)
    ensures
        received is None <==> r is Disconnected,
        received matches Some(WatcherEvent::Stop) <==> r is Exit,
        received matches Some(WatcherEvent::NotifyResult(Err(m))) ==> r == Step::Report(m),
        received matches Some(WatcherEvent::NotifyResult(Ok(_))) ==> r is Process,
        r matches Step::Process(v) ==> path_views(v@) == triggered(received->0),
{
    match received {
        None => Step::Disconnected,
        Some(WatcherEvent::Stop) => Step::Exit,
        Some(WatcherEvent::NotifyResult(Err(m))) => Step::Report(m),
        Some(WatcherEvent::NotifyResult(Ok(e))) => {
            if e.kind == EventKind::CreateFile {
                Step::Process(archives(&e.paths))
            } else {
                let none: Vec<String> = Vec::new();
                assert(path_views(none@) =~= Seq::<Seq<char>>::empty());
                Step::Process(none)
            }
        },
    }
}

/// The script run after a save into `save_path`.
pub fn refresh_script(save_path: &str) -> (r: String)
    ensures
        r@ == join_path(join_path(save_path@, REFRESH_SCRIPT_DIR@), REFRESH_SCRIPT@),
{
    let dir = join(save_path, REFRESH_SCRIPT_DIR);
    join(dir.as_str(), REFRESH_SCRIPT)
}

/// Whether the watcher has a subscription and a worker.
#[derive(Clone, Copy, Debug, PartialEq, Eq, Structural)]
pub enum Phase {
    Idle,
    Running,
}

/// Why a watcher would not start.
#[derive(Clone, Copy, Debug, PartialEq, Eq, Structural)]
pub enum WatchError {
    /// It was running already.
    AlreadyRunning,
}

/// A watcher's settings and its phase.
pub struct Watcher {
    pub token: String,
    pub watch_path: String,
    pub formats: Vec<Format>,
    pub recursive: bool,
    pub phase: Phase,
}

/// The watcher after a stop: idle, its settings kept.
pub open spec fn stopped(w: Watcher) -> Watcher {
    Watcher { phase: Phase::Idle, ..w }
}

/// Stopping twice is stopping once, and stopping an idle watcher changes
/// nothing.
pub proof fn lemma_stop_idempotent(w: Watcher)
    ensures
        stopped(stopped(w)) == stopped(w),
        stopped(w).phase == Phase::Idle,
        w.phase == Phase::Idle ==> stopped(w) == w,
{
}

impl Watcher {
    /// An idle watcher of `watch_path` (already expanded) for the formats.
    pub fn new(token: String, watch_path: String, formats: Vec<Format>, recursive: bool) -> (r:
        Watcher)
        ensures
            r.phase == Phase::Idle,
            r.token == token,
            r.watch_path == watch_path,
            r.formats == formats,
            r.recursive == recursive,
    {
        Watcher { token, watch_path, formats, recursive, phase: Phase::Idle }
    }

    /// Whether the watcher is running.
    pub fn is_running(&self) -> (r: bool)
        ensures
            r == (self.phase == Phase::Running),
    {
        self.phase == Phase::Running
    }

    /// Moves an idle watcher to running; a running one is refused and left
    /// as it is.
    pub fn start(&mut self) -> (r: Result<(), WatchError>)
        ensures
            old(self).phase == Phase::Running ==> r == Err::<(), WatchError>(
                WatchError::AlreadyRunning,
            ) && *final(self) == *old(self),
            old(self).phase == Phase::Idle ==> r is Ok && *final(self) == (Watcher {
                phase: Phase::Running,
                ..*old(self)
            }),
    {
        if self.phase == Phase::Running {
            return Err(WatchError::AlreadyRunning);
        }
        self.phase = Phase::Running;
        Ok(())
    }

    /// Moves the watcher to idle; says whether it was running, that is,
    /// whether there is a subscription and a worker to release.
    pub fn stop(&mut self) -> (r: bool)
        ensures
            r == (old(self).phase == Phase::Running),
            *final(self) == stopped(*old(self)),
    {
        let was = self.phase == Phase::Running;
        self.phase = Phase::Idle;
        was
    }
}

} // verus!
