//! Watch session: the state machine of the filesystem watcher. At most one
//! watch is active at a time; starting a new one replaces the old one, and
//! stopping is idempotent and never fails. Raw backend notifications are
//! classified into the normalized event stream handed to the subscriber,
//! one event per raw notification: low latency, at the price of passing
//! event bursts through instead of debouncing them.

use vstd::prelude::*;

use crate::errors::WatchError;

verus! {

/// A normalized filesystem event delivered to the subscriber.
#[derive(Debug, Clone)]
pub struct FileEvent {
    /// `"create"`, `"delete"`, `"rename"` or `"modify"`.
    pub event_type: String,
    pub path: String,
}

/// The shape of a raw backend notification, as far as classification needs
/// it: a creation, a removal, a name-level modification, or anything else.
#[derive(Debug, Clone)]
pub enum RawEventKind {
    Create,
    Remove,
    NameChange,
    Other,
}

/// The normalized tag for a raw notification kind; `None` for kinds that are
/// dropped unclassified.
pub open spec fn spec_classify(k: RawEventKind) -> Option<Seq<char>> {
    match k {
        RawEventKind::Create => Option::Some("create"@),
        RawEventKind::Remove => Option::Some("delete"@),
        RawEventKind::NameChange => Option::Some("rename"@),
        RawEventKind::Other => Option::None,
    }
}

/// Classify one raw notification kind.
pub fn classify_event(kind: &RawEventKind) -> (r: Option<String>)
    ensures
        match spec_classify(*kind) {
            Option::Some(t) => r matches Some(s) && s@ == t,
            Option::None => r is None,
        },
{
    match kind {
        RawEventKind::Create => Some(String::from_str("create")),
        RawEventKind::Remove => Some(String::from_str("delete")),
        RawEventKind::NameChange => Some(String::from_str("rename")),
        RawEventKind::Other => None,
    }
}

/// Turn one raw notification into its normalized events: one per affected
/// path for a classified kind, none for an unclassified one.
pub fn normalize_events(kind: &RawEventKind, paths: &Vec<String>) -> (r: Vec<FileEvent>)
    ensures
        spec_classify(*kind) is None ==> r@.len() == 0,
        spec_classify(*kind) matches Some(t) ==> r@.len() == paths@.len() && forall|i: int|
            0 <= i < r@.len() ==> (#[trigger] r@[i]).event_type@ == t && r@[i].path@
                == paths@[i]@,
{
    match classify_event(kind) {
        None => Vec::new(),
        Some(tag) => {
            let mut out: Vec<FileEvent> = Vec::new();
            let n = paths.len();
            let mut i: usize = 0;
            while i < n
                invariant
                    0 <= i <= n,
                    n == paths@.len(),
                    spec_classify(*kind) matches Some(t) && tag@ == t,
                    out@.len() == i,
                    forall|k: int|
                        0 <= k < i ==> (#[trigger] out@[k]).event_type@ == tag@ && out@[k].path@
                            == paths@[k]@,
                decreases n - i,
            {
                let ev = FileEvent { event_type: tag.clone(), path: paths[i].clone() };
                out.push(ev);
                i = i + 1;
            }
            out
        },
    }
}

/// The state after `stop`: no watch is active.
pub open spec fn spec_stop(s: Option<Seq<char>>) -> Option<Seq<char>> {
    Option::None
}

/// The state after `start` on `root`: the old watch is torn down either way;
/// the new root is watched exactly when the backend established the watch.
pub open spec fn spec_start(s: Option<Seq<char>>, root: Seq<char>, established: bool) -> Option<
    Seq<char>,
> {
    if established {
        Option::Some(root)
    } else {
        Option::None
    }
}

/// The watch session: `None` is Idle, `Some(root)` is Watching that root.
/// The owning handle of the backend subscription lives at the edge that
/// drives this state machine; this state decides, the edge performs.
pub struct WatchSession {
    watching_path: Option<String>,
}

impl View for WatchSession {
    type V = Option<Seq<char>>;

    closed spec fn view(&self) -> Option<Seq<char>> {
        match self.watching_path {
            Option::Some(p) => Option::Some(p@),
            Option::None => Option::None,
        }
    }
}

impl WatchSession {
    /// A session starts Idle.
    pub fn new() -> (r: WatchSession)
        ensures
            r@ is None,
    {
        WatchSession { watching_path: None }
    }

    /// Whether a watch is currently active.
    pub fn is_watching(&self) -> (r: bool)
        ensures
            r == (self@ is Some),
    {
        self.watching_path.is_some()
    }

    /// The currently watched root, if any.
    pub fn watched_root(&self) -> (r: Option<&String>)
        ensures
            match r {
                Some(p) => self@ matches Some(v) && p@ == v,
                None => self@ is None,
            },
    {
        self.watching_path.as_ref()
    }

    /// Tear down any active watch and become Idle. Never fails; idempotent.
    pub fn stop(&mut self)
        ensures
            final(self)@ == spec_stop(old(self)@),
            final(self)@ is None,
    {
        self.watching_path = None;
    }

    /// Record the outcome of a start transition on `root`. Whatever the
    /// outcome, the previous watch is gone: on success the session watches
    /// `root`, on failure it is Idle and the error names the root.
    pub fn start(&mut self, root: &str, established: bool) -> (r: Result<(), WatchError>)
        ensures
            final(self)@ == spec_start(old(self)@, root@, established),
            established <==> r is Ok,
            !established ==> (r matches Err(e) && e matches WatchError::SetupFailed { path }
                && path@ == root@),
    {
        self.watching_path = None;
        if established {
            self.watching_path = Some(String::from_str(root));
            Ok(())
        } else {
            Err(WatchError::SetupFailed { path: String::from_str(root) })
        }
    }
}

/// Decide whether a watch may be started on `path`, from what the filesystem
/// edge reports about it: it must exist and be a directory.
pub fn check_watch_root(path: &str, exists: bool, is_dir: bool) -> (r: Result<(), WatchError>)
    ensures
        (exists && is_dir) <==> r is Ok,
        !exists ==> (r matches Err(e) && e matches WatchError::NotFound { path: p } && p@
            == path@),
        (exists && !is_dir) ==> (r matches Err(e) && e matches WatchError::WrongKind { path: p }
            && p@ == path@),
{
    if !exists {
        Err(WatchError::NotFound { path: String::from_str(path) })
    } else if !is_dir {
        Err(WatchError::WrongKind { path: String::from_str(path) })
    } else {
        Ok(())
    }
}

/// Replace semantics: starting on one root and then on another leaves exactly
/// the second root watched, whatever state the session began in.
pub proof fn lemma_start_replaces(
    s: Option<Seq<char>>,
    root_a: Seq<char>,
    root_b: Seq<char>,
)
    ensures
        spec_start(spec_start(s, root_a, true), root_b, true) == Option::Some(root_b),
{
}

/// A failed start never leaves a stale watch: the session ends Idle.
pub proof fn lemma_failed_start_idle(s: Option<Seq<char>>, root: Seq<char>)
    ensures
        spec_start(s, root, false) is None,
{
}

/// Stop idempotence: stopping always lands in Idle, and stopping again
/// changes nothing.
pub proof fn lemma_stop_idempotent(s: Option<Seq<char>>)
    ensures
        spec_stop(s) is None,
        spec_stop(spec_stop(s)) == spec_stop(s),
{
}

} // verus!
