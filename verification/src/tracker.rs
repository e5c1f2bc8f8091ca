//! Consumer-side status tracker: the last-known state per file, the
//! append-only log, and the per-event consumer step that drives both and
//! decides the notification side effect.

use vstd::prelude::*;
use vstd::string::*;
use crate::events::PdfEvent;

verus! {

/// Severity of a log entry.
#[derive(Clone, Copy, Debug, PartialEq, Eq, Structural)]
pub enum LogLevel {
    Info,
    Warning,
    Error,
}

/// One entry of the append-only log: a display message and its severity.
/// Entries are never mutated or removed once appended.
#[derive(Debug)]
pub struct LogEntry {
    message: String,
    level: LogLevel,
}

impl View for LogEntry {
    type V = (Seq<char>, LogLevel);

    closed spec fn view(&self) -> (Seq<char>, LogLevel) {
        (self.message@, self.level)
    }
}

impl LogEntry {
    pub fn new(message: String, level: LogLevel) -> (r: Self)
        ensures
            r@ == (message@, level),
    {
        LogEntry { message, level }
    }

    /// The entry's message, for presentation.
    pub fn message(&self) -> (r: &String)
        ensures
            r@ == self@.0,
    {
        &self.message
    }

    /// The entry's severity, for presentation.
    pub fn level(&self) -> (r: LogLevel)
        ensures
            r == self@.1,
    {
        self.level
    }
}

/// The map denoted by an association list, later pairs overriding
/// earlier ones.
spec fn assoc_map(s: Seq<(String, PdfEvent)>) -> Map<Seq<char>, PdfEvent>
    decreases s.len(),
{
    if s.len() == 0 {
        Map::empty()
    } else {
        assoc_map(s.drop_last()).insert(s.last().0@, s.last().1)
    }
}

/// True if no two pairs of the list share a key.
spec fn distinct_keys(s: Seq<(String, PdfEvent)>) -> bool {
    forall|i: int, j: int| 0 <= i < j < s.len() ==> s[i].0@ != s[j].0@
}

/// A key is in the denoted map exactly when some pair of the list
/// carries it.
proof fn lemma_assoc_contains(s: Seq<(String, PdfEvent)>, k: Seq<char>)
    ensures
        assoc_map(s).dom().contains(k) <==> exists|i: int| 0 <= i < s.len() && s[i].0@ == k,
    decreases s.len(),
{
    if s.len() > 0 {
        let t = s.drop_last();
        lemma_assoc_contains(t, k);
        if s.last().0@ == k {
            assert(s[s.len() - 1].0@ == k);
        } else {
            if exists|i: int| 0 <= i < t.len() && t[i].0@ == k {
                let i = choose|i: int| 0 <= i < t.len() && t[i].0@ == k;
                assert(s[i].0@ == k);
            }
            if exists|i: int| 0 <= i < s.len() && s[i].0@ == k {
                let i = choose|i: int| 0 <= i < s.len() && s[i].0@ == k;
                assert(0 <= i < t.len() && t[i].0@ == k);
            }
        }
    }
}

/// With distinct keys, the denoted map sends each listed key to the
/// event paired with it.
proof fn lemma_assoc_lookup(s: Seq<(String, PdfEvent)>, i: int)
    requires
        distinct_keys(s),
        0 <= i < s.len(),
    ensures
        assoc_map(s).dom().contains(s[i].0@),
        assoc_map(s)[s[i].0@] == s[i].1,
    decreases s.len(),
{
    let t = s.drop_last();
    if i < s.len() - 1 {
        assert(distinct_keys(t));
        lemma_assoc_lookup(t, i);
        assert(s.last().0@ != s[i].0@);
    }
}

/// Replacing the pair at `i` by one with the same key re-points that key
/// in the denoted map.
proof fn lemma_assoc_update(s: Seq<(String, PdfEvent)>, i: int, pair: (String, PdfEvent))
    requires
        distinct_keys(s),
        0 <= i < s.len(),
        pair.0@ == s[i].0@,
    ensures
        assoc_map(s.update(i, pair)) == assoc_map(s).insert(pair.0@, pair.1),
    decreases s.len(),
{
    let u = s.update(i, pair);
    let t = s.drop_last();
    if i == s.len() - 1 {
        assert(u.drop_last() =~= t);
        assert(u.last() == pair);
        assert(assoc_map(t).insert(s.last().0@, s.last().1).insert(pair.0@, pair.1) =~= assoc_map(
            t,
        ).insert(pair.0@, pair.1));
    } else {
        assert(u.drop_last() =~= t.update(i, pair));
        assert(u.last() == s.last());
        assert(distinct_keys(t));
        lemma_assoc_update(t, i, pair);
        assert(s.last().0@ != pair.0@);
        assert(assoc_map(t).insert(pair.0@, pair.1).insert(s.last().0@, s.last().1) =~= assoc_map(
            t,
        ).insert(s.last().0@, s.last().1).insert(pair.0@, pair.1));
    }
}

/// Removing the pair at `i` removes its key from the denoted map.
proof fn lemma_assoc_remove(s: Seq<(String, PdfEvent)>, i: int)
    requires
        distinct_keys(s),
        0 <= i < s.len(),
    ensures
        assoc_map(s.remove(i)) == assoc_map(s).remove(s[i].0@),
    decreases s.len(),
{
    let r = s.remove(i);
    let t = s.drop_last();
    let k = s[i].0@;
    if i == s.len() - 1 {
        assert(r =~= t);
        lemma_assoc_contains(t, k);
        assert(!assoc_map(t).dom().contains(k));
        assert(assoc_map(t).insert(k, s.last().1).remove(k) =~= assoc_map(t));
    } else {
        assert(r.drop_last() =~= t.remove(i));
        assert(r.last() == s.last());
        assert(distinct_keys(t));
        lemma_assoc_remove(t, i);
        assert(s.last().0@ != k);
        assert(assoc_map(t).remove(k).insert(s.last().0@, s.last().1) =~= assoc_map(t).insert(
            s.last().0@,
            s.last().1,
        ).remove(k));
    }
}

/// Keys stay distinct when a pair is replaced by one with the same key.
proof fn lemma_distinct_update(s: Seq<(String, PdfEvent)>, i: int, pair: (String, PdfEvent))
    requires
        distinct_keys(s),
        0 <= i < s.len(),
        pair.0@ == s[i].0@,
    ensures
        distinct_keys(s.update(i, pair)),
{
    let u = s.update(i, pair);
    assert forall|a: int, b: int| 0 <= a < b < u.len() implies u[a].0@ != u[b].0@ by {
        assert(u[a].0@ == s[a].0@);
        assert(u[b].0@ == s[b].0@);
    }
}

/// Keys stay distinct when a pair with a fresh key is appended.
proof fn lemma_distinct_push(s: Seq<(String, PdfEvent)>, pair: (String, PdfEvent))
    requires
        distinct_keys(s),
        forall|j: int| 0 <= j < s.len() ==> s[j].0@ != pair.0@,
    ensures
        distinct_keys(s.push(pair)),
{
    let u = s.push(pair);
    assert forall|a: int, b: int| 0 <= a < b < u.len() implies u[a].0@ != u[b].0@ by {
        assert(u[a] == s[a]);
        if b < s.len() {
            assert(u[b] == s[b]);
        } else {
            assert(u[b] == pair);
        }
    }
}

/// Keys stay distinct when a pair is removed.
proof fn lemma_distinct_remove(s: Seq<(String, PdfEvent)>, i: int)
    requires
        distinct_keys(s),
        0 <= i < s.len(),
    ensures
        distinct_keys(s.remove(i)),
{
    let r = s.remove(i);
    assert forall|a: int, b: int| 0 <= a < b < r.len() implies r[a].0@ != r[b].0@ by {
        assert(r[a] == if a < i { s[a] } else { s[a + 1] });
        assert(r[b] == if b < i { s[b] } else { s[b + 1] });
    }
}

/// The status map after one classified event: a Created or Modified
/// event sets the path's entry to that event, a Deleted event removes
/// the path's entry (a no-op when the path is absent).
pub open spec fn apply_event(m: Map<Seq<char>, PdfEvent>, event: PdfEvent) -> Map<
    Seq<char>,
    PdfEvent,
> {
    match event {
        PdfEvent::Created(p) => m.insert(p@, event),
        PdfEvent::Modified(p) => m.insert(p@, event),
        PdfEvent::Deleted(p) => m.remove(p@),
    }
}

/// The severity at which the consumer logs a classified event.
pub open spec fn event_severity(event: PdfEvent) -> LogLevel {
    match event {
        PdfEvent::Created(_) => LogLevel::Info,
        PdfEvent::Modified(_) => LogLevel::Warning,
        PdfEvent::Deleted(_) => LogLevel::Error,
    }
}

/// The log line recording the outcome of the notification side effect:
/// on success an Info entry quoting the delivered message, on failure an
/// Error entry quoting the reported error.
pub open spec fn outcome_log_line(message: Seq<char>, outcome: Result<(), String>) -> (
    Seq<char>,
    LogLevel,
) {
    match outcome {
        Ok(_) => ("Email sent: "@ + message, LogLevel::Info),
        Err(e) => ("Failed to send email: "@ + e@, LogLevel::Error),
    }
}

/// Consumer-side application state: the watched directory, its current
/// file listing, the last-known status per file, and the log. All of it
/// is mutated from a single consumer context; the presentation layer
/// only reads it, besides the two public flags and the path edit buffer.
pub struct FileMonitorApp {
    folder_path: String,
    files: Vec<String>,
    /// Edit buffer for the directory path shown by the presentation layer.
    pub url: String,
    /// Whether the notification side effect is invoked per event.
    pub email_notify: bool,
    /// Whether the presentation layer shows the log.
    pub show_log: bool,
    log_messages: Vec<LogEntry>,
    file_statuses: Vec<(String, PdfEvent)>,
}

impl FileMonitorApp {
    /// Last known state per path: the most recent Created or Modified
    /// event observed for it.
    pub closed spec fn statuses(&self) -> Map<Seq<char>, PdfEvent> {
        assoc_map(self.file_statuses@)
    }

    /// The log, in insertion order.
    pub closed spec fn log(&self) -> Seq<(Seq<char>, LogLevel)> {
        Seq::new(self.log_messages@.len(), |i: int| self.log_messages@[i]@)
    }

    /// The watched directory.
    pub closed spec fn folder_path_spec(&self) -> Seq<char> {
        self.folder_path@
    }

    /// The current file listing, as last supplied by the caller.
    pub closed spec fn files_spec(&self) -> Seq<Seq<char>> {
        self.files.deep_view()
    }

    /// The path edit buffer, as the presentation layer last left it.
    pub closed spec fn url_spec(&self) -> Seq<char> {
        self.url@
    }

    /// Whether the notification side effect is invoked per event.
    pub closed spec fn email_notify_spec(&self) -> bool {
        self.email_notify
    }

    /// Whether the presentation layer shows the log.
    pub closed spec fn show_log_spec(&self) -> bool {
        self.show_log
    }

    /// Well-formed: no path has two status entries, so the entries
    /// denote a map.
    pub closed spec fn wf(&self) -> bool {
        distinct_keys(self.file_statuses@)
    }

    /// A tracker for `folder_path` with an empty listing, an empty log,
    /// no statuses, notification enabled and the log hidden. The caller
    /// supplies directory scans through `update`.
    pub fn new(folder_path: String) -> (r: Self)
        ensures
            r.wf(),
            r.folder_path_spec() == folder_path@,
            r.url_spec() == folder_path@,
            r.email_notify_spec() == true,
            r.show_log_spec() == false,
            r.files_spec() == Seq::<Seq<char>>::empty(),
            r.log() == Seq::<(Seq<char>, LogLevel)>::empty(),
            r.statuses() == Map::<Seq<char>, PdfEvent>::empty(),
    {
        let url = folder_path.clone();
        let r = FileMonitorApp {
            folder_path,
            files: Vec::new(),
            url,
            email_notify: true,
            show_log: false,
            log_messages: Vec::new(),
            file_statuses: Vec::new(),
        };
        proof {
            assert(r.files_spec() =~= Seq::<Seq<char>>::empty());
            assert(r.log() =~= Seq::<(Seq<char>, LogLevel)>::empty());
        }
        r
    }

    /// Replace the file listing with a fresh directory scan supplied by
    /// the caller; nothing else changes.
    pub fn update(&mut self, files: Vec<String>)
        ensures
            final(self).files_spec() == files.deep_view(),
            final(self).wf() == old(self).wf(),
            final(self).statuses() == old(self).statuses(),
            final(self).log() == old(self).log(),
            final(self).folder_path_spec() == old(self).folder_path_spec(),
            final(self).url_spec() == old(self).url_spec(),
            final(self).email_notify_spec() == old(self).email_notify_spec(),
            final(self).show_log_spec() == old(self).show_log_spec(),
    {
        self.files = files;
    }

    /// Point the tracker at another directory; the caller follows with a
    /// fresh scan through `update`.
    pub fn set_folder_path(&mut self, path: String)
        ensures
            final(self).folder_path_spec() == path@,
            final(self).files_spec() == old(self).files_spec(),
            final(self).wf() == old(self).wf(),
            final(self).statuses() == old(self).statuses(),
            final(self).log() == old(self).log(),
            final(self).url_spec() == old(self).url_spec(),
            final(self).email_notify_spec() == old(self).email_notify_spec(),
            final(self).show_log_spec() == old(self).show_log_spec(),
    {
        self.folder_path = path;
    }

    /// Append one entry to the log; nothing else changes.
    pub fn add_log_message(&mut self, message: String, level: LogLevel)
        ensures
            final(self).log() == old(self).log().push((message@, level)),
            final(self).wf() == old(self).wf(),
            final(self).statuses() == old(self).statuses(),
            final(self).files_spec() == old(self).files_spec(),
            final(self).folder_path_spec() == old(self).folder_path_spec(),
            final(self).url_spec() == old(self).url_spec(),
            final(self).email_notify_spec() == old(self).email_notify_spec(),
            final(self).show_log_spec() == old(self).show_log_spec(),
    {
        self.log_messages.push(LogEntry::new(message, level));
        proof {
            assert(self.log() =~= old(self).log().push((message@, level)));
        }
    }

    /// The index of the status entry for `path`, if there is one.
    fn find_index(&self, path: &String) -> (r: Option<usize>)
        ensures
            r matches Some(i) ==> i < self.file_statuses@.len() && self.file_statuses@[i as int].0@
                == path@,
            r is None ==> forall|j: int|
                0 <= j < self.file_statuses@.len() ==> self.file_statuses@[j].0@ != path@,
    {
        let n = self.file_statuses.len();
        let mut i: usize = 0;
        while i < n
            invariant
                0 <= i <= n == self.file_statuses@.len(),
                forall|j: int| 0 <= j < i ==> self.file_statuses@[j].0@ != path@,
            decreases n - i,
        {
            if self.file_statuses[i].0 == *path {
                return Some(i);
            }
            i = i + 1;
        }
        None
    }

    /// Fold one classified event into the status map: Created and
    /// Modified set the path's entry to the event, Deleted removes it
    /// (and is a no-op for an untracked path).
    pub fn update_file_status(&mut self, event: &PdfEvent)
        requires
            old(self).wf(),
        ensures
            final(self).wf(),
            final(self).statuses() == apply_event(old(self).statuses(), *event),
            final(self).log() == old(self).log(),
            final(self).files_spec() == old(self).files_spec(),
            final(self).folder_path_spec() == old(self).folder_path_spec(),
            final(self).url_spec() == old(self).url_spec(),
            final(self).email_notify_spec() == old(self).email_notify_spec(),
            final(self).show_log_spec() == old(self).show_log_spec(),
    {
        match event {
            PdfEvent::Created(p) | PdfEvent::Modified(p) => {
                let pair = (p.clone(), event.clone());
                let ghost gpair = pair;
                match self.find_index(p) {
                    Some(i) => {
                        let ghost s0 = self.file_statuses@;
                        proof {
                            lemma_assoc_update(s0, i as int, gpair);
                            lemma_distinct_update(s0, i as int, gpair);
                        }
                        self.file_statuses.set(i, pair);
                    },
                    None => {
                        let ghost s0 = self.file_statuses@;
                        proof {
                            lemma_distinct_push(s0, gpair);
                        }
                        self.file_statuses.push(pair);
                        proof {
                            assert(self.file_statuses@.drop_last() =~= s0);
                            assert(self.file_statuses@.last() == gpair);
                        }
                    },
                }
            },
            PdfEvent::Deleted(p) => {
                match self.find_index(p) {
                    Some(i) => {
                        let ghost s0 = self.file_statuses@;
                        proof {
                            lemma_assoc_remove(s0, i as int);
                            lemma_distinct_remove(s0, i as int);
                        }
                        self.file_statuses.remove(i);
                    },
                    None => {
                        proof {
                            lemma_assoc_contains(self.file_statuses@, p@);
                            assert(assoc_map(self.file_statuses@).remove(p@) =~= assoc_map(
                                self.file_statuses@,
                            ));
                        }
                    },
                }
            },
        }
    }

    /// The tracked status of `path`, if any.
    pub fn status_of(&self, path: &String) -> (r: Option<&PdfEvent>)
        requires
            self.wf(),
        ensures
            (r is Some) <==> self.statuses().dom().contains(path@),
            r matches Some(e) ==> *e == self.statuses()[path@],
    {
        proof {
            lemma_assoc_contains(self.file_statuses@, path@);
        }
        match self.find_index(path) {
            Some(i) => {
                proof {
                    lemma_assoc_lookup(self.file_statuses@, i as int);
                }
                Some(&self.file_statuses[i].1)
            },
            None => None,
        }
    }

    /// The watched directory, for presentation.
    pub fn folder_path(&self) -> (r: &String)
        ensures
            r@ == self.folder_path_spec(),
    {
        &self.folder_path
    }

    /// The current file listing, for presentation.
    pub fn files(&self) -> (r: &Vec<String>)
        ensures
            r.deep_view() == self.files_spec(),
    {
        &self.files
    }

    /// How many entries the log holds.
    pub fn log_len(&self) -> (r: usize)
        ensures
            r == self.log().len(),
    {
        self.log_messages.len()
    }

    /// The `i`-th log entry, oldest first, for presentation.
    pub fn log_entry(&self, i: usize) -> (r: &LogEntry)
        requires
            i < self.log().len(),
        ensures
            r@ == self.log()[i as int],
    {
        &self.log_messages[i]
    }

    /// One consumer step for a classified event: append the event's
    /// display message to the log at the event's severity, fold the
    /// event into the status map, and decide the notification side
    /// effect. Returns the display message to deliver exactly when
    /// notification is enabled; the side effect itself runs at the
    /// caller's edge and its outcome is recorded through
    /// `record_email_outcome`.
    pub fn handle_event(&mut self, event: &PdfEvent, message: &String) -> (r: Option<String>)
        requires
            old(self).wf(),
        ensures
            final(self).wf(),
            final(self).log() == old(self).log().push((message@, event_severity(*event))),
            final(self).statuses() == apply_event(old(self).statuses(), *event),
            (r is Some) <==> old(self).email_notify_spec(),
            r matches Some(m) ==> m@ == message@,
            final(self).files_spec() == old(self).files_spec(),
            final(self).folder_path_spec() == old(self).folder_path_spec(),
            final(self).url_spec() == old(self).url_spec(),
            final(self).email_notify_spec() == old(self).email_notify_spec(),
            final(self).show_log_spec() == old(self).show_log_spec(),
    {
        let level: LogLevel = match event {
            PdfEvent::Created(_) => LogLevel::Info,
            PdfEvent::Modified(_) => LogLevel::Warning,
            PdfEvent::Deleted(_) => LogLevel::Error,
        };
        self.add_log_message(message.clone(), level);
        self.update_file_status(event);
        if self.email_notify {
            Some(message.clone())
        } else {
            None
        }
    }

    /// Record the outcome of the notification side effect for the
    /// delivered `message`; the status map is not touched, so a failed
    /// side effect never disturbs it.
    pub fn record_email_outcome(&mut self, message: &String, outcome: Result<(), String>)
        ensures
            final(self).log() == old(self).log().push(outcome_log_line(message@, outcome)),
            final(self).wf() == old(self).wf(),
            final(self).statuses() == old(self).statuses(),
            final(self).files_spec() == old(self).files_spec(),
            final(self).folder_path_spec() == old(self).folder_path_spec(),
            final(self).url_spec() == old(self).url_spec(),
            final(self).email_notify_spec() == old(self).email_notify_spec(),
            final(self).show_log_spec() == old(self).show_log_spec(),
    {
        match outcome {
            Ok(_) => {
                let m = String::from_str("Email sent: ").concat(message.as_str());
                self.add_log_message(m, LogLevel::Info);
            },
            Err(e) => {
                let m = String::from_str("Failed to send email: ").concat(e.as_str());
                self.add_log_message(m, LogLevel::Error);
            },
        }
    }
}

/// Idempotence law: applying the same event twice in a row leaves the
/// status map exactly as applying it once; after a Created or Modified
/// event the map holds exactly that event under the event's path.
pub proof fn lemma_status_idempotent(m: Map<Seq<char>, PdfEvent>, event: PdfEvent)
    ensures
        apply_event(apply_event(m, event), event) == apply_event(m, event),
        event matches PdfEvent::Created(p) ==> apply_event(m, event).dom().contains(p@)
            && apply_event(m, event)[p@] == event,
        event matches PdfEvent::Modified(p) ==> apply_event(m, event).dom().contains(p@)
            && apply_event(m, event)[p@] == event,
{
    match event {
        PdfEvent::Created(p) => {
            assert(m.insert(p@, event).insert(p@, event) =~= m.insert(p@, event));
        },
        PdfEvent::Modified(p) => {
            assert(m.insert(p@, event).insert(p@, event) =~= m.insert(p@, event));
        },
        PdfEvent::Deleted(p) => {
            assert(m.remove(p@).remove(p@) =~= m.remove(p@));
        },
    }
}

/// Lifecycle law: applying a Deleted event for a path removes its
/// status entry, and when the path is absent the map is left unchanged.
pub proof fn lemma_delete_lifecycle(m: Map<Seq<char>, PdfEvent>, path: String)
    ensures
        !apply_event(m, PdfEvent::Deleted(path)).dom().contains(path@),
        !m.dom().contains(path@) ==> apply_event(m, PdfEvent::Deleted(path)) == m,
{
    if !m.dom().contains(path@) {
        assert(m.remove(path@) =~= m);
    }
}

} // verus!
