//! The in-memory log store the presentation layer reads: timestamped,
//! leveled entries, capped so the store cannot grow without bound.

use vstd::prelude::*;

verus! {

broadcast use vstd::std_specs::vec::group_vec_axioms, vstd::seq::group_seq_axioms;

/// One captured log event.
pub struct LogEntry {
    pub timestamp: String,
    pub level: String,
    pub target: String,
    pub message: String,
}

/// Relies on `chrono::Utc::now` and `to_rfc3339_opts`: the moment of the
/// call in RFC 3339 form with millisecond precision.  A clock reading
/// promises nothing.
#[verifier::external_body]
fn now_rfc3339() -> String {
    chrono::Utc::now().to_rfc3339_opts(chrono::SecondsFormat::Millis, true)
}

impl LogEntry {
    /// An entry stamped with the current moment.
    pub fn new(level: &str, target: &str, message: String) -> (r: LogEntry)
        ensures
            r.level@ == level@,
            r.target@ == target@,
            r.message@ == message@,
    {
        LogEntry {
            timestamp: now_rfc3339(),
            level: String::from_str(level),
            target: String::from_str(target),
            message,
        }
    }

    /// A copy, field for field.
    pub fn duplicate(&self) -> (r: LogEntry)
        ensures
            entry_eq(r, *self),
    {
        LogEntry {
            timestamp: self.timestamp.clone(),
            level: self.level.clone(),
            target: self.target.clone(),
            message: self.message.clone(),
        }
    }
}

/// Two entries carry the same text in every field.
pub open spec fn entry_eq(a: LogEntry, b: LogEntry) -> bool {
    &&& a.timestamp@ == b.timestamp@
    &&& a.level@ == b.level@
    &&& a.target@ == b.target@
    &&& a.message@ == b.message@
}

pub open spec fn entries_eq(a: Seq<LogEntry>, b: Seq<LogEntry>) -> bool {
    a.len() == b.len() && forall|i: int| 0 <= i < a.len() ==> entry_eq(#[trigger] a[i], b[i])
}

/// How many entries the store may hold before the oldest block is shed.
pub const LOG_CAP: usize = 10000;

/// How many of the oldest entries go at once when the cap is passed.
pub const LOG_SHED: usize = 1000;

/// The capped in-memory store of log entries.
pub struct LogBuffer {
    entries: Vec<LogEntry>,
}

impl LogBuffer {
    pub closed spec fn view_entries(&self) -> Seq<LogEntry> {
        self.entries@
    }

    /// The store never holds more than its cap.
    pub open spec fn wf(&self) -> bool {
        self.view_entries().len() <= LOG_CAP
    }

    pub fn new() -> (r: LogBuffer)
        ensures
            r.view_entries() == Seq::<LogEntry>::empty(),
            r.wf(),
    {
        LogBuffer { entries: Vec::new() }
    }

    /// Appends one entry; when the store passes its cap, the oldest block
    /// of entries is shed, so the latest entries always survive.
    pub fn push(&mut self, entry: LogEntry)
        requires
            old(self).wf(),
        ensures
            final(self).wf(),
            old(self).view_entries().len() + 1 <= LOG_CAP ==> final(self).view_entries() == old(
                self,
            ).view_entries().push(entry),
            old(self).view_entries().len() + 1 > LOG_CAP ==> entries_eq(
                final(self).view_entries(),
                old(self).view_entries().push(entry).skip(LOG_SHED as int),
            ),
    {
        self.entries.push(entry);
        if self.entries.len() > LOG_CAP {
            let mut kept: Vec<LogEntry> = Vec::new();
            let mut i: usize = LOG_SHED;
            while i < self.entries.len()
                invariant
                    LOG_SHED <= i <= self.entries@.len(),
                    self.entries@ == old(self).view_entries().push(entry),
                    kept@.len() == i - LOG_SHED,
                    forall|j: int|
                        0 <= j < kept@.len() ==> entry_eq(
                            #[trigger] kept@[j],
                            self.entries@[j + LOG_SHED],
                        ),
                decreases self.entries@.len() - i,
            {
                let copy = self.entries[i].duplicate();
                kept.push(copy);
                i = i + 1;
            }
            proof {
                assert(entries_eq(kept@, old(self).view_entries().push(entry).skip(
                    LOG_SHED as int,
                )));
            }
            self.entries = kept;
        }
    }

    /// Every entry currently held, oldest first, none removed.
    pub fn get_all(&self) -> (r: Vec<LogEntry>)
        ensures
            entries_eq(r@, self.view_entries()),
    {
        let mut out: Vec<LogEntry> = Vec::new();
        let mut i: usize = 0;
        while i < self.entries.len()
            invariant
                0 <= i <= self.entries@.len(),
                out@.len() == i,
                forall|j: int| 0 <= j < i ==> entry_eq(#[trigger] out@[j], self.entries@[j]),
            decreases self.entries@.len() - i,
        {
            let copy = self.entries[i].duplicate();
            out.push(copy);
            i = i + 1;
        }
        out
    }

    /// Empties the store.
    pub fn clear(&mut self)
        ensures
            final(self).view_entries() == Seq::<LogEntry>::empty(),
            final(self).wf(),
    {
        self.entries.clear();
    }
}

/// The hook the presentation layer's log capture hands its entries to: it
/// only carries the store.
pub struct LogBufferLayer {
    pub buffer: LogBuffer,
}

impl LogBufferLayer {
    pub fn new(buffer: LogBuffer) -> (r: LogBufferLayer)
        ensures
            r.buffer == buffer,
    {
        LogBufferLayer { buffer }
    }
}

} // verus!
