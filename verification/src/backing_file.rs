//! The life of the on-disk file allocated for one S3 object:
//!
//! - A sparse file has the right length and no allocated space.
//! - Opening a sparse file allocates its space and starts the download;
//!   opening a file that is downloading or complete adds a reference; opening a
//!   cached file makes it complete again.
//! - When the last reference goes, a file with allocated space or data becomes
//!   cached and keeps its data.
//! - A reader waits until the downloaded length passes the offset it reads at.
//! - Synchronising with S3 updates a file whose object changed, and removes a
//!   file whose object is gone.
//!
//! The functions here decide each transition and tell the caller which
//! filesystem action to take; `T` is the channel on which a download publishes
//! its progress.

use vstd::prelude::*;

verus! {

/// Download state of a backing file.
#[derive(Debug)]
pub enum FileDownloadStatus<T> {
    /// Right length, no allocated space, no data.
    Sparse,
    /// Space allocated and data arriving: `written` bytes are in the file so far.
    /// Each value sent on `tx` is the total number of bytes written so far.
    Downloading { tx: T, ref_count: u32, written: u64 },
    /// All data present.
    Complete { ref_count: u32 },
    /// Space allocated and no client using the file.
    Cached,
}

/// A backing file: its length and download state.
#[derive(Debug)]
pub struct FileState<T> {
    pub length: u64,
    pub status: FileDownloadStatus<T>,
}

/// What the caller must do to open a file.
#[derive(Debug, Clone, Copy, PartialEq, Eq)]
pub enum OpenAction {
    /// Reserve `length` bytes of disk space for the file, then call `allocated`.
    Allocate { length: u64 },
    /// Nothing: the file has one more reference.
    Shared,
}

/// Where a read past some offset stands.
#[derive(Debug, Clone, Copy, PartialEq, Eq)]
pub enum ReadPastAction {
    /// So many bytes are available.
    Available(u64),
    /// Wait for download progress on the file's channel.
    Wait,
}

/// One observation of download progress.
#[derive(Debug, Clone, Copy, PartialEq, Eq)]
pub enum Progress {
    /// This many bytes are written so far.
    Written(u64),
    /// Updates were dropped because the observer fell behind.
    Lagged,
    /// No more updates: the download finished or the file was deleted.
    Closed,
}

/// How the S3 object of a file compares with the file.
#[derive(Debug, Clone, Copy, PartialEq, Eq)]
pub enum RemoteObject {
    /// The object no longer exists.
    Missing,
    /// The object is the version the file holds.
    Unchanged,
    /// The object has a new version of `length` bytes.
    Changed { length: u64 },
}

/// What the caller must do after a synchronisation.
#[derive(Debug, Clone, Copy, PartialEq, Eq)]
pub enum SyncAction {
    /// Nothing.
    Keep,
    /// Unlink the file and stop tracking it.
    Unlink,
    /// Set the sparse file's length to `length`.
    SetLength { length: u64 },
    /// Release the `allocated` bytes of disk space of the file (its data is
    /// stale) and set its length to `length`; it is sparse again.
    Deallocate { allocated: u64, length: u64 },
    /// Download the new version into the file; reads wait for it.
    Redownload,
}

/// The number of references of a file that clients hold open.
pub open spec fn ref_count<T>(s: FileState<T>) -> int {
    match s.status {
        FileDownloadStatus::Downloading { ref_count, .. } => ref_count as int,
        FileDownloadStatus::Complete { ref_count } => ref_count as int,
        _ => 0,
    }
}

/// A client holds the file open.
pub open spec fn is_held<T>(s: FileState<T>) -> bool {
    s.status is Downloading || s.status is Complete
}

/// Files that clients hold have at least one reference.
pub open spec fn file_wf<T>(s: FileState<T>) -> bool {
    is_held(s) ==> ref_count(s) >= 1
}

/// The state with `n` references.
pub open spec fn with_ref_count<T>(s: FileState<T>, n: int) -> FileState<T> {
    FileState {
        length: s.length,
        status: match s.status {
            FileDownloadStatus::Downloading { tx, written, .. } => FileDownloadStatus::Downloading {
                tx,
                ref_count: n as u32,
                written,
            },
            FileDownloadStatus::Complete { .. } => FileDownloadStatus::Complete { ref_count: n as u32 },
            other => other,
        },
    }
}

/// Effect of opening a file (before any allocation).
pub open spec fn open_step<T>(s: FileState<T>) -> (FileState<T>, OpenAction) {
    match s.status {
        FileDownloadStatus::Sparse => (s, OpenAction::Allocate { length: s.length }),
        FileDownloadStatus::Cached => (
            FileState { length: s.length, status: FileDownloadStatus::Complete { ref_count: 1 } },
            OpenAction::Shared,
        ),
        _ => (with_ref_count(s, ref_count(s) + 1), OpenAction::Shared),
    }
}

/// Effect of the space of a sparse file being reserved: its download starts
/// on `tx`, with the opener's reference and nothing written yet.
pub open spec fn allocated_step<T>(s: FileState<T>, tx: T) -> FileState<T> {
    FileState { length: s.length, status: FileDownloadStatus::Downloading { tx, ref_count: 1, written: 0 } }
}

/// Effect of dropping a reference to a held file: the last reference leaves
/// the file cached, with its data.
pub open spec fn unref_step<T>(s: FileState<T>) -> FileState<T> {
    if ref_count(s) <= 1 {
        FileState { length: s.length, status: FileDownloadStatus::Cached }
    } else {
        with_ref_count(s, ref_count(s) - 1)
    }
}

/// Effect of the download reporting `written` bytes in the file.
pub open spec fn progress_recorded<T>(s: FileState<T>, written: u64) -> FileState<T> {
    match s.status {
        FileDownloadStatus::Downloading { tx, ref_count, .. } => FileState {
            length: s.length,
            status: FileDownloadStatus::Downloading { tx, ref_count, written },
        },
        _ => s,
    }
}

/// Effect of synchronising with the object's state in S3; `tx` is the channel
/// a new download would publish progress on.
pub open spec fn sync_step<T>(s: FileState<T>, remote: RemoteObject, tx: T) -> (FileState<T>, SyncAction) {
    match s.status {
        FileDownloadStatus::Downloading { .. } => (s, SyncAction::Keep),
        _ => match remote {
            RemoteObject::Missing => (s, SyncAction::Unlink),
            RemoteObject::Unchanged => (s, SyncAction::Keep),
            RemoteObject::Changed { length } => match s.status {
                FileDownloadStatus::Sparse => (
                    FileState { length, status: FileDownloadStatus::Sparse },
                    SyncAction::SetLength { length },
                ),
                FileDownloadStatus::Cached => (
                    FileState { length, status: FileDownloadStatus::Sparse },
                    SyncAction::Deallocate { allocated: s.length, length },
                ),
                _ => (
                    FileState {
                        length,
                        status: FileDownloadStatus::Downloading { tx, ref_count: ref_count(s) as u32, written: 0 },
                    },
                    SyncAction::Redownload,
                ),
            },
        },
    }
}

/// Effect of a download finishing.
pub open spec fn finish_step<T>(s: FileState<T>) -> FileState<T> {
    match s.status {
        FileDownloadStatus::Downloading { ref_count, .. } => FileState {
            length: s.length,
            status: FileDownloadStatus::Complete { ref_count },
        },
        _ => s,
    }
}

/// Where a reader past `offset` stands on a held file.
pub open spec fn read_past_step<T>(s: FileState<T>, offset: u64) -> ReadPastAction {
    match s.status {
        FileDownloadStatus::Downloading { written, .. } => if written > offset {
            ReadPastAction::Available(written)
        } else {
            ReadPastAction::Wait
        },
        _ => ReadPastAction::Available(s.length),
    }
}

/// How many bytes a reader past `offset` may read after observing `p`, or
/// `None` to keep waiting.
pub open spec fn progress_step(offset: u64, p: Progress) -> Option<u64> {
    match p {
        Progress::Written(n) => if n > offset {
            Some(n)
        } else {
            None
        },
        Progress::Lagged => None,
        Progress::Closed => Some(u64::MAX),
    }
}

impl<T> FileState<T> {
    /// A new sparse file of `length` bytes.
    pub fn sparse(length: u64) -> (s: Self)
        ensures
            s == (FileState::<T> { length, status: FileDownloadStatus::Sparse }),
            file_wf(s),
    {
        FileState { length, status: FileDownloadStatus::Sparse }
    }

    /// Whether the file can take one more reference.
    pub fn can_open(&self) -> (b: bool)
        ensures
            b == (ref_count(*self) < u32::MAX),
    {
        match &self.status {
            FileDownloadStatus::Downloading { ref_count, .. } => *ref_count < u32::MAX,
            FileDownloadStatus::Complete { ref_count } => *ref_count < u32::MAX,
            _ => true,
        }
    }

    /// A client opens the file. A sparse file must first get its space
    /// (`Allocate`); any other file is shared at once, a cached one becoming
    /// complete again.
    pub fn open(&mut self) -> (a: OpenAction)
        requires
            file_wf(*old(self)),
            ref_count(*old(self)) < u32::MAX,
        ensures
            file_wf(*final(self)),
            (*final(self), a) == open_step(*old(self)),
            old(self).status is Sparse ==> a == (OpenAction::Allocate { length: old(self).length }) && *final(self) == *old(self),
            old(self).status is Cached ==> a == OpenAction::Shared && *final(self) == (FileState::<T> { length: old(self).length, status: FileDownloadStatus::Complete { ref_count: 1 } }),
            is_held(*old(self)) ==> a == OpenAction::Shared && is_held(*final(self)) && final(self).length == old(self).length,
            is_held(*old(self)) ==> ref_count(*final(self)) == ref_count(*old(self)) + 1,
    {
        match &mut self.status {
            FileDownloadStatus::Sparse => OpenAction::Allocate { length: self.length },
            FileDownloadStatus::Cached => {
                self.status = FileDownloadStatus::Complete { ref_count: 1 };
                OpenAction::Shared
            },
            FileDownloadStatus::Downloading { ref_count, .. } => {
                *ref_count = *ref_count + 1;
                OpenAction::Shared
            },
            FileDownloadStatus::Complete { ref_count } => {
                *ref_count = *ref_count + 1;
                OpenAction::Shared
            },
        }
    }

    /// The space of a sparse file is reserved: its download starts, publishing
    /// progress on `tx`, with the opener's reference and nothing written yet.
    pub fn allocated(&mut self, tx: T)
        requires
            old(self).status is Sparse,
        ensures
            file_wf(*final(self)),
            *final(self) == allocated_step(*old(self), tx),
    {
        self.status = FileDownloadStatus::Downloading { tx, ref_count: 1, written: 0 };
    }

    /// A client drops its reference. When it was the last one, the file is
    /// cached and keeps its space and data.
    pub fn unref(&mut self)
        requires
            file_wf(*old(self)),
            is_held(*old(self)),
        ensures
            file_wf(*final(self)),
            *final(self) == unref_step(*old(self)),
            ref_count(*old(self)) <= 1 ==> *final(self) == (FileState::<T> { length: old(self).length, status: FileDownloadStatus::Cached }),
            ref_count(*old(self)) > 1 ==> final(self).length == old(self).length && ref_count(*final(self)) == ref_count(*old(self)) - 1,
            ref_count(*old(self)) > 1 ==> (final(self).status is Downloading <==> old(self).status is Downloading) && is_held(*final(self)),
    {
        match &mut self.status {
            FileDownloadStatus::Downloading { ref_count, .. } => {
                if *ref_count <= 1 {
                    self.status = FileDownloadStatus::Cached;
                } else {
                    *ref_count = *ref_count - 1;
                }
            },
            FileDownloadStatus::Complete { ref_count } => {
                if *ref_count <= 1 {
                    self.status = FileDownloadStatus::Cached;
                } else {
                    *ref_count = *ref_count - 1;
                }
            },
            _ => {},
        }
    }

    /// Whether a client holds the file open (it is downloading or complete).
    pub fn is_held(&self) -> (b: bool)
        ensures
            b == is_held(*self),
    {
        match &self.status {
            FileDownloadStatus::Downloading { .. } => true,
            FileDownloadStatus::Complete { .. } => true,
            _ => false,
        }
    }

    /// The download reports `written` bytes in the file; a file no longer
    /// downloading is left alone.
    pub fn record_progress(&mut self, written: u64)
        requires
            file_wf(*old(self)),
        ensures
            file_wf(*final(self)),
            *final(self) == progress_recorded(*old(self), written),
            old(self).status matches FileDownloadStatus::Downloading { tx, ref_count, .. } ==> *final(self) == (FileState::<T> { length: old(self).length, status: FileDownloadStatus::Downloading { tx, ref_count, written } }),
            !(old(self).status is Downloading) ==> *final(self) == *old(self),
    {
        match &mut self.status {
            FileDownloadStatus::Downloading { written: w, .. } => {
                *w = written;
            },
            _ => {},
        }
    }

    /// The download finished: a file still downloading is complete, with the
    /// same references; any other file is left alone.
    pub fn download_finished(&mut self)
        requires
            file_wf(*old(self)),
        ensures
            file_wf(*final(self)),
            *final(self) == finish_step(*old(self)),
            old(self).status matches FileDownloadStatus::Downloading { ref_count, .. } ==> *final(self) == (FileState::<T> { length: old(self).length, status: FileDownloadStatus::Complete { ref_count } }),
            !(old(self).status is Downloading) ==> *final(self) == *old(self),
    {
        match &self.status {
            FileDownloadStatus::Downloading { ref_count, .. } => {
                let refs = *ref_count;
                self.status = FileDownloadStatus::Complete { ref_count: refs };
            },
            _ => {},
        }
    }

    /// The channel of a download in progress.
    pub fn progress_channel(&self) -> (r: Option<&T>)
        ensures
            r is Some <==> self.status is Downloading,
            r matches Some(tx) ==> (self.status matches FileDownloadStatus::Downloading { tx: t, .. } && t == *tx),
    {
        match &self.status {
            FileDownloadStatus::Downloading { tx, .. } => Some(tx),
            _ => None,
        }
    }

    /// Synchronises the file with its object in S3. A file being downloaded is
    /// left alone; otherwise a missing object means unlinking the file, and a
    /// changed object means: a sparse file takes the new length, a cached file
    /// releases its space and becomes sparse with the new length, and a complete
    /// file downloads the new version (on `tx`) for the clients that hold it.
    pub fn sync(&mut self, remote: RemoteObject, tx: T) -> (a: SyncAction)
        requires
            file_wf(*old(self)),
        ensures
            file_wf(*final(self)),
            (*final(self), a) == sync_step(*old(self), remote, tx),
            old(self).status is Downloading ==> a == SyncAction::Keep && *final(self) == *old(self),
            !(old(self).status is Downloading) && remote is Missing ==> a == SyncAction::Unlink && *final(self) == *old(self),
            !(old(self).status is Downloading) && remote is Unchanged ==> a == SyncAction::Keep && *final(self) == *old(self),
            remote matches RemoteObject::Changed { length } ==> (old(self).status is Sparse ==> a == (SyncAction::SetLength { length }) && *final(self) == (FileState::<T> { length, status: FileDownloadStatus::Sparse })),
            remote matches RemoteObject::Changed { length } ==> (old(self).status is Cached ==> a == (SyncAction::Deallocate { allocated: old(self).length, length }) && *final(self) == (FileState::<T> { length, status: FileDownloadStatus::Sparse })),
            remote matches RemoteObject::Changed { length } ==> (old(self).status matches FileDownloadStatus::Complete { ref_count } ==> a == SyncAction::Redownload && *final(self) == (FileState::<T> { length, status: FileDownloadStatus::Downloading { tx, ref_count, written: 0 } })),
    {
        match &self.status {
            FileDownloadStatus::Downloading { .. } => SyncAction::Keep,
            _ => match remote {
                RemoteObject::Missing => SyncAction::Unlink,
                RemoteObject::Unchanged => SyncAction::Keep,
                RemoteObject::Changed { length } => match &self.status {
                    FileDownloadStatus::Sparse => {
                        self.length = length;
                        SyncAction::SetLength { length }
                    },
                    FileDownloadStatus::Cached => {
                        let allocated = self.length;
                        self.length = length;
                        self.status = FileDownloadStatus::Sparse;
                        SyncAction::Deallocate { allocated, length }
                    },
                    FileDownloadStatus::Complete { ref_count } => {
                        let refs = *ref_count;
                        self.length = length;
                        self.status = FileDownloadStatus::Downloading { tx, ref_count: refs, written: 0 };
                        SyncAction::Redownload
                    },
                    FileDownloadStatus::Downloading { .. } => SyncAction::Keep,
                },
            },
        }
    }
}

/// A reader wants data past `offset` in a file (`None` when the file was
/// deleted, in which case everything counts as available). A complete file
/// has all its data; during a download the bytes written so far are available
/// once they pass `offset`, and otherwise the reader waits for progress.
pub fn read_past_start<T>(file: Option<&FileState<T>>, offset: u64) -> (a: ReadPastAction)
    requires
        file matches Some(f) ==> is_held(*f),
    ensures
        a == (match file {
            None => ReadPastAction::Available(u64::MAX),
            Some(f) => read_past_step(*f, offset),
        }),
        a matches ReadPastAction::Available(n) ==> (file is None || n > offset || (file matches Some(f) && f.status is Complete)),
        file matches Some(f) ==> (f.status is Complete ==> a == ReadPastAction::Available(f.length)),
        file matches Some(f) ==> (f.status matches FileDownloadStatus::Downloading { written, .. } ==> (written > offset ==> a == ReadPastAction::Available(written))),
        a is Wait <==> (file matches Some(f) && f.status matches FileDownloadStatus::Downloading { written, .. } && written <= offset),
{
    match file {
        None => ReadPastAction::Available(u64::MAX),
        Some(f) => match &f.status {
            FileDownloadStatus::Downloading { written, .. } => if *written > offset {
                ReadPastAction::Available(*written)
            } else {
                ReadPastAction::Wait
            },
            _ => ReadPastAction::Available(f.length),
        },
    }
}

/// A waiting reader observes progress `p`: once more than `offset` bytes are
/// written it may read that many; when the updates stop, everything counts as
/// available; otherwise it keeps waiting.
pub fn read_past_progress(offset: u64, p: Progress) -> (r: Option<u64>)
    ensures
        r == progress_step(offset, p),
        r matches Some(n) ==> n >= offset,
{
    match p {
        Progress::Written(n) => if n > offset {
            Some(n)
        } else {
            None
        },
        Progress::Lagged => None,
        Progress::Closed => Some(u64::MAX),
    }
}

/// Something that happens to a file.
pub ghost enum FileEvent<T> {
    /// A client opens it; `tx` is the channel a download would start on.
    Open(T),
    /// A client closes it.
    Close,
    /// The download reports bytes written.
    Progress(u64),
    /// The download finishes.
    Finish,
    /// A synchronisation with S3 observes `remote`; `tx` is the channel a new
    /// download would start on.
    Sync(RemoteObject, T),
}

/// Effect of a client opening the file, the reservation included.
pub open spec fn open_event<T>(s: FileState<T>, tx: T) -> FileState<T> {
    let (s1, a) = open_step(s);
    if a is Allocate {
        allocated_step(s1, tx)
    } else {
        s1
    }
}

/// Effect of one event.
pub open spec fn apply_event<T>(s: FileState<T>, e: FileEvent<T>) -> FileState<T> {
    match e {
        FileEvent::Open(tx) => open_event(s, tx),
        FileEvent::Close => unref_step(s),
        FileEvent::Progress(n) => progress_recorded(s, n),
        FileEvent::Finish => finish_step(s),
        FileEvent::Sync(remote, tx) => sync_step(s, remote, tx).0,
    }
}

/// Effect of events in order.
pub open spec fn apply_events<T>(s: FileState<T>, es: Seq<FileEvent<T>>) -> FileState<T>
    decreases es.len(),
{
    if es.len() == 0 {
        s
    } else {
        apply_event(apply_events(s, es.drop_last()), es.last())
    }
}

/// Number of handles open after the events: opens minus closes.
pub open spec fn live_handles<T>(es: Seq<FileEvent<T>>) -> int
    decreases es.len(),
{
    if es.len() == 0 {
        0
    } else {
        live_handles(es.drop_last()) + match es.last() {
            FileEvent::Open(_) => 1int,
            FileEvent::Close => -1int,
            _ => 0int,
        }
    }
}

/// Every close has a handle to close and no open overflows the count: after
/// each prefix of the events, the number of live handles is between 0 and the
/// maximum reference count.
pub open spec fn handles_balanced<T>(es: Seq<FileEvent<T>>) -> bool {
    forall|i: int| 0 <= i <= es.len() ==> 0 <= #[trigger] live_handles(es.take(i)) <= u32::MAX
}

/// The reference count of a file counts its live handles: starting from a file
/// nobody holds, after any events in which every close has a handle, the file
/// is held exactly when handles are live, its reference count is their number,
/// and every close found the file held (so dropping a reference never meets an
/// unheld file).
pub proof fn lemma_ref_count_counts_handles<T>(s: FileState<T>, es: Seq<FileEvent<T>>)
    requires
        !is_held(s),
        handles_balanced(es),
    ensures
        file_wf(apply_events(s, es)),
        ref_count(apply_events(s, es)) == live_handles(es),
        is_held(apply_events(s, es)) <==> live_handles(es) > 0,
        forall|i: int|
            0 <= i < es.len() && es[i] is Close ==> #[trigger] is_held(apply_events(s, es.take(i))) && ref_count(apply_events(s, es.take(i))) < u32::MAX + 1,
    decreases es.len(),
{
    if es.len() > 0 {
        let rest = es.drop_last();
        assert forall|i: int| 0 <= i <= rest.len() implies 0 <= #[trigger] live_handles(rest.take(i)) <= u32::MAX by {
            assert(rest.take(i) =~= es.take(i));
        }
        lemma_ref_count_counts_handles(s, rest);
        assert(es.take(es.len() as int) =~= es);
        assert(es.take(rest.len() as int) =~= rest);
        assert(0 <= live_handles(es.take(es.len() as int)) <= u32::MAX);
        assert(0 <= live_handles(es.take(rest.len() as int)) <= u32::MAX);
        assert forall|i: int|
            0 <= i < es.len() && es[i] is Close implies #[trigger] is_held(apply_events(s, es.take(i))) && ref_count(apply_events(s, es.take(i))) < u32::MAX + 1 by {
            if i < rest.len() {
                assert(es.take(i) =~= rest.take(i));
                assert(rest[i] == es[i]);
            } else {
                assert(es.take(i) =~= rest);
            }
        }
    } else {
        assert(es.take(0) =~= es);
    }
}

/// A cached file that is opened and closed again is cached again, with the
/// same length.
pub proof fn lemma_cached_open_close<T>(length: u64)
    ensures
        ({
            let s = FileState::<T> { length, status: FileDownloadStatus::Cached };
            let (s1, a1) = open_step(s);
            let s2 = unref_step(s1);
            &&& a1 == OpenAction::Shared
            &&& s1 == (FileState::<T> { length, status: FileDownloadStatus::Complete { ref_count: 1 } })
            &&& s2 == s
        }),
{
}

/// On a file that clients hold, an open followed by a close leaves the file as
/// it was.
pub proof fn lemma_open_then_unref<T>(s: FileState<T>)
    requires
        file_wf(s),
        is_held(s),
        ref_count(s) < u32::MAX,
    ensures
        unref_step(open_step(s).0) == s,
{
}

/// The whole life of a file opened by one client: the sparse file gets its
/// space and downloads, completes, and on close is cached; reopening the cached
/// file needs no new allocation.
pub proof fn lemma_sparse_to_cached<T>(length: u64, tx: T)
    ensures
        ({
            let s = FileState::<T> { length, status: FileDownloadStatus::Sparse };
            let (s1, a1) = open_step(s);
            let s2 = allocated_step(s1, tx);
            let s3 = finish_step(s2);
            let s4 = unref_step(s3);
            let (s5, a5) = open_step(s4);
            &&& a1 == OpenAction::Allocate { length }
            &&& s1 == s
            &&& s2 == (FileState::<T> { length, status: FileDownloadStatus::Downloading { tx, ref_count: 1, written: 0 } })
            &&& s3 == (FileState::<T> { length, status: FileDownloadStatus::Complete { ref_count: 1 } })
            &&& s4 == (FileState::<T> { length, status: FileDownloadStatus::Cached })
            &&& a5 == OpenAction::Shared
            &&& s5 == s3
        }),
{
}

/// A file whose last client closes it while its download is in progress is
/// cached, of the same length, with the data it has.
pub proof fn lemma_last_close_while_downloading<T>(length: u64, tx: T, written: u64)
    ensures
        unref_step(FileState { length, status: FileDownloadStatus::Downloading { tx, ref_count: 1, written } }) == (
            FileState::<T> { length, status: FileDownloadStatus::Cached }
        ),
{
}

/// A reader never waits for data that is already there: during a download,
/// once more than `offset` bytes are written, the read may proceed over all of
/// them.
pub proof fn lemma_no_wait_for_written_data<T>(s: FileState<T>, offset: u64)
    requires
        s.status matches FileDownloadStatus::Downloading { written, .. } && written > offset,
    ensures
        s.status matches FileDownloadStatus::Downloading { written, .. } && read_past_step(s, offset) == ReadPastAction::Available(written),
{
}

/// Synchronising any file that is not being downloaded with an object that no
/// longer exists unlinks the file and leaves its state as it was, whatever the
/// file's state (cached, sparse or complete) and its references.
pub proof fn lemma_sync_missing_unlinks<T>(s: FileState<T>, tx: T)
    requires
        !(s.status is Downloading),
    ensures
        sync_step(s, RemoteObject::Missing, tx) == (s, SyncAction::Unlink),
        sync_step(s, RemoteObject::Missing, tx).1 != SyncAction::Keep,
{
}

/// Synchronising a file whose object changed: a file being downloaded is kept
/// as it is; a sparse file takes the new length; a cached file gives back the
/// space of its old length and becomes sparse with the new length; a complete
/// file downloads the new version for all of its clients, from nothing written.
pub proof fn lemma_sync_changed_object<T>(s: FileState<T>, length: u64, tx: T)
    ensures
        ({
            let (s1, a) = sync_step(s, RemoteObject::Changed { length }, tx);
            &&& s.status is Downloading ==> a == SyncAction::Keep && s1 == s
            &&& s.status is Sparse ==> a == (SyncAction::SetLength { length }) && s1 == (FileState::<T> { length, status: FileDownloadStatus::Sparse })
            &&& s.status is Cached ==> a == (SyncAction::Deallocate { allocated: s.length, length }) && s1 == (FileState::<T> { length, status: FileDownloadStatus::Sparse })
            &&& s.status is Complete ==> a == SyncAction::Redownload && s1.length == length && ref_count(s1) == ref_count(s)
            &&& s.status is Complete ==> (s1.status matches FileDownloadStatus::Downloading { tx: t, written, .. } && t == tx && written == 0)
        }),
{
}

/// Synchronising with an unchanged object never changes the file and asks for
/// nothing.
pub proof fn lemma_sync_unchanged_keeps<T>(s: FileState<T>, tx: T)
    ensures
        sync_step(s, RemoteObject::Unchanged, tx) == (s, SyncAction::Keep),
{
}

/// A download that finishes makes its file complete, whatever the number of
/// clients holding it: the references and the length stay, and afterwards a
/// read past any offset has the whole file available and never waits.
pub proof fn lemma_finished_download_is_complete<T>(s: FileState<T>, offset: u64)
    requires
        s.status is Downloading,
    ensures
        finish_step(s).status is Complete,
        finish_step(s).length == s.length,
        ref_count(finish_step(s)) == ref_count(s),
        read_past_step(finish_step(s), offset) == ReadPastAction::Available(s.length),
{
}

/// A complete file has all its data: a read past any offset has the whole
/// length available, whatever the number of clients holding the file.
pub proof fn lemma_complete_file_available<T>(s: FileState<T>, offset: u64)
    requires
        s.status is Complete,
    ensures
        read_past_step(s, offset) == ReadPastAction::Available(s.length),
{
}

/// A reader waits exactly when the file is being downloaded and no more than
/// `offset` bytes are written yet.
pub proof fn lemma_wait_only_when_behind<T>(s: FileState<T>, offset: u64)
    ensures
        read_past_step(s, offset) is Wait <==> (s.status matches FileDownloadStatus::Downloading { written, .. } && written <= offset),
{
}

/// Dropping a reference: the last one leaves the file cached with its length;
/// any other leaves the file held, in the same download state, with one
/// reference less.
pub proof fn lemma_unref_counts_down<T>(s: FileState<T>)
    requires
        file_wf(s),
        is_held(s),
    ensures
        ref_count(s) == 1 ==> unref_step(s) == (FileState::<T> { length: s.length, status: FileDownloadStatus::Cached }),
        ref_count(s) > 1 ==> is_held(unref_step(s)) && ref_count(unref_step(s)) == ref_count(s) - 1,
        ref_count(s) > 1 ==> unref_step(s).length == s.length && (unref_step(s).status is Downloading <==> s.status is Downloading),
{
}

} // verus!
