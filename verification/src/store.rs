//! Bookkeeping of the backing store: which objects clients hold open, which
//! downloaded objects are only kept as cache, and which cached object to evict
//! when the disk is full.
//!
//! The I/O (S3 requests, `openat2`, `fallocate`, `statat`, unlinking) is done by
//! the caller; the functions here decide what happens to the bookkeeping on each
//! event and what the caller must do next.

use std::cmp::Ordering;
use vstd::prelude::*;

use crate::table::PathTable;

verus! {

/// A downloaded object that no client is using.
#[derive(Debug)]
pub struct CachedFileState {
    /// When the object was last released by a client, on a clock that only moves forward.
    pub last_access: u64,
    /// Size of the backing file in bytes.
    pub size: u64,
    /// ETag of the version that was downloaded.
    pub etag: Option<String>,
}

/// Progress of the download of an opened object.
#[derive(Debug)]
pub enum FileDownloadStatus<C> {
    /// A client is downloading the object; others wait on `download_result_channel`
    /// for the outcome.
    Downloading { download_result_channel: C },
    /// The object is fully downloaded.
    Downloaded { etag: Option<String> },
}

/// An object that at least one client holds open.
#[derive(Debug)]
pub struct OpenedFileState<C> {
    /// Number of open references.
    pub refs: u32,
    pub download_status: FileDownloadStatus<C>,
}

/// How a request to open an object proceeds.
#[derive(Debug, Clone, Copy, PartialEq, Eq)]
pub enum OpenStart {
    /// The object was cached and is now open again; the open succeeded.
    Revived,
    /// Another client already downloaded the object; the open succeeded.
    AlreadyDownloaded,
    /// Another client is downloading the object: wait on its channel for the outcome.
    FollowDownload,
    /// Nobody has the object: download it, then report with `finish_download`.
    DownloadSelf,
}

/// A downloaded object whose last reference was just released: the caller
/// checks the backing file and hands it to `cache_released`.
#[derive(Debug)]
pub struct ReleasedFile {
    pub path: String,
    pub etag: Option<String>,
}

/// The bookkeeping as mathematical maps from object key to state.
pub ghost struct StoreView<C> {
    pub opened: Map<Seq<char>, OpenedFileState<C>>,
    pub cached: Map<Seq<char>, CachedFileState>,
}

/// Eviction priority of `a` is at most that of `b`: larger files are evicted
/// first, and among files of the same size the less recently used one.
pub open spec fn evicts_no_sooner(a: CachedFileState, b: CachedFileState) -> bool {
    a.size < b.size || (a.size == b.size && b.last_access <= a.last_access)
}

/// The order of eviction priority as a three-way comparison.
pub open spec fn eviction_cmp(a: CachedFileState, b: CachedFileState) -> Ordering {
    if a.size < b.size {
        Ordering::Less
    } else if a.size > b.size {
        Ordering::Greater
    } else if a.last_access > b.last_access {
        Ordering::Less
    } else if a.last_access < b.last_access {
        Ordering::Greater
    } else {
        Ordering::Equal
    }
}

impl CachedFileState {
    /// Compares eviction priority: the greater state is evicted first.
    pub fn cmp(&self, other: &Self) -> (o: Ordering)
        ensures
            o == eviction_cmp(*self, *other),
    {
        if self.size < other.size {
            Ordering::Less
        } else if self.size > other.size {
            Ordering::Greater
        } else if self.last_access > other.last_access {
            Ordering::Less
        } else if self.last_access < other.last_access {
            Ordering::Greater
        } else {
            Ordering::Equal
        }
    }

    /// Same as `cmp`: the eviction order is total.
    pub fn partial_cmp(&self, other: &Self) -> (o: Option<Ordering>)
        ensures
            o == Some(eviction_cmp(*self, *other)),
    {
        Some(self.cmp(other))
    }
}

/// Whether `a` is evicted strictly before `b` (the comparison that picking the
/// maximum goes by: among equal priorities the later candidate wins).
fn outranks(a: &CachedFileState, b: &CachedFileState) -> (r: bool)
    ensures
        r == !evicts_no_sooner(*a, *b),
{
    match a.cmp(b) {
        Ordering::Greater => true,
        _ => false,
    }
}

/// One more reference to an opened object.
pub open spec fn add_ref<C>(st: OpenedFileState<C>) -> OpenedFileState<C> {
    OpenedFileState { refs: (st.refs + 1) as u32, download_status: st.download_status }
}

/// One reference less to an opened object.
pub open spec fn drop_ref<C>(st: OpenedFileState<C>) -> OpenedFileState<C> {
    OpenedFileState { refs: (st.refs - 1) as u32, download_status: st.download_status }
}

/// Opening `path` always leaves room for one more reference.
pub open spec fn can_open<C>(s: StoreView<C>, path: Seq<char>) -> bool {
    s.opened.contains_key(path) ==> s.opened[path].refs < u32::MAX
}

/// Effect of a client opening `path`; `channel` is the channel a new download
/// would publish its outcome on.
pub open spec fn open_step<C>(s: StoreView<C>, path: Seq<char>, channel: C) -> (StoreView<C>, OpenStart) {
    if s.cached.contains_key(path) {
        let opened = if s.opened.contains_key(path) {
            s.opened.insert(path, add_ref(s.opened[path]))
        } else {
            s.opened.insert(
                path,
                OpenedFileState {
                    refs: 1,
                    download_status: FileDownloadStatus::Downloaded { etag: s.cached[path].etag },
                },
            )
        };
        (StoreView { opened, cached: s.cached.remove(path) }, OpenStart::Revived)
    } else if s.opened.contains_key(path) {
        (
            StoreView { opened: s.opened.insert(path, add_ref(s.opened[path])), cached: s.cached },
            if s.opened[path].download_status is Downloaded {
                OpenStart::AlreadyDownloaded
            } else {
                OpenStart::FollowDownload
            },
        )
    } else {
        (
            StoreView {
                opened: s.opened.insert(
                    path,
                    OpenedFileState {
                        refs: 1,
                        download_status: FileDownloadStatus::Downloading { download_result_channel: channel },
                    },
                ),
                cached: s.cached,
            },
            OpenStart::DownloadSelf,
        )
    }
}

/// Effect of the download of `path` ending with `result` (the ETag, or an errno).
pub open spec fn finish_download_step<C>(s: StoreView<C>, path: Seq<char>, result: Result<Option<String>, u16>) -> StoreView<C> {
    match result {
        Ok(etag) => if s.opened.contains_key(path) {
            StoreView {
                opened: s.opened.insert(
                    path,
                    OpenedFileState {
                        refs: s.opened[path].refs,
                        download_status: FileDownloadStatus::Downloaded { etag },
                    },
                ),
                cached: s.cached,
            }
        } else {
            s
        },
        Err(_) => StoreView { opened: s.opened.remove(path), cached: s.cached },
    }
}

/// Effect of releasing one reference to `path`, and the ETag of the object when
/// this was the last reference to a downloaded object.
pub open spec fn release_step<C>(s: StoreView<C>, path: Seq<char>) -> (StoreView<C>, Option<Option<String>>) {
    if s.opened.contains_key(path) {
        let st = s.opened[path];
        if st.refs <= 1 {
            (
                StoreView { opened: s.opened.remove(path), cached: s.cached },
                match st.download_status {
                    FileDownloadStatus::Downloaded { etag } => Some(etag),
                    FileDownloadStatus::Downloading { .. } => None,
                },
            )
        } else {
            (StoreView { opened: s.opened.insert(path, drop_ref(st)), cached: s.cached }, None)
        }
    } else {
        (s, None)
    }
}

/// Effect of handing a released object to the cache: `size` is the size of its
/// backing file, `None` when the file is gone. Empty files are not cached.
pub open spec fn cache_step<C>(
    s: StoreView<C>,
    path: Seq<char>,
    etag: Option<String>,
    size: Option<u64>,
    now: u64,
) -> StoreView<C> {
    match size {
        Some(sz) => if sz != 0 {
            StoreView {
                opened: s.opened,
                cached: s.cached.insert(path, CachedFileState { last_access: now, size: sz, etag }),
            }
        } else {
            s
        },
        None => s,
    }
}

/// Effect of releasing, in order, one reference to each of `paths`, and the
/// ETags of the objects released to the cache on the way.
pub open spec fn release_all_step<C>(s: StoreView<C>, paths: Seq<Seq<char>>) -> (StoreView<C>, Seq<(Seq<char>, Option<String>)>)
    decreases paths.len(),
{
    if paths.len() == 0 {
        (s, Seq::empty())
    } else {
        let prev = release_all_step(s, paths.drop_last());
        let step = release_step(prev.0, paths.last());
        (
            step.0,
            match step.1 {
                Some(etag) => prev.1.push((paths.last(), etag)),
                None => prev.1,
            },
        )
    }
}

/// The references to `path` in `opened`: 0 when nobody holds it.
pub open spec fn refs_of<C>(opened: Map<Seq<char>, OpenedFileState<C>>, path: Seq<char>) -> int {
    if opened.contains_key(path) {
        opened[path].refs as int
    } else {
        0
    }
}

/// `path` is opened and not cached, and its download is in progress
/// (`downloading`) or done (`!downloading`).
pub open spec fn opened_with<C>(s: StoreView<C>, path: Seq<char>, downloading: bool) -> bool {
    &&& !s.cached.contains_key(path)
    &&& s.opened.contains_key(path)
    &&& (s.opened[path].download_status is Downloading) == downloading
}

/// From `before` to `after`, `k` lost one reference: it is gone when it had at
/// most one (or none), and otherwise has one less with the same download state.
pub open spec fn one_reference_released<C>(
    before: Map<Seq<char>, OpenedFileState<C>>,
    after: Map<Seq<char>, OpenedFileState<C>>,
    k: Seq<char>,
) -> bool {
    if before.contains_key(k) && before[k].refs > 1 {
        &&& after.contains_key(k)
        &&& after[k].refs == before[k].refs - 1
        &&& after[k].download_status == before[k].download_status
    } else {
        !after.contains_key(k)
    }
}

/// From `before` to `after`, the entry of `k` did not change.
pub open spec fn left_alone<C>(
    before: Map<Seq<char>, OpenedFileState<C>>,
    after: Map<Seq<char>, OpenedFileState<C>>,
    k: Seq<char>,
) -> bool {
    &&& after.contains_key(k) == before.contains_key(k)
    &&& before.contains_key(k) ==> after[k] == before[k]
}

/// Releasing one reference to `k` in `before` releases its last reference to a
/// downloaded object whose ETag is `etag`: it goes to the cache.
pub open spec fn released_to_cache<C>(before: Map<Seq<char>, OpenedFileState<C>>, k: Seq<char>, etag: Option<String>) -> bool {
    &&& before.contains_key(k)
    &&& before[k].refs <= 1
    &&& before[k].download_status == (FileDownloadStatus::<C>::Downloaded { etag })
}

/// The bookkeeping of the whole store.
#[derive(Debug)]
pub struct StoreState<C> {
    /// Objects that at least one client is using.
    opened_files: PathTable<OpenedFileState<C>>,
    /// Objects that no client is using but whose contents are downloaded.
    cached_files: PathTable<CachedFileState>,
}

impl<C> View for StoreState<C> {
    type V = StoreView<C>;

    closed spec fn view(&self) -> StoreView<C> {
        StoreView { opened: self.opened_files@, cached: self.cached_files@ }
    }
}

/// Every opened object has at least one reference.
pub open spec fn view_wf<C>(s: StoreView<C>) -> bool {
    forall|k: Seq<char>| #[trigger] s.opened.contains_key(k) ==> s.opened[k].refs >= 1
}

impl<C> StoreState<C> {
    /// The tables are well formed and every opened object has at least one reference.
    pub closed spec fn wf(&self) -> bool {
        &&& self.opened_files.wf()
        &&& self.cached_files.wf()
        &&& view_wf(self@)
    }

    /// An empty store.
    pub fn new() -> (s: Self)
        ensures
            s.wf(),
            s@.opened == Map::<Seq<char>, OpenedFileState<C>>::empty(),
            s@.cached == Map::<Seq<char>, CachedFileState>::empty(),
    {
        StoreState { opened_files: PathTable::new(), cached_files: PathTable::new() }
    }

    /// Whether `path` can take one more reference (its count is below the maximum).
    pub fn can_open(&self, path: &str) -> (b: bool)
        requires
            self.wf(),
        ensures
            b == can_open(self@, path@),
    {
        match self.opened_files.get(path) {
            Some(st) => st.refs < u32::MAX,
            None => true,
        }
    }

    /// Whether some client holds `path` open.
    pub fn is_opened(&self, path: &str) -> (b: bool)
        requires
            self.wf(),
        ensures
            b == self@.opened.contains_key(path@),
    {
        self.opened_files.contains(path)
    }

    /// Whether `path` is kept in the cache.
    pub fn is_cached(&self, path: &str) -> (b: bool)
        requires
            self.wf(),
        ensures
            b == self@.cached.contains_key(path@),
    {
        self.cached_files.contains(path)
    }

    /// A client opens `path`. A cached object is revived; an opened object gets
    /// one more reference; otherwise the object is entered as downloading with
    /// `channel` and the caller downloads it.
    pub fn begin_open(&mut self, path: &str, channel: C) -> (start: OpenStart)
        requires
            old(self).wf(),
            can_open(old(self)@, path@),
        ensures
            final(self).wf(),
            (final(self)@, start) == open_step(old(self)@, path@, channel),
            start == OpenStart::Revived <==> old(self)@.cached.contains_key(path@),
            start == OpenStart::AlreadyDownloaded <==> opened_with(old(self)@, path@, false),
            start == OpenStart::FollowDownload <==> opened_with(old(self)@, path@, true),
            start == OpenStart::DownloadSelf <==> (!old(self)@.cached.contains_key(path@) && !old(self)@.opened.contains_key(path@)),
            final(self)@.opened.contains_key(path@) && !final(self)@.cached.contains_key(path@),
            final(self)@.opened[path@].refs == refs_of(old(self)@.opened, path@) + 1,
            final(self)@.opened.remove(path@) == old(self)@.opened.remove(path@),
            final(self)@.cached == old(self)@.cached.remove(path@),
    {
        let ghost s = self@;
        match self.cached_files.remove(path) {
            Some((owned_path, cached)) => {
                match self.opened_files.remove(path) {
                    Some((key, st)) => {
                        self.opened_files.insert_new(
                            key,
                            OpenedFileState { refs: st.refs + 1, download_status: st.download_status },
                        );
                    },
                    None => {
                        self.opened_files.insert_new(
                            owned_path,
                            OpenedFileState {
                                refs: 1,
                                download_status: FileDownloadStatus::Downloaded { etag: cached.etag },
                            },
                        );
                    },
                }
                assert(self@.opened =~= open_step(s, path@, channel).0.opened);
                OpenStart::Revived
            },
            None => {
                match self.opened_files.remove(path) {
                    Some((key, st)) => {
                        let start = match &st.download_status {
                            FileDownloadStatus::Downloaded { .. } => OpenStart::AlreadyDownloaded,
                            FileDownloadStatus::Downloading { .. } => OpenStart::FollowDownload,
                        };
                        self.opened_files.insert_new(
                            key,
                            OpenedFileState { refs: st.refs + 1, download_status: st.download_status },
                        );
                        assert(self@.opened =~= open_step(s, path@, channel).0.opened);
                        start
                    },
                    None => {
                        self.opened_files.insert_new(
                            path.to_owned(),
                            OpenedFileState {
                                refs: 1,
                                download_status: FileDownloadStatus::Downloading {
                                    download_result_channel: channel,
                                },
                            },
                        );
                        assert(self@.opened =~= open_step(s, path@, channel).0.opened);
                        OpenStart::DownloadSelf
                    },
                }
            },
        }
    }

    /// The channel on which the download of `path` in progress publishes its outcome.
    pub fn download_channel(&self, path: &str) -> (r: Option<&C>)
        requires
            self.wf(),
        ensures
            r is Some <==> (self@.opened.contains_key(path@) && self@.opened[path@].download_status is Downloading),
            r matches Some(c) ==> self@.opened[path@].download_status == (FileDownloadStatus::Downloading {
                download_result_channel: *c,
            }),
    {
        match self.opened_files.get(path) {
            Some(st) => match &st.download_status {
                FileDownloadStatus::Downloading { download_result_channel } => Some(download_result_channel),
                FileDownloadStatus::Downloaded { .. } => None,
            },
            None => None,
        }
    }

    /// The download of `path` ended with `result`: the ETag of the downloaded
    /// version, or an errno. On success a still-opened object becomes downloaded;
    /// on failure the object is forgotten. Returns the outcome for the opener.
    pub fn finish_download(&mut self, path: &str, result: Result<Option<String>, u16>) -> (r: Result<(), u16>)
        requires
            old(self).wf(),
        ensures
            final(self).wf(),
            final(self)@ == finish_download_step(old(self)@, path@, result),
            final(self)@.cached == old(self)@.cached,
            final(self)@.opened.remove(path@) == old(self)@.opened.remove(path@),
            result is Err ==> !final(self)@.opened.contains_key(path@),
            result matches Ok(etag) ==> (old(self)@.opened.contains_key(path@) ==> final(self)@.opened[path@] == (OpenedFileState::<C> { refs: old(self)@.opened[path@].refs, download_status: FileDownloadStatus::Downloaded { etag } })),
            result is Ok ==> (final(self)@.opened.contains_key(path@) <==> old(self)@.opened.contains_key(path@)),
            r == (match result {
                Ok(_) => Ok::<(), u16>(()),
                Err(e) => Err(e),
            }),
    {
        let ghost s = self@;
        match result {
            Ok(etag) => {
                match self.opened_files.remove(path) {
                    Some((key, st)) => {
                        self.opened_files.insert_new(
                            key,
                            OpenedFileState { refs: st.refs, download_status: FileDownloadStatus::Downloaded { etag } },
                        );
                        assert(self@.opened =~= finish_download_step(s, path@, Ok(etag)).opened);
                    },
                    None => {
                        assert(self@.opened =~= s.opened);
                    },
                }
                Ok(())
            },
            Err(e) => {
                let _ = self.opened_files.remove(path);
                Err(e)
            },
        }
    }

    /// A client releases one reference to `path`. When that was the last
    /// reference the object is no longer opened, and if it was downloaded it is
    /// returned so that the caller can hand it to the cache.
    pub fn release_file(&mut self, path: &str) -> (r: Option<ReleasedFile>)
        requires
            old(self).wf(),
        ensures
            final(self).wf(),
            final(self)@ == release_step(old(self)@, path@).0,
            r is Some <==> release_step(old(self)@, path@).1 is Some,
            r matches Some(f) ==> f.path@ == path@ && Some(f.etag) == release_step(old(self)@, path@).1,
            final(self)@.cached == old(self)@.cached,
            one_reference_released(old(self)@.opened, final(self)@.opened, path@),
            final(self)@.opened.remove(path@) == old(self)@.opened.remove(path@),
            r is None ==> forall|e: Option<String>| !released_to_cache(old(self)@.opened, path@, e),
            r matches Some(f) ==> released_to_cache(old(self)@.opened, path@, f.etag),
    {
        let ghost s = self@;
        match self.opened_files.remove(path) {
            Some((key, st)) => {
                if st.refs <= 1 {
                    match st.download_status {
                        FileDownloadStatus::Downloaded { etag } => Some(ReleasedFile { path: key, etag }),
                        FileDownloadStatus::Downloading { .. } => None,
                    }
                } else {
                    self.opened_files.insert_new(
                        key,
                        OpenedFileState { refs: st.refs - 1, download_status: st.download_status },
                    );
                    assert(self@.opened =~= release_step(s, path@).0.opened);
                    None
                }
            },
            None => {
                assert(self@.opened =~= s.opened);
                None
            },
        }
    }

    /// Hands a released object to the cache. `size` is the size of its backing
    /// file (`None` when the file no longer exists) and `now` the current time.
    /// Missing and empty files are not cached.
    pub fn cache_released(&mut self, file: ReleasedFile, size: Option<u64>, now: u64)
        requires
            old(self).wf(),
        ensures
            final(self).wf(),
            final(self)@ == cache_step(old(self)@, file.path@, file.etag, size, now),
            final(self)@.opened == old(self)@.opened,
            size matches Some(sz) ==> (sz != 0 ==> final(self)@.cached == old(self)@.cached.insert(file.path@, CachedFileState { last_access: now, size: sz, etag: file.etag })),
            size matches Some(sz) ==> (sz == 0 ==> final(self)@.cached == old(self)@.cached),
            size is None ==> final(self)@.cached == old(self)@.cached,
    {
        match size {
            Some(sz) => {
                if sz != 0 {
                    self.cached_files.insert(
                        file.path,
                        CachedFileState { last_access: now, size: sz, etag: file.etag },
                    );
                }
            },
            None => {},
        }
    }

    /// The disk is full: takes out of the cache the entry to evict, which has
    /// the greatest eviction priority. `None` when nothing is cached.
    pub fn evict_one(&mut self) -> (r: Option<(String, CachedFileState)>)
        requires
            old(self).wf(),
        ensures
            final(self).wf(),
            final(self)@.opened == old(self)@.opened,
            r is None <==> old(self)@.cached.dom() == Set::<Seq<char>>::empty(),
            r is None ==> final(self)@.cached == old(self)@.cached,
            r matches Some(e) ==> {
                &&& old(self)@.cached.contains_key(e.0@)
                &&& old(self)@.cached[e.0@] == e.1
                &&& final(self)@.cached == old(self)@.cached.remove(e.0@)
                &&& forall|k: Seq<char>| #[trigger] old(self)@.cached.contains_key(k) ==> evicts_no_sooner(
                    old(self)@.cached[k],
                    e.1,
                )
            },
    {
        proof {
            self.cached_files.lemma_entries();
        }
        let n = self.cached_files.len();
        if n == 0 {
            proof {
                if exists|k: Seq<char>| self@.cached.contains_key(k) {
                    let k = choose|k: Seq<char>| self@.cached.contains_key(k);
                    assert(self@.cached.contains_key(k));
                }
                assert(self@.cached.dom() =~= Set::<Seq<char>>::empty());
            }
            return None;
        }
        let mut best: usize = 0;
        let mut i: usize = 1;
        while i < n
            invariant
                self.cached_files.wf(),
                n == self.cached_files.spec_len(),
                1 <= i <= n,
                best < i,
                forall|j: int|
                    0 <= j < i ==> evicts_no_sooner(
                        #[trigger] self.cached_files.value_at(j),
                        self.cached_files.value_at(best as int),
                    ),
            decreases n - i,
        {
            let candidate = self.cached_files.value(i);
            let current = self.cached_files.value(best);
            if !outranks(current, candidate) {
                best = i;
            }
            i = i + 1;
        }
        let ghost old_cached = self@.cached;
        let ghost old_table = self.cached_files;
        let ghost best_state = self.cached_files.value_at(best as int);
        let e = self.cached_files.remove_at(best);
        proof {
            assert(old_cached.dom().contains(e.0@));
            assert forall|k: Seq<char>| #[trigger] old_cached.contains_key(k) implies evicts_no_sooner(
                old_cached[k],
                e.1,
            ) by {
                let j = choose|j: int| 0 <= j < n && #[trigger] old_table.key_at(j) == k;
                assert(evicts_no_sooner(old_table.value_at(j), best_state));
            }
        }
        Some(e)
    }
}

/// The objects that one client connection has successfully opened (revived
/// from the cache or not), each recorded once however often it was opened.
#[derive(Debug)]
pub struct HandleFiles {
    paths: PathTable<()>,
}

impl View for HandleFiles {
    type V = Set<Seq<char>>;

    closed spec fn view(&self) -> Set<Seq<char>> {
        self.paths@.dom()
    }
}

impl HandleFiles {
    pub closed spec fn wf(&self) -> bool {
        self.paths.wf()
    }

    /// The recorded objects in the order in which they are released when the
    /// connection ends.
    pub closed spec fn path_seq(&self) -> Seq<Seq<char>> {
        Seq::new(self.paths.spec_len(), |i: int| self.paths.key_at(i))
    }

    /// `path_seq` lists each recorded object exactly once.
    pub proof fn lemma_path_seq(&self)
        requires
            self.wf(),
        ensures
            self.path_seq().no_duplicates(),
            forall|k: Seq<char>| #[trigger] self@.contains(k) <==> self.path_seq().contains(k),
    {
        self.paths.lemma_entries();
        assert forall|k: Seq<char>| #[trigger] self@.contains(k) implies self.path_seq().contains(k) by {
            let i = choose|i: int| 0 <= i < self.paths.spec_len() && #[trigger] self.paths.key_at(i) == k;
            assert(self.path_seq()[i] == k);
        }
        assert forall|k: Seq<char>| #[trigger] self.path_seq().contains(k) implies self@.contains(k) by {
            let i = choose|i: int| 0 <= i < self.path_seq().len() && #[trigger] self.path_seq()[i] == k;
            assert(self.paths@.contains_key(self.paths.key_at(i)));
        }
    }

    /// No object recorded.
    pub fn new() -> (h: Self)
        ensures
            h.wf(),
            h@ == Set::<Seq<char>>::empty(),
    {
        let h = HandleFiles { paths: PathTable::new() };
        assert(h@ =~= Set::<Seq<char>>::empty());
        h
    }

    /// Number of recorded objects.
    pub fn len(&self) -> (n: usize)
        requires
            self.wf(),
        ensures
            n == self.path_seq().len(),
    {
        self.paths.len()
    }

    /// Whether `path` is recorded.
    pub fn contains(&self, path: &str) -> (b: bool)
        requires
            self.wf(),
        ensures
            b == self@.contains(path@),
    {
        self.paths.contains(path)
    }

    /// Records the outcome of an open of `path`: a successful open is recorded,
    /// so that the connection releases the object when it ends.
    pub fn record_open(&mut self, path: &str, succeeded: bool)
        requires
            old(self).wf(),
        ensures
            final(self).wf(),
            final(self)@ == (if succeeded {
                old(self)@.insert(path@)
            } else {
                old(self)@
            }),
    {
        if succeeded {
            self.paths.insert(path.to_owned(), ());
            assert(self@ =~= old(self)@.insert(path@));
        }
    }

    /// Forgets `path`.
    pub fn forget(&mut self, path: &str)
        requires
            old(self).wf(),
        ensures
            final(self).wf(),
            final(self)@ == old(self)@.remove(path@),
    {
        let _ = self.paths.remove(path);
        assert(self@ =~= old(self)@.remove(path@));
    }
}

/// The characters of each key.
pub open spec fn key_views(v: Seq<String>) -> Seq<Seq<char>> {
    v.map_values(|s: String| s@)
}

/// The path and ETag of each released object.
pub open spec fn released_view(v: Seq<ReleasedFile>) -> Seq<(Seq<char>, Option<String>)> {
    v.map_values(|f: ReleasedFile| (f.path@, f.etag))
}

impl<C> StoreState<C> {
    /// A client closes `path`: one reference is released and the connection
    /// forgets the object. Returns the object when it goes to the cache.
    pub fn close_file(&mut self, handle: &mut HandleFiles, path: &str) -> (r: Option<ReleasedFile>)
        requires
            old(self).wf(),
            old(handle).wf(),
        ensures
            final(self).wf(),
            final(handle).wf(),
            final(self)@ == release_step(old(self)@, path@).0,
            r is Some <==> release_step(old(self)@, path@).1 is Some,
            r matches Some(f) ==> f.path@ == path@ && Some(f.etag) == release_step(old(self)@, path@).1,
            final(handle)@ == old(handle)@.remove(path@),
    {
        let r = self.release_file(path);
        handle.forget(path);
        r
    }

    /// A connection ends: one reference to each object it recorded is
    /// released. Returns the objects that go to the cache, in order.
    pub fn release_handle(&mut self, handle: HandleFiles) -> (released: Vec<ReleasedFile>)
        requires
            old(self).wf(),
            handle.wf(),
        ensures
            final(self).wf(),
            final(self)@ == release_all_step(old(self)@, handle.path_seq()).0,
            released_view(released@) == release_all_step(old(self)@, handle.path_seq()).1,
            final(self)@.cached == old(self)@.cached,
            forall|k: Seq<char>| #[trigger] handle@.contains(k) ==> one_reference_released(old(self)@.opened, final(self)@.opened, k),
            forall|k: Seq<char>| !handle@.contains(k) ==> #[trigger] left_alone(old(self)@.opened, final(self)@.opened, k),
            forall|k: Seq<char>, e: Option<String>| #[trigger] released_view(released@).contains((k, e)) <==> (handle@.contains(k) && released_to_cache(old(self)@.opened, k, e)),
    {
        let mut released: Vec<ReleasedFile> = Vec::new();
        let n = handle.paths.len();
        let ghost paths = handle.path_seq();
        let mut i: usize = 0;
        assert(paths.take(0) =~= Seq::<Seq<char>>::empty());
        while i < n
            invariant
                handle.wf(),
                self.wf(),
                n == paths.len(),
                paths == handle.path_seq(),
                i <= n,
                self@ == release_all_step(old(self)@, paths.take(i as int)).0,
                released_view(released@) == release_all_step(old(self)@, paths.take(i as int)).1,
            decreases n - i,
        {
            let key = handle.paths.key(i);
            let ghost before = released@;
            let r = self.release_file(key.as_str());
            assert(paths.take(i as int + 1).drop_last() =~= paths.take(i as int));
            assert(paths.take(i as int + 1).last() == key@);
            match r {
                Some(f) => {
                    released.push(f);
                    assert(released_view(released@) =~= released_view(before).push((key@, f.etag)));
                },
                None => {},
            }
            i = i + 1;
        }
        assert(paths.take(n as int) =~= paths);
        proof {
            handle.lemma_path_seq();
            lemma_release_all_each_path(old(self)@, paths);
        }
        released
    }
}

/// What to do with an object that the bucket listing names.
#[derive(Debug, Clone, Copy, PartialEq, Eq)]
pub enum ListedAction {
    /// A client uses the object or it is cached: leave its backing file alone.
    InUse,
    /// Create (or re-create) a sparse backing file of the listed size, then call
    /// `record_created`.
    Create,
}

/// Effect of a listing pass starting: every known backing file is unvisited.
pub open spec fn all_unvisited(created: Map<Seq<char>, bool>) -> Map<Seq<char>, bool> {
    Map::new(|k: Seq<char>| created.contains_key(k), |k: Seq<char>| false)
}

/// The backing files not seen in the listing pass.
pub open spec fn unvisited_keys(created: Map<Seq<char>, bool>) -> Set<Seq<char>> {
    Set::new(|k: Seq<char>| created.contains_key(k) && !created[k])
}

/// The backing files seen in the listing pass, all marked visited.
pub open spec fn visited_only(created: Map<Seq<char>, bool>) -> Map<Seq<char>, bool> {
    Map::new(|k: Seq<char>| created.contains_key(k) && created[k], |k: Seq<char>| true)
}

/// The backing files that a synchronisation with the bucket created, each with
/// whether the current listing pass has seen its object.
pub struct SyncTracker {
    created_files: PathTable<bool>,
    /// The tracked backing files when the current listing pass began.
    pass_start: Ghost<Map<Seq<char>, bool>>,
    /// The objects the current pass has kept so far (marked visited), in order.
    kept: Ghost<Seq<Seq<char>>>,
}

impl View for SyncTracker {
    type V = Map<Seq<char>, bool>;

    closed spec fn view(&self) -> Map<Seq<char>, bool> {
        self.created_files@
    }
}

impl SyncTracker {
    pub closed spec fn wf(&self) -> bool {
        self.created_files.wf()
    }

    /// The tracked backing files when the current listing pass began.
    pub closed spec fn pass_start(&self) -> Map<Seq<char>, bool> {
        self.pass_start@
    }

    /// The objects the current pass has kept so far, in order.
    pub closed spec fn kept(&self) -> Seq<Seq<char>> {
        self.kept@
    }

    /// The tracker is what its pass made of it: the files tracked at the start,
    /// all unvisited, with the kept objects marked visited.
    pub open spec fn in_pass(&self) -> bool {
        self@ == mark_visited(all_unvisited(self.pass_start()), self.kept())
    }

    /// No backing file created yet.
    pub fn new() -> (t: Self)
        ensures
            t.wf(),
            t@ == Map::<Seq<char>, bool>::empty(),
            t.pass_start() == Map::<Seq<char>, bool>::empty(),
            t.kept() == Seq::<Seq<char>>::empty(),
            t.in_pass(),
    {
        let t = SyncTracker {
            created_files: PathTable::new(),
            pass_start: Ghost(Map::empty()),
            kept: Ghost(Seq::empty()),
        };
        assert(all_unvisited(Map::<Seq<char>, bool>::empty()) =~= Map::<Seq<char>, bool>::empty());
        t
    }

    /// Whether `key` has a backing file created by a synchronisation.
    pub fn contains(&self, key: &str) -> (b: bool)
        requires
            self.wf(),
        ensures
            b == self@.contains_key(key@),
    {
        self.created_files.contains(key)
    }

    /// A listing pass starts: every known backing file becomes unvisited.
    pub fn begin_pass(&mut self)
        requires
            old(self).wf(),
        ensures
            final(self).wf(),
            final(self)@ == all_unvisited(old(self)@),
            final(self).pass_start() == old(self)@,
            final(self).kept() == Seq::<Seq<char>>::empty(),
            final(self).in_pass(),
    {
        proof {
            self.created_files.lemma_entries();
        }
        let n = self.created_files.len();
        let mut fresh: PathTable<bool> = PathTable::new();
        let mut i: usize = 0;
        while i < n
            invariant
                self.wf(),
                fresh.wf(),
                n == self.created_files.spec_len(),
                i <= n,
                forall|k: Seq<char>|
                    #[trigger] fresh@.contains_key(k) <==> exists|j: int|
                        0 <= j < i && #[trigger] self.created_files.key_at(j) == k,
                forall|k: Seq<char>| #[trigger] fresh@.contains_key(k) ==> !fresh@[k],
                forall|a: int, b: int|
                    0 <= a < n && 0 <= b < n && a != b ==> #[trigger] self.created_files.key_at(a)
                        != #[trigger] self.created_files.key_at(b),
            decreases n - i,
        {
            let key = self.created_files.key(i).clone();
            proof {
                if fresh@.contains_key(key@) {
                    let j = choose|j: int| 0 <= j < i && #[trigger] self.created_files.key_at(j) == key@;
                    assert(self.created_files.key_at(j) != self.created_files.key_at(i as int));
                }
            }
            fresh.insert_new(key, false);
            proof {
                assert forall|k: Seq<char>|
                    #[trigger] fresh@.contains_key(k) <==> exists|j: int|
                        0 <= j < i + 1 && #[trigger] self.created_files.key_at(j) == k by {
                    if k == key@ {
                        assert(self.created_files.key_at(i as int) == k);
                    }
                }
            }
            i = i + 1;
        }
        proof {
            assert forall|k: Seq<char>| #[trigger] fresh@.contains_key(k) <==> old(self)@.contains_key(k) by {
                if fresh@.contains_key(k) {
                    let j = choose|j: int| 0 <= j < n && #[trigger] self.created_files.key_at(j) == k;
                    assert(self@.contains_key(self.created_files.key_at(j)));
                }
            }
            assert(fresh@ =~= all_unvisited(old(self)@));
        }
        self.created_files = fresh;
        self.pass_start = Ghost(old(self)@);
        self.kept = Ghost(Seq::empty());
    }

    /// The listing names `key`. An object that a client uses or that is cached
    /// only marks its backing file visited; any other object needs a backing
    /// file. (An object in use must have a backing file created by a
    /// synchronisation.)
    pub fn visit<C>(&mut self, state: &StoreState<C>, key: &str) -> (a: ListedAction)
        requires
            old(self).wf(),
            state.wf(),
            state@.cached.contains_key(key@) || state@.opened.contains_key(key@) ==> old(self)@.contains_key(key@),
        ensures
            final(self).wf(),
            a == (if state@.cached.contains_key(key@) || state@.opened.contains_key(key@) {
                ListedAction::InUse
            } else {
                ListedAction::Create
            }),
            a == ListedAction::InUse ==> final(self)@ == old(self)@.insert(key@, true),
            a == ListedAction::Create ==> final(self)@ == old(self)@,
            final(self).pass_start() == old(self).pass_start(),
            final(self).kept() == (if a == ListedAction::InUse {
                old(self).kept().push(key@)
            } else {
                old(self).kept()
            }),
            old(self).in_pass() ==> final(self).in_pass(),
    {
        if state.is_cached(key) || state.is_opened(key) {
            let e = self.created_files.remove(key);
            match e {
                Some((k, _)) => {
                    self.created_files.insert_new(k, true);
                    assert(self@ =~= old(self)@.insert(key@, true));
                },
                None => {},
            }
            self.kept = Ghost(self.kept@.push(key@));
            proof {
                assert(self.kept@.drop_last() =~= old(self).kept());
            }
            ListedAction::InUse
        } else {
            ListedAction::Create
        }
    }

    /// The backing file of `key` was created: it is marked visited. Returns
    /// whether it is new to the tracker.
    pub fn record_created(&mut self, key: &str) -> (fresh: bool)
        requires
            old(self).wf(),
        ensures
            final(self).wf(),
            final(self)@ == old(self)@.insert(key@, true),
            fresh == !old(self)@.contains_key(key@),
            final(self).pass_start() == old(self).pass_start(),
            final(self).kept() == old(self).kept().push(key@),
            old(self).in_pass() ==> final(self).in_pass(),
    {
        self.kept = Ghost(self.kept@.push(key@));
        proof {
            assert(self.kept@.drop_last() =~= old(self).kept());
        }
        match self.created_files.remove(key) {
            Some((k, _)) => {
                self.created_files.insert_new(k, true);
                assert(self@ =~= old(self)@.insert(key@, true));
                false
            },
            None => {
                self.created_files.insert_new(key.to_owned(), true);
                true
            },
        }
    }

    /// The listing pass is over: the objects whose backing files were not seen
    /// are dropped from the cache (so that nobody reuses them) and returned, for
    /// the caller to delete their backing files.
    pub fn forget_unvisited<C>(&self, state: &mut StoreState<C>) -> (gone: Vec<String>)
        requires
            self.wf(),
            old(state).wf(),
        ensures
            final(state).wf(),
            final(state)@.opened == old(state)@.opened,
            final(state)@.cached == old(state)@.cached.remove_keys(unvisited_keys(self@)),
            gone@.len() == unvisited_keys(self@).len(),
            key_views(gone@).no_duplicates(),
            forall|k: Seq<char>| #[trigger] unvisited_keys(self@).contains(k) <==> key_views(gone@).contains(k),
    {
        proof {
            self.created_files.lemma_entries();
        }
        let n = self.created_files.len();
        let mut gone: Vec<String> = Vec::new();
        let mut i: usize = 0;
        let ghost unvisited_before = Set::new(|k: Seq<char>| false);
        while i < n
            invariant
                self.wf(),
                state.wf(),
                n == self.created_files.spec_len(),
                i <= n,
                state@.opened == old(state)@.opened,
                forall|a: int, b: int|
                    0 <= a < n && 0 <= b < n && a != b ==> #[trigger] self.created_files.key_at(a)
                        != #[trigger] self.created_files.key_at(b),
                forall|j: int|
                    0 <= j < n ==> #[trigger] self@.contains_key(self.created_files.key_at(j))
                        && self@[self.created_files.key_at(j)] == self.created_files.value_at(j),
                key_views(gone@).no_duplicates(),
                forall|k: Seq<char>|
                    #[trigger] key_views(gone@).contains(k) <==> exists|j: int|
                        0 <= j < i && #[trigger] self.created_files.key_at(j) == k && !self.created_files.value_at(j),
                state@.cached == old(state)@.cached.remove_keys(key_views(gone@).to_set()),
            decreases n - i,
        {
            let visited = *self.created_files.value(i);
            let ghost gone_before = key_views(gone@);
            if !visited {
                let key = self.created_files.key(i).clone();
                let _ = state.cached_files.remove(key.as_str());
                proof {
                    if gone_before.contains(key@) {
                        let j = choose|j: int| 0 <= j < i && #[trigger] self.created_files.key_at(j) == key@ && !self.created_files.value_at(j);
                        assert(self.created_files.key_at(j) != self.created_files.key_at(i as int));
                    }
                }
                gone.push(key);
                proof {
                    broadcast use vstd::seq_lib::group_seq_properties;
                    let now = key_views(gone@);
                    assert(now =~= gone_before.push(key@));
                    assert(gone_before.push(key@) =~= gone_before + seq![key@]);
                    Seq::lemma_to_set_insert_commutes(gone_before, key@);
                    assert(now.to_set() =~= gone_before.to_set().insert(key@));
                    assert(state@.cached =~= old(state)@.cached.remove_keys(now.to_set()));
                    assert forall|k: Seq<char>|
                        #[trigger] now.contains(k) <==> exists|j: int|
                            0 <= j < i + 1 && #[trigger] self.created_files.key_at(j) == k && !self.created_files.value_at(j) by {
                        if k == key@ {
                            assert(self.created_files.key_at(i as int) == k);
                        }
                        if exists|j: int| 0 <= j < i + 1 && #[trigger] self.created_files.key_at(j) == k && !self.created_files.value_at(j) {
                            let j = choose|j: int| 0 <= j < i + 1 && #[trigger] self.created_files.key_at(j) == k && !self.created_files.value_at(j);
                            if j < i {
                                assert(gone_before.contains(k));
                            }
                        }
                    }
                }
            } else {
                proof {
                    let g = key_views(gone@);
                    assert forall|k: Seq<char>|
                        #[trigger] g.contains(k) <==> exists|j: int|
                            0 <= j < i + 1 && #[trigger] self.created_files.key_at(j) == k && !self.created_files.value_at(j) by {
                        if exists|j: int| 0 <= j < i + 1 && #[trigger] self.created_files.key_at(j) == k && !self.created_files.value_at(j) {
                            let j = choose|j: int| 0 <= j < i + 1 && #[trigger] self.created_files.key_at(j) == k && !self.created_files.value_at(j);
                            assert(j != i);
                        }
                    }
                }
            }
            i = i + 1;
        }
        proof {
            let g = key_views(gone@);
            assert forall|k: Seq<char>| #[trigger] unvisited_keys(self@).contains(k) <==> g.contains(k) by {
                if unvisited_keys(self@).contains(k) {
                    let j = choose|j: int| 0 <= j < n && #[trigger] self.created_files.key_at(j) == k;
                    assert(self@[self.created_files.key_at(j)] == self.created_files.value_at(j));
                    assert(!self.created_files.value_at(j));
                }
                if g.contains(k) {
                    let j = choose|j: int| 0 <= j < n && #[trigger] self.created_files.key_at(j) == k && !self.created_files.value_at(j);
                    assert(self@.contains_key(self.created_files.key_at(j)));
                }
            }
            assert(g.to_set() =~= unvisited_keys(self@));
            g.unique_seq_to_set();
        }
        gone
    }

    /// The deletions succeeded: only the backing files seen in the listing
    /// remain tracked.
    pub fn retain_visited(&mut self)
        requires
            old(self).wf(),
        ensures
            final(self).wf(),
            final(self)@ == visited_only(old(self)@),
            final(self).pass_start() == old(self).pass_start(),
            final(self).kept() == old(self).kept(),
    {
        proof {
            self.created_files.lemma_entries();
        }
        let n = self.created_files.len();
        let mut kept: PathTable<bool> = PathTable::new();
        let mut i: usize = 0;
        while i < n
            invariant
                self.wf(),
                kept.wf(),
                n == self.created_files.spec_len(),
                i <= n,
                forall|a: int, b: int|
                    0 <= a < n && 0 <= b < n && a != b ==> #[trigger] self.created_files.key_at(a)
                        != #[trigger] self.created_files.key_at(b),
                forall|k: Seq<char>|
                    #[trigger] kept@.contains_key(k) <==> exists|j: int|
                        0 <= j < i && #[trigger] self.created_files.key_at(j) == k && self.created_files.value_at(j),
                forall|k: Seq<char>| #[trigger] kept@.contains_key(k) ==> kept@[k],
            decreases n - i,
        {
            if *self.created_files.value(i) {
                let key = self.created_files.key(i).clone();
                proof {
                    if kept@.contains_key(key@) {
                        let j = choose|j: int| 0 <= j < i && #[trigger] self.created_files.key_at(j) == key@ && self.created_files.value_at(j);
                        assert(self.created_files.key_at(j) != self.created_files.key_at(i as int));
                    }
                }
                kept.insert_new(key, true);
                proof {
                    assert forall|k: Seq<char>|
                        #[trigger] kept@.contains_key(k) <==> exists|j: int|
                            0 <= j < i + 1 && #[trigger] self.created_files.key_at(j) == k && self.created_files.value_at(j) by {
                        if k == key@ {
                            assert(self.created_files.key_at(i as int) == k);
                        }
                    }
                }
            }
            i = i + 1;
        }
        proof {
            assert forall|k: Seq<char>| #[trigger] kept@.contains_key(k) <==> visited_only(old(self)@).contains_key(k) by {
                if kept@.contains_key(k) {
                    let j = choose|j: int| 0 <= j < n && #[trigger] self.created_files.key_at(j) == k && self.created_files.value_at(j);
                    assert(self@.contains_key(self.created_files.key_at(j)));
                }
                if visited_only(old(self)@).contains_key(k) {
                    let j = choose|j: int| 0 <= j < n && #[trigger] self.created_files.key_at(j) == k;
                    assert(self@[self.created_files.key_at(j)] == self.created_files.value_at(j));
                }
            }
            assert(kept@ =~= visited_only(old(self)@));
        }
        self.created_files = kept;
    }
}

/// The eviction order is a total order: comparing the other way round gives
/// the reverse answer, comparing equal means equal size and last access, and
/// "evicted no sooner than" is total and transitive.
pub proof fn lemma_eviction_order(a: CachedFileState, b: CachedFileState, c: CachedFileState)
    ensures
        (eviction_cmp(a, b) == Ordering::Less) <==> (eviction_cmp(b, a) == Ordering::Greater),
        (eviction_cmp(a, b) == Ordering::Equal) <==> (a.size == b.size && a.last_access == b.last_access),
        (eviction_cmp(a, b) != Ordering::Greater) <==> evicts_no_sooner(a, b),
        evicts_no_sooner(a, b) || evicts_no_sooner(b, a),
        evicts_no_sooner(a, b) && evicts_no_sooner(b, c) ==> evicts_no_sooner(a, c),
{
}

/// Opening an object that is already open and then closing it again leaves
/// the bookkeeping exactly as it was, and nothing goes to the cache.
pub proof fn lemma_open_then_release<C>(s: StoreView<C>, path: Seq<char>, channel: C)
    requires
        view_wf(s),
        s.opened.contains_key(path),
        !s.cached.contains_key(path),
        can_open(s, path),
    ensures
        release_step(open_step(s, path, channel).0, path) == (s, None::<Option<String>>),
{
    let s1 = open_step(s, path, channel).0;
    assert(s1.opened[path].refs == s.opened[path].refs + 1);
    let s2 = release_step(s1, path).0;
    assert(s2.opened =~= s.opened);
}

/// The life of an object nobody had: the first open downloads it; once the
/// download succeeds and the last reference is released it goes to the cache
/// with its ETag and the open objects are as before; a later open revives it
/// from the cache as downloaded, with the same ETag.
pub proof fn lemma_download_release_revive<C>(
    s: StoreView<C>,
    path: Seq<char>,
    channel: C,
    etag: Option<String>,
    size: u64,
    now: u64,
    channel2: C,
)
    requires
        view_wf(s),
        !s.opened.contains_key(path),
        !s.cached.contains_key(path),
        size != 0,
    ensures
        ({
            let (s1, start) = open_step(s, path, channel);
            let s2 = finish_download_step(s1, path, Ok(etag));
            let (s3, released) = release_step(s2, path);
            let s4 = cache_step(s3, path, etag, Some(size), now);
            let (s5, start2) = open_step(s4, path, channel2);
            &&& start == OpenStart::DownloadSelf
            &&& s2.opened[path] == (OpenedFileState::<C> { refs: 1, download_status: FileDownloadStatus::Downloaded { etag } })
            &&& released == Some(etag)
            &&& s3.opened == s.opened
            &&& s3.cached == s.cached
            &&& s4.cached[path] == (CachedFileState { last_access: now, size, etag })
            &&& start2 == OpenStart::Revived
            &&& s5.opened[path] == (OpenedFileState::<C> { refs: 1, download_status: FileDownloadStatus::Downloaded { etag } })
            &&& !s5.cached.contains_key(path)
        }),
{
    let (s1, start) = open_step(s, path, channel);
    let s2 = finish_download_step(s1, path, Ok(etag));
    let (s3, released) = release_step(s2, path);
    assert(s3.opened =~= s.opened);
}

/// A failed download forgets the object (every client that waited on it gets
/// the error) and leaves everything else as it was before the first open.
pub proof fn lemma_failed_download_forgets<C>(s: StoreView<C>, path: Seq<char>, channel: C, errno: u16)
    requires
        view_wf(s),
        !s.opened.contains_key(path),
        !s.cached.contains_key(path),
    ensures
        ({
            let (s1, start) = open_step(s, path, channel);
            &&& start == OpenStart::DownloadSelf
            &&& finish_download_step(s1, path, Err(errno)) == s
        }),
{
    let (s1, start) = open_step(s, path, channel);
    assert(finish_download_step(s1, path, Err(errno)).opened =~= s.opened);
}

/// Marks each of `keys` visited, in order (what `visit` and `record_created`
/// do to the tracker for the objects a listing pass keeps).
pub open spec fn mark_visited(m: Map<Seq<char>, bool>, keys: Seq<Seq<char>>) -> Map<Seq<char>, bool>
    decreases keys.len(),
{
    if keys.len() == 0 {
        m
    } else {
        mark_visited(m, keys.drop_last()).insert(keys.last(), true)
    }
}

/// After marking `keys`, a key is tracked when it was tracked or marked, and
/// it is visited when it was marked or already visited.
pub proof fn lemma_mark_visited(m: Map<Seq<char>, bool>, keys: Seq<Seq<char>>, k: Seq<char>)
    ensures
        mark_visited(m, keys).contains_key(k) <==> (m.contains_key(k) || keys.contains(k)),
        mark_visited(m, keys).contains_key(k) ==> mark_visited(m, keys)[k] == (keys.contains(k) || m[k]),
    decreases keys.len(),
{
    if keys.len() > 0 {
        let rest = keys.drop_last();
        lemma_mark_visited(m, rest, k);
        assert(keys =~= rest.push(keys.last()));
        if rest.contains(k) {
            let i = choose|i: int| 0 <= i < rest.len() && rest[i] == k;
            assert(keys[i] == k);
        }
        if keys.contains(k) && k != keys.last() {
            let i = choose|i: int| 0 <= i < keys.len() && keys[i] == k;
            assert(i < rest.len());
            assert(rest[i] == k);
        }
        if k == keys.last() {
            assert(keys[keys.len() - 1] == k);
        }
    }
}

/// A listing pass deletes exactly the backing files it did not see: starting
/// from the tracked files, once the kept objects are marked, the unvisited
/// files are the tracked ones that were not marked, and the files that remain
/// tracked are exactly the marked ones.
pub proof fn lemma_sync_pass(created: Map<Seq<char>, bool>, kept: Seq<Seq<char>>)
    ensures
        unvisited_keys(mark_visited(all_unvisited(created), kept)) == created.dom().difference(kept.to_set()),
        visited_only(mark_visited(all_unvisited(created), kept)).dom() == kept.to_set(),
{
    let start = all_unvisited(created);
    let end = mark_visited(start, kept);
    assert forall|k: Seq<char>|
        #[trigger] unvisited_keys(end).contains(k) <==> created.dom().difference(kept.to_set()).contains(k) by {
        lemma_mark_visited(start, kept, k);
    }
    assert forall|k: Seq<char>| #[trigger] visited_only(end).dom().contains(k) <==> kept.to_set().contains(k) by {
        lemma_mark_visited(start, kept, k);
    }
    assert(unvisited_keys(end) =~= created.dom().difference(kept.to_set()));
    assert(visited_only(end).dom() =~= kept.to_set());
}

/// Why S3 refused to hand over an object.
#[derive(Debug, Clone, Copy, PartialEq, Eq)]
pub enum ObjectFailure {
    /// The object does not exist (reported to the client as ENOENT).
    NotFound,
    /// The credentials may not read the object (reported as EACCES).
    AccessDenied,
    /// Anything else (reported as EIO).
    Other,
}

/// The error code S3 uses for a refused permission.
pub const ACCESS_DENIED_CODE: &'static str = "AccessDenied";

/// Whether two strings hold the same characters, by their UTF-8 bytes.
fn same_text(a: &str, b: &str) -> (r: bool)
    ensures
        r == (a@ == b@),
{
    let x = a.as_bytes();
    let y = b.as_bytes();
    proof {
        vstd::utf8::encode_utf8_decode_utf8(a@);
        vstd::utf8::encode_utf8_decode_utf8(b@);
    }
    if x.len() != y.len() {
        return false;
    }
    let n = x.len();
    let mut i: usize = 0;
    while i < n
        invariant
            n == x@.len(),
            n == y@.len(),
            x@ == vstd::utf8::encode_utf8(a@),
            y@ == vstd::utf8::encode_utf8(b@),
            i <= n,
            forall|j: int| 0 <= j < i ==> x@[j] == y@[j],
        decreases n - i,
    {
        if x[i] != y[i] {
            return false;
        }
        i = i + 1;
    }
    assert(x@ =~= y@);
    true
}

/// Classifies a failed S3 request: `not_found` tells whether S3 answered with
/// its "no such object" error, and `code` is the error code it gave.
pub fn classify_object_failure(not_found: bool, code: Option<&str>) -> (f: ObjectFailure)
    ensures
        f == (if not_found {
            ObjectFailure::NotFound
        } else if code matches Some(c) && c@ == ACCESS_DENIED_CODE@ {
            ObjectFailure::AccessDenied
        } else {
            ObjectFailure::Other
        }),
{
    if not_found {
        ObjectFailure::NotFound
    } else {
        match code {
            Some(c) => if same_text(c, ACCESS_DENIED_CODE) {
                ObjectFailure::AccessDenied
            } else {
                ObjectFailure::Other
            },
            None => ObjectFailure::Other,
        }
    }
}

/// Whether the length to reserve for a download must be asked of S3: the
/// backing file is empty (it may just have been created).
pub fn needs_content_length(file_size: i64) -> (b: bool)
    ensures
        b == (file_size == 0),
{
    file_size == 0
}

/// The number of bytes to reserve for a download: the size of the backing
/// file, or, when that is empty, the object's content length as S3 reports it
/// (0 when it reports none).
pub fn reserve_length(file_size: i64, content_length: Option<i64>) -> (n: u64)
    ensures
        n == (if file_size == 0 {
            match content_length {
                Some(l) => l,
                None => 0i64,
            }
        } else {
            file_size
        }) as u64,
{
    let len: i64 = if file_size == 0 {
        match content_length {
            Some(l) => l,
            None => 0,
        }
    } else {
        file_size
    };
    len as u64
}

impl<C> StoreState<C> {
    /// Reserving space for a download failed, for lack of space when
    /// `no_space`. Then a cached entry is taken out to be evicted (its space
    /// released, and the reservation retried); the download fails when the
    /// error is another one or nothing is cached.
    pub fn on_reserve_failed(&mut self, no_space: bool) -> (r: Option<(String, CachedFileState)>)
        requires
            old(self).wf(),
        ensures
            final(self).wf(),
            final(self)@.opened == old(self)@.opened,
            !no_space ==> r is None && final(self)@ == old(self)@,
            no_space ==> (r is None <==> old(self)@.cached.dom() == Set::<Seq<char>>::empty()),
            r is None ==> final(self)@.cached == old(self)@.cached,
            r matches Some(e) ==> {
                &&& old(self)@.cached.contains_key(e.0@)
                &&& old(self)@.cached[e.0@] == e.1
                &&& final(self)@.cached == old(self)@.cached.remove(e.0@)
                &&& forall|k: Seq<char>| #[trigger] old(self)@.cached.contains_key(k) ==> evicts_no_sooner(
                    old(self)@.cached[k],
                    e.1,
                )
            },
    {
        if no_space {
            self.evict_one()
        } else {
            None
        }
    }
}

/// A second listing pass that keeps the same objects as the first changes
/// nothing: every kept object is already tracked (so `record_created` finds
/// nothing new), no backing file is unvisited (so none is deleted), and the
/// tracked files stay exactly as the first pass left them.
pub proof fn lemma_second_pass_changes_nothing(created: Map<Seq<char>, bool>, kept: Seq<Seq<char>>)
    ensures
        ({
            let after_first = visited_only(mark_visited(all_unvisited(created), kept));
            let second = mark_visited(all_unvisited(after_first), kept);
            &&& forall|i: int| 0 <= i < kept.len() ==> after_first.contains_key(#[trigger] kept[i])
            &&& unvisited_keys(second) == Set::<Seq<char>>::empty()
            &&& visited_only(second) == after_first
        }),
{
    let first = mark_visited(all_unvisited(created), kept);
    let after_first = visited_only(first);
    let second = mark_visited(all_unvisited(after_first), kept);
    assert forall|i: int| 0 <= i < kept.len() implies after_first.contains_key(#[trigger] kept[i]) by {
        lemma_mark_visited(all_unvisited(created), kept, kept[i]);
        assert(kept.contains(kept[i]));
    }
    assert forall|k: Seq<char>| #[trigger] after_first.contains_key(k) <==> kept.contains(k) by {
        lemma_mark_visited(all_unvisited(created), kept, k);
    }
    assert forall|k: Seq<char>| !(#[trigger] unvisited_keys(second).contains(k)) by {
        lemma_mark_visited(all_unvisited(after_first), kept, k);
    }
    assert forall|k: Seq<char>| #[trigger] visited_only(second).contains_key(k) <==> after_first.contains_key(k) by {
        lemma_mark_visited(all_unvisited(after_first), kept, k);
    }
    assert(unvisited_keys(second) =~= Set::<Seq<char>>::empty());
    assert(visited_only(second) =~= after_first);
}

/// At most one download of an object runs at a time: opening an object whose
/// download is in progress follows that download on its channel, adds one
/// reference and changes nothing else, so no second download starts.
pub proof fn lemma_open_follows_download<C>(s: StoreView<C>, path: Seq<char>, fresh: C, channel: C)
    requires
        view_wf(s),
        !s.cached.contains_key(path),
        s.opened.contains_key(path),
        s.opened[path].download_status == (FileDownloadStatus::Downloading { download_result_channel: channel }),
        can_open(s, path),
    ensures
        ({
            let (s1, start) = open_step(s, path, fresh);
            &&& start == OpenStart::FollowDownload
            &&& s1.opened[path] == (OpenedFileState {
                refs: (s.opened[path].refs + 1) as u32,
                download_status: FileDownloadStatus::Downloading { download_result_channel: channel },
            })
            &&& s1.opened.remove(path) == s.opened.remove(path)
            &&& s1.cached == s.cached
        }),
{
    let (s1, start) = open_step(s, path, fresh);
    assert(s1.opened.remove(path) =~= s.opened.remove(path));
}

/// The second-pass law on the tracker itself: a listing pass that starts
/// from what an earlier pass (from tracked files `earlier`) left, and keeps the
/// same objects in the same order, finds every kept object already tracked,
/// has no backing file to delete, and leaves the tracker as the earlier pass
/// did once `retain_visited` runs.
pub proof fn lemma_tracker_second_pass(t: &SyncTracker, earlier: Map<Seq<char>, bool>)
    requires
        t.in_pass(),
        t.pass_start() == visited_only(mark_visited(all_unvisited(earlier), t.kept())),
    ensures
        forall|i: int| 0 <= i < t.kept().len() ==> t.pass_start().contains_key(#[trigger] t.kept()[i]),
        unvisited_keys(t@) == Set::<Seq<char>>::empty(),
        visited_only(t@) == t.pass_start(),
{
    lemma_second_pass_changes_nothing(earlier, t.kept());
}

/// How an open starts is decided by where the object stands, whatever its
/// reference count: a cached object is revived; an opened object that is
/// downloaded opens at once, and one being downloaded is followed; an object
/// nobody has is downloaded by the opener. In every case the object ends up
/// opened with one reference more (one when it was not opened), out of the
/// cache, and no other object changes.
pub proof fn lemma_open_start<C>(s: StoreView<C>, path: Seq<char>, channel: C)
    requires
        can_open(s, path),
    ensures
        ({
            let (s1, start) = open_step(s, path, channel);
            &&& (start == OpenStart::Revived) <==> s.cached.contains_key(path)
            &&& (start == OpenStart::AlreadyDownloaded) <==> opened_with(s, path, false)
            &&& (start == OpenStart::FollowDownload) <==> opened_with(s, path, true)
            &&& (start == OpenStart::DownloadSelf) <==> (!s.cached.contains_key(path) && !s.opened.contains_key(path))
            &&& s1.opened.contains_key(path) && !s1.cached.contains_key(path)
            &&& s1.opened[path].refs == refs_of(s.opened, path) + 1
            &&& s1.opened.remove(path) == s.opened.remove(path)
            &&& s1.cached == s.cached.remove(path)
        }),
{
    let (s1, start) = open_step(s, path, channel);
    assert(s1.opened.remove(path) =~= s.opened.remove(path));
    assert(s1.cached =~= s.cached.remove(path));
}

/// Releasing one reference to `path` takes one reference off that object (it
/// is gone after its last one) and changes no other object and not the cache;
/// something goes to the cache exactly when the last reference to a downloaded
/// object went, with that object's ETag.
pub proof fn lemma_release_step_effect<C>(s: StoreView<C>, path: Seq<char>)
    ensures
        ({
            let (s1, out) = release_step(s, path);
            &&& one_reference_released(s.opened, s1.opened, path)
            &&& s1.opened.remove(path) == s.opened.remove(path)
            &&& s1.cached == s.cached
            &&& out matches Some(e) ==> released_to_cache(s.opened, path, e)
            &&& forall|e: Option<String>| #[trigger] released_to_cache(s.opened, path, e) ==> out == Some(e)
        }),
{
    let (s1, out) = release_step(s, path);
    assert(s1.opened.remove(path) =~= s.opened.remove(path));
}

/// Releasing one reference to each of several distinct objects: each of them
/// loses one reference (and is gone after its last one), whatever the others
/// released; no other object and not the cache changes; and the objects that
/// go to the cache are exactly those of them whose last reference went and
/// that were downloaded, each with its ETag.
pub proof fn lemma_release_all_each_path<C>(s: StoreView<C>, paths: Seq<Seq<char>>)
    requires
        paths.no_duplicates(),
    ensures
        release_all_step(s, paths).0.cached == s.cached,
        forall|k: Seq<char>| #[trigger] paths.contains(k) ==> one_reference_released(s.opened, release_all_step(s, paths).0.opened, k),
        forall|k: Seq<char>| !paths.contains(k) ==> #[trigger] left_alone(s.opened, release_all_step(s, paths).0.opened, k),
        forall|k: Seq<char>, e: Option<String>| #[trigger] release_all_step(s, paths).1.contains((k, e)) <==> (paths.contains(k) && released_to_cache(s.opened, k, e)),
    decreases paths.len(),
{
    if paths.len() == 0 {
        assert forall|k: Seq<char>| !paths.contains(k) implies #[trigger] left_alone(s.opened, release_all_step(s, paths).0.opened, k) by {}
    } else {
        let init = paths.drop_last();
        let last = paths.last();
        assert(init.no_duplicates()) by {
            assert forall|i: int, j: int| 0 <= i < init.len() && 0 <= j < init.len() && i != j implies init[i] != init[j] by {
                assert(init[i] == paths[i] && init[j] == paths[j]);
            }
        }
        assert(!init.contains(last)) by {
            if init.contains(last) {
                let i = choose|i: int| 0 <= i < init.len() && init[i] == last;
                assert(paths[i] == paths[paths.len() - 1]);
            }
        }
        assert forall|k: Seq<char>| #[trigger] paths.contains(k) <==> (init.contains(k) || k == last) by {
            if paths.contains(k) && k != last {
                let i = choose|i: int| 0 <= i < paths.len() && paths[i] == k;
                assert(i < init.len());
                assert(init[i] == k);
            }
            if init.contains(k) {
                let i = choose|i: int| 0 <= i < init.len() && init[i] == k;
                assert(paths[i] == k);
            }
            if k == last {
                assert(paths[paths.len() - 1] == k);
            }
        }
        lemma_release_all_each_path(s, init);
        let prev = release_all_step(s, init);
        let step = release_step(prev.0, last);
        let r = release_all_step(s, paths);
        assert(r.0 == step.0);
        assert(left_alone(s.opened, prev.0.opened, last));
        assert forall|k: Seq<char>| #[trigger] paths.contains(k) implies one_reference_released(s.opened, r.0.opened, k) by {
            if k != last {
                assert(init.contains(k));
                assert(one_reference_released(s.opened, prev.0.opened, k));
            }
        }
        assert forall|k: Seq<char>| !paths.contains(k) implies #[trigger] left_alone(s.opened, r.0.opened, k) by {
            assert(!init.contains(k));
            assert(left_alone(s.opened, prev.0.opened, k));
        }
        assert forall|k: Seq<char>, e: Option<String>| #[trigger] r.1.contains((k, e)) <==> (paths.contains(k) && released_to_cache(s.opened, k, e)) by {
            assert(prev.1.contains((k, e)) <==> (init.contains(k) && released_to_cache(s.opened, k, e)));
            match step.1 {
                Some(etag) => {
                    assert(r.1 == prev.1.push((last, etag)));
                    if r.1.contains((k, e)) {
                        let i = choose|i: int| 0 <= i < r.1.len() && r.1[i] == (k, e);
                        if i < prev.1.len() {
                            assert(prev.1[i] == (k, e));
                        }
                    }
                    if prev.1.contains((k, e)) {
                        let i = choose|i: int| 0 <= i < prev.1.len() && prev.1[i] == (k, e);
                        assert(r.1[i] == (k, e));
                    }
                    if k == last && e == etag {
                        assert(r.1[prev.1.len() as int] == (k, e));
                    }
                },
                None => {
                    assert(r.1 == prev.1);
                },
            }
        }
    }
}

} // verus!
