use dls3::backing_file::{
    read_past_progress, read_past_start, FileDownloadStatus, FileState, OpenAction, Progress, ReadPastAction,
    RemoteObject, SyncAction,
};

fn refs(s: &FileState<u8>) -> Option<u32> {
    match s.status {
        FileDownloadStatus::Downloading { ref_count, .. } => Some(ref_count),
        FileDownloadStatus::Complete { ref_count } => Some(ref_count),
        _ => None,
    }
}

#[test]
fn sparse_file_is_allocated_then_downloads() {
    let mut f: FileState<u8> = FileState::sparse(1000);
    assert_eq!(f.open(), OpenAction::Allocate { length: 1000 });
    assert!(matches!(f.status, FileDownloadStatus::Sparse));
    f.allocated(7);
    assert_eq!(f.progress_channel(), Some(&7));
    assert_eq!(refs(&f), Some(1));
    assert_eq!(f.open(), OpenAction::Shared);
    assert_eq!(refs(&f), Some(2));
    f.unref();
    assert_eq!(refs(&f), Some(1));
    // the last client leaves while the download runs: the file is cached with its data
    f.unref();
    assert!(matches!(f.status, FileDownloadStatus::Cached));
    assert_eq!(f.length, 1000);
    // a late progress report or end of download leaves the cached file alone
    f.record_progress(500);
    f.download_finished();
    assert!(matches!(f.status, FileDownloadStatus::Cached));
}

#[test]
fn complete_file_becomes_cached_and_back() {
    let mut f: FileState<u8> = FileState { length: 5, status: FileDownloadStatus::Complete { ref_count: 1 } };
    f.unref();
    assert!(matches!(f.status, FileDownloadStatus::Cached));
    assert_eq!(f.open(), OpenAction::Shared);
    assert_eq!(refs(&f), Some(1));
    assert!(f.progress_channel().is_none());
}

#[test]
fn can_open_checks_reference_count() {
    let f: FileState<u8> = FileState { length: 5, status: FileDownloadStatus::Complete { ref_count: u32::MAX } };
    assert!(!f.can_open());
    let g: FileState<u8> = FileState::sparse(3);
    assert!(g.can_open());
}

#[test]
fn read_past_on_complete_deleted_and_downloading() {
    let c: FileState<u8> = FileState { length: 42, status: FileDownloadStatus::Complete { ref_count: 1 } };
    assert_eq!(read_past_start(Some(&c), 7), ReadPastAction::Available(42));
    assert_eq!(read_past_start::<u8>(None, 7), ReadPastAction::Available(u64::MAX));
    let mut d: FileState<u8> = FileState::sparse(1000);
    assert_eq!(d.open(), OpenAction::Allocate { length: 1000 });
    d.allocated(0);
    assert_eq!(read_past_start(Some(&d), 300), ReadPastAction::Wait);
    // 200 bytes written: a read at 300 still waits
    d.record_progress(200);
    assert_eq!(read_past_start(Some(&d), 300), ReadPastAction::Wait);
    // 350 bytes already written: no waiting, 350 bytes are available
    d.record_progress(350);
    assert_eq!(read_past_start(Some(&d), 300), ReadPastAction::Available(350));
    assert_eq!(read_past_start(Some(&d), 350), ReadPastAction::Wait);
    d.download_finished();
    assert_eq!(read_past_start(Some(&d), 300), ReadPastAction::Available(1000));
}

#[test]
fn read_past_waits_until_offset_is_passed() {
    // a 1000-byte file with 200 bytes so far; a read at offset 300 waits until 350 arrive
    assert_eq!(read_past_progress(300, Progress::Written(200)), None);
    assert_eq!(read_past_progress(300, Progress::Written(300)), None);
    assert_eq!(read_past_progress(300, Progress::Lagged), None);
    assert_eq!(read_past_progress(300, Progress::Written(350)), Some(350));
    assert_eq!(read_past_progress(300, Progress::Closed), Some(u64::MAX));
}

#[test]
fn sync_follows_the_remote_object() {
    let mut d: FileState<u8> = FileState { length: 9, status: FileDownloadStatus::Downloading { tx: 1, ref_count: 2, written: 3 } };
    assert_eq!(d.sync(RemoteObject::Missing, 2), SyncAction::Keep);
    assert_eq!(d.progress_channel(), Some(&1));

    let mut s: FileState<u8> = FileState::sparse(9);
    assert_eq!(s.sync(RemoteObject::Changed { length: 12 }, 0), SyncAction::SetLength { length: 12 });
    assert_eq!(s.length, 12);
    assert_eq!(s.sync(RemoteObject::Unchanged, 0), SyncAction::Keep);
    assert_eq!(s.sync(RemoteObject::Missing, 0), SyncAction::Unlink);

    let mut c: FileState<u8> = FileState { length: 9, status: FileDownloadStatus::Cached };
    assert_eq!(c.sync(RemoteObject::Changed { length: 4 }, 0), SyncAction::Deallocate { allocated: 9, length: 4 });
    assert!(matches!(c.status, FileDownloadStatus::Sparse));
    assert_eq!(c.length, 4);

    let mut k: FileState<u8> = FileState { length: 9, status: FileDownloadStatus::Complete { ref_count: 3 } };
    assert_eq!(k.sync(RemoteObject::Changed { length: 10 }, 5), SyncAction::Redownload);
    assert_eq!(k.progress_channel(), Some(&5));
    assert_eq!(refs(&k), Some(3));
    assert_eq!(k.length, 10);
}
