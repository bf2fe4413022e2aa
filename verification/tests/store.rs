use std::cmp::Ordering;

use dls3::store::{
    classify_object_failure, needs_content_length, reserve_length, CachedFileState, HandleFiles, ListedAction,
    ObjectFailure, OpenStart, StoreState, SyncTracker,
};

fn cached(last_access: u64, size: u64) -> CachedFileState {
    CachedFileState { last_access, size, etag: None }
}

#[test]
fn eviction_order_prefers_large_then_old() {
    assert_eq!(cached(5, 10).cmp(&cached(1, 20)), Ordering::Less);
    assert_eq!(cached(1, 20).cmp(&cached(5, 10)), Ordering::Greater);
    assert_eq!(cached(1, 10).cmp(&cached(5, 10)), Ordering::Greater);
    assert_eq!(cached(5, 10).cmp(&cached(1, 10)), Ordering::Less);
    assert_eq!(cached(3, 10).cmp(&cached(3, 10)), Ordering::Equal);
    assert_eq!(cached(3, 10).partial_cmp(&cached(3, 11)), Some(Ordering::Less));
}

/// Opens `path` as a new download that succeeds with `etag`, then closes it,
/// and caches it with `size` at time `now`.
fn download_and_cache(state: &mut StoreState<u32>, path: &str, etag: &str, size: u64, now: u64) {
    assert_eq!(state.begin_open(path, 0), OpenStart::DownloadSelf);
    assert_eq!(state.finish_download(path, Ok(Some(etag.to_string()))), Ok(()));
    let released = state.release_file(path).expect("released to cache");
    assert_eq!(released.path, path);
    assert_eq!(released.etag.as_deref(), Some(etag));
    state.cache_released(released, Some(size), now);
}

#[test]
fn open_download_close_revive() {
    let mut state: StoreState<u32> = StoreState::new();
    assert_eq!(state.begin_open("a", 7), OpenStart::DownloadSelf);
    assert!(state.is_opened("a"));
    assert_eq!(state.download_channel("a"), Some(&7));
    assert_eq!(state.begin_open("a", 8), OpenStart::FollowDownload);
    assert_eq!(state.finish_download("a", Ok(Some("e1".to_string()))), Ok(()));
    assert_eq!(state.download_channel("a"), None);
    assert_eq!(state.begin_open("a", 9), OpenStart::AlreadyDownloaded);
    // three references: two releases keep it open
    assert!(state.release_file("a").is_none());
    assert!(state.release_file("a").is_none());
    assert!(state.is_opened("a"));
    let released = state.release_file("a").unwrap();
    assert!(!state.is_opened("a"));
    assert_eq!(released.etag.as_deref(), Some("e1"));
    state.cache_released(released, Some(100), 1);
    assert!(state.is_cached("a"));
    assert_eq!(state.begin_open("a", 10), OpenStart::Revived);
    assert!(!state.is_cached("a"));
    assert!(state.is_opened("a"));
    assert_eq!(state.download_channel("a"), None);
    let again = state.release_file("a").unwrap();
    assert_eq!(again.etag.as_deref(), Some("e1"));
}

#[test]
fn failed_download_is_forgotten() {
    let mut state: StoreState<u32> = StoreState::new();
    assert_eq!(state.begin_open("missing", 0), OpenStart::DownloadSelf);
    assert_eq!(state.begin_open("missing", 0), OpenStart::FollowDownload);
    assert_eq!(state.finish_download("missing", Err(2)), Err(2));
    assert!(!state.is_opened("missing"));
    assert!(state.release_file("missing").is_none());
    assert_eq!(state.begin_open("missing", 0), OpenStart::DownloadSelf);
}

#[test]
fn download_finishing_after_last_close_is_not_opened() {
    let mut state: StoreState<u32> = StoreState::new();
    assert_eq!(state.begin_open("p", 0), OpenStart::DownloadSelf);
    assert!(state.release_file("p").is_none());
    assert!(!state.is_opened("p"));
    assert_eq!(state.finish_download("p", Ok(None)), Ok(()));
    assert!(!state.is_opened("p"));
}

#[test]
fn empty_or_missing_files_are_not_cached() {
    let mut state: StoreState<u32> = StoreState::new();
    for (path, size) in [("gone", None), ("empty", Some(0))] {
        assert_eq!(state.begin_open(path, 0), OpenStart::DownloadSelf);
        state.finish_download(path, Ok(None)).unwrap();
        let released = state.release_file(path).unwrap();
        state.cache_released(released, size, 3);
        assert!(!state.is_cached(path));
    }
}

#[test]
fn eviction_takes_largest_then_least_recent() {
    let mut state: StoreState<u32> = StoreState::new();
    assert!(state.evict_one().is_none());
    download_and_cache(&mut state, "small", "s", 10, 1);
    download_and_cache(&mut state, "big-new", "bn", 50, 9);
    download_and_cache(&mut state, "big-old", "bo", 50, 2);
    let (k, st) = state.evict_one().unwrap();
    assert_eq!((k.as_str(), st.size, st.last_access), ("big-old", 50, 2));
    assert_eq!(st.etag.as_deref(), Some("bo"));
    assert!(!state.is_cached("big-old"));
    let (k, _) = state.evict_one().unwrap();
    assert_eq!(k, "big-new");
    let (k, _) = state.evict_one().unwrap();
    assert_eq!(k, "small");
    assert!(state.evict_one().is_none());
}

#[test]
fn recaching_overwrites_entry() {
    let mut state: StoreState<u32> = StoreState::new();
    download_and_cache(&mut state, "f", "one", 10, 1);
    assert_eq!(state.begin_open("f", 0), OpenStart::Revived);
    let released = state.release_file("f").unwrap();
    state.cache_released(released, Some(20), 5);
    let (k, st) = state.evict_one().unwrap();
    assert_eq!((k.as_str(), st.size, st.last_access, st.etag.as_deref()), ("f", 20, 5, Some("one")));
}

#[test]
fn can_open_guards_reference_count() {
    let mut state: StoreState<u32> = StoreState::new();
    assert!(state.can_open("x"));
    assert_eq!(state.begin_open("x", 0), OpenStart::DownloadSelf);
    assert!(state.can_open("x"));
}

#[test]
fn handle_records_only_successful_non_revived_opens() {
    let mut handle = HandleFiles::new();
    handle.record_open("a", true);
    handle.record_open("b", false);
    handle.record_open("c", true);
    handle.record_open("a", true);
    assert!(handle.contains("a"));
    assert!(!handle.contains("b"));
    assert!(handle.contains("c"));
    assert_eq!(handle.len(), 2);
    handle.forget("a");
    assert_eq!(handle.len(), 1);
}

#[test]
fn close_file_releases_and_forgets() {
    let mut state: StoreState<u32> = StoreState::new();
    let mut handle = HandleFiles::new();
    assert_eq!(state.begin_open("a", 0), OpenStart::DownloadSelf);
    let result = state.finish_download("a", Ok(Some("t".to_string())));
    handle.record_open("a", result.is_ok());
    let released = state.close_file(&mut handle, "a").unwrap();
    assert_eq!(released.path, "a");
    assert!(!handle.contains("a"));
    assert!(!state.is_opened("a"));
}

#[test]
fn ending_a_connection_releases_each_recorded_file_once() {
    let mut state: StoreState<u32> = StoreState::new();
    let mut handle = HandleFiles::new();
    for path in ["a", "b", "c"] {
        let start = state.begin_open(path, 0);
        let r = state.finish_download(path, Ok(Some(path.to_string())));
        assert_ne!(start, OpenStart::Revived);
        handle.record_open(path, r.is_ok());
    }
    // "a" is opened twice by this connection but recorded once
    assert_eq!(state.begin_open("a", 0), OpenStart::AlreadyDownloaded);
    handle.record_open("a", true);
    // "c" is also opened by someone else
    state.begin_open("c", 0);
    let released = state.release_handle(handle);
    let paths: Vec<&str> = released.iter().map(|f| f.path.as_str()).collect();
    assert_eq!(paths, vec!["b"]);
    assert_eq!(released[0].etag.as_deref(), Some("b"));
    assert!(state.is_opened("a"));
    assert!(!state.is_opened("b"));
    assert!(state.is_opened("c"));
}

#[test]
fn sync_pass_tracks_visited_backing_files() {
    let mut state: StoreState<u32> = StoreState::new();
    let mut tracker = SyncTracker::new();
    tracker.begin_pass();
    for key in ["a", "b", "c"] {
        assert_eq!(tracker.visit(&state, key), ListedAction::Create);
        assert!(tracker.record_created(key));
    }
    assert!(tracker.forget_unvisited(&mut state).is_empty());
    tracker.retain_visited();

    // "a" gets cached, "b" opened, "c" disappears from the bucket
    download_and_cache(&mut state, "a", "ea", 4, 1);
    state.begin_open("b", 0);
    tracker.begin_pass();
    assert_eq!(tracker.visit(&state, "a"), ListedAction::InUse);
    assert_eq!(tracker.visit(&state, "b"), ListedAction::InUse);
    assert_eq!(tracker.visit(&state, "d"), ListedAction::Create);
    assert!(tracker.record_created("d"));
    let gone = tracker.forget_unvisited(&mut state);
    assert_eq!(gone, vec!["c".to_string()]);
    tracker.retain_visited();
    assert!(tracker.contains("a") && tracker.contains("b") && tracker.contains("d"));
    assert!(!tracker.contains("c"));
    assert!(state.is_cached("a"));
}

#[test]
fn unvisited_cached_file_leaves_the_cache() {
    let mut state: StoreState<u32> = StoreState::new();
    let mut tracker = SyncTracker::new();
    tracker.begin_pass();
    assert_eq!(tracker.visit(&state, "a"), ListedAction::Create);
    tracker.record_created("a");
    tracker.retain_visited();
    download_and_cache(&mut state, "a", "ea", 4, 1);
    tracker.begin_pass();
    let gone = tracker.forget_unvisited(&mut state);
    assert_eq!(gone, vec!["a".to_string()]);
    assert!(!state.is_cached("a"));
    tracker.retain_visited();
    assert!(!tracker.contains("a"));
}

#[test]
fn recreating_a_known_backing_file_is_not_new() {
    let mut tracker = SyncTracker::new();
    assert!(tracker.record_created("k"));
    tracker.begin_pass();
    assert!(!tracker.record_created("k"));
}

#[test]
fn s3_failures_are_classified() {
    assert_eq!(classify_object_failure(true, Some("AccessDenied")), ObjectFailure::NotFound);
    assert_eq!(classify_object_failure(false, Some("AccessDenied")), ObjectFailure::AccessDenied);
    assert_eq!(classify_object_failure(false, Some("AccessDeniedX")), ObjectFailure::Other);
    assert_eq!(classify_object_failure(false, Some("SlowDown")), ObjectFailure::Other);
    assert_eq!(classify_object_failure(false, None), ObjectFailure::Other);
}

#[test]
fn revived_file_is_released_when_the_connection_ends() {
    let mut state: StoreState<u32> = StoreState::new();
    download_and_cache(&mut state, "r", "er", 8, 1);
    let mut handle = HandleFiles::new();
    assert_eq!(state.begin_open("r", 0), OpenStart::Revived);
    handle.record_open("r", true);
    let released = state.release_handle(handle);
    assert_eq!(released.len(), 1);
    assert_eq!(released[0].path, "r");
    assert!(!state.is_opened("r"));
}

#[test]
fn length_to_reserve() {
    assert!(needs_content_length(0));
    assert!(!needs_content_length(10));
    assert_eq!(reserve_length(10, None), 10);
    assert_eq!(reserve_length(10, Some(99)), 10);
    assert_eq!(reserve_length(0, Some(99)), 99);
    assert_eq!(reserve_length(0, None), 0);
}

#[test]
fn failed_reservation_evicts_only_for_lack_of_space() {
    let mut state: StoreState<u32> = StoreState::new();
    assert!(state.on_reserve_failed(true).is_none());
    download_and_cache(&mut state, "small", "s", 10, 1);
    download_and_cache(&mut state, "big", "b", 50, 2);
    assert!(state.on_reserve_failed(false).is_none());
    assert!(state.is_cached("big"));
    let (k, st) = state.on_reserve_failed(true).unwrap();
    assert_eq!((k.as_str(), st.size), ("big", 50));
    assert!(!state.is_cached("big"));
    assert!(state.is_cached("small"));
}
