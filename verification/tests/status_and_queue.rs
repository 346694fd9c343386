use playlist_audio::playlist::MediaItem;
use playlist_audio::repository::{download_status_sql, select_for_queue, timestamp_column, DownloadTask, QueuedItem};
use playlist_audio::status::{backoff_seconds, failure_outcome, retry_modifier, Status, MAX_ATTEMPTS};

fn item(id: &str, index: usize) -> MediaItem {
    MediaItem {
        id: id.to_string(),
        title: format!("Title {id}"),
        url: format!("https://www.youtube.com/watch?v={id}"),
        duration: Some(61),
        thumbnail: None,
        index,
    }
}

#[test]
fn backoff_is_30s_2m_8m() {
    assert_eq!(backoff_seconds(0), 30);
    assert_eq!(backoff_seconds(1), 30);
    assert_eq!(backoff_seconds(2), 120);
    assert_eq!(backoff_seconds(3), 480);
    assert_eq!(backoff_seconds(30), 30 * 4i64.pow(29));
}

#[test]
fn failures_retry_until_the_third_attempt() {
    assert_eq!(MAX_ATTEMPTS, 3);
    let first = failure_outcome(1);
    assert_eq!(first.status, Status::Retrying);
    assert_eq!(first.retry_after_seconds, Some(30));
    assert_eq!(first.attempt_count, 1);
    let second = failure_outcome(2);
    assert_eq!(second.status, Status::Retrying);
    assert_eq!(second.retry_after_seconds, Some(120));
    let third = failure_outcome(3);
    assert_eq!(third.status, Status::Failed);
    assert_eq!(third.retry_after_seconds, None);
    assert_eq!(failure_outcome(u32::MAX).status, Status::Failed);
}

#[test]
fn retry_modifier_is_a_sqlite_datetime_offset() {
    assert_eq!(retry_modifier(30), "+30 seconds");
    assert_eq!(retry_modifier(120), "+120 seconds");
    assert_eq!(retry_modifier(0), "+0 seconds");
    assert_eq!(retry_modifier(-7), "+-7 seconds");
    assert_eq!(retry_modifier(i64::MIN), format!("+{} seconds", i64::MIN));
    assert_eq!(retry_modifier(i64::MAX), format!("+{} seconds", i64::MAX));
}

#[test]
fn status_texts_are_the_stored_vocabulary() {
    let all = [
        (Status::Discovering, "DISCOVERING"),
        (Status::Ready, "READY"),
        (Status::Queued, "QUEUED"),
        (Status::Downloading, "DOWNLOADING"),
        (Status::Processing, "PROCESSING"),
        (Status::Completed, "COMPLETED"),
        (Status::Paused, "PAUSED"),
        (Status::Retrying, "RETRYING"),
        (Status::Failed, "FAILED"),
        (Status::Cancelled, "CANCELLED"),
    ];
    for (s, t) in all {
        assert_eq!(s.as_str(), t);
    }
}

#[test]
fn queue_skips_completed_items_and_keeps_order() {
    let items = vec![item("a", 1), item("b", 2), item("c", 3), item("d", 4)];
    let ids = vec![10, 20, 30, 40];
    let done = vec!["b".to_string(), "zzz".to_string(), "d".to_string()];
    let q = select_for_queue(&items, &ids, &done);
    assert_eq!(
        q,
        vec![
            QueuedItem { position: 0, media_item_id: 10 },
            QueuedItem { position: 2, media_item_id: 30 },
        ]
    );
}

#[test]
fn queue_pairs_only_as_far_as_both_lists_go() {
    let items = vec![item("a", 1), item("b", 2), item("c", 3)];
    let q = select_for_queue(&items, &vec![7, 8], &vec![]);
    assert_eq!(q.len(), 2);
    assert_eq!(q[1], QueuedItem { position: 1, media_item_id: 8 });
    let q = select_for_queue(&items[..1].to_vec(), &vec![7, 8, 9], &vec![]);
    assert_eq!(q, vec![QueuedItem { position: 0, media_item_id: 7 }]);
    let all_done = vec!["a".to_string(), "b".to_string(), "c".to_string()];
    assert!(select_for_queue(&items, &vec![1, 2, 3], &all_done).is_empty());
}

#[test]
fn task_carries_the_item_fields() {
    let it = item("xyz", 12);
    let t = DownloadTask::for_item(5, 9, &it);
    assert_eq!(t.download_id, 5);
    assert_eq!(t.media_item_id, 9);
    assert_eq!(t.source_id, "xyz");
    assert_eq!(t.title, "Title xyz");
    assert_eq!(t.url, "https://www.youtube.com/watch?v=xyz");
    assert_eq!(t.index, 12);
}

#[test]
fn transitions_stamp_start_and_completion_times() {
    assert_eq!(timestamp_column("DOWNLOADING"), Some("started_at"));
    assert_eq!(timestamp_column("COMPLETED"), Some("completed_at"));
    assert_eq!(timestamp_column("QUEUED"), None);
    assert_eq!(timestamp_column("downloading"), None);
    assert_eq!(
        download_status_sql("DOWNLOADING"),
        "UPDATE downloads SET status = ?1, started_at = datetime('now') WHERE id = ?2"
    );
    assert_eq!(
        download_status_sql("COMPLETED"),
        "UPDATE downloads SET status = ?1, completed_at = datetime('now') WHERE id = ?2"
    );
    assert_eq!(download_status_sql("CANCELLED"), "UPDATE downloads SET status = ?1 WHERE id = ?2");
}

#[test]
fn successive_failures_of_a_fresh_download() {
    let statuses: Vec<Status> = (1..=5).map(|n| failure_outcome(n).status).collect();
    assert_eq!(
        statuses,
        vec![Status::Retrying, Status::Retrying, Status::Failed, Status::Failed, Status::Failed]
    );
}
