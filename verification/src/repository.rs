//! The decisions behind the download bookkeeping: which items of a playlist
//! get queued, what a queued download carries, and how a status change is
//! written.
use vstd::prelude::*;
use crate::playlist::{MediaItem, MediaItemView, items_view, strings_view};
use crate::status::{Status, status_text};
use crate::text::{append_chars, str_chars, str_eq, string_from_chars};

verus! {

/// A download row ready to hand to the worker pool.
pub struct DownloadTask {
    pub download_id: i64,
    pub media_item_id: i64,
    pub source_id: String,
    pub title: String,
    pub url: String,
    pub index: i64,
}

pub struct DownloadTaskView {
    pub download_id: i64,
    pub media_item_id: i64,
    pub source_id: Seq<char>,
    pub title: Seq<char>,
    pub url: Seq<char>,
    pub index: i64,
}

impl View for DownloadTask {
    type V = DownloadTaskView;

    open spec fn view(&self) -> DownloadTaskView {
        DownloadTaskView {
            download_id: self.download_id,
            media_item_id: self.media_item_id,
            source_id: self.source_id@,
            title: self.title@,
            url: self.url@,
            index: self.index,
        }
    }
}

pub open spec fn task_for(download_id: i64, media_item_id: i64, item: MediaItemView) -> DownloadTaskView {
    DownloadTaskView {
        download_id,
        media_item_id,
        source_id: item.id,
        title: item.title,
        url: item.url,
        index: item.index as i64,
    }
}

impl DownloadTask {
    /// The task for `item`, stored as download `download_id` of media item
    /// `media_item_id`.
    pub fn for_item(download_id: i64, media_item_id: i64, item: &MediaItem) -> (t: DownloadTask)
        ensures
            t@ == task_for(download_id, media_item_id, item@),
    {
        DownloadTask {
            download_id,
            media_item_id,
            source_id: item.id.clone(),
            title: item.title.clone(),
            url: item.url.clone(),
            index: item.index as i64,
        }
    }
}

/// An item chosen for download: its position in the playlist and its row id.
#[derive(Clone, Copy, Debug, PartialEq, Eq, Structural)]
pub struct QueuedItem {
    pub position: usize,
    pub media_item_id: i64,
}

/// Items and row ids are paired in order (as far as both go); each pair whose
/// source id has already been downloaded is skipped.
pub open spec fn queue_selection(
    items: Seq<MediaItemView>,
    ids: Seq<i64>,
    done: Seq<Seq<char>>,
    n: nat,
) -> Seq<QueuedItem>
    decreases n,
{
    if n == 0 {
        Seq::empty()
    } else {
        let r = queue_selection(items, ids, done, (n - 1) as nat);
        if done.contains(items[n - 1].id) {
            r
        } else {
            r.push(QueuedItem { position: (n - 1) as usize, media_item_id: ids[n - 1] })
        }
    }
}

pub open spec fn pair_count(items: Seq<MediaItemView>, ids: Seq<i64>) -> nat {
    if items.len() <= ids.len() {
        items.len()
    } else {
        ids.len()
    }
}

fn contains_string(done: &Vec<String>, id: &String) -> (r: bool)
    ensures
        r == strings_view(done@).contains(id@),
{
    let mut i: usize = 0;
    while i < done.len()
        invariant
            i <= done.len(),
            forall|j: int| 0 <= j < i ==> done@[j]@ != id@,
        decreases done.len() - i,
    {
        if str_eq(done[i].as_str(), id.as_str()) {
            assert(strings_view(done@)[i as int] == id@);
            return true;
        }
        i = i + 1;
    }
    proof {
        if strings_view(done@).contains(id@) {
            let j = choose|j: int| 0 <= j < done@.len() && strings_view(done@)[j] == id@;
            assert(done@[j]@ == id@);
        }
    }
    false
}

/// The items of a playlist to queue, in playlist order: every item paired
/// with a row id whose source id is not among the completed ones.
pub fn select_for_queue(items: &Vec<MediaItem>, media_item_ids: &Vec<i64>, already_done: &Vec<
    String,
>) -> (r: Vec<QueuedItem>)
    ensures
        r@ == queue_selection(
            items_view(items@),
            media_item_ids@,
            strings_view(already_done@),
            pair_count(items_view(items@), media_item_ids@),
        ),
{
    let n = if items.len() <= media_item_ids.len() {
        items.len()
    } else {
        media_item_ids.len()
    };
    let mut r: Vec<QueuedItem> = Vec::new();
    let mut i: usize = 0;
    while i < n
        invariant
            i <= n <= items.len(),
            n <= media_item_ids.len(),
            r@ == queue_selection(
                items_view(items@),
                media_item_ids@,
                strings_view(already_done@),
                i as nat,
            ),
        decreases n - i,
    {
        let item = &items[i];
        assert(items_view(items@)[i as int] == item@);
        if !contains_string(already_done, &item.id) {
            r.push(QueuedItem { position: i, media_item_id: media_item_ids[i] });
        }
        i = i + 1;
    }
    r
}

/// Re-queuing never re-downloads a finished item and never drops a new one:
/// an item is selected exactly when it is paired with a row id and its
/// source id is not among the completed ones, and selections keep playlist
/// order.
pub proof fn lemma_queue_skips_exactly_completed(
    items: Seq<MediaItemView>,
    ids: Seq<i64>,
    done: Seq<Seq<char>>,
    n: nat,
)
    requires
        n <= items.len(),
        n <= ids.len(),
        n <= usize::MAX,
    ensures
        forall|k: int|
            0 <= k < queue_selection(items, ids, done, n).len() ==> {
                let q = #[trigger] queue_selection(items, ids, done, n)[k];
                &&& q.position < n
                &&& !done.contains(items[q.position as int].id)
                &&& q.media_item_id == ids[q.position as int]
            },
        forall|p: int|
            0 <= p < n && !done.contains(#[trigger] items[p].id) ==> exists|k: int|
                0 <= k < queue_selection(items, ids, done, n).len() && queue_selection(
                    items,
                    ids,
                    done,
                    n,
                )[k].position == p,
        forall|k1: int, k2: int|
            0 <= k1 < k2 < queue_selection(items, ids, done, n).len() ==> (#[trigger] queue_selection(
                items,
                ids,
                done,
                n,
            )[k1]).position < (#[trigger] queue_selection(items, ids, done, n)[k2]).position,
    decreases n,
{
    if n > 0 {
        lemma_queue_skips_exactly_completed(items, ids, done, (n - 1) as nat);
        let r = queue_selection(items, ids, done, (n - 1) as nat);
        let s = queue_selection(items, ids, done, n);
        assert forall|p: int|
            0 <= p < n && !done.contains(#[trigger] items[p].id) implies exists|k: int|
            0 <= k < s.len() && s[k].position == p by {
            if p < n - 1 {
                let k = choose|k: int| 0 <= k < r.len() && r[k].position == p;
                assert(s[k] == r[k]);
            } else {
                assert(s == r.push(QueuedItem { position: (n - 1) as usize, media_item_id: ids[n - 1] }));
                assert(s[r.len() as int].position == p);
            }
        }
        assert forall|k1: int, k2: int| 0 <= k1 < k2 < s.len() implies (#[trigger] s[k1]).position
            < (#[trigger] s[k2]).position by {
            if k2 < r.len() {
                assert(s[k1] == r[k1] && s[k2] == r[k2]);
            } else {
                assert(s[k1] == r[k1]);
            }
        }
        assert forall|k: int| 0 <= k < s.len() implies {
            let q = #[trigger] s[k];
            &&& q.position < n
            &&& !done.contains(items[q.position as int].id)
            &&& q.media_item_id == ids[q.position as int]
        } by {
            if k < r.len() {
                assert(s[k] == r[k]);
            }
        }
    }
}

/// The column that records when a download reached `status`, if any.
pub open spec fn timestamp_column_spec(status: Seq<char>) -> Option<Seq<char>> {
    if status == status_text(Status::Downloading) {
        Some("started_at"@)
    } else if status == status_text(Status::Completed) {
        Some("completed_at"@)
    } else {
        None
    }
}

pub fn timestamp_column(new_status: &str) -> (r: Option<&'static str>)
    ensures
        match r {
            Some(c) => timestamp_column_spec(new_status@) == Some(c@),
            None => timestamp_column_spec(new_status@) is None,
        },
{
    if str_eq(new_status, Status::Downloading.as_str()) {
        Some("started_at")
    } else if str_eq(new_status, Status::Completed.as_str()) {
        Some("completed_at")
    } else {
        None
    }
}

/// The statement that sets a download's status (`?1`) by id (`?2`), stamping
/// the time the status was reached where one is recorded.
pub open spec fn download_status_sql_spec(status: Seq<char>) -> Seq<char> {
    match timestamp_column_spec(status) {
        Some(col) => "UPDATE downloads SET status = ?1, "@ + col + " = datetime('now') WHERE id = ?2"@,
        None => "UPDATE downloads SET status = ?1 WHERE id = ?2"@,
    }
}

pub fn download_status_sql(new_status: &str) -> (r: String)
    ensures
        r@ == download_status_sql_spec(new_status@),
{
    match timestamp_column(new_status) {
        Some(col) => {
            let mut v = str_chars("UPDATE downloads SET status = ?1, ");
            append_chars(&mut v, &str_chars(col));
            append_chars(&mut v, &str_chars(" = datetime('now') WHERE id = ?2"));
            string_from_chars(&v)
        },
        None => {
            let v = str_chars("UPDATE downloads SET status = ?1 WHERE id = ?2");
            string_from_chars(&v)
        },
    }
}

} // verus!
