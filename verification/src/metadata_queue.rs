//! The metadata download queue: which books are queued, which source a
//! download uses, and what each download's outcome does to the queue.
use crate::display::MetadataQueueStatus;
use crate::panels::MetadataDownloadResult;
use crate::sources::{chosen_of, enabled_of, SourceChoices};
use crate::text::{chars_of, string_views, trim, trim_vec};
use vstd::prelude::*;

verus! {

/// A book in the download queue.
#[derive(Clone, Debug)]
pub struct MetadataQueueRow {
    pub book_id: i64,
    pub title: String,
    pub status: MetadataQueueStatus,
    pub error: Option<String>,
}

/// The plain contents of a queue row.
pub struct QueueRowView {
    pub book_id: i64,
    pub title: Seq<char>,
    pub status: MetadataQueueStatus,
    pub error: Option<Seq<char>>,
}

impl View for MetadataQueueRow {
    type V = QueueRowView;

    open spec fn view(&self) -> QueueRowView {
        QueueRowView {
            book_id: self.book_id,
            title: self.title@,
            status: self.status,
            error: crate::paths::opt_view(self.error),
        }
    }
}

/// Views of the queue's rows.
pub open spec fn row_views(rows: Seq<MetadataQueueRow>) -> Seq<QueueRowView> {
    rows.map_values(|r: MetadataQueueRow| r@)
}

/// Whether some row of the queue is for `book_id`.
pub open spec fn queued(rows: Seq<QueueRowView>, book_id: i64) -> bool {
    exists|i: int| 0 <= i < rows.len() && (#[trigger] rows[i]).book_id == book_id
}

/// The title of the first book with id `id`, or `Unknown`.
pub open spec fn title_for(books: Seq<(i64, String)>, id: i64) -> Seq<char>
    decreases books.len(),
{
    if books.len() == 0 {
        "Unknown"@
    } else if books[0].0 == id {
        books[0].1@
    } else {
        title_for(books.drop_first(), id)
    }
}

/// The queue after queuing books in turn: a book already queued is skipped,
/// another is added as pending with its title.
pub open spec fn queue_after(rows: Seq<QueueRowView>, ids: Seq<i64>, books: Seq<(i64, String)>) -> Seq<QueueRowView>
    decreases ids.len(),
{
    if ids.len() == 0 {
        rows
    } else {
        let before = queue_after(rows, ids.drop_last(), books);
        let id = ids.last();
        if queued(before, id) {
            before
        } else {
            before.push(
                QueueRowView { book_id: id, title: title_for(books, id), status: MetadataQueueStatus::Pending, error: None },
            )
        }
    }
}

fn title_of(books: &Vec<(i64, String)>, id: i64) -> (r: String)
    ensures
        r@ == title_for(books@, id),
{
    let mut i: usize = 0;
    assert(books@.skip(0) =~= books@);
    while i < books.len()
        invariant
            i <= books@.len(),
            title_for(books@.skip(i as int), id) == title_for(books@, id),
        decreases books.len() - i,
    {
        assert(books@.skip(i as int)[0] == books@[i as int]);
        assert(books@.skip(i as int).drop_first() =~= books@.skip(i + 1));
        if books[i].0 == id {
            return books[i].1.clone();
        }
        i += 1;
    }
    assert(books@.skip(i as int) =~= Seq::<(i64, String)>::empty());
    "Unknown".to_owned()
}

fn has_row(rows: &Vec<MetadataQueueRow>, id: i64) -> (r: bool)
    ensures
        r == queued(row_views(rows@), id),
{
    let mut i: usize = 0;
    while i < rows.len()
        invariant
            i <= rows@.len(),
            forall|j: int| 0 <= j < i ==> (#[trigger] rows@[j]).book_id != id,
        decreases rows.len() - i,
    {
        if rows[i].book_id == id {
            assert(row_views(rows@)[i as int].book_id == id);
            return true;
        }
        i += 1;
    }
    assert forall|j: int| 0 <= j < row_views(rows@).len() implies (#[trigger] row_views(rows@)[j]).book_id != id by {
        assert(row_views(rows@)[j].book_id == rows@[j].book_id);
    }
    false
}

/// Queues the first `queue_batch_size` selected books that are not queued yet,
/// as pending rows titled from the library's books. Returns the first selected
/// book, which becomes the dialog's book, or nothing and no change when no book
/// is selected.
pub fn queue_selected_for_download(
    queue_rows: &mut Vec<MetadataQueueRow>,
    selected: &Vec<i64>,
    queue_batch_size: usize,
    all_books: &Vec<(i64, String)>,
) -> (r: Option<i64>)
    ensures
        selected@.len() == 0 ==> r is None && final(queue_rows)@ == old(queue_rows)@,
        selected@.len() > 0 ==> r == Some(selected@[0]) && row_views(final(queue_rows)@) == queue_after(
            row_views(old(queue_rows)@),
            selected@.take(if queue_batch_size < selected@.len() { queue_batch_size as int } else { selected@.len() as int }),
            all_books@,
        ),
{
    if selected.len() == 0 {
        return None;
    }
    let n = if queue_batch_size < selected.len() { queue_batch_size } else { selected.len() };
    let ghost start = row_views(queue_rows@);
    let mut i: usize = 0;
    while i < n
        invariant
            i <= n <= selected@.len(),
            row_views(queue_rows@) == queue_after(start, selected@.take(i as int), all_books@),
        decreases n - i,
    {
        let id = selected[i];
        assert(selected@.take(i + 1).drop_last() =~= selected@.take(i as int));
        assert(selected@.take(i + 1).last() == id);
        if !has_row(queue_rows, id) {
            let row = MetadataQueueRow {
                book_id: id,
                title: title_of(all_books, id),
                status: MetadataQueueStatus::Pending,
                error: None,
            };
            let ghost before = row_views(queue_rows@);
            queue_rows.push(row);
            assert(row_views(queue_rows@) =~= before.push(row@));
        }
        i += 1;
    }
    Some(selected[0])
}

/// Why a download cannot start.
#[derive(Clone, Debug)]
pub enum MetadataSourceError {
    /// No source was typed and no provider is enabled.
    NoProvider,
    /// The source is not among the enabled sources ticked in the dialog.
    Disabled(String),
}

impl MetadataSourceError {
    /// The message shown for the error.
    pub fn message(&self) -> (r: String)
        ensures
            r@ == match self {
                MetadataSourceError::NoProvider => "no provider configured"@,
                MetadataSourceError::Disabled(s) => "source '"@ + s@ + "' is disabled in dialog or config"@,
            },
    {
        match self {
            MetadataSourceError::NoProvider => "no provider configured".to_owned(),
            MetadataSourceError::Disabled(s) => {
                let mut v = chars_of("source '");
                crate::text::append_str(&mut v, s.as_str());
                crate::text::append_str(&mut v, "' is disabled in dialog or config");
                crate::text::string_of(&v)
            },
        }
    }
}

/// The source a download asks: the dialog's source as typed, or the first
/// enabled provider when it is blank.
pub open spec fn picked_source(source: Seq<char>, enabled: Seq<Seq<char>>) -> Option<Seq<char>> {
    if trim(source).len() > 0 {
        Some(source)
    } else if enabled.len() > 0 {
        Some(enabled[0])
    } else {
        None
    }
}

/// The source a download uses; it must be enabled and ticked in the dialog.
pub fn source_for_download(
    source: &str,
    providers: &Vec<String>,
    openlibrary_enabled: bool,
    googlebooks_enabled: bool,
    choices: SourceChoices,
) -> (r: Result<String, MetadataSourceError>)
    ensures
        ({
            let enabled = enabled_of(string_views(providers@), openlibrary_enabled, googlebooks_enabled);
            let picked = picked_source(source@, enabled);
            match r {
                Ok(s) => picked == Some(s@) && chosen_of(enabled, choices).contains(s@),
                Err(MetadataSourceError::NoProvider) => picked is None,
                Err(MetadataSourceError::Disabled(s)) => picked == Some(s@) && !chosen_of(enabled, choices).contains(s@),
            }
        }),
{
    let picked = if trim_vec(&chars_of(source)).len() == 0 {
        match crate::sources::first_enabled_source(providers, openlibrary_enabled, googlebooks_enabled) {
            Some(s) => s,
            None => {
                return Err(MetadataSourceError::NoProvider);
            },
        }
    } else {
        source.to_owned()
    };
    let active = crate::sources::active_sources_for_dialog(providers, openlibrary_enabled, googlebooks_enabled, choices);
    let wanted = chars_of(picked.as_str());
    let listed = crate::text::vecs_of(&active);
    if crate::text::contains_vec_in(&listed, &wanted) {
        Ok(picked)
    } else {
        Err(MetadataSourceError::Disabled(picked))
    }
}

/// The book the dialog's results apply to: its own book, else the first selected.
pub fn metadata_download_target_book(selected_book_id: Option<i64>, selected_ids: &Vec<i64>) -> (r: Option<i64>)
    ensures
        r == match selected_book_id {
            Some(id) => Some(id),
            None => if selected_ids@.len() > 0 {
                Some(selected_ids@[0])
            } else {
                None
            },
        },
{
    match selected_book_id {
        Some(id) => Some(id),
        None => if selected_ids.len() > 0 {
            Some(selected_ids[0])
        } else {
            None
        },
    }
}

/// Starts a run of the whole queue: with rows queued, the results, the failed
/// flag and the last error are cleared and `true` returned; with none, nothing
/// changes.
pub fn begin_download_run(
    queue_rows: &Vec<MetadataQueueRow>,
    results: &mut Vec<MetadataDownloadResult>,
    failed: &mut bool,
    last_error: &mut Option<String>,
) -> (r: bool)
    ensures
        r == (queue_rows@.len() > 0),
        r ==> final(results)@.len() == 0 && !*final(failed) && *final(last_error) is None,
        !r ==> final(results)@ == old(results)@ && *final(failed) == *old(failed) && *final(last_error) == *old(last_error),
{
    if queue_rows.len() == 0 {
        return false;
    }
    *results = Vec::new();
    *failed = false;
    *last_error = None;
    true
}

/// A row with a new state and error.
pub open spec fn with_state(r: QueueRowView, status: MetadataQueueStatus, error: Option<Seq<char>>) -> QueueRowView {
    QueueRowView { book_id: r.book_id, title: r.title, status, error }
}

fn set_row(rows: &mut Vec<MetadataQueueRow>, idx: usize, status: MetadataQueueStatus, error: Option<String>)
    requires
        idx < old(rows)@.len(),
    ensures
        row_views(final(rows)@) == row_views(old(rows)@).update(
            idx as int,
            with_state(old(rows)@[idx as int]@, status, crate::paths::opt_view(error)),
        ),
{
    let row = MetadataQueueRow {
        book_id: rows[idx].book_id,
        title: rows[idx].title.clone(),
        status,
        error,
    };
    let ghost before = row_views(rows@);
    rows.set(idx, row);
    assert(row_views(rows@) =~= before.update(idx as int, row@));
}

/// Marks a row as downloading.
pub fn mark_row_running(rows: &mut Vec<MetadataQueueRow>, idx: usize)
    requires
        idx < old(rows)@.len(),
    ensures
        row_views(final(rows)@) == row_views(old(rows)@).update(
            idx as int,
            with_state(old(rows)@[idx as int]@, MetadataQueueStatus::Running, old(rows)@[idx as int]@.error),
        ),
{
    let error = match &rows[idx].error {
        Some(e) => Some(e.clone()),
        None => None,
    };
    set_row(rows, idx, MetadataQueueStatus::Running, error);
}

/// Records a download of the queue run: a result marks the row done and is kept;
/// an error marks the row failed with the message, sets the failed flag and
/// becomes the last error.
pub fn record_run_outcome(
    rows: &mut Vec<MetadataQueueRow>,
    idx: usize,
    outcome: Result<MetadataDownloadResult, String>,
    results: &mut Vec<MetadataDownloadResult>,
    failed: &mut bool,
    last_error: &mut Option<String>,
)
    requires
        idx < old(rows)@.len(),
    ensures
        match outcome {
            Ok(res) => {
                &&& row_views(final(rows)@) == row_views(old(rows)@).update(
                    idx as int,
                    with_state(old(rows)@[idx as int]@, MetadataQueueStatus::Success, None),
                )
                &&& final(results)@ == old(results)@.push(res)
                &&& *final(failed) == *old(failed)
                &&& *final(last_error) == *old(last_error)
            },
            Err(e) => {
                &&& row_views(final(rows)@) == row_views(old(rows)@).update(
                    idx as int,
                    with_state(old(rows)@[idx as int]@, MetadataQueueStatus::Failed, Some(e@)),
                )
                &&& final(results)@ == old(results)@
                &&& *final(failed)
                &&& crate::paths::opt_view(*final(last_error)) == Some(e@)
            },
        },
{
    match outcome {
        Ok(res) => {
            set_row(rows, idx, MetadataQueueStatus::Success, None);
            results.push(res);
        },
        Err(e) => {
            set_row(rows, idx, MetadataQueueStatus::Failed, Some(e.clone()));
            *failed = true;
            *last_error = Some(e);
        },
    }
}

/// The results for other books than `book_id`, in order.
pub open spec fn without_book(results: Seq<MetadataDownloadResult>, book_id: i64) -> Seq<MetadataDownloadResult>
    decreases results.len(),
{
    if results.len() == 0 {
        Seq::empty()
    } else if results.last().book_id == book_id {
        without_book(results.drop_last(), book_id)
    } else {
        without_book(results.drop_last(), book_id).push(results.last())
    }
}

/// Records a retried download: a result marks the row done and replaces the
/// book's earlier results; an error marks the row failed again with the message
/// and becomes the last error.
pub fn record_retry_outcome(
    rows: &mut Vec<MetadataQueueRow>,
    idx: usize,
    outcome: Result<MetadataDownloadResult, String>,
    results: &mut Vec<MetadataDownloadResult>,
    last_error: &mut Option<String>,
)
    requires
        idx < old(rows)@.len(),
    ensures
        match outcome {
            Ok(res) => {
                &&& row_views(final(rows)@) == row_views(old(rows)@).update(
                    idx as int,
                    with_state(old(rows)@[idx as int]@, MetadataQueueStatus::Success, None),
                )
                &&& final(results)@ == without_book(old(results)@, old(rows)@[idx as int].book_id).push(res)
                &&& *final(last_error) == *old(last_error)
            },
            Err(e) => {
                &&& row_views(final(rows)@) == row_views(old(rows)@).update(
                    idx as int,
                    with_state(old(rows)@[idx as int]@, MetadataQueueStatus::Failed, Some(e@)),
                )
                &&& final(results)@ == old(results)@
                &&& crate::paths::opt_view(*final(last_error)) == Some(e@)
            },
        },
{
    let book_id = rows[idx].book_id;
    match outcome {
        Ok(res) => {
            set_row(rows, idx, MetadataQueueStatus::Success, None);
            let mut earlier: Vec<MetadataDownloadResult> = Vec::new();
            std::mem::swap(&mut earlier, results);
            let ghost all = earlier@;
            assert(all.len() == earlier.len());
            let mut k: usize = 0;
            assert(all.take(0) =~= Seq::<MetadataDownloadResult>::empty());
            while earlier.len() > 0
                invariant
                    k <= all.len(),
                    all.len() <= usize::MAX,
                    earlier@ == all.skip(k as int),
                    results@ == without_book(all.take(k as int), book_id),
                decreases earlier.len(),
            {
                assert(all.skip(k as int)[0] == all[k as int]);
                let x = earlier.remove(0);
                assert(earlier@ =~= all.skip(k + 1));
                assert(all.take(k + 1).drop_last() =~= all.take(k as int));
                assert(all.take(k + 1).last() == x);
                if x.book_id != book_id {
                    results.push(x);
                }
                k += 1;
            }
            assert(all.take(k as int) =~= all);
            results.push(res);
        },
        Err(e) => {
            set_row(rows, idx, MetadataQueueStatus::Failed, Some(e.clone()));
            *last_error = Some(e);
        },
    }
}

/// Whether a row of the queue failed.
pub open spec fn any_failed(rows: Seq<QueueRowView>) -> bool {
    exists|i: int| 0 <= i < rows.len() && (#[trigger] rows[i]).status == MetadataQueueStatus::Failed
}

/// Whether a row of the queue failed; after retries this is the failed flag.
pub fn queue_has_failures(rows: &Vec<MetadataQueueRow>) -> (r: bool)
    ensures
        r == any_failed(row_views(rows@)),
{
    let mut i: usize = 0;
    while i < rows.len()
        invariant
            i <= rows@.len(),
            forall|j: int| 0 <= j < i ==> (#[trigger] rows@[j]).status != MetadataQueueStatus::Failed,
        decreases rows.len() - i,
    {
        if rows[i].status == MetadataQueueStatus::Failed {
            assert(row_views(rows@)[i as int].status == MetadataQueueStatus::Failed);
            return true;
        }
        i += 1;
    }
    assert forall|j: int| 0 <= j < row_views(rows@).len() implies (#[trigger] row_views(rows@)[j]).status != MetadataQueueStatus::Failed by {
        assert(row_views(rows@)[j].status == rows@[j].status);
    }
    false
}

/// The position of the first result for a book.
pub fn result_for_book(results: &Vec<MetadataDownloadResult>, book_id: i64) -> (r: Option<usize>)
    ensures
        match r {
            Some(i) => i < results@.len() && results@[i as int].book_id == book_id
                && forall|j: int| 0 <= j < i ==> (#[trigger] results@[j]).book_id != book_id,
            None => forall|j: int| 0 <= j < results@.len() ==> (#[trigger] results@[j]).book_id != book_id,
        },
{
    let mut i: usize = 0;
    while i < results.len()
        invariant
            i <= results@.len(),
            forall|j: int| 0 <= j < i ==> (#[trigger] results@[j]).book_id != book_id,
        decreases results.len() - i,
    {
        if results[i].book_id == book_id {
            return Some(i);
        }
        i += 1;
    }
    None
}

/// The positions of the failed rows, which a retry downloads again, in order.
pub fn failed_rows(rows: &Vec<MetadataQueueRow>) -> (r: Vec<usize>)
    ensures
        forall|k: int| 0 <= k < r@.len() ==> (#[trigger] r@[k]) < rows@.len() && rows@[r@[k] as int].status
            == MetadataQueueStatus::Failed,
        forall|a: int, b: int| 0 <= a < b < r@.len() ==> #[trigger] r@[a] < #[trigger] r@[b],
        forall|j: int| 0 <= j < rows@.len() && (#[trigger] rows@[j]).status == MetadataQueueStatus::Failed ==> r@.contains(
            j as usize,
        ),
{
    let mut out: Vec<usize> = Vec::new();
    let mut i: usize = 0;
    while i < rows.len()
        invariant
            i <= rows@.len(),
            forall|k: int| 0 <= k < out@.len() ==> (#[trigger] out@[k]) < i && rows@[out@[k] as int].status
                == MetadataQueueStatus::Failed,
            forall|a: int, b: int| 0 <= a < b < out@.len() ==> #[trigger] out@[a] < #[trigger] out@[b],
            forall|j: int| 0 <= j < i && (#[trigger] rows@[j]).status == MetadataQueueStatus::Failed ==> out@.contains(
                j as usize,
            ),
        decreases rows.len() - i,
    {
        if rows[i].status == MetadataQueueStatus::Failed {
            let ghost before = out@;
            out.push(i);
            assert forall|j: int| 0 <= j < i + 1 && (#[trigger] rows@[j]).status == MetadataQueueStatus::Failed implies out@.contains(
                j as usize,
            ) by {
                if j == i {
                    assert(out@[out@.len() - 1] == i);
                } else {
                    let w = choose|w: int| 0 <= w < before.len() && before[w] == j as usize;
                    assert(out@[w] == j as usize);
                }
            }
        }
        i += 1;
    }
    out
}

/// No book has two rows.
pub open spec fn books_unique(rows: Seq<QueueRowView>) -> bool {
    forall|i: int, j: int| 0 <= i < j < rows.len() ==> (#[trigger] rows[i]).book_id != (#[trigger] rows[j]).book_id
}

/// Queuing keeps one row per book, keeps the rows already there, and leaves
/// every book it was given queued.
pub proof fn lemma_queue_after(rows: Seq<QueueRowView>, ids: Seq<i64>, books: Seq<(i64, String)>)
    requires
        books_unique(rows),
    ensures
        books_unique(queue_after(rows, ids, books)),
        queue_after(rows, ids, books).take(rows.len() as int) == rows,
        rows.len() <= queue_after(rows, ids, books).len(),
        forall|k: int| 0 <= k < ids.len() ==> queued(queue_after(rows, ids, books), #[trigger] ids[k]),
    decreases ids.len(),
{
    if ids.len() == 0 {
        assert(rows.take(rows.len() as int) =~= rows);
    } else {
        let front = ids.drop_last();
        lemma_queue_after(rows, front, books);
        let before = queue_after(rows, front, books);
        let id = ids.last();
        if !queued(before, id) {
            let row = QueueRowView { book_id: id, title: title_for(books, id), status: MetadataQueueStatus::Pending, error: None };
            let after = before.push(row);
            assert forall|i: int, j: int| 0 <= i < j < after.len() implies (#[trigger] after[i]).book_id != (#[trigger] after[j]).book_id by {
                if j == after.len() - 1 {
                    assert(after[i] == before[i]);
                    if before[i].book_id == id {
                        assert(queued(before, id));
                    }
                } else {
                    assert(after[i] == before[i] && after[j] == before[j]);
                }
            }
            assert(after.take(rows.len() as int) =~= before.take(rows.len() as int));
            assert forall|k: int| 0 <= k < ids.len() implies queued(after, #[trigger] ids[k]) by {
                if k == ids.len() - 1 {
                    assert(after[after.len() - 1].book_id == id);
                } else {
                    assert(front[k] == ids[k]);
                    assert(queued(before, front[k]));
                    let w = choose|w: int| 0 <= w < before.len() && before[w].book_id == front[k];
                    assert(after[w] == before[w]);
                }
            }
        } else {
            assert forall|k: int| 0 <= k < ids.len() implies queued(before, #[trigger] ids[k]) by {
                if k < ids.len() - 1 {
                    assert(front[k] == ids[k]);
                    assert(queued(before, front[k]));
                }
            }
        }
    }
}

/// The source a new download dialog starts with: the first enabled provider,
/// or Open Library.
pub fn default_download_source(providers: &Vec<String>, openlibrary_enabled: bool, googlebooks_enabled: bool) -> (r: String)
    ensures
        ({
            let enabled = enabled_of(string_views(providers@), openlibrary_enabled, googlebooks_enabled);
            r@ == if enabled.len() > 0 {
                enabled[0]
            } else {
                "openlibrary"@
            }
        }),
{
    match crate::sources::first_enabled_source(providers, openlibrary_enabled, googlebooks_enabled) {
        Some(s) => s,
        None => "openlibrary".to_owned(),
    }
}

} // verus!
