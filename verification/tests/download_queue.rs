use caliberate::display::MetadataQueueStatus;
use caliberate::metadata_queue::{
    begin_download_run, failed_rows, mark_row_running, metadata_download_target_book,
    queue_has_failures, queue_selected_for_download, record_retry_outcome, record_run_outcome,
    result_for_book, source_for_download, MetadataQueueRow, MetadataSourceError,
};
use caliberate::panels::MetadataDownloadResult;
use caliberate::sources::SourceChoices;

fn result(book_id: i64, title: &str) -> MetadataDownloadResult {
    MetadataDownloadResult {
        book_id,
        provider: "openlibrary".to_string(),
        title: Some(title.to_string()),
        authors: Vec::new(),
    }
}

fn row(book_id: i64, status: MetadataQueueStatus) -> MetadataQueueRow {
    MetadataQueueRow { book_id, title: format!("B{book_id}"), status, error: None }
}

fn ids_and_titles(rows: &[MetadataQueueRow]) -> Vec<(i64, String)> {
    rows.iter().map(|r| (r.book_id, r.title.clone())).collect()
}

#[test]
fn queueing_skips_queued_books_and_respects_the_batch() {
    let books = vec![(1, "One".to_string()), (2, "Two".to_string())];
    let mut rows = vec![row(2, MetadataQueueStatus::Success)];
    let first = queue_selected_for_download(&mut rows, &vec![1, 2, 9, 1, 3], 4, &books);
    assert_eq!(first, Some(1));
    assert_eq!(
        ids_and_titles(&rows),
        vec![(2, "B2".to_string()), (1, "One".to_string()), (9, "Unknown".to_string())]
    );
    assert!(rows[1..].iter().all(|r| r.status == MetadataQueueStatus::Pending && r.error.is_none()));
    assert_eq!(queue_selected_for_download(&mut rows, &Vec::new(), 4, &books), None);
    assert_eq!(rows.len(), 3);
}

#[test]
fn download_source_must_be_enabled_and_ticked() {
    let providers = vec!["openlibrary".to_string(), "googlebooks".to_string()];
    let all = SourceChoices { openlibrary: true, google: true, amazon: false, isbndb: false };
    let only_google = SourceChoices { openlibrary: false, google: true, amazon: false, isbndb: false };
    assert_eq!(source_for_download("  ", &providers, true, true, all).ok(), Some("openlibrary".to_string()));
    assert_eq!(source_for_download("googlebooks", &providers, true, true, all).ok(), Some("googlebooks".to_string()));
    match source_for_download("", &providers, true, true, only_google) {
        Err(e) => assert_eq!(e.message(), "source 'openlibrary' is disabled in dialog or config"),
        Ok(_) => panic!("expected a disabled source"),
    }
    match source_for_download(" ", &providers, false, false, all) {
        Err(e) => {
            assert!(matches!(e, MetadataSourceError::NoProvider));
            assert_eq!(e.message(), "no provider configured");
        }
        Ok(_) => panic!("expected no provider"),
    }
}

#[test]
fn run_and_retry_update_rows_and_results() {
    let mut rows = vec![row(1, MetadataQueueStatus::Pending), row(2, MetadataQueueStatus::Pending)];
    let mut results = vec![result(5, "old")];
    let mut failed = true;
    let mut last_error = Some("x".to_string());
    assert!(begin_download_run(&rows, &mut results, &mut failed, &mut last_error));
    assert!(results.is_empty() && !failed && last_error.is_none());

    mark_row_running(&mut rows, 0);
    assert_eq!(rows[0].status, MetadataQueueStatus::Running);
    record_run_outcome(&mut rows, 0, Ok(result(1, "A")), &mut results, &mut failed, &mut last_error);
    record_run_outcome(&mut rows, 1, Err("timeout".to_string()), &mut results, &mut failed, &mut last_error);
    assert_eq!(rows[0].status, MetadataQueueStatus::Success);
    assert_eq!(rows[1].status, MetadataQueueStatus::Failed);
    assert_eq!(rows[1].error, Some("timeout".to_string()));
    assert!(failed);
    assert_eq!(last_error, Some("timeout".to_string()));
    assert_eq!(results.len(), 1);
    assert_eq!(failed_rows(&rows), vec![1]);
    assert!(queue_has_failures(&rows));

    results.push(result(2, "stale"));
    record_retry_outcome(&mut rows, 1, Ok(result(2, "fresh")), &mut results, &mut last_error);
    assert_eq!(rows[1].status, MetadataQueueStatus::Success);
    assert_eq!(rows[1].error, None);
    let titles: Vec<(i64, Option<String>)> = results.iter().map(|r| (r.book_id, r.title.clone())).collect();
    assert_eq!(titles, vec![(1, Some("A".to_string())), (2, Some("fresh".to_string()))]);
    assert!(!queue_has_failures(&rows));
    assert_eq!(result_for_book(&results, 2), Some(1));
    assert_eq!(result_for_book(&results, 7), None);

    let empty: Vec<MetadataQueueRow> = Vec::new();
    let mut kept = vec![result(3, "k")];
    assert!(!begin_download_run(&empty, &mut kept, &mut failed, &mut last_error));
    assert_eq!(kept.len(), 1);
}

#[test]
fn target_book_prefers_the_dialog_book() {
    assert_eq!(metadata_download_target_book(Some(4), &vec![1, 2]), Some(4));
    assert_eq!(metadata_download_target_book(None, &vec![1, 2]), Some(1));
    assert_eq!(metadata_download_target_book(None, &Vec::new()), None);
}

#[test]
fn dialog_starts_with_the_first_enabled_source() {
    let providers = vec!["googlebooks".to_string(), "openlibrary".to_string()];
    assert_eq!(caliberate::metadata_queue::default_download_source(&providers, true, true), "googlebooks");
    assert_eq!(caliberate::metadata_queue::default_download_source(&providers, false, false), "openlibrary");
}

#[test]
fn queueing_again_adds_no_duplicates() {
    let books = vec![(1, "One".to_string())];
    let mut rows = Vec::new();
    queue_selected_for_download(&mut rows, &vec![1, 2], 10, &books);
    queue_selected_for_download(&mut rows, &vec![2, 1, 3], 10, &books);
    let ids: Vec<i64> = rows.iter().map(|r| r.book_id).collect();
    assert_eq!(ids, vec![1, 2, 3]);
}
