use caliberate::adopt::{
    adoption_timestamp, begin_adoption, decide_adoption, discard_after_failed_record,
    new_adoption_result, normalize_format, result_from_asset, select_managed, select_reference,
    timestamp_text, verify_existing_asset, AdoptDecision, AdoptError, AssetRow, ManagedFileFacts,
    ManagedObject, SourceFileStatus,
};
use caliberate::bulk_adopt::{
    adoption_request, normalize_bulk_limit, BulkRun, SourceAdoptionCandidate, SourceBulkAdoptOptions,
    SourceBulkAdoptProgress, SourceBulkAdoptResult, MAX_BULK_ADOPT_FORMATS,
    MAX_BULK_ADOPT_PAGE_SIZE, MAX_BULK_ADOPT_PROBLEMS,
};
use caliberate::adopt::AdoptFormatResult;
use caliberate::calibre::{
    book_from_row, book_query, check_table_columns, content_from_primary, contains_pattern_of,
    count_query, facet, filters, like_escape, query_page_of, required_table_name, safe_path,
    search_query, sort_expr, CalibreError, CalibreLibraryBackend, LibraryFacetKind,
    LibraryMetadataFilterField, LibraryMetadataFilterMode, LibraryQuery, LibrarySortField,
    SqlParam, REQUIRED_TABLE_COUNT,
};

fn asset(id: i64, format_id: i64, mode: &str) -> AssetRow {
    AssetRow {
        id,
        book_format_id: Some(format_id),
        storage_mode: mode.to_string(),
        stored_path: format!("/store/{id}.bin"),
        size_bytes: 4096,
        stored_size_bytes: 2048,
        checksum: Some("abc".to_string()),
        is_compressed: true,
    }
}

#[test]
fn normalizes_requested_format() {
    assert_eq!(normalize_format(" EPUB "), "epub");
    assert_eq!(normalize_format("Pdf"), "pdf");
    assert_eq!(normalize_format("ÉPUB"), "Épub");
}

#[test]
fn reference_is_requested_or_lowest_id() {
    let assets = vec![
        asset(5, 1, "reference"),
        asset(3, 1, "reference"),
        asset(7, 1, "copy"),
        asset(1, 2, "reference"),
    ];
    assert_eq!(select_reference(&assets, 1, None), Ok(1));
    assert_eq!(select_reference(&assets, 1, Some(5)), Ok(0));
    assert_eq!(select_reference(&assets, 1, Some(1)), Err(AdoptError::ReferenceNotInFormat));
    assert_eq!(select_reference(&assets, 1, Some(7)), Err(AdoptError::ReferenceNotInFormat));
    assert_eq!(select_reference(&assets, 9, None), Err(AdoptError::NoReferenceAsset));
    assert_eq!(select_managed(&assets, 1), Some(2));
    assert_eq!(select_managed(&assets, 2), None);
}

#[test]
fn equal_ids_pick_the_first_row() {
    let assets = vec![asset(4, 1, "copy"), asset(4, 1, "copy")];
    assert_eq!(select_managed(&assets, 1), Some(0));
}

#[test]
fn adoption_refusals_come_in_order() {
    let assets = vec![asset(1, 1, "reference")];
    assert_eq!(begin_adoption(false, Some(1), &assets, None), Err(AdoptError::BookMissing));
    assert_eq!(begin_adoption(true, None, &assets, None), Err(AdoptError::LogicalFormatMissing));
    assert_eq!(begin_adoption(true, Some(1), &assets, Some(999)), Err(AdoptError::ReferenceNotInFormat));
    assert_eq!(begin_adoption(true, Some(3), &assets, None), Err(AdoptError::NoReferenceAsset));
    assert_eq!(begin_adoption(true, Some(1), &assets, None), Ok(0));
}

#[test]
fn source_file_must_be_regular() {
    let assets = vec![asset(1, 1, "reference")];
    assert_eq!(decide_adoption(&assets, 1, SourceFileStatus::Unavailable), Err(AdoptError::SourceUnavailable));
    assert_eq!(decide_adoption(&assets, 1, SourceFileStatus::NotRegularFile), Err(AdoptError::SourceNotRegularFile));
    assert_eq!(decide_adoption(&assets, 1, SourceFileStatus::RegularFile), Ok(AdoptDecision::AdoptNew));
}

#[test]
fn repeat_adoption_reuses_managed_copy() {
    let mut assets = vec![asset(1, 1, "reference"), asset(2, 2, "reference")];
    let reference = begin_adoption(true, Some(1), &assets, None).unwrap();
    assert_eq!(assets[reference].id, 1);
    assert_eq!(decide_adoption(&assets, 1, SourceFileStatus::RegularFile), Ok(AdoptDecision::AdoptNew));
    let object = ManagedObject {
        stored_path: "/store/new.zst".to_string(),
        logical_size_bytes: 4096,
        stored_size_bytes: 100,
        checksum_sha256: "feed".to_string(),
        is_compressed: true,
        reused_existing: false,
    };
    let first = new_adoption_result(1, normalize_format("EPUB"), 1, 3, object);
    assert!(!first.already_adopted);
    assert!(!first.reused_existing_object);
    assert_eq!(first.format, "epub");
    assets.push(AssetRow {
        id: 3,
        book_format_id: Some(1),
        storage_mode: "copy".to_string(),
        stored_path: first.stored_path.clone(),
        size_bytes: first.logical_size_bytes,
        stored_size_bytes: first.stored_size_bytes,
        checksum: Some(first.checksum_sha256.clone()),
        is_compressed: first.is_compressed,
    });
    let again = begin_adoption(true, Some(1), &assets, None).unwrap();
    assert_eq!(again, reference);
    let decision = decide_adoption(&assets, 1, SourceFileStatus::RegularFile).unwrap();
    assert_eq!(decision, AdoptDecision::ReuseManaged(2));
    let second = result_from_asset(1, normalize_format("epub"), assets[again].id, assets[2].id, &assets[2], true);
    assert!(second.already_adopted);
    assert!(second.reused_existing_object);
    assert_eq!(second.managed_asset_id, first.managed_asset_id);
    assert_eq!(second.source_asset_id, 1);
    assert_eq!(assets.len(), 3);
}

#[test]
fn other_format_rows_do_not_count() {
    let assets = vec![asset(1, 1, "reference"), asset(2, 2, "copy")];
    assert_eq!(decide_adoption(&assets, 1, SourceFileStatus::RegularFile), Ok(AdoptDecision::AdoptNew));
}

#[test]
fn existing_copy_is_checked_against_its_row() {
    let row = asset(2, 1, "copy");
    let good = ManagedFileFacts { is_file: true, stored_size: 2048, logical_size: 4096, checksum: Some("abc".to_string()) };
    assert_eq!(verify_existing_asset(&row, &good), Ok(()));
    let missing = ManagedFileFacts { is_file: false, ..good.clone() };
    assert_eq!(verify_existing_asset(&row, &missing), Err(AdoptError::ManagedUnavailable));
    let stored = ManagedFileFacts { stored_size: 1, ..good.clone() };
    assert_eq!(verify_existing_asset(&row, &stored), Err(AdoptError::ManagedStoredSizeMismatch));
    let logical = ManagedFileFacts { logical_size: 1, ..good.clone() };
    assert_eq!(verify_existing_asset(&row, &logical), Err(AdoptError::ManagedLogicalSizeMismatch));
    let sum = ManagedFileFacts { checksum: Some("not-a-real-checksum".to_string()), ..good.clone() };
    assert_eq!(verify_existing_asset(&row, &sum), Err(AdoptError::ManagedChecksumMismatch));
    let mut unchecked = row.clone();
    unchecked.checksum = None;
    assert_eq!(verify_existing_asset(&unchecked, &sum), Ok(()));
}

#[test]
fn result_of_existing_copy_without_checksum() {
    let mut row = asset(9, 1, "copy");
    row.checksum = None;
    let r = result_from_asset(4, "pdf".to_string(), 8, 9, &row, true);
    assert_eq!(r.checksum_sha256, "");
    assert_eq!(r.stored_path, "/store/9.bin");
    assert_eq!(r.logical_size_bytes, 4096);
    assert_eq!(r.stored_size_bytes, 2048);
    assert!(r.is_compressed);
}

#[test]
fn refusal_messages() {
    assert_eq!(AdoptError::BookMissing.message(), "book does not exist");
    assert_eq!(AdoptError::NoReferenceAsset.message(), "logical format has no reference asset");
    assert_eq!(AdoptError::ManagedChecksumMismatch.message(), "existing managed asset checksum does not match");
}

#[test]
fn timestamps_are_decimal_seconds() {
    assert_eq!(timestamp_text(Some(42)), "42");
    assert_eq!(timestamp_text(None), "0");
    let now = adoption_timestamp();
    assert!(!now.is_empty());
    assert!(now.chars().all(|c| c.is_ascii_digit()));
}

#[test]
fn failed_record_discards_only_new_objects() {
    let mut object = ManagedObject {
        stored_path: "/s".to_string(),
        logical_size_bytes: 1,
        stored_size_bytes: 1,
        checksum_sha256: String::new(),
        is_compressed: false,
        reused_existing: false,
    };
    assert!(discard_after_failed_record(&object));
    object.reused_existing = true;
    assert!(!discard_after_failed_record(&object));
}

fn candidate(book_id: i64, format_id: i64, reference: i64) -> SourceAdoptionCandidate {
    SourceAdoptionCandidate { book_id, book_format_id: format_id, format: "epub".to_string(), reference_asset_id: reference }
}

fn adopted(already: bool, reused: bool) -> AdoptFormatResult {
    AdoptFormatResult {
        book_id: 1,
        format: "epub".to_string(),
        source_asset_id: 1,
        managed_asset_id: 2,
        stored_path: "/s".to_string(),
        logical_size_bytes: 4,
        stored_size_bytes: 3,
        checksum_sha256: String::new(),
        is_compressed: false,
        reused_existing_object: reused,
        already_adopted: already,
    }
}

#[test]
fn bulk_limit_is_capped() {
    assert_eq!(normalize_bulk_limit(usize::MAX), MAX_BULK_ADOPT_FORMATS);
    assert_eq!(normalize_bulk_limit(12), 12);
}

#[test]
fn bulk_defaults_and_limits() {
    let d = SourceBulkAdoptOptions::default();
    assert!(!d.apply);
    assert_eq!(d.max_formats, 25);
    assert_eq!(d.page_size, MAX_BULK_ADOPT_PAGE_SIZE);
    assert_eq!(d.problem_limit, 50);
    let l = SourceBulkAdoptOptions { apply: true, max_formats: 20_000, page_size: 0, problem_limit: 5_000 }.limits();
    assert_eq!(l.max_formats, MAX_BULK_ADOPT_FORMATS);
    assert_eq!(l.page_size, 1);
    assert_eq!(l.problem_limit, MAX_BULK_ADOPT_PROBLEMS);
    let l = SourceBulkAdoptOptions { apply: false, max_formats: 3, page_size: 9_999, problem_limit: 2 }.limits();
    assert_eq!(l.max_formats, 3);
    assert_eq!(l.page_size, MAX_BULK_ADOPT_PAGE_SIZE);
    assert_eq!(l.problem_limit, 2);
}

#[test]
fn bulk_dry_run_selects_without_attempting() {
    let limits = SourceBulkAdoptOptions { page_size: 1, max_formats: 10_000, ..Default::default() }.limits();
    let mut run = SourceBulkAdoptResult::start(7, false, 3, 0);
    assert_eq!(run.next_page_size(limits), Some(1));
    for (i, c) in [candidate(1, 10, 100), candidate(2, 20, 200), candidate(3, 30, 300)].into_iter().enumerate() {
        assert!(run.has_room(limits));
        run.record_candidate(c, None, limits);
        assert_eq!(run.selected, (i + 1) as u64);
        assert_eq!(run.page_progress(), vec![SourceBulkAdoptProgress::PageComplete { selected: run.selected, attempted: 0 }]);
    }
    assert_eq!(run.selected, 3);
    assert_eq!(run.attempted, 0);
    assert_eq!(run.failed, 0);
    assert_eq!(run.cursor(), Some((30, 300)));
    assert_eq!(run.last_book_format_id, Some(30));
    run.record_final_audit(1, 2);
    assert_eq!(run.dependent_formats_after, 3);
    assert_eq!(run.managed_backed_formats_after, 0);
    assert_eq!(run.complete_progress(), SourceBulkAdoptProgress::Complete { selected: 3, attempted: 0, adopted_new: 0, failed: 0 });
}

#[test]
fn bulk_apply_counts_outcomes_and_bounds_problems() {
    let limits = SourceBulkAdoptOptions { apply: true, page_size: 2, ..Default::default() }.limits();
    let mut run = SourceBulkAdoptResult::start(7, true, 3, 0);
    assert_eq!(run.next_page_size(limits), Some(2));
    run.record_candidate(candidate(1, 10, 100), Some(Ok(adopted(false, false))), limits);
    run.record_candidate(candidate(2, 20, 200), Some(Err("reference source file is unavailable".to_string())), limits);
    run.record_candidate(candidate(3, 30, 300), Some(Ok(adopted(false, true))), limits);
    assert_eq!(run.selected, 3);
    assert_eq!(run.attempted, 3);
    assert_eq!(run.adopted_new, 2);
    assert_eq!(run.already_adopted, 0);
    assert_eq!(run.failed, 1);
    assert_eq!(run.reused_existing_objects, 1);
    assert_eq!(run.logical_bytes_adopted, 8);
    assert_eq!(run.stored_bytes_adopted, 6);
    assert_eq!(run.problems.len(), 1);
    assert_eq!(run.problems[0].book_id, 2);
    assert_eq!(run.problems[0].reference_asset_id, 200);
    assert_eq!(run.problems[0].message, "reference source file is unavailable");
    assert_eq!(run.candidates.len(), 3);
    assert_eq!(run.page_progress().len(), 2);
    run.record_final_audit(1, 2);
    assert_eq!(run.dependent_formats_after, 1);
    assert_eq!(run.managed_backed_formats_after, 2);
    assert_eq!(run.dependent_formats_before, 3);
}

#[test]
fn bulk_problem_limit_zero_keeps_no_problems() {
    let limits = SourceBulkAdoptOptions { apply: true, problem_limit: 0, ..Default::default() }.limits();
    let mut run = SourceBulkAdoptResult::start(1, true, 1, 0);
    run.record_candidate(candidate(2, 20, 200), Some(Err("missing".to_string())), limits);
    assert_eq!(run.selected, 1);
    assert_eq!(run.failed, 1);
    assert!(run.problems.is_empty());
}

#[test]
fn bulk_pages_stop_at_the_bound() {
    let limits = SourceBulkAdoptOptions { max_formats: 3, page_size: 2, ..Default::default() }.limits();
    let mut run = SourceBulkAdoptResult::start(1, false, 0, 0);
    run.record_candidate(candidate(1, 1, 1), None, limits);
    run.record_candidate(candidate(2, 2, 2), None, limits);
    assert_eq!(run.next_page_size(limits), Some(1));
    run.record_candidate(candidate(3, 3, 3), None, limits);
    assert_eq!(run.next_page_size(limits), None);
    assert!(!run.has_room(limits));
}

#[test]
fn bulk_run_reports_pages_in_order_and_stops_on_an_empty_page() {
    let options = SourceBulkAdoptOptions { apply: true, max_formats: 10, page_size: 2, problem_limit: 5 };
    let (mut run, started) = BulkRun::begin(9, &options, 4, 1);
    assert_eq!(started, SourceBulkAdoptProgress::SelectionStarted);
    let mut events = vec![started];
    assert_eq!(run.next_page_request(), Some((None, 2)));
    assert!(run.take_page(vec![candidate(1, 10, 100), candidate(2, 20, 200)]));
    let c = run.next_candidate().unwrap();
    assert_eq!(c.book_format_id, 10);
    run.record(c, Some(Ok(adopted(false, false))));
    let c = run.next_candidate().unwrap();
    run.record(c, Some(Err("missing".to_string())));
    assert!(run.next_candidate().is_none());
    events.extend(run.finish_page());
    assert_eq!(run.next_page_request(), Some((Some((20, 200)), 2)));
    assert!(!run.take_page(Vec::new()));
    assert_eq!(run.next_page_request(), None);
    assert!(run.audits_after());
    run.record_final_audit(2, 3);
    let (result, completed) = run.complete();
    events.push(completed);
    assert_eq!(
        events,
        vec![
            SourceBulkAdoptProgress::SelectionStarted,
            SourceBulkAdoptProgress::PageComplete { selected: 2, attempted: 2 },
            SourceBulkAdoptProgress::AdoptionProgress { attempted: 2, adopted_new: 1, failed: 1 },
            SourceBulkAdoptProgress::Complete { selected: 2, attempted: 2, adopted_new: 1, failed: 1 },
        ]
    );
    assert_eq!(result.selected, 2);
    assert_eq!(result.problems.len(), 1);
    assert_eq!(result.dependent_formats_after, 2);
    assert_eq!(result.managed_backed_formats_after, 3);
}

#[test]
fn bulk_dry_run_drops_what_exceeds_the_bound_and_keeps_its_counts() {
    let options = SourceBulkAdoptOptions { apply: false, max_formats: 1, page_size: 5, problem_limit: 5 };
    let (mut run, _) = BulkRun::begin(9, &options, 4, 1);
    assert_eq!(run.next_page_request(), Some((None, 1)));
    assert!(run.take_page(vec![candidate(1, 10, 100), candidate(2, 20, 200)]));
    let c = run.next_candidate().unwrap();
    run.record(c, None);
    assert!(run.next_candidate().is_none());
    assert_eq!(run.finish_page(), vec![SourceBulkAdoptProgress::PageComplete { selected: 1, attempted: 0 }]);
    assert_eq!(run.next_page_request(), None);
    assert!(!run.audits_after());
    run.record_final_audit(0, 0);
    let (result, completed) = run.complete();
    assert_eq!(completed, SourceBulkAdoptProgress::Complete { selected: 1, attempted: 0, adopted_new: 0, failed: 0 });
    assert_eq!(result.dependent_formats_after, 4);
    assert_eq!(result.candidates.len(), 1);
}

#[test]
fn candidate_request_uses_its_reference() {
    let r = adoption_request(&candidate(4, 40, 400));
    assert_eq!(r.book_id, 4);
    assert_eq!(r.format, "epub");
    assert_eq!(r.reference_asset_id, Some(400));
}

#[test]
fn like_patterns_escape_wildcards() {
    assert_eq!(like_escape("50%_off\\"), "50\\%\\_off\\\\");
    assert_eq!(like_escape("plain"), "plain");
    assert_eq!(contains_pattern_of("a_b"), "%a\\_b%");
}

#[test]
fn content_paths_stay_inside_the_library() {
    assert_eq!(
        safe_path("/lib", "Author A/Book One (1)", "Book One - Author A", "PDF").unwrap(),
        "/lib/Author A/Book One (1)/Book One - Author A.pdf"
    );
    assert_eq!(safe_path("/lib/", "A", "n", "epub").unwrap(), "/lib/A/n.epub");
    assert_eq!(safe_path("/lib", "", "n", "epub").unwrap(), "/lib/n.epub");
    assert_eq!(safe_path("/lib", "../outside", "n", "pdf"), Err(CalibreError::UnsafeBookPath));
    assert_eq!(safe_path("/lib", "a/../../x", "n", "pdf"), Err(CalibreError::UnsafeBookPath));
    assert_eq!(safe_path("/lib", "/etc", "n", "pdf"), Err(CalibreError::UnsafeBookPath));
    assert_eq!(safe_path("/lib", "A", "a/b", "pdf"), Err(CalibreError::UnsafeDataName));
    assert_eq!(safe_path("/lib", "A", "a\\b", "pdf"), Err(CalibreError::UnsafeDataName));
    assert_eq!(safe_path("/lib", "A", "..", "pdf"), Err(CalibreError::UnsafeDataName));
    assert_eq!(safe_path("/lib", "A", ".", "pdf"), Err(CalibreError::UnsafeDataName));
    assert_eq!(safe_path("/lib", "A", "", "pdf"), Err(CalibreError::UnsafeDataName));
}

#[test]
fn backend_knows_its_files() {
    let b = CalibreLibraryBackend::at_root("/lib");
    assert_eq!(b.library_root(), "/lib");
    assert_eq!(b.metadata_file(), "/lib/metadata.db");
    let b = CalibreLibraryBackend::at_root("/lib/");
    assert_eq!(b.metadata_file(), "/lib/metadata.db");
}

#[test]
fn sort_and_facet_sql() {
    assert_eq!(sort_expr(LibrarySortField::Id), "b.id");
    assert_eq!(sort_expr(LibrarySortField::Title), "b.title COLLATE NOCASE");
    assert_eq!(sort_expr(LibrarySortField::PubDate), "COALESCE(b.pubdate,'')");
    assert!(facet(LibraryFacetKind::Ratings).starts_with("SELECT a.id,CAST(a.rating AS TEXT)"));
    assert!(facet(LibraryFacetKind::Tags).contains("FROM tags a"));
}

fn text_param(p: &SqlParam) -> String {
    match p {
        SqlParam::Text(t) => t.clone(),
        SqlParam::Integer(n) => format!("int:{n}"),
    }
}

#[test]
fn query_filters_bind_one_parameter_each() {
    let (w, p) = filters(&LibraryQuery::default()).unwrap();
    assert_eq!(w, "1=1");
    assert!(p.is_empty());
    let mut q = LibraryQuery::default();
    q.title = Some("x%".to_string());
    q.format = Some("PDF".to_string());
    let (w, p) = filters(&q).unwrap();
    assert_eq!(
        w,
        "b.title LIKE ? ESCAPE '\\' AND LOWER(COALESCE((SELECT d.format FROM data d WHERE d.book=b.id ORDER BY d.id LIMIT 1),'')) LIKE LOWER(?) ESCAPE '\\'"
    );
    assert_eq!(p.iter().map(text_param).collect::<Vec<_>>(), vec!["%x\\%%".to_string(), "%PDF%".to_string()]);
}

#[test]
fn metadata_filters_and_ratings() {
    let q = LibraryQuery::default().with_metadata_filter(LibraryMetadataFilterField::Tags, LibraryMetadataFilterMode::Include, "FICT");
    let (w, p) = filters(&q).unwrap();
    assert_eq!(w, "EXISTS(SELECT 1 FROM books_tags_link x JOIN tags z ON z.id=x.tag WHERE x.book=b.id AND z.name LIKE ? ESCAPE '\\')");
    assert_eq!(text_param(&p[0]), "%FICT%");
    let q = LibraryQuery::default().with_metadata_filter(LibraryMetadataFilterField::Ratings, LibraryMetadataFilterMode::Exclude, "8");
    let (w, p) = filters(&q).unwrap();
    assert_eq!(w, "NOT EXISTS(SELECT 1 FROM books_ratings_link x JOIN ratings z ON z.id=x.rating WHERE x.book=b.id AND z.rating=?)");
    assert_eq!(text_param(&p[0]), "int:8");
    for bad in ["abc", "11", "-1", " 8"] {
        let q = LibraryQuery::default().with_metadata_filter(LibraryMetadataFilterField::Ratings, LibraryMetadataFilterMode::Include, bad);
        assert_eq!(filters(&q).map(|_| ()), Err(CalibreError::InvalidRatingFilter));
    }
    let q = LibraryQuery::default().with_metadata_filter(LibraryMetadataFilterField::Languages, LibraryMetadataFilterMode::Include, "en");
    let (w, _) = filters(&q).unwrap();
    assert!(w.ends_with("z.lang_code LIKE ? ESCAPE '\\')"));
}

#[test]
fn book_queries_order_and_page() {
    let mut q = LibraryQuery::default();
    q.sort = LibrarySortField::Series;
    q.descending = true;
    q.limit = Some(10);
    q.offset = Some(20);
    let (sql, p) = book_query(&q, true).unwrap();
    assert!(sql.ends_with(" ORDER BY COALESCE((SELECT z.name FROM books_series_link x JOIN series z ON z.id=x.series WHERE x.book=b.id ORDER BY z.name COLLATE NOCASE,z.id LIMIT 1),'') DESC,b.series_index DESC,b.id ASC LIMIT ? OFFSET ?"));
    assert_eq!(p.iter().map(text_param).collect::<Vec<_>>(), vec!["int:10".to_string(), "int:20".to_string()]);
    let (sql, p) = book_query(&q, false).unwrap();
    assert!(sql.ends_with("DESC,b.id ASC"));
    assert!(p.is_empty());
    let mut q = LibraryQuery::default();
    q.offset = Some(5);
    let (sql, _) = book_query(&q, true).unwrap();
    assert!(sql.ends_with(" WHERE 1=1 ORDER BY b.id ASC LIMIT -1 OFFSET ?"));
    let (sql, _) = count_query(&q).unwrap();
    assert_eq!(sql, "SELECT COUNT(*) FROM books b WHERE 1=1");
}

#[test]
fn search_binds_the_pattern_four_times() {
    let (sql, p) = search_query("fiction");
    assert!(sql.ends_with("ORDER BY b.id"));
    assert_eq!(p.len(), 4);
    assert!(p.iter().all(|x| text_param(x) == "%fiction%"));
}

#[test]
fn schema_checks_tables_and_columns() {
    assert_eq!(REQUIRED_TABLE_COUNT, 15);
    assert_eq!(required_table_name(0), "books");
    assert_eq!(check_table_columns(0, &vec![]), Err(CalibreError::MissingTable { table: "books".to_string() }));
    assert_eq!(
        check_table_columns(2, &vec!["id".to_string()]),
        Err(CalibreError::MissingColumn { table: "authors".to_string(), column: "name".to_string() })
    );
    assert_eq!(check_table_columns(2, &vec!["name".to_string(), "id".to_string(), "extra".to_string()]), Ok(()));
    assert_eq!(
        CalibreError::MissingColumn { table: "authors".to_string(), column: "name".to_string() }.message(),
        "incompatible Calibre metadata schema: missing required column authors.name"
    );
    assert_eq!(CalibreError::UnsafeBookPath.message(), "incompatible Calibre metadata schema: unsafe Calibre books.path");
}

#[test]
fn rows_and_content() {
    let b = book_from_row("/lib", 2, "Book Two".to_string(), "azw3".to_string(), "", "Author B/Book Two (2)").unwrap();
    assert_eq!(b.path, "");
    let b = book_from_row("/lib", 1, "Book One".to_string(), "pdf".to_string(), "Book One - Author A", "Author A/Book One (1)").unwrap();
    assert_eq!(b.path, "/lib/Author A/Book One (1)/Book One - Author A.pdf");
    assert_eq!(content_from_primary("/lib", 1, "A", "", "PDF").unwrap().is_none(), true);
    assert_eq!(content_from_primary("/lib", 1, "A", "n", "").unwrap().is_none(), true);
    let c = content_from_primary("/lib", 1, "Author A/Book One (1)", "Book One - Author A", "PDF").unwrap().unwrap();
    assert_eq!(c.format, "pdf");
    assert_eq!(c.book_id, 1);
    assert_eq!(c.storage_mode.as_deref(), Some("reference"));
    assert_eq!(content_from_primary("/lib", 1, "../outside", "n", "PDF").map(|_| ()), Err(CalibreError::UnsafeBookPath));
    let mut q = LibraryQuery::default();
    q.limit = Some(3);
    let page = query_page_of(vec![], 9, &q);
    assert_eq!(page.offset, 0);
    assert_eq!(page.limit, Some(3));
    assert_eq!(page.total, 9);
}

#[test]
fn adoption_steps_ask_in_order_and_report_the_whole_result() {
    use_adoption_steps();
}

fn use_adoption_steps() {
    let assets = vec![asset(5, 1, "reference"), asset(3, 1, "reference"), asset(9, 1, "copy"), asset(7, 2, "copy")];
    let req = caliberate::adopt::AdoptFormatRequest { book_id: 4, format: " EPUB ".to_string(), reference_asset_id: None };
    let mut answers = caliberate::adopt::AdoptionAnswers { source: None, managed: None, written: None };
    match caliberate::adopt::adoption_step(&req, true, Some(1), &assets, answers.clone()) {
        caliberate::adopt::AdoptionStep::InspectSource(i) => assert_eq!(i, 1),
        other => panic!("unexpected {other:?}"),
    }
    answers.source = Some(SourceFileStatus::RegularFile);
    match caliberate::adopt::adoption_step(&req, true, Some(1), &assets, answers.clone()) {
        caliberate::adopt::AdoptionStep::MeasureManaged(i) => assert_eq!(i, 2),
        other => panic!("unexpected {other:?}"),
    }
    answers.managed = Some(ManagedFileFacts { is_file: true, stored_size: 2048, logical_size: 4096, checksum: Some("abc".to_string()) });
    match caliberate::adopt::adoption_step(&req, true, Some(1), &assets, answers.clone()) {
        caliberate::adopt::AdoptionStep::Done(Ok(r)) => {
            assert_eq!((r.book_id, r.format.as_str(), r.source_asset_id, r.managed_asset_id), (4, "epub", 3, 9));
            assert!(r.already_adopted && r.reused_existing_object);
        }
        other => panic!("unexpected {other:?}"),
    }
    answers.managed = Some(ManagedFileFacts { is_file: false, stored_size: 0, logical_size: 0, checksum: None });
    match caliberate::adopt::adoption_step(&req, true, Some(1), &assets, answers.clone()) {
        caliberate::adopt::AdoptionStep::Done(Err(e)) => assert_eq!(e, AdoptError::ManagedUnavailable),
        other => panic!("unexpected {other:?}"),
    }
    let fresh = vec![asset(5, 1, "reference"), asset(3, 1, "reference")];
    let req5 = caliberate::adopt::AdoptFormatRequest { book_id: 4, format: "epub".to_string(), reference_asset_id: Some(5) };
    let mut a2 = caliberate::adopt::AdoptionAnswers { source: Some(SourceFileStatus::RegularFile), managed: None, written: None };
    match caliberate::adopt::adoption_step(&req5, true, Some(1), &fresh, a2.clone()) {
        caliberate::adopt::AdoptionStep::WriteNew(i) => assert_eq!(i, 0),
        other => panic!("unexpected {other:?}"),
    }
    let object = ManagedObject {
        stored_path: "/m/x".to_string(),
        logical_size_bytes: 10,
        stored_size_bytes: 5,
        checksum_sha256: "h".to_string(),
        is_compressed: true,
        reused_existing: false,
    };
    a2.written = Some((object, 11));
    match caliberate::adopt::adoption_step(&req5, true, Some(1), &fresh, a2.clone()) {
        caliberate::adopt::AdoptionStep::Done(Ok(r)) => {
            assert_eq!((r.source_asset_id, r.managed_asset_id, r.stored_path.as_str()), (5, 11, "/m/x"));
            assert!(!r.already_adopted);
        }
        other => panic!("unexpected {other:?}"),
    }
    a2.source = Some(SourceFileStatus::NotRegularFile);
    match caliberate::adopt::adoption_step(&req5, true, Some(1), &fresh, a2) {
        caliberate::adopt::AdoptionStep::Done(Err(e)) => assert_eq!(e, AdoptError::SourceNotRegularFile),
        other => panic!("unexpected {other:?}"),
    }
    match caliberate::adopt::adoption_step(&req5, false, Some(1), &fresh, answers) {
        caliberate::adopt::AdoptionStep::Done(Err(e)) => assert_eq!(e, AdoptError::BookMissing),
        other => panic!("unexpected {other:?}"),
    }
}

#[test]
fn listing_rows_checks_every_path() {
    let row = |id: i64, name: &str, dir: &str| (id, format!("T{id}"), "PDF".to_string(), name.to_string(), dir.to_string());
    let ok = caliberate::calibre::books_from_rows("/lib", &vec![row(1, "a", "A/a (1)"), row(2, "", "B")]).unwrap();
    assert_eq!(ok[0].path, "/lib/A/a (1)/a.pdf");
    assert_eq!(ok[1].path, "");
    assert_eq!(ok[1].title, "T2");
    let bad = caliberate::calibre::books_from_rows("/lib", &vec![row(1, "a", "A"), row(2, "b", "../outside"), row(3, "c/d", "C")]);
    assert_eq!(bad.map(|_| ()), Err(CalibreError::UnsafeBookPath));
}

#[test]
fn bulk_run_counts_each_outcome_in_its_own_counter() {
    let options = SourceBulkAdoptOptions { apply: true, page_size: 2, ..Default::default() };
    let (mut run, _) = BulkRun::begin(5, &options, 3, 0);
    let outcomes = vec![
        Some(Ok(adopted(false, false))),
        Some(Err("reference source file is unavailable".to_string())),
        Some(Ok(adopted(false, true))),
    ];
    let mut outcomes = outcomes.into_iter();
    let pages = vec![vec![candidate(1, 10, 100), candidate(2, 20, 200)], vec![candidate(3, 30, 300)], Vec::new()];
    let mut pages = pages.into_iter();
    while let Some((_, size)) = run.next_page_request() {
        let page = pages.next().unwrap();
        assert!(page.len() <= size);
        if !run.take_page(page) {
            break;
        }
        while let Some(c) = run.next_candidate() {
            run.record(c, outcomes.next().unwrap());
        }
        run.finish_page();
    }
    run.record_final_audit(1, 2);
    let (r, _) = run.complete();
    assert_eq!(r.selected, 3);
    assert_eq!(r.attempted, 3);
    assert_eq!(r.adopted_new, 2);
    assert_eq!(r.failed, 1);
    assert_eq!(r.problems.len(), 1);
    assert_eq!(r.problems[0].book_format_id, 20);
    assert_eq!(r.candidates.len(), 3);
    assert_eq!(r.reused_existing_objects, 1);
}

#[test]
fn bulk_run_restart_with_no_problem_room_counts_the_failure() {
    let options = SourceBulkAdoptOptions { apply: true, problem_limit: 0, ..Default::default() };
    let (mut run, _) = BulkRun::begin(5, &options, 1, 2);
    assert!(run.take_page(vec![candidate(2, 20, 200)]));
    let c = run.next_candidate().unwrap();
    run.record(c, Some(Err("reference source file is unavailable".to_string())));
    run.finish_page();
    assert!(!run.take_page(Vec::new()));
    run.record_final_audit(1, 2);
    let (r, _) = run.complete();
    assert_eq!(r.selected, 1);
    assert_eq!(r.failed, 1);
    assert_eq!(r.dependent_formats_before, 1);
    assert_eq!(r.dependent_formats_after, 1);
    assert!(r.problems.is_empty());
}
