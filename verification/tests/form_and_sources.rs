use caliberate::fields::edit_diff_rows;
use caliberate::fields::normalize_identifier_lines;
use caliberate::fields::{collect_edit_validation_issues, EditText};
use caliberate::adopt::AssetRow;
use caliberate::browser::BrowserSort;
use caliberate::grouping::{sort_browser_entries, visible_browser_entries};
use caliberate::calibre::{book_meta_for, placeholders, BookDates};
use caliberate::fields::{edit_form_from_details, BookDetails};
use caliberate::paths::{choose_asset, is_archive_path, is_supported_path, should_delete_asset};
use caliberate::sources::{active_sources_for_dialog, enabled_sources, first_enabled_source, SourceChoices};

fn strings(v: &[&str]) -> Vec<String> {
    v.iter().map(|s| s.to_string()).collect()
}

fn asset(mode: &str, compressed: bool) -> AssetRow {
    AssetRow {
        id: 1,
        book_format_id: None,
        storage_mode: mode.to_string(),
        stored_path: "/store/a.epub".to_string(),
        size_bytes: 10,
        stored_size_bytes: 10,
        checksum: None,
        is_compressed: compressed,
    }
}

#[test]
fn enabled_sources_follow_configured_order_and_switches() {
    let providers = strings(&["googlebooks", "amazon", "openlibrary"]);
    assert_eq!(enabled_sources(&providers, true, true), strings(&["googlebooks", "openlibrary"]));
    assert_eq!(enabled_sources(&providers, true, false), strings(&["openlibrary"]));
    assert_eq!(enabled_sources(&providers, false, false), Vec::<String>::new());
}

#[test]
fn first_enabled_source_is_the_first_switched_on() {
    let providers = strings(&["openlibrary", "googlebooks"]);
    assert_eq!(first_enabled_source(&providers, false, true), Some("googlebooks".to_string()));
    assert_eq!(first_enabled_source(&providers, true, true), Some("openlibrary".to_string()));
    assert_eq!(first_enabled_source(&providers, false, false), None);
}

#[test]
fn dialog_sources_are_enabled_and_ticked() {
    let providers = strings(&["openlibrary", "googlebooks"]);
    let choices = SourceChoices { openlibrary: false, google: true, amazon: true, isbndb: true };
    assert_eq!(
        active_sources_for_dialog(&providers, true, true, choices),
        strings(&["googlebooks"])
    );
    let none = SourceChoices { openlibrary: false, google: false, amazon: false, isbndb: false };
    assert!(active_sources_for_dialog(&providers, true, true, none).is_empty());
}

fn details() -> BookDetails {
    BookDetails {
        title: "Dune".to_string(),
        authors: strings(&["Frank Herbert", "Brian Herbert"]),
        tags: strings(&["scifi", "classic"]),
        identifiers: vec![
            ("goodreads".to_string(), "234225".to_string()),
            ("ISBN".to_string(), "9780441013593".to_string()),
            ("isbn".to_string(), "0441013597".to_string()),
        ],
        comment: Some("Spice".to_string()),
        author_sort: Some("Herbert, Frank".to_string()),
        series_sort: None,
        series_name: Some("Dune".to_string()),
        publisher: None,
        languages: strings(&["eng"]),
        timestamp: Some("2024-01-02T03:04:05+00:00".to_string()),
        pubdate: Some("1965-08-01".to_string()),
        last_modified: None,
        rating: Some(8),
        uuid: None,
    }
}

#[test]
fn edit_form_joins_lists_and_picks_first_isbn() {
    let form = edit_form_from_details(&details());
    assert_eq!(form.title, "Dune");
    assert_eq!(form.authors, "Frank Herbert, Brian Herbert");
    assert_eq!(form.tags, "scifi, classic");
    assert_eq!(form.identifiers, "goodreads:234225\nISBN:9780441013593\nisbn:0441013597");
    assert_eq!(form.isbn, "9780441013593");
    assert_eq!(form.author_sort, "Herbert, Frank");
    assert_eq!(form.series_sort, "");
    assert_eq!(form.publisher, "");
    assert_eq!(form.languages, "eng");
    assert_eq!((form.pubdate_year, form.pubdate_month, form.pubdate_day), (1965, 8, 1));
    assert_eq!(form.rating, 8);
    assert_eq!(form.uuid, "");
}

#[test]
fn edit_form_defaults_an_unreadable_date() {
    let mut d = details();
    d.pubdate = Some("someday".to_string());
    d.rating = None;
    d.identifiers.clear();
    let form = edit_form_from_details(&d);
    assert_eq!((form.pubdate_year, form.pubdate_month, form.pubdate_day), (2000, 1, 1));
    assert_eq!(form.pubdate, "someday");
    assert_eq!(form.rating, 0);
    assert_eq!(form.isbn, "");
    assert_eq!(form.identifiers, "");
}

#[test]
fn edit_form_reads_rfc3339_dates() {
    let mut d = details();
    d.pubdate = Some("2001-02-03T04:05:06Z".to_string());
    let form = edit_form_from_details(&d);
    assert_eq!((form.pubdate_year, form.pubdate_month, form.pubdate_day), (2001, 2, 3));
}

#[test]
fn book_meta_gathers_rows_of_one_book() {
    let books: Vec<(i64, BookDates)> = vec![
        (1, (Some("a1".to_string()), None, None, false)),
        (2, (Some("a2".to_string()), Some("m2".to_string()), None, true)),
        (2, (Some("later".to_string()), None, Some("p2".to_string()), false)),
    ];
    let authors = vec![(2, "X".to_string()), (1, "Y".to_string()), (2, "Z".to_string())];
    let tags = vec![(1, "t".to_string())];
    let ratings = vec![(2, 6), (2, 8)];
    let publishers = vec![(2, "Ace".to_string())];
    let languages = vec![(2, "eng".to_string())];
    let meta = book_meta_for(2, &books, &authors, &tags, &ratings, &publishers, &languages);
    assert_eq!(meta.authors, strings(&["X", "Z"]));
    assert!(meta.tags.is_empty());
    assert_eq!(meta.rating, Some(6));
    assert_eq!(meta.publisher, Some("Ace".to_string()));
    assert_eq!(meta.languages, strings(&["eng"]));
    assert_eq!(meta.added, Some("later".to_string()));
    assert_eq!(meta.modified, None);
    assert_eq!(meta.pubdate, Some("p2".to_string()));
    assert!(!meta.cover);

    let missing = book_meta_for(9, &books, &authors, &tags, &ratings, &publishers, &languages);
    assert!(missing.authors.is_empty());
    assert_eq!(missing.rating, None);
    assert_eq!(missing.added, None);
    assert!(!missing.cover);
}

#[test]
fn placeholders_list_question_marks() {
    assert_eq!(placeholders(0), "");
    assert_eq!(placeholders(1), "?");
    assert_eq!(placeholders(3), "?,?,?");
}

#[test]
fn reference_assets_keep_their_files_unless_asked() {
    assert!(!should_delete_asset(&asset("Reference", false), false));
    assert!(should_delete_asset(&asset("reference", false), true));
    assert!(should_delete_asset(&asset("copy", false), false));
}

#[test]
fn choose_asset_prefers_uncompressed() {
    assert_eq!(choose_asset(&vec![asset("copy", true), asset("copy", false)]), Some(1));
    assert_eq!(choose_asset(&vec![asset("copy", true), asset("copy", true)]), Some(0));
    assert_eq!(choose_asset(&Vec::new()), None);
}

#[test]
fn supported_paths_go_by_lowercased_extension() {
    let supported = strings(&["epub", "pdf"]);
    let archives = strings(&["zip", "cbz"]);
    assert!(is_supported_path("/books/A.EPUB", &supported, &archives, false));
    assert!(!is_supported_path("/books/a.zip", &supported, &archives, false));
    assert!(is_supported_path("/books/a.zip", &supported, &archives, true));
    assert!(!is_supported_path("/books/README", &supported, &archives, true));
    assert!(is_archive_path("comic.CBZ", &archives));
    assert!(!is_archive_path("book.epub", &archives));
}

fn cat(name: &str, count: u64) -> caliberate::grouping::CategoryCount {
    caliberate::grouping::CategoryCount { name: name.to_string(), count }
}

fn names_counts(v: &[caliberate::grouping::CategoryCount]) -> Vec<(String, u64)> {
    v.iter().map(|c| (c.name.clone(), c.count)).collect()
}

#[test]
fn hierarchical_categories_group_by_root() {
    let rows = vec![cat("b/x", 1), cat("a", 2), cat("b", 3), cat("a/z", 4), cat("a/c", 5)];
    let groups = caliberate::grouping::group_hierarchical_categories(&rows, '/');
    assert_eq!(groups.len(), 2);
    assert_eq!(groups[0].0, "a");
    assert_eq!(
        names_counts(&groups[0].1),
        vec![("a".to_string(), 2), ("a/c".to_string(), 5), ("a/z".to_string(), 4)]
    );
    assert_eq!(groups[1].0, "b");
    assert_eq!(names_counts(&groups[1].1), vec![("b".to_string(), 3), ("b/x".to_string(), 1)]);
}

#[test]
fn hierarchical_categories_keep_equal_names_in_order() {
    let rows = vec![cat("t", 1), cat("s:u", 9), cat("t", 2)];
    let groups = caliberate::grouping::group_hierarchical_categories(&rows, ':');
    assert_eq!(groups.len(), 2);
    assert_eq!(groups[0].0, "s");
    assert_eq!(groups[1].0, "t");
    assert_eq!(names_counts(&groups[1].1), vec![("t".to_string(), 1), ("t".to_string(), 2)]);
    assert!(caliberate::grouping::group_hierarchical_categories(&Vec::new(), '/').is_empty());
}

#[test]
fn saved_search_groups_are_sorted_by_folder_and_name() {
    let pair = |a: &str, b: &str| (a.to_string(), b.to_string());
    let folders = vec![
        ("work".to_string(), vec![pair("z", "q1"), pair("a", "q2"), pair("a", "q0")]),
        ("home".to_string(), vec![pair("m", "q3")]),
    ];
    let groups = caliberate::grouping::build_saved_search_groups(folders);
    assert_eq!(groups.len(), 2);
    assert_eq!(groups[0].0, "home");
    assert_eq!(groups[0].1, vec![pair("m", "q3")]);
    assert_eq!(groups[1].0, "work");
    assert_eq!(groups[1].1, vec![pair("a", "q2"), pair("a", "q0"), pair("z", "q1")]);
}

#[test]
fn edit_diff_lists_changed_fields_in_form_order() {
    let before = edit_form_from_details(&details());
    let mut after = before.clone();
    after.title = "Dune Messiah".to_string();
    after.rating = 10;
    after.comment = "New".to_string();
    let rows = caliberate::fields::edit_diff_rows(&before, &after, Some(("1".to_string(), "2".to_string())));
    let got: Vec<(String, String, String)> =
        rows.iter().map(|(n, a, b)| (n.to_string(), a.clone(), b.clone())).collect();
    assert_eq!(
        got,
        vec![
            ("title".to_string(), "Dune".to_string(), "Dune Messiah".to_string()),
            ("series_index".to_string(), "1".to_string(), "2".to_string()),
            ("rating".to_string(), "8".to_string(), "10".to_string()),
            ("comment".to_string(), "Spice".to_string(), "New".to_string()),
        ]
    );
    assert!(caliberate::fields::edit_diff_rows(&before, &before, None).is_empty());
}

#[test]
fn browser_entries_sort_and_filter() {
    let items = vec![cat("Tolkien", 3), cat("asimov", 5), cat("Le Guin", 3), cat("Banks", 1)];
    let by_name = sort_browser_entries(&items, BrowserSort::Name, false);
    assert_eq!(
        names_counts(&by_name),
        vec![
            ("Banks".to_string(), 1),
            ("Le Guin".to_string(), 3),
            ("Tolkien".to_string(), 3),
            ("asimov".to_string(), 5),
        ]
    );
    let by_count = sort_browser_entries(&items, BrowserSort::Count, false);
    assert_eq!(
        names_counts(&by_count),
        vec![
            ("Banks".to_string(), 1),
            ("Tolkien".to_string(), 3),
            ("Le Guin".to_string(), 3),
            ("asimov".to_string(), 5),
        ]
    );
    let by_count_desc = sort_browser_entries(&items, BrowserSort::Count, true);
    assert_eq!(
        names_counts(&by_count_desc),
        vec![
            ("asimov".to_string(), 5),
            ("Le Guin".to_string(), 3),
            ("Tolkien".to_string(), 3),
            ("Banks".to_string(), 1),
        ]
    );
    let shown = visible_browser_entries(&by_name, "  GUIN ");
    assert_eq!(names_counts(&shown), vec![("Le Guin".to_string(), 3)]);
    assert_eq!(visible_browser_entries(&by_name, "   ").len(), 4);
}

#[test]
fn save_to_disk_exports_all_or_the_reading_asset() {
    let assets = vec![asset("copy", true), asset("copy", false), asset("copy", false)];
    assert_eq!(caliberate::paths::assets_to_export(&assets, true), vec![0, 1, 2]);
    assert_eq!(caliberate::paths::assets_to_export(&assets, false), vec![1]);
    assert!(caliberate::paths::assets_to_export(&Vec::new(), false).is_empty());
    let (name, details) = caliberate::jobs::save_to_disk_job(2, 3, 1, "{title}", "rename", "/out");
    assert_eq!(name, "Save to disk 2 books");
    let pair = |a: &str, b: &str| (a.to_string(), b.to_string());
    assert_eq!(
        details,
        vec![
            pair("books_selected", "2"),
            pair("files_exported", "3"),
            pair("files_skipped", "1"),
            pair("template", "{title}"),
            pair("conflict_policy", "rename"),
            pair("output_dir", "/out"),
        ]
    );
}

#[test]
fn book_rows_join_details() {
    let meta = caliberate::calibre::BookMeta {
        authors: strings(&["A", "B"]),
        tags: strings(&["x"]),
        rating: Some(8),
        publisher: None,
        languages: strings(&["eng", "fra"]),
        cover: true,
        added: Some("2024-01-01".to_string()),
        modified: None,
        pubdate: Some("1965".to_string()),
    };
    let row = caliberate::books::build_row(3, "Dune", "EPUB", "Dune (3)", Some(&meta), "Dune (1)".to_string());
    assert_eq!(row.authors, "A, B");
    assert_eq!(row.tags, "x");
    assert_eq!(row.series, "Dune (1)");
    assert_eq!(row.rating, "8");
    assert_eq!(row.publisher, "");
    assert_eq!(row.languages, "eng, fra");
    assert!(row.has_cover);
    assert_eq!(row.date_added, "2024-01-01");
    assert_eq!(row.pubdate, "1965");
    let bare = caliberate::books::build_row(4, "T", "PDF", "p", None, "ignored".to_string());
    assert_eq!((bare.authors.as_str(), bare.series.as_str(), bare.has_cover), ("", "", false));
}

#[test]
fn stats_export_as_csv() {
    let stats = caliberate::stats::LibraryStatsSummary {
        formats: vec![("EPUB".to_string(), 2)],
        format_sizes: vec![("EPUB".to_string(), 2048)],
        languages: Vec::new(),
        tags: vec![("a,b".to_string(), 1)],
        authors: Vec::new(),
        series: Vec::new(),
    };
    assert_eq!(
        caliberate::stats::stats_csv_text(&stats),
        "kind,name,count\nformat,EPUB,2\ntag,\"a,b\",1\nformat_size_bytes,EPUB,2048"
    );
}

#[test]
fn pubdate_is_composed_zero_padded() {
    use_compose(1965, 8, 1, "1965-08-01");
    use_compose(5, 12, 31, "0005-12-31");
    use_compose(-5, 1, 1, "-005-01-01");
    use_compose(12345, 10, 9, "12345-10-09");
}

fn use_compose(y: i32, m: u8, d: u8, want: &str) {
    assert_eq!(caliberate::fields::compose_pubdate(y, m, d), want);
    assert_eq!(format!("{:04}-{:02}-{:02}", y, m, d), want);
}

fn form() -> caliberate::fields::EditForm {
    caliberate::fields::EditForm {
        title: "T".to_string(),
        authors: " Ann , bob,ann,, ".to_string(),
        tags: "x, X ,y".to_string(),
        author_sort: "Ann".to_string(),
        series_sort: String::new(),
        series_name: String::new(),
        identifiers: "isbn:1".to_string(),
        isbn: String::new(),
        comment: String::new(),
        publisher: "  Pub  ".to_string(),
        imprint: " Imp".to_string(),
        edition: "2nd ".to_string(),
        rights: "\tCC\n".to_string(),
        languages: "EN, fr, en".to_string(),
        timestamp: "garbage".to_string(),
        pubdate: "2020-01-02".to_string(),
        pubdate_year: 2020,
        pubdate_month: 1,
        pubdate_day: 2,
        last_modified: "later".to_string(),
        rating: 4,
        uuid: String::new(),
    }
}

#[test]
fn normalize_fields_tidies_lists_and_trims_text() {
    let mut f = form();
    f.normalize_fields();
    assert_eq!(f.authors, "Ann, bob");
    assert_eq!(f.tags, "x, y");
    assert_eq!(f.languages, "en, fr");
    assert_eq!(f.identifiers, normalize_identifier_lines("isbn:1"));
    assert_eq!(f.publisher, "Pub");
    assert_eq!(f.imprint, "Imp");
    assert_eq!(f.edition, "2nd");
    assert_eq!(f.rights, "CC");
    assert_eq!(f.timestamp, "garbage");
    assert_eq!(f.title, "T");
}

#[test]
fn fix_conflicts_replaces_what_does_not_read() {
    let mut f = form();
    f.fix_conflicts("2024-05-06", Some("2024-05-06T07:08:09Z".to_string()), "67e55044-10b1-426f-9247-bb680e5fe0c8");
    assert_eq!(f.pubdate, "2020-01-02");
    assert_eq!(f.timestamp, "2024-05-06");
    assert_eq!(f.last_modified, "2024-05-06T07:08:09Z");
    assert_eq!(f.uuid, "67e55044-10b1-426f-9247-bb680e5fe0c8");
    assert_eq!(f.authors, " Ann , bob,ann,, ");
    let mut g = form();
    g.uuid = " {67E55044-10B1-426F-9247-BB680E5FE0C8} ".to_string();
    g.fix_conflicts("2024-05-06", None, "fresh");
    assert_eq!(g.last_modified, "2024-05-06");
    assert_eq!(g.uuid, " {67E55044-10B1-426F-9247-BB680E5FE0C8} ");
}

#[test]
fn uuid_forms_are_checked_by_validation() {
    let text = |uuid: &str| EditText {
        title: "T".to_string(),
        authors: String::new(),
        tags: String::new(),
        languages: String::new(),
        identifiers: String::new(),
        uuid: uuid.to_string(),
        pubdate: String::new(),
        timestamp: String::new(),
        last_modified: String::new(),
    };
    let bad = "uuid must be a valid UUID".to_string();
    for ok in [
        "67e5504410b1426f9247bb680e5fe0c8",
        "67e55044-10b1-426f-9247-bb680e5fe0c8",
        "{67e55044-10b1-426f-9247-bb680e5fe0c8}",
        "URN:uuid:67e55044-10b1-426f-9247-bb680e5fe0c8",
        "",
    ] {
        assert!(!collect_edit_validation_issues(&text(ok)).contains(&bad), "{ok}");
    }
    for wrong in ["67e55044-10b1-426f-9247", "67e55044x10b1-426f-9247-bb680e5fe0c8", "g7e5504410b1426f9247bb680e5fe0c8"] {
        assert_eq!(collect_edit_validation_issues(&text(wrong)), vec![bad.clone()], "{wrong}");
    }
}

#[test]
fn edit_diff_lists_exactly_the_changed_fields() {
    let e = form();
    assert!(edit_diff_rows(&e, &e, None).is_empty());
    let mut f = form();
    f.title = "New".to_string();
    assert_eq!(edit_diff_rows(&e, &f, None), vec![("title", "T".to_string(), "New".to_string())]);
}
