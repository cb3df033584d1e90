use caliberate::reader::library_search_results;
use caliberate::reader::{page_chars_for_fit, ReaderFitMode};
use caliberate::display::full_saved_search_name;
use caliberate::books::{sort_rows, BookRow};
use caliberate::browser::{
    cycle_browser_filter, decode_filter_entry, encode_filter_entry, hierarchical_category_label,
    BrowserCategory, BrowserFilter, BrowserFilterMode,
};
use caliberate::columns::{
    decode_column_order, default_column_order, parse_pane_side, parse_sort_direction,
    parse_sort_mode, ColumnKey, ColumnVisibility, GroupMode, PaneSide, SortDirection, SortMode,
    ViewMode,
};
use caliberate::display::{
    append_size_stat_lines, append_stat_lines, escape_csv_cell, format_badge_text,
    format_date_cell, format_half_star_rating, identifier_line_counts, language_badge_text,
    parse_rating_value, record_search_history, split_saved_search_name, strip_html_tags, JobKind,
    JobStatus, MetadataQueueStatus,
};
use caliberate::fields::{
    cleanup_identifier_lines, derive_title_sort, duplicate_csv_hint, language_hint,
    normalize_csv_list,
};
use caliberate::paths::{
    asset_format, build_output_from_template, build_output_name, build_output_path,
    conflict_action, is_image_path, output_dir_or_default, renamed_export_path,
    sanitize_filename, ConflictAction, RENAME_ATTEMPTS,
};
use caliberate::presets::{
    decode_column_layout, decode_sort_preset, decode_sort_presets, decode_virtual_library_filters,
    encode_column_layout, encode_sort_preset, encode_sort_presets, encode_virtual_library_filters,
    scoped_column_preset_name, visible_column_preset_names, ColumnPresetScope,
    SaveToDiskDialogState, SortPreset,
};
use caliberate::reader::{paginate_text, ReaderState, ReaderTheme};
use caliberate::stats::{amount_fits, compute_library_stats, sort_count_map, sort_size_map, StatsAsset};

fn strings(v: &[&str]) -> Vec<String> {
    v.iter().map(|s| s.to_string()).collect()
}

#[test]
fn sort_presets_are_stored_as_text() {
    let p = SortPreset { primary: SortMode::Title, secondary: Some(SortMode::Authors), direction: SortDirection::Desc };
    assert_eq!(encode_sort_preset(&p), "title|authors|desc");
    assert_eq!(decode_sort_preset("title|authors|desc"), Some(p));
    let q = SortPreset { primary: SortMode::DateAdded, secondary: None, direction: SortDirection::Asc };
    assert_eq!(encode_sort_preset(&q), "date_added|none|asc");
    assert_eq!(decode_sort_preset("date_added|none|asc"), Some(q));
    assert_eq!(decode_sort_preset("title|bogus|asc"), None);
    assert_eq!(decode_sort_preset("title|authors"), None);
    assert_eq!(decode_sort_preset("title|authors|asc|x"), None);
    assert_eq!(decode_sort_preset("bogus|none|asc"), None);
    let stored = encode_sort_presets(&vec![("A".to_string(), p), ("B".to_string(), q)]);
    assert_eq!(stored, vec![("A".to_string(), "title|authors|desc".to_string()), ("B".to_string(), "date_added|none|asc".to_string())]);
    let mut stored = stored;
    stored.push(("C".to_string(), "nonsense".to_string()));
    let back = decode_sort_presets(&stored);
    assert_eq!(back, vec![("A".to_string(), p), ("B".to_string(), q)]);
}

#[test]
fn virtual_libraries_round_trip() {
    let filters = vec![
        BrowserFilter { category: BrowserCategory::Tags, value: "sci|fi".to_string(), mode: BrowserFilterMode::Include },
        BrowserFilter { category: BrowserCategory::Authors, value: "Le Guin".to_string(), mode: BrowserFilterMode::Exclude },
    ];
    let stored = encode_virtual_library_filters(&vec![("Space".to_string(), filters)]);
    assert_eq!(stored[0].0, "Space");
    assert_eq!(stored[0].1, strings(&["tags|include|sci\\|fi", "authors|exclude|Le Guin"]));
    let mut entries = stored.clone();
    entries[0].1.push("bogus".to_string());
    let back = decode_virtual_library_filters(&entries);
    assert_eq!(back[0].0, "Space");
    assert_eq!(back[0].1.len(), 2);
    assert_eq!(back[0].1[0].value, "sci|fi");
    assert_eq!(back[0].1[1].mode, BrowserFilterMode::Exclude);
}

#[test]
fn column_layout_round_trip() {
    let order = vec![ColumnKey::Title, ColumnKey::Authors];
    let mut vis = ColumnVisibility::all_visible();
    vis.set_column_visible(ColumnKey::Cover, false);
    let entries = encode_column_layout(&order, &vis);
    assert_eq!(entries[0], "order=title,authors");
    assert_eq!(entries[1], "visible=title,authors,series,tags,formats,rating,publisher,languages,date_added,date_modified,pubdate");
    let mut stored = entries.clone();
    stored.push("widths=title:240.0;cover:72.0".to_string());
    let back = decode_column_layout(&stored);
    assert_eq!(back.order, order);
    assert_eq!(back.visibility, vis);
}

#[test]
fn column_layout_reading_rules() {
    let back = decode_column_layout(&strings(&["order=bogus", "visible= title , tags ,"]));
    assert_eq!(back.order, default_column_order());
    assert!(back.visibility.column_visible(ColumnKey::Title));
    assert!(back.visibility.column_visible(ColumnKey::Tags));
    assert!(!back.visibility.column_visible(ColumnKey::Cover));
    let none = decode_column_layout(&strings(&["visible="]));
    assert!(!none.visibility.column_visible(ColumnKey::Title));
    let empty = decode_column_layout(&vec![]);
    assert_eq!(empty.visibility, ColumnVisibility::all_visible());
}

#[test]
fn column_preset_names() {
    assert_eq!(scoped_column_preset_name(ColumnPresetScope::CurrentView, ViewMode::Grid, " mine "), "grid/mine");
    assert_eq!(scoped_column_preset_name(ColumnPresetScope::Global, ViewMode::Grid, "mine"), "all/mine");
    let names = strings(&["table/a", "grid/b", "all/c", "plain", "table/0"]);
    assert_eq!(visible_column_preset_names(&names, ViewMode::Table), strings(&["all/c", "plain", "table/0", "table/a"]));
    assert_eq!(visible_column_preset_names(&names, ViewMode::Grid), strings(&["all/c", "grid/b", "plain"]));
}

#[test]
fn save_to_disk_presets_read_back() {
    let mut d = SaveToDiskDialogState::default();
    assert_eq!(d.path_template, "{title}-{id}.{format}");
    assert_eq!(d.conflict_policy, "rename");
    assert!(d.export_all_formats);
    d.path_template = "{authors}/{title}".to_string();
    d.conflict_policy = "skip".to_string();
    d.export_all_formats = false;
    d.save_preset("  Mine ");
    d.save_preset("   ");
    d.path_template = "x".to_string();
    d.conflict_policy = "overwrite".to_string();
    d.export_all_formats = true;
    assert!(!d.load_preset("missing"));
    assert_eq!(d.path_template, "x");
    assert!(d.load_preset("Mine"));
    assert_eq!(d.path_template, "{authors}/{title}");
    assert_eq!(d.conflict_policy, "skip");
    assert!(!d.export_all_formats);
    d.path_template = "y".to_string();
    d.save_preset("Mine");
    d.path_template = "z".to_string();
    assert!(d.load_preset("Mine"));
    assert_eq!(d.path_template, "y");
    assert_eq!(d.presets.len(), 1);
}

#[test]
fn half_star_ratings() {
    assert_eq!(format_half_star_rating(7), "3.5");
    assert_eq!(format_half_star_rating(8), "4");
    assert_eq!(format_half_star_rating(0), "0");
    assert_eq!(format_half_star_rating(-3), "-1.5");
    assert_eq!(format_half_star_rating(-1), "0.5");
}

#[test]
fn search_history_keeps_recent_unique_queries() {
    let mut h = strings(&["dune", "Foundation", "hyperion"]);
    record_search_history(&mut h, 3, "  FOUNDATION ");
    assert_eq!(h, strings(&["FOUNDATION", "dune", "hyperion"]));
    record_search_history(&mut h, 3, "ubik");
    assert_eq!(h, strings(&["ubik", "FOUNDATION", "dune"]));
    record_search_history(&mut h, 3, "   ");
    assert_eq!(h.len(), 3);
    record_search_history(&mut h, 0, "x");
    assert_eq!(h[0], "ubik");
    record_search_history(&mut h, 1, "x");
    assert_eq!(h, strings(&["x"]));
}

#[test]
fn saved_search_folders() {
    assert_eq!(split_saved_search_name("Folder/Leaf"), ("Folder".to_string(), "Leaf".to_string()));
    assert_eq!(split_saved_search_name("a/b/c"), ("a/b".to_string(), "c".to_string()));
    assert_eq!(split_saved_search_name("/Leaf"), ("Ungrouped".to_string(), "/Leaf".to_string()));
    assert_eq!(split_saved_search_name("Folder/ "), ("Ungrouped".to_string(), "Folder/ ".to_string()));
    assert_eq!(split_saved_search_name("plain"), ("Ungrouped".to_string(), "plain".to_string()));
}

#[test]
fn csv_cells_and_stat_lines() {
    assert_eq!(escape_csv_cell("plain"), "plain");
    assert_eq!(escape_csv_cell("a,b"), "\"a,b\"");
    assert_eq!(escape_csv_cell("say \"hi\""), "\"say \"\"hi\"\"\"");
    let mut lines = strings(&["kind,name,value"]);
    append_stat_lines(&mut lines, "tag", &vec![("sci,fi".to_string(), 3), ("drama".to_string(), 1)]);
    append_size_stat_lines(&mut lines, "format_size", &vec![("epub".to_string(), 4096)]);
    assert_eq!(lines, strings(&["kind,name,value", "tag,\"sci,fi\",3", "tag,drama,1", "format_size,epub,4096"]));
}

#[test]
fn badges_ratings_and_dates() {
    assert_eq!(parse_rating_value(" 8 "), 8);
    assert_eq!(parse_rating_value("x"), 0);
    assert_eq!(parse_rating_value("-2"), -2);
    assert_eq!(format_badge_text(" epub "), "[EPUB]");
    assert_eq!(language_badge_text("en, fr,,"), "[EN] [FR]");
    assert_eq!(language_badge_text(" , "), "");
    assert_eq!(format_date_cell("2024-01-02T10:00:00"), "2024-01-02");
    assert_eq!(format_date_cell(" 2024-01-02 "), "2024-01-02");
    assert_eq!(format_date_cell("   "), "-");
}

#[test]
fn html_comments_become_plain_text() {
    assert_eq!(strip_html_tags("<p>A &amp; B</p>"), "A & B");
    assert_eq!(strip_html_tags("<b>1 &lt; 2</b> &quot;q&quot; &#39;s&#39;"), "1 < 2 \"q\" 's'");
    assert_eq!(strip_html_tags("&amp;lt;"), "<");
    assert_eq!(strip_html_tags("a > b"), "a  b");
}

#[test]
fn status_labels() {
    assert_eq!(MetadataQueueStatus::Pending.label(), "pending");
    assert_eq!(MetadataQueueStatus::Failed.label(), "failed");
    assert_eq!(JobKind::SaveToDisk.label(), "Save to disk");
    assert_eq!(JobStatus::Cancelled.label(), "Cancelled");
    assert_eq!(ReaderTheme::from_config("dark"), ReaderTheme::Dark);
    assert_eq!(ReaderTheme::from_config("sepia").label(), "Sepia");
    assert_eq!(ReaderTheme::from_config("Dark"), ReaderTheme::Light);
}

#[test]
fn identifier_lines_are_counted() {
    assert_eq!(identifier_line_counts("isbn:1\nbad\n\n  \ngoogle:x\r\n"), (2, 1));
    assert_eq!(identifier_line_counts(""), (0, 0));
}

#[test]
fn export_names_and_paths() {
    assert_eq!(sanitize_filename(" My Book! "), "My_Book_");
    assert_eq!(sanitize_filename("   "), "untitled");
    assert_eq!(build_output_name("My Book", 7, "epub"), "My_Book_7.epub");
    assert_eq!(build_output_path("/out", "My Book", 7, "epub"), "/out/My_Book_7.epub");
    assert_eq!(
        build_output_from_template("/out", "{authors}/{title}-{id}.{format}", "My Book", 7, "ep ub", "Jane Doe"),
        "/out/Jane_Doe/My_Book-7.ep_ub"
    );
    assert_eq!(output_dir_or_default("  ", "/fallback"), "/fallback");
    assert_eq!(output_dir_or_default(" /x ", "/fallback"), "/x");
}

#[test]
fn image_paths_and_asset_formats() {
    assert!(is_image_path("covers/cover.PNG"));
    assert!(is_image_path("a.jpeg"));
    assert!(!is_image_path("a.txt"));
    assert!(!is_image_path("noext"));
    assert!(!is_image_path(".png"));
    assert_eq!(asset_format(&Some("in/book.EPUB".to_string()), "s/1.zst", "pdf"), "epub");
    assert_eq!(asset_format(&None, "s/1.zst", "pdf"), "pdf");
    assert_eq!(asset_format(&None, "s/1.mobi", "pdf"), "mobi");
    assert_eq!(asset_format(&Some("in/noext".to_string()), "s/2", "unknown"), "unknown");
}

#[test]
fn export_conflicts() {
    assert_eq!(conflict_action("skip"), ConflictAction::Skip);
    assert_eq!(conflict_action("rename"), ConflictAction::Rename);
    assert_eq!(conflict_action("overwrite"), ConflictAction::Overwrite);
    assert_eq!(conflict_action("whatever"), ConflictAction::Overwrite);
    assert_eq!(renamed_export_path("/out/book.epub", 3), "/out/book-3.epub");
    assert_eq!(renamed_export_path("/out/README", 12), "/out/README-12");
    assert_eq!(renamed_export_path("book.epub", 1), "book-1.epub");
    assert_eq!(RENAME_ATTEMPTS, 9999);
}

#[test]
fn stats_are_listed_largest_first() {
    let counts = sort_count_map(vec![("b".to_string(), 2), ("a".to_string(), 2), ("c".to_string(), 5)]);
    assert_eq!(counts, vec![("c".to_string(), 5), ("a".to_string(), 2), ("b".to_string(), 2)]);
    let sizes = sort_size_map(vec![("pdf".to_string(), 10), ("epub".to_string(), 4096)]);
    assert_eq!(sizes, vec![("epub".to_string(), 4096), ("pdf".to_string(), 10)]);
    assert!(sort_count_map(vec![]).is_empty());
}

#[test]
fn pagination_keeps_the_text() {
    assert_eq!(paginate_text("abcdef", 4), strings(&["abcd", "ef"]));
    assert_eq!(paginate_text("abcd", 4), strings(&["abcd"]));
    assert_eq!(paginate_text("", 4), strings(&[""]));
    assert_eq!(paginate_text("abc", 0), strings(&["abc"]));
    let text = "héllo wörld, lorem ipsum";
    let pages = paginate_text(text, 5);
    assert_eq!(pages.concat(), text);
    assert!(pages.iter().all(|p| p.chars().count() <= 5));
}

#[test]
fn reader_navigation_and_search() {
    let mut r = ReaderState::new(8, ReaderTheme::Light);
    r.open_virtual_text(42, "Book", "# Intro\nhello world");
    assert!(r.open);
    assert_eq!(r.page_count(), 3);
    assert_eq!(r.toc.len(), 1);
    assert_eq!(r.toc[0].title, "Intro");
    assert_eq!(r.recent.len(), 1);
    r.next_page();
    assert_eq!(r.page, 1);
    assert_eq!(r.recent[0].page, 1);
    r.next_chapter();
    assert_eq!(r.page, 2);
    r.next_page();
    assert_eq!(r.page, 2);
    r.prev_chapter();
    assert_eq!(r.page, 0);
    r.prev_page();
    assert_eq!(r.page, 0);
    r.go_to_page(2);
    assert_eq!(r.page, 1);
    r.go_to_page(99);
    assert_eq!(r.page, 2);
    r.jump_to(7, 0);
    assert_eq!(r.page, 2);
    r.jump_to(42, 0);
    assert_eq!(r.page, 0);
    r.search_query = "  HELLO ".to_string();
    r.find_next();
    assert_eq!(r.page, 1);
    assert_eq!(r.last_match, Some(2));
    assert_eq!(r.search_results.len(), 1);
    assert_eq!(r.search_results[0].label, "Page 2: hello wo");
    assert_eq!(r.search_result_cursor, Some(0));
    r.find_next();
    assert_eq!(r.last_match, Some(0));
    assert_eq!(r.search_result_cursor, None);
    assert_eq!(r.page, 1);
    r.search_query = " ".to_string();
    r.find_next();
    assert!(r.search_results.is_empty());
    assert_eq!(r.last_match, None);
}

#[test]
fn reader_marks_and_repagination() {
    let mut r = ReaderState::new(8, ReaderTheme::Light);
    r.open_virtual_text(1, "Book", "# Intro\nhello world");
    r.next_page();
    r.add_bookmark();
    assert_eq!(r.bookmarks[0].title, "Page 2");
    assert_eq!(r.bookmarks[0].page, 1);
    r.remove_bookmark(5);
    assert_eq!(r.bookmarks.len(), 1);
    r.remove_bookmark(0);
    assert!(r.bookmarks.is_empty());
    r.selected_text = "  hi ".to_string();
    r.highlight_note = " n ".to_string();
    r.add_annotation();
    assert_eq!(r.annotations[0].text, "hi");
    assert_eq!(r.annotations[0].note, "n");
    assert_eq!(r.highlight_note, "");
    r.selected_text = "  ".to_string();
    r.add_annotation();
    assert_eq!(r.annotations.len(), 1);
    r.go_to_page(3);
    r.update_page_chars(100);
    assert_eq!(r.page_count(), 1);
    assert_eq!(r.page, 0);
    assert_eq!(r.toc[0].title, "Intro");
    r.close();
    assert_eq!(r.page_count(), 0);
    assert!(r.toc.is_empty());
    assert_eq!(r.book_id, None);
}

#[test]
fn reader_contents_without_headings_start_at_the_beginning() {
    let mut r = ReaderState::new(0, ReaderTheme::Sepia);
    r.open_virtual_text(3, "Plain", "no headings\n  #  Late heading");
    assert_eq!(r.toc.len(), 1);
    assert_eq!(r.toc[0].title, "#  Late heading");
    r.open_virtual_text(4, "Plain", "nothing here");
    assert_eq!(r.toc[0].title, "Start");
    assert_eq!(r.toc[0].page, 0);
}

#[test]
fn recent_books_are_bounded_and_unique() {
    let mut r = ReaderState::new(10, ReaderTheme::Light);
    for id in 0..12 {
        r.push_recent(id, "t", 0);
    }
    r.push_recent(5, "again", 3);
    assert_eq!(r.recent.len(), 10);
    assert_eq!(r.recent[0].book_id, 5);
    assert_eq!(r.recent[0].page, 3);
    assert_eq!(r.recent.iter().filter(|e| e.book_id == 5).count(), 1);
}

#[test]
fn title_sort_and_field_hints() {
    assert_eq!(derive_title_sort("The Hobbit"), "Hobbit, The");
    assert_eq!(derive_title_sort("  An   Example "), "Example, An");
    assert_eq!(derive_title_sort("A"), "A");
    assert_eq!(derive_title_sort("Dune"), "Dune");
    assert_eq!(language_hint("en, fra"), None);
    assert_eq!(language_hint("en, english"), Some("Language tokens should be 2-3 chars: english".to_string()));
    assert_eq!(duplicate_csv_hint("Tags", "a, B, b, a"), Some("Tags contains duplicates: a, b".to_string()));
    assert_eq!(duplicate_csv_hint("Tags", "a, b"), None);
    assert_eq!(normalize_csv_list(" Sci-Fi, sci-fi ,Drama,", false), "Sci-Fi, Drama");
    assert_eq!(normalize_csv_list("Sci-Fi, DRAMA", true), "sci-fi, drama");
    assert_eq!(cleanup_identifier_lines("isbn:1\nISBN:1\nbad\n google:x "), "isbn:1\ngoogle:x");
}

#[test]
fn browser_filters_cycle_and_round_trip() {
    let mut fs: Vec<BrowserFilter> = Vec::new();
    cycle_browser_filter(&mut fs, BrowserCategory::Tags, "fiction");
    assert_eq!(fs[0].mode, BrowserFilterMode::Include);
    cycle_browser_filter(&mut fs, BrowserCategory::Tags, "fiction");
    assert_eq!(fs[0].mode, BrowserFilterMode::Exclude);
    cycle_browser_filter(&mut fs, BrowserCategory::Tags, "fiction");
    assert!(fs.is_empty());
    let f = BrowserFilter { category: BrowserCategory::Series, value: "a|b".to_string(), mode: BrowserFilterMode::Exclude };
    let e = encode_filter_entry(&f);
    assert_eq!(e, "series|exclude|a\\|b");
    let back = decode_filter_entry(&e).unwrap();
    assert_eq!(back.value, "a|b");
    assert_eq!(back.category, BrowserCategory::Series);
    assert_eq!(hierarchical_category_label(BrowserCategory::Tags, "a/b/c"), "    a/b/c");
    assert_eq!(hierarchical_category_label(BrowserCategory::Authors, "a/b"), "a/b");
}

#[test]
fn column_and_sort_settings() {
    assert_eq!(parse_sort_mode("date_added"), Some(SortMode::DateAdded));
    assert_eq!(parse_sort_mode("Title"), None);
    assert_eq!(parse_sort_direction("desc"), Some(SortDirection::Desc));
    assert_eq!(parse_pane_side("right"), PaneSide::Right);
    assert_eq!(parse_pane_side("middle"), PaneSide::Left);
    let order = decode_column_order(&strings(&["authors", "bogus", "title"]));
    assert_eq!(order.len(), 12);
    assert_eq!(order[0], ColumnKey::Authors);
    assert_eq!(order[1], ColumnKey::Title);
    assert_eq!(order[2], ColumnKey::Cover);
}

fn row(id: i64, title: &str, series: &str) -> BookRow {
    BookRow {
        id,
        title: title.to_string(),
        format: "epub".to_string(),
        path: String::new(),
        authors: "Author".to_string(),
        tags: String::new(),
        series: series.to_string(),
        rating: String::new(),
        publisher: String::new(),
        languages: String::new(),
        has_cover: false,
        date_added: String::new(),
        date_modified: String::new(),
        pubdate: String::new(),
    }
}

#[test]
fn book_list_sorting() {
    let books = vec![row(1, "beta", "S"), row(2, "Alpha", "S"), row(3, "gamma", "")];
    let asc = sort_rows(&books, GroupMode::Flat, SortMode::Title, None, SortDirection::Asc);
    assert_eq!(asc.iter().map(|b| b.id).collect::<Vec<_>>(), vec![2, 1, 3]);
    let desc = sort_rows(&books, GroupMode::Flat, SortMode::Title, None, SortDirection::Desc);
    assert_eq!(desc.iter().map(|b| b.id).collect::<Vec<_>>(), vec![3, 1, 2]);
}

fn stat_row(id: i64, format: &str, languages: &str, tags: &str, authors: &str, series: &str) -> BookRow {
    let mut r = row(id, "t", series);
    r.format = format.to_string();
    r.languages = languages.to_string();
    r.tags = tags.to_string();
    r.authors = authors.to_string();
    r
}

#[test]
fn library_statistics() {
    let rows = vec![stat_row(1, "epub", "en, fr", "sf", "A, B", "S"), stat_row(2, "pdf", "en", "sf, drama", "A", " ")];
    let assets = vec![
        StatsAsset { book_id: 1, source_path: None, stored_path: "x/1.zst".to_string(), stored_size_bytes: 100 },
        StatsAsset { book_id: 2, source_path: Some("in/b.PDF".to_string()), stored_path: "y".to_string(), stored_size_bytes: 50 },
        StatsAsset { book_id: 9, source_path: None, stored_path: "z".to_string(), stored_size_bytes: 7 },
    ];
    assert!(amount_fits(&rows, &assets));
    let s = compute_library_stats(&rows, &assets);
    assert_eq!(s.formats, vec![("epub".to_string(), 1), ("pdf".to_string(), 1)]);
    assert_eq!(s.languages, vec![("en".to_string(), 2), ("fr".to_string(), 1)]);
    assert_eq!(s.tags, vec![("sf".to_string(), 2), ("drama".to_string(), 1)]);
    assert_eq!(s.authors, vec![("A".to_string(), 2), ("B".to_string(), 1)]);
    assert_eq!(s.series, vec![("S".to_string(), 1)]);
    assert_eq!(s.format_sizes, vec![("epub".to_string(), 100), ("pdf".to_string(), 50), ("unknown".to_string(), 7)]);
    let huge = vec![
        StatsAsset { book_id: 1, source_path: None, stored_path: "a".to_string(), stored_size_bytes: u64::MAX },
        StatsAsset { book_id: 1, source_path: None, stored_path: "b".to_string(), stored_size_bytes: 1 },
    ];
    assert!(!amount_fits(&rows, &huge));
}

#[test]
fn library_search_matches_title_authors_or_tags_in_any_case() {
    let mut a = row(1, "The Hobbit", "");
    a.authors = "J. R. R. Tolkien".to_string();
    let mut b = row(2, "Dune", "");
    b.authors = String::new();
    b.tags = "Science Fiction".to_string();
    let c = row(3, "Emma", "");
    let books = vec![a, b, c];
    let r = library_search_results(&books, "  TOLKIEN ");
    assert_eq!(r.len(), 1);
    assert_eq!(r[0].label, "The Hobbit \u{2014} J. R. R. Tolkien");
    assert_eq!(r[0].book_id, Some(1));
    assert_eq!(r[0].page, None);
    let r = library_search_results(&books, "fiction");
    assert_eq!(r.len(), 1);
    assert_eq!(r[0].label, "Dune \u{2014} Unknown");
    let r = library_search_results(&books, "");
    assert_eq!(r.iter().map(|x| x.book_id).collect::<Vec<_>>(), vec![Some(1), Some(2), Some(3)]);
    assert!(library_search_results(&books, "zzz").is_empty());
}

#[test]
fn page_size_is_clamped_by_fit_mode() {
    assert_eq!(page_chars_for_fit(100, ReaderFitMode::FitPage), 600);
    assert_eq!(page_chars_for_fit(1000, ReaderFitMode::FitPage), 1000);
    assert_eq!(page_chars_for_fit(5000, ReaderFitMode::FitPage), 1800);
    assert_eq!(page_chars_for_fit(600, ReaderFitMode::FitWidth), 1200);
    assert_eq!(page_chars_for_fit(3000, ReaderFitMode::FitWidth), 3000);
    assert_eq!(page_chars_for_fit(9000, ReaderFitMode::FitWidth), 6000);
}

#[test]
fn saved_search_names_join_and_split_back() {
    assert_eq!(full_saved_search_name(" Reading ", " Unread "), "Reading/Unread");
    assert_eq!(full_saved_search_name("  ", " Unread "), "Unread");
    assert_eq!(
        split_saved_search_name(&full_saved_search_name(" Reading ", " Unread ")),
        ("Reading".to_string(), "Unread".to_string())
    );
    assert_eq!(
        split_saved_search_name(&full_saved_search_name("", "Unread")),
        ("Ungrouped".to_string(), "Unread".to_string())
    );
    assert_eq!(
        split_saved_search_name(&full_saved_search_name("a/b", "c")),
        ("a/b".to_string(), "c".to_string())
    );
}

#[test]
fn reader_consistency_is_checked() {
    let mut r = ReaderState::new(1200, ReaderTheme::Light);
    assert!(r.is_consistent());
    r.page = 3;
    assert!(!r.is_consistent());
    r.page = 0;
    r.open_virtual_text(1, "T", "abc");
    assert!(r.is_consistent());
}
