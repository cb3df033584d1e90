use caliberate::panels::push_toast;
use caliberate::books::BookRow;
use caliberate::display::JobStatus;
use caliberate::panels::{
    active_jobs_count, append_query_builder_clause, conversion_warnings, parse_hex_color,
    row_text_color, selected_column_label, text_matches_query, trim_job_history,
    MetadataDownloadResult,
};

fn book(rating: &str, has_cover: bool) -> BookRow {
    BookRow {
        id: 1,
        title: "T".to_string(),
        format: "EPUB".to_string(),
        path: "p".to_string(),
        authors: String::new(),
        tags: String::new(),
        series: String::new(),
        rating: rating.to_string(),
        publisher: String::new(),
        languages: String::new(),
        has_cover,
        date_added: String::new(),
        date_modified: String::new(),
        pubdate: String::new(),
    }
}

#[test]
fn conversion_warnings_follow_format_and_options() {
    assert_eq!(
        conversion_warnings("MOBI", true, true, false),
        vec!["MOBI embedding may be ignored by readers".to_string()]
    );
    assert_eq!(
        conversion_warnings("pdf", true, true, true),
        vec![
            "PDF output ignores hard line unwrap heuristics".to_string(),
            "Zero page margins can reduce readability on small screens".to_string(),
        ]
    );
    assert!(conversion_warnings("epub", true, true, false).is_empty());
}

#[test]
fn highlight_needs_a_query_found_in_any_case() {
    assert!(text_matches_query("The Left Hand of Darkness", "  left hand "));
    assert!(!text_matches_query("Dune", "darkness"));
    assert!(!text_matches_query("Dune", "   "));
}

#[test]
fn preview_line_uses_placeholders() {
    let r = MetadataDownloadResult {
        book_id: 3,
        provider: "openlibrary".to_string(),
        title: Some("Dune".to_string()),
        authors: vec!["Frank Herbert".to_string(), "Brian Herbert".to_string()],
    };
    assert_eq!(r.preview_line(), "Dune — Frank Herbert, Brian Herbert");
    let empty = MetadataDownloadResult { book_id: 3, provider: String::new(), title: None, authors: Vec::new() };
    assert_eq!(empty.preview_line(), "<untitled> — <unknown author>");
}

#[test]
fn query_builder_appends_clauses() {
    let mut q = String::new();
    append_query_builder_clause(&mut q, " tags ", "is", "scifi");
    assert_eq!(q, "tags:\"scifi\"");
    append_query_builder_clause(&mut q, "authors", " not ", "Smith");
    assert_eq!(q, "tags:\"scifi\" and not authors:\"Smith\"");
    append_query_builder_clause(&mut q, "rating", ">", "3");
    assert_eq!(q, "tags:\"scifi\" and not authors:\"Smith\" and rating:3");
    append_query_builder_clause(&mut q, "title", "is", "  ");
    assert_eq!(q, "tags:\"scifi\" and not authors:\"Smith\" and rating:3");
}

#[test]
fn active_jobs_are_queued_running_or_paused() {
    let jobs = vec![
        JobStatus::Queued,
        JobStatus::Completed,
        JobStatus::Running,
        JobStatus::Failed,
        JobStatus::Paused,
        JobStatus::Cancelled,
    ];
    assert_eq!(active_jobs_count(&jobs), 3);
    assert_eq!(active_jobs_count(&Vec::new()), 0);
}

#[test]
fn job_history_keeps_the_newest() {
    let mut jobs = vec![1, 2, 3, 4, 5];
    trim_job_history(&mut jobs, 3);
    assert_eq!(jobs, vec![3, 4, 5]);
    trim_job_history(&mut jobs, 10);
    assert_eq!(jobs, vec![3, 4, 5]);
    trim_job_history(&mut jobs, 0);
    assert!(jobs.is_empty());
}

#[test]
fn selected_column_prefers_the_typed_label() {
    let labels = vec!["genre".to_string(), "mood".to_string()];
    assert_eq!(selected_column_label("  shelf ", &labels), Some("shelf".to_string()));
    assert_eq!(selected_column_label("  ", &labels), Some("genre".to_string()));
    assert_eq!(selected_column_label("", &Vec::new()), None);
}

#[test]
fn hex_colors_parse_with_optional_hashes() {
    assert_eq!(parse_hex_color("#ff8000"), Some((255, 128, 0)));
    assert_eq!(parse_hex_color("  ##0A0b0C "), Some((10, 11, 12)));
    assert_eq!(parse_hex_color("+f+f+f"), Some((15, 15, 15)));
    assert_eq!(parse_hex_color("#ff80"), None);
    assert_eq!(parse_hex_color("#gg0000"), None);
    assert_eq!(parse_hex_color("ééab"), None);
}

#[test]
fn row_colors_follow_the_rules() {
    assert_eq!(row_text_color(&book("8", false), true, "#ff0000", true, 4, "#00ff00"), Some((255, 0, 0)));
    assert_eq!(row_text_color(&book("3", true), true, "#ff0000", true, 4, "#00ff00"), Some((0, 255, 0)));
    assert_eq!(row_text_color(&book("0", true), true, "#ff0000", true, 4, "#00ff00"), None);
    assert_eq!(row_text_color(&book("6", true), true, "#ff0000", true, 4, "#00ff00"), None);
    assert_eq!(row_text_color(&book("3", false), false, "#ff0000", false, 4, "#00ff00"), None);
}

use caliberate::display::JobKind;
use caliberate::jobs::{decode_job_history, encode_job_history, next_job_id_after, JobRecord};

fn job(id: u64, name: &str, kind: JobKind, status: JobStatus, output: Option<&str>) -> JobRecord {
    JobRecord { id, name: name.to_string(), kind, status, output_path: output.map(|o| o.to_string()) }
}

fn summary(jobs: &[JobRecord]) -> Vec<(u64, String, JobKind, JobStatus, Option<String>)> {
    jobs.iter().map(|j| (j.id, j.name.clone(), j.kind, j.status, j.output_path.clone())).collect()
}

#[test]
fn job_history_lines_are_tab_separated() {
    let jobs = vec![
        job(7, "Convert\tDune", JobKind::Convert, JobStatus::Failed, Some("/out/dune.mobi")),
        job(8, "Export", JobKind::SaveToDisk, JobStatus::Completed, None),
    ];
    assert_eq!(
        encode_job_history(&jobs),
        "7\tConvert\tFailed\t/out/dune.mobi\tConvert Dune\n8\tSave to disk\tCompleted\t\tExport"
    );
    assert_eq!(encode_job_history(&Vec::new()), "");
}

#[test]
fn job_history_reads_back_what_it_wrote() {
    let jobs = vec![
        job(1, "Queue", JobKind::Generic, JobStatus::Queued, None),
        job(12, "Convert A", JobKind::Convert, JobStatus::Running, Some("/tmp/a.epub")),
        job(3, "Save", JobKind::SaveToDisk, JobStatus::Paused, Some("/x")),
        job(4, "Cancelled one", JobKind::Convert, JobStatus::Cancelled, None),
    ];
    let text = encode_job_history(&jobs);
    assert_eq!(summary(&decode_job_history(&text)), summary(&jobs));
}

#[test]
fn job_history_tolerates_odd_lines() {
    let text = "x\tWeird\tUnknown\t  \tName\textra\r\nshort\tline\n+5\tConvert\tQueued\tout\tN";
    let jobs = decode_job_history(text);
    assert_eq!(
        summary(&jobs),
        vec![
            (0, "Name".to_string(), JobKind::Generic, JobStatus::Completed, None),
            (5, "N".to_string(), JobKind::Convert, JobStatus::Queued, Some("out".to_string())),
        ]
    );
    assert_eq!(next_job_id_after(&jobs, 3), 6);
    assert_eq!(next_job_id_after(&jobs, 9), 9);
    assert_eq!(next_job_id_after(&Vec::new(), 2), 2);
}

use caliberate::columns::{SortDirection, SortMode};
use caliberate::presets::{SortPreset, SortPresetStore};

#[test]
fn sort_presets_save_get_and_delete() {
    let mut store = SortPresetStore::new();
    let p = SortPreset { primary: SortMode::Title, secondary: None, direction: SortDirection::Asc };
    let q = SortPreset { primary: SortMode::Rating, secondary: Some(SortMode::Title), direction: SortDirection::Desc };
    assert!(!store.save("   ", p));
    assert!(store.preset_count() == 0 && store.active().is_none());
    assert!(store.save(" Mine ", p));
    assert_eq!(store.active(), Some("Mine".to_string()));
    assert_eq!(store.get("Mine"), Some(p));
    assert!(store.save("Mine", q));
    assert_eq!(store.preset_count(), 1);
    assert_eq!(store.get("Mine"), Some(q));
    assert_eq!(store.get(" Mine "), None);
    assert_eq!(store.delete_active(), Some("Mine".to_string()));
    assert_eq!(store.get("Mine"), None);
    assert_eq!(store.active(), None);
    assert_eq!(store.delete_active(), None);
}

use caliberate::browser::{
    persist_active_virtual_filters, virtual_library_selection, BrowserCategory, BrowserFilter,
    BrowserFilterMode,
};
use caliberate::panels::select_row;

#[test]
fn clicks_select_rows() {
    let ids = vec![10, 20, 30, 40, 20];
    let mut sel = vec![99];
    let mut last = None;
    select_row(&ids, 2, false, false, &mut sel, &mut last);
    assert_eq!((sel.clone(), last), (vec![30], Some(30)));
    select_row(&ids, 0, false, true, &mut sel, &mut last);
    assert_eq!((sel.clone(), last), (vec![30, 10], Some(10)));
    select_row(&ids, 2, false, true, &mut sel, &mut last);
    assert_eq!((sel.clone(), last), (vec![10], Some(30)));
    last = Some(20);
    select_row(&ids, 2, true, false, &mut sel, &mut last);
    assert_eq!((sel.clone(), last), (vec![20, 30, 40, 20], Some(20)));
    last = None;
    select_row(&ids, 3, true, false, &mut sel, &mut last);
    assert_eq!((sel.clone(), last), (vec![40], None));
}

fn tag_filter(v: &str) -> BrowserFilter {
    BrowserFilter { category: BrowserCategory::Tags, value: v.to_string(), mode: BrowserFilterMode::Include }
}

#[test]
fn virtual_libraries_restore_and_keep_filters() {
    let saved = vec![("Sci".to_string(), "tags:scifi".to_string())];
    let mut kept = vec![("Sci".to_string(), vec![tag_filter("space")])];
    let (query, filters) = virtual_library_selection(&Some("Sci".to_string()), &saved, &kept);
    assert_eq!(query, Some("tags:scifi".to_string()));
    assert_eq!(filters.len(), 1);
    assert_eq!(filters[0].value, "space");
    let (query, filters) = virtual_library_selection(&Some("Other".to_string()), &saved, &kept);
    assert_eq!(query, None);
    assert!(filters.is_empty());
    let (query, filters) = virtual_library_selection(&None, &saved, &kept);
    assert!(query.is_none() && filters.is_empty());

    assert!(persist_active_virtual_filters(&mut kept, &Some("Sci".to_string()), &vec![tag_filter("a"), tag_filter("b")]));
    assert_eq!(kept.len(), 1);
    assert_eq!(kept[0].1.len(), 2);
    assert!(persist_active_virtual_filters(&mut kept, &Some("New".to_string()), &Vec::new()));
    assert_eq!(kept.len(), 2);
    assert_eq!(kept[1].0, "New");
    assert!(!persist_active_virtual_filters(&mut kept, &None, &vec![tag_filter("x")]));
    assert_eq!(kept.len(), 2);
}

use caliberate::jobs::{
    apply_job_control, job_control_offered, move_job, retry_job_details, tick_job_status,
    JobControl, JobRetryAction,
};

#[test]
fn job_controls_follow_the_state() {
    assert!(job_control_offered(JobStatus::Queued, JobControl::MoveUp, 1, 3));
    assert!(!job_control_offered(JobStatus::Queued, JobControl::MoveUp, 0, 3));
    assert!(!job_control_offered(JobStatus::Queued, JobControl::MoveDown, 2, 3));
    assert!(!job_control_offered(JobStatus::Running, JobControl::MoveDown, 0, 3));
    assert!(job_control_offered(JobStatus::Running, JobControl::Pause, 0, 1));
    assert!(job_control_offered(JobStatus::Paused, JobControl::Resume, 0, 1));
    assert!(!job_control_offered(JobStatus::Completed, JobControl::Cancel, 0, 1));
    assert!(job_control_offered(JobStatus::Failed, JobControl::Retry, 0, 1));
    assert!(!job_control_offered(JobStatus::Running, JobControl::Clone, 0, 1));
    assert_eq!(apply_job_control(JobStatus::Running, JobControl::Pause), JobStatus::Paused);
    assert_eq!(apply_job_control(JobStatus::Paused, JobControl::Resume), JobStatus::Running);
    assert_eq!(apply_job_control(JobStatus::Queued, JobControl::Cancel), JobStatus::Cancelled);
    assert_eq!(apply_job_control(JobStatus::Failed, JobControl::Retry), JobStatus::Failed);
    assert_eq!(tick_job_status(JobStatus::Queued, true), JobStatus::Running);
    assert_eq!(tick_job_status(JobStatus::Running, false), JobStatus::Running);
    assert_eq!(tick_job_status(JobStatus::Running, true), JobStatus::Completed);
    assert_eq!(tick_job_status(JobStatus::Paused, true), JobStatus::Paused);
}

#[test]
fn queued_jobs_move_by_one() {
    let mut jobs = vec!['a', 'b', 'c'];
    move_job(&mut jobs, 1, true);
    assert_eq!(jobs, vec!['b', 'a', 'c']);
    move_job(&mut jobs, 1, false);
    assert_eq!(jobs, vec!['b', 'c', 'a']);
}

#[test]
fn retried_jobs_describe_their_action() {
    let convert = JobRetryAction::Convert {
        ids: vec![1, 2, 3],
        output_format: "epub".to_string(),
        output_dir: "/out".to_string(),
    };
    let (kind, details) = retry_job_details(&convert);
    assert_eq!(kind, JobKind::Convert);
    let pair = |a: &str, b: &str| (a.to_string(), b.to_string());
    assert_eq!(
        details,
        vec![pair("kind", "convert"), pair("books", "3"), pair("format", "epub"), pair("output_dir", "/out")]
    );
    let save = JobRetryAction::SaveToDisk { ids: vec![], output_dir: "/d".to_string() };
    let (kind, details) = retry_job_details(&save);
    assert_eq!(kind, JobKind::SaveToDisk);
    assert_eq!(details, vec![pair("kind", "save_to_disk"), pair("books", "0"), pair("output_dir", "/d")]);
}

#[test]
fn news_history_keeps_the_first_lines() {
    assert_eq!(caliberate::jobs::append_news_history("", "one"), "one");
    assert_eq!(caliberate::jobs::append_news_history("a\r\nb\n", "c"), "a\nb\nc");
    let full: Vec<String> = (0..500).map(|i| i.to_string()).collect();
    let text = full.join("\n");
    assert_eq!(caliberate::jobs::append_news_history(&text, "new"), text);
}

#[test]
fn moving_a_job_up_then_down_restores_the_list() {
    let mut jobs = vec![1, 2, 3, 4];
    move_job(&mut jobs, 2, true);
    move_job(&mut jobs, 1, false);
    assert_eq!(jobs, vec![1, 2, 3, 4]);
    let paused = apply_job_control(JobStatus::Running, JobControl::Pause);
    assert_eq!(apply_job_control(paused, JobControl::Resume), JobStatus::Running);
}

#[test]
fn recent_notifications_are_newest_first() {
    let msgs = vec!["a".to_string(), "b".to_string(), "c".to_string()];
    assert_eq!(caliberate::panels::recent_notifications(&msgs, 2), vec!["c".to_string(), "b".to_string()]);
    assert_eq!(caliberate::panels::recent_notifications(&msgs, 9).len(), 3);
    assert!(caliberate::panels::recent_notifications(&msgs, 0).is_empty());
}

#[test]
fn global_search_scopes() {
    use_scope("title", caliberate::columns::SearchScope::Title);
    use_scope("series", caliberate::columns::SearchScope::Series);
    use_scope("Title", caliberate::columns::SearchScope::All);
    use_scope("", caliberate::columns::SearchScope::All);
}

fn use_scope(s: &str, want: caliberate::columns::SearchScope) {
    assert_eq!(caliberate::columns::parse_search_scope(s), want);
}

fn plugin(id: &str, version: &str, latest: &str) -> caliberate::plugins::PluginEntry {
    caliberate::plugins::PluginEntry {
        id: id.to_string(),
        name: id.to_string(),
        version: version.to_string(),
        latest_version: latest.to_string(),
        author: String::new(),
        description: String::new(),
        enabled: true,
        dependencies: Vec::new(),
        status: "healthy".to_string(),
        error: None,
        setting_key: String::new(),
        setting_value: String::new(),
        logs: vec!["loaded plugin".to_string()],
    }
}

fn manager() -> caliberate::plugins::PluginManagerState {
    caliberate::plugins::PluginManagerState {
        open: true,
        search: String::new(),
        selected: None,
        install_id: String::new(),
        install_name: String::new(),
        install_version: "0.1.0".to_string(),
        install_author: String::new(),
        install_description: String::new(),
        remove_id: String::new(),
        status_message: String::new(),
        plugins: vec![plugin("a", "1.0.0", "1.1.0"), plugin("b", "1.0.0", "1.0.0")],
    }
}

#[test]
fn plugin_update_check_marks_newer_versions() {
    let mut m = manager();
    m.check_updates();
    assert_eq!(m.status_message, "Update check completed");
    assert_eq!(m.plugins[0].status, "update available");
    assert_eq!(m.plugins[0].logs, vec!["loaded plugin".to_string(), "update available: 1.0.0 -> 1.1.0".to_string()]);
    assert_eq!(m.plugins[1].status, "up to date");
    assert_eq!(m.plugins[1].logs.last().unwrap(), "already up to date");
}

#[test]
fn plugin_install_needs_id_and_name_and_remove_reports() {
    let mut m = manager();
    m.install_id = " c ".to_string();
    m.install();
    assert_eq!(m.plugins.len(), 2);
    assert_eq!(m.status_message, "");
    m.install_name = " Cee ".to_string();
    m.install();
    assert_eq!(m.plugins.len(), 3);
    assert_eq!(m.plugins[2].id, "c");
    assert_eq!(m.plugins[2].name, "Cee");
    assert_eq!(m.plugins[2].version, "0.1.0");
    assert_eq!(m.plugins[2].status, "installed");
    assert_eq!(m.selected, Some("c".to_string()));
    assert_eq!(m.remove_id, "c");
    assert_eq!(m.status_message, "Plugin installed");
    m.remove_id = " a ".to_string();
    m.remove();
    assert_eq!(m.plugins.iter().map(|p| p.id.as_str()).collect::<Vec<_>>(), vec!["b", "c"]);
    assert_eq!(m.status_message, "Plugin removed");
    assert_eq!(m.selected, Some("b".to_string()));
    m.remove_id = "zzz".to_string();
    m.remove();
    assert_eq!(m.plugins.len(), 2);
    assert_eq!(m.status_message, "Plugin id not found");
    assert_eq!(m.selected, Some("b".to_string()));
}

#[test]
fn toast_queue_keeps_the_newest() {
    let mut q: Vec<u32> = vec![1, 2, 3];
    push_toast(&mut q, 4, 3);
    assert_eq!(q, vec![2, 3, 4]);
    push_toast(&mut q, 5, 5);
    assert_eq!(q, vec![2, 3, 4, 5]);
    push_toast(&mut q, 6, 0);
    assert!(q.is_empty());
}
