//! File names and paths of exported books and stored assets.
use crate::calibre::{join_path, path_join};
use crate::text::{
    append_str, append_vec, ascii_lower, chars_of, lowercase, nat_digits, int_digits, i64_digits, replace_all,
    replace_str, std_to_lowercase, string_of, trim, trim_vec, u64_digits,
};
use vstd::prelude::*;

verus! {

/// The extension `Path::extension` reads from a path.
pub uninterp spec fn path_extension_of(path: Seq<char>) -> Option<Seq<char>>;

/// The file stem `Path::file_stem` reads from a path.
pub uninterp spec fn path_file_stem_of(path: Seq<char>) -> Option<Seq<char>>;

/// The parent `Path::parent` reads from a path.
pub uninterp spec fn path_parent_of(path: Seq<char>) -> Option<Seq<char>>;

/// The characters of an optional string.
pub open spec fn opt_view(o: Option<String>) -> Option<Seq<char>> {
    match o {
        Some(s) => Some(s@),
        None => None,
    }
}

/// `Path::extension` of a path held as a string: the part of the file name after
/// its last `.`, `None` for a name without one or starting with its only dot.
/// What it reads is named by `path_extension_of`.
#[verifier::external_body]
pub(crate) fn path_extension(path: &str) -> (r: Option<String>)
    ensures
        opt_view(r) == path_extension_of(path@),
{
    std::path::Path::new(path).extension().and_then(|e| e.to_str()).map(|e| e.to_string())
}

/// `Path::file_stem` of a path held as a string: the file name without its
/// extension. What it reads is named by `path_file_stem_of`.
#[verifier::external_body]
pub(crate) fn path_file_stem(path: &str) -> (r: Option<String>)
    ensures
        opt_view(r) == path_file_stem_of(path@),
{
    std::path::Path::new(path).file_stem().and_then(|e| e.to_str()).map(|e| e.to_string())
}

/// `Path::parent` of a path held as a string: the path without its last
/// component, `None` for a root or an empty path. What it reads is named by
/// `path_parent_of`.
#[verifier::external_body]
pub(crate) fn path_parent(path: &str) -> (r: Option<String>)
    ensures
        opt_view(r) == path_parent_of(path@),
{
    std::path::Path::new(path).parent().and_then(|e| e.to_str()).map(|e| e.to_string())
}

/// An ASCII letter or digit.
pub open spec fn is_ascii_alnum(c: char) -> bool {
    ('a' <= c <= 'z') || ('A' <= c <= 'Z') || ('0' <= c <= '9')
}

/// A file name made of the trimmed value with every character but ASCII letters
/// and digits replaced by `_`; `untitled` for a blank value.
pub open spec fn sanitized(value: Seq<char>) -> Seq<char> {
    let t = trim(value);
    if t.len() == 0 {
        "untitled"@
    } else {
        t.map_values(|c: char| if is_ascii_alnum(c) { c } else { '_' })
    }
}

/// Makes a value safe as a file name.
pub fn sanitize_filename(value: &str) -> (r: String)
    ensures
        r@ == sanitized(value@),
{
    let t = trim_vec(&chars_of(value));
    if t.len() == 0 {
        return string_of(&chars_of("untitled"));
    }
    let mut out: Vec<char> = Vec::new();
    let mut i: usize = 0;
    while i < t.len()
        invariant
            i <= t.len(),
            out@ == t@.take(i as int).map_values(|c: char| if is_ascii_alnum(c) { c } else { '_' }),
        decreases t.len() - i,
    {
        let c = t[i];
        let keep = ('a' <= c && c <= 'z') || ('A' <= c && c <= 'Z') || ('0' <= c && c <= '9');
        out.push(if keep { c } else { '_' });
        assert(t@.take(i + 1).map_values(|c: char| if is_ascii_alnum(c) { c } else { '_' }) =~= t@.take(
            i as int,
        ).map_values(|c: char| if is_ascii_alnum(c) { c } else { '_' }).push(
            if is_ascii_alnum(c) {
                c
            } else {
                '_'
            },
        ));
        i += 1;
    }
    assert(t@.take(t.len() as int) =~= t@);
    string_of(&out)
}

/// The default export file name: `title_id.format`, the title made safe.
pub open spec fn output_name(title: Seq<char>, book_id: int, format: Seq<char>) -> Seq<char> {
    sanitized(title) + seq!['_'] + int_digits(book_id) + seq!['.'] + format
}

/// Names the exported file of a book format.
pub fn build_output_name(title: &str, book_id: i64, format: &str) -> (r: String)
    ensures
        r@ == output_name(title@, book_id as int, format@),
{
    let safe = sanitize_filename(title);
    let mut v = chars_of(safe.as_str());
    v.push('_');
    append_vec(&mut v, &i64_digits(book_id));
    v.push('.');
    append_str(&mut v, format);
    assert(v@ =~= output_name(title@, book_id as int, format@));
    string_of(&v)
}

/// The exported file of a book format inside the output directory.
pub fn build_output_path(output_dir: &str, title: &str, book_id: i64, format: &str) -> (r: String)
    ensures
        r@ == path_join(output_dir@, output_name(title@, book_id as int, format@)),
{
    let name = build_output_name(title, book_id, format);
    string_of(&join_path(&chars_of(output_dir), &chars_of(name.as_str())))
}

/// A save-to-disk template filled in: `{title}`, `{id}`, `{format}` and
/// `{authors}` replaced in that order, the texts made safe.
pub open spec fn rendered_template(
    template: Seq<char>,
    title: Seq<char>,
    book_id: int,
    format: Seq<char>,
    authors: Seq<char>,
) -> Seq<char> {
    replace_all(
        replace_all(
            replace_all(replace_all(template, "{title}"@, sanitized(title)), "{id}"@, int_digits(book_id)),
            "{format}"@,
            sanitized(format),
        ),
        "{authors}"@,
        sanitized(authors),
    )
}

/// The exported file a save-to-disk template names inside the output directory.
pub fn build_output_from_template(
    output_dir: &str,
    template: &str,
    title: &str,
    book_id: i64,
    format: &str,
    authors: &str,
) -> (r: String)
    ensures
        r@ == path_join(output_dir@, rendered_template(template@, title@, book_id as int, format@, authors@)),
{
    proof {
        reveal_strlit("{title}");
        reveal_strlit("{id}");
        reveal_strlit("{format}");
        reveal_strlit("{authors}");
    }
    let t = chars_of(template);
    let st = sanitize_filename(title);
    let a = replace_str(&t, "{title}", st.as_str());
    let id = string_of(&i64_digits(book_id));
    let b = replace_str(&a, "{id}", id.as_str());
    let sf = sanitize_filename(format);
    let c = replace_str(&b, "{format}", sf.as_str());
    let sa = sanitize_filename(authors);
    let d = replace_str(&c, "{authors}", sa.as_str());
    string_of(&join_path(&chars_of(output_dir), &d))
}

/// The output directory asked for, trimmed, or the fallback when it is blank.
pub open spec fn output_dir_choice(input: Seq<char>, fallback: Seq<char>) -> Seq<char> {
    if trim(input).len() == 0 {
        fallback
    } else {
        trim(input)
    }
}

/// Chooses the output directory.
pub fn output_dir_or_default(input: &str, fallback: &str) -> (r: String)
    ensures
        r@ == output_dir_choice(input@, fallback@),
{
    let t = trim_vec(&chars_of(input));
    if t.len() == 0 {
        string_of(&chars_of(fallback))
    } else {
        string_of(&t)
    }
}

/// The extensions of cover images.
pub open spec fn image_extension(e: Seq<char>) -> bool {
    e == "png"@ || e == "jpg"@ || e == "jpeg"@
}

/// A path is an image when its extension, in lower case, is `png`, `jpg` or `jpeg`.
pub open spec fn image_path(path: Seq<char>) -> bool {
    match path_extension_of(path) {
        Some(e) => image_extension(lowercase(e)),
        None => false,
    }
}

/// Whether a path names a cover image.
pub fn is_image_path(path: &str) -> (r: bool)
    ensures
        r == image_path(path@),
{
    match path_extension(path) {
        Some(e) => {
            let l = std_to_lowercase(e.as_str());
            let lv = chars_of(l.as_str());
            crate::text::vec_eq_str(&lv, "png") || crate::text::vec_eq_str(&lv, "jpg")
                || crate::text::vec_eq_str(&lv, "jpeg")
        },
        None => false,
    }
}

/// A path's extension in lower case.
pub open spec fn lower_extension(path: Seq<char>) -> Option<Seq<char>> {
    match path_extension_of(path) {
        Some(e) => Some(lowercase(e)),
        None => None,
    }
}

/// The format an asset is counted under: the lower-case extension of its source
/// path, else of its stored path; the book's format when that is `zst` or there is
/// none.
pub open spec fn asset_format_of(
    source_path: Option<Seq<char>>,
    stored_path: Seq<char>,
    fallback: Seq<char>,
) -> Seq<char> {
    let source_ext = match source_path {
        Some(p) => lower_extension(p),
        None => None,
    };
    let ext = if source_ext is Some {
        source_ext
    } else {
        lower_extension(stored_path)
    };
    match ext {
        Some(e) => if e == "zst"@ {
            fallback
        } else {
            e
        },
        None => fallback,
    }
}

fn lower_extension_of(path: &str) -> (r: Option<String>)
    ensures
        opt_view(r) == lower_extension(path@),
{
    match path_extension(path) {
        Some(e) => Some(std_to_lowercase(e.as_str())),
        None => None,
    }
}

/// The format an asset is counted under in the library statistics.
pub fn asset_format(source_path: &Option<String>, stored_path: &str, fallback: &str) -> (r: String)
    ensures
        r@ == asset_format_of(opt_view(*source_path), stored_path@, fallback@),
{
    let source_ext = match source_path {
        Some(p) => lower_extension_of(p.as_str()),
        None => None,
    };
    let ext = match source_ext {
        Some(e) => Some(e),
        None => lower_extension_of(stored_path),
    };
    match ext {
        Some(e) => {
            if crate::text::vec_eq_str(&chars_of(e.as_str()), "zst") {
                string_of(&chars_of(fallback))
            } else {
                e
            }
        },
        None => string_of(&chars_of(fallback)),
    }
}

/// What an export does when its target already exists.
#[derive(Clone, Copy, Debug, PartialEq, Eq, Structural)]
pub enum ConflictAction {
    /// Write over the existing file.
    Overwrite,
    /// Export nothing.
    Skip,
    /// Look for a free numbered name beside it.
    Rename,
}

/// The action of a conflict policy: `skip` and `rename` name theirs; any other
/// policy overwrites.
pub open spec fn conflict_action_of(policy: Seq<char>) -> ConflictAction {
    if policy == "skip"@ {
        ConflictAction::Skip
    } else if policy == "rename"@ {
        ConflictAction::Rename
    } else {
        ConflictAction::Overwrite
    }
}

/// Reads a conflict policy.
pub fn conflict_action(policy: &str) -> (r: ConflictAction)
    ensures
        r == conflict_action_of(policy@),
{
    let v = chars_of(policy);
    if crate::text::vec_eq_str(&v, "skip") {
        ConflictAction::Skip
    } else if crate::text::vec_eq_str(&v, "rename") {
        ConflictAction::Rename
    } else {
        ConflictAction::Overwrite
    }
}

/// How many numbered names a renaming export tries before giving up.
pub const RENAME_ATTEMPTS: u32 = 9999;

/// The `idx`-th numbered name tried for a taken path: `stem-idx.ext` beside it
/// (`stem-idx` without an extension), the stem `file` and the directory `.` when
/// the path has none.
pub open spec fn renamed_path(path: Seq<char>, idx: nat) -> Seq<char> {
    let stem = match path_file_stem_of(path) {
        Some(s) => s,
        None => "file"@,
    };
    let ext = match path_extension_of(path) {
        Some(e) => e,
        None => Seq::empty(),
    };
    let parent = match path_parent_of(path) {
        Some(p) => p,
        None => seq!['.'],
    };
    let name = if ext.len() == 0 {
        stem + seq!['-'] + nat_digits(idx)
    } else {
        stem + seq!['-'] + nat_digits(idx) + seq!['.'] + ext
    };
    path_join(parent, name)
}

/// The numbered name tried for a taken export path.
pub fn renamed_export_path(path: &str, idx: u32) -> (r: String)
    ensures
        r@ == renamed_path(path@, idx as nat),
{
    let stem = match path_file_stem(path) {
        Some(s) => chars_of(s.as_str()),
        None => chars_of("file"),
    };
    let ext = match path_extension(path) {
        Some(e) => chars_of(e.as_str()),
        None => Vec::new(),
    };
    let parent = match path_parent(path) {
        Some(p) => chars_of(p.as_str()),
        None => {
            let mut v: Vec<char> = Vec::new();
            v.push('.');
            v
        },
    };
    let mut name: Vec<char> = Vec::new();
    append_vec(&mut name, &stem);
    name.push('-');
    append_vec(&mut name, &u64_digits(idx as u64));
    if ext.len() > 0 {
        name.push('.');
        append_vec(&mut name, &ext);
    }
    assert(name@ =~= {
        let n = stem@ + seq!['-'] + nat_digits(idx as nat);
        if ext@.len() == 0 {
            n
        } else {
            n + seq!['.'] + ext@
        }
    });
    string_of(&join_path(&parent, &name))
}


/// Whether removing an asset deletes its file: a reference asset's file only when
/// reference files are to be deleted, any other asset's always.
pub open spec fn deletes_file(asset: crate::adopt::AssetRow, delete_reference_files: bool) -> bool {
    if ascii_lower(asset.storage_mode@) == "reference"@ {
        delete_reference_files
    } else {
        true
    }
}

/// Whether removing the asset deletes its file.
pub fn should_delete_asset(asset: &crate::adopt::AssetRow, delete_reference_files: bool) -> (r: bool)
    ensures
        r == deletes_file(*asset, delete_reference_files),
{
    proof {
        reveal_strlit("reference");
    }
    let mode = chars_of(asset.storage_mode.as_str());
    let reference = chars_of("reference");
    assert(ascii_lower(reference@) =~= reference@) by {
        assert forall|i: int| 0 <= i < reference@.len() implies #[trigger] crate::text::ascii_lower_char(reference@[i]) == reference@[i] by {
            assert('a' <= reference@[i] <= 'z');
        }
    }
    if crate::text::eq_ignore_ascii_case(&mode, &reference) {
        delete_reference_files
    } else {
        true
    }
}

/// The asset a book is read from: the first uncompressed one, else the first.
pub open spec fn choose_asset_of(assets: Seq<crate::adopt::AssetRow>) -> Option<int> {
    if exists|k: int| 0 <= k < assets.len() && !assets[k].is_compressed {
        Some(choose|k: int| 0 <= k < assets.len() && !assets[k].is_compressed
            && forall|j: int| 0 <= j < k ==> assets[j].is_compressed)
    } else if assets.len() > 0 {
        Some(0)
    } else {
        None
    }
}

/// Chooses the asset a book is read from.
pub fn choose_asset(assets: &Vec<crate::adopt::AssetRow>) -> (r: Option<usize>)
    ensures
        r == match choose_asset_of(assets@) {
            Some(i) => Some(i as usize),
            None => None::<usize>,
        },
        match r {
            Some(i) => i < assets@.len() && (if exists|k: int| 0 <= k < assets@.len() && !assets@[k].is_compressed {
                !assets@[i as int].is_compressed && forall|j: int| 0 <= j < i ==> assets@[j].is_compressed
            } else {
                i == 0
            }),
            None => assets@.len() == 0,
        },
{
    let mut i: usize = 0;
    while i < assets.len()
        invariant
            i <= assets@.len(),
            forall|j: int| 0 <= j < i ==> assets@[j].is_compressed,
        decreases assets.len() - i,
    {
        if !assets[i].is_compressed {
            return Some(i);
        }
        i += 1;
    }
    if assets.len() > 0 {
        Some(0)
    } else {
        None
    }
}

/// Whether the lower-cased extension of a path is one of `formats`.
pub open spec fn extension_in(path: Seq<char>, formats: Seq<Seq<char>>) -> bool {
    match lower_extension(path) {
        Some(e) => formats.contains(e),
        None => false,
    }
}

/// Whether `formats` holds `e`.
fn holds(formats: &Vec<String>, e: &Vec<char>) -> (r: bool)
    ensures
        r == crate::text::string_views(formats@).contains(e@),
{
    let mut i: usize = 0;
    while i < formats.len()
        invariant
            i <= formats@.len(),
            forall|j: int| 0 <= j < i ==> crate::text::string_views(formats@)[j] != e@,
        decreases formats.len() - i,
    {
        assert(crate::text::string_views(formats@)[i as int] == formats@[i as int]@);
        if crate::text::vec_eq(&chars_of(formats[i].as_str()), e) {
            return true;
        }
        i += 1;
    }
    false
}

/// Whether a path is an archive by its extension.
pub fn is_archive_path(path: &str, archive_formats: &Vec<String>) -> (r: bool)
    ensures
        r == extension_in(path@, crate::text::string_views(archive_formats@)),
{
    match lower_extension_of(path) {
        Some(e) => holds(archive_formats, &chars_of(e.as_str())),
        None => false,
    }
}

/// Whether a path can be added: its extension is a supported format, or an archive
/// format when archives are included.
pub fn is_supported_path(
    path: &str,
    supported: &Vec<String>,
    archive_formats: &Vec<String>,
    include_archives: bool,
) -> (r: bool)
    ensures
        r == (extension_in(path@, crate::text::string_views(supported@)) || (include_archives
            && extension_in(path@, crate::text::string_views(archive_formats@)))),
{
    match lower_extension_of(path) {
        Some(e) => {
            let ev = chars_of(e.as_str());
            holds(supported, &ev) || (include_archives && holds(archive_formats, &ev))
        },
        None => false,
    }
}

/// The assets a save to disk exports for a book: all of them, or only the one a
/// book is read from.
pub fn assets_to_export(assets: &Vec<crate::adopt::AssetRow>, export_all_formats: bool) -> (r: Vec<usize>)
    ensures
        export_all_formats ==> r@.len() == assets@.len() && forall|i: int| 0 <= i < r@.len() ==> #[trigger] r@[i] == i,
        !export_all_formats ==> match choose_asset_of(assets@) {
            Some(i) => r@ == seq![i as usize],
            None => r@.len() == 0,
        },
{
    if export_all_formats {
        let mut out: Vec<usize> = Vec::new();
        let mut i: usize = 0;
        while i < assets.len()
            invariant
                i <= assets@.len(),
                out@.len() == i,
                forall|k: int| 0 <= k < i ==> #[trigger] out@[k] == k,
            decreases assets.len() - i,
        {
            out.push(i);
            i += 1;
        }
        out
    } else {
        match choose_asset(assets) {
            Some(i) => {
                let mut out: Vec<usize> = Vec::new();
                out.push(i);
                out
            },
            None => Vec::new(),
        }
    }
}

/// The next step of choosing where an export writes: the answer, or the path
/// whose existence must be looked up next.
#[derive(Clone, Debug)]
pub enum ExportStep {
    /// Where the export writes; nothing when it writes nowhere.
    Decided(Option<String>),
    /// Whether a file exists at this path is needed next.
    Ask(String),
}

/// The plain contents of an export step.
pub enum ExportStepView {
    Decided(Option<Seq<char>>),
    Ask(Seq<char>),
}

/// The plain contents of an export step.
pub open spec fn export_step_view(s: ExportStep) -> ExportStepView {
    match s {
        ExportStep::Decided(o) => ExportStepView::Decided(opt_view(o)),
        ExportStep::Ask(p) => ExportStepView::Ask(p@),
    }
}

/// The first index from 1 on whose answer is `false`, or -1.
pub open spec fn first_free_answer(answers: Seq<bool>) -> int
    decreases answers.len(),
{
    if answers.len() <= 1 {
        -1
    } else if first_free_answer(answers.drop_last()) >= 1 {
        first_free_answer(answers.drop_last())
    } else if !answers.last() {
        answers.len() - 1
    } else {
        -1
    }
}

/// The answers for the path and its first 9999 numbered names.
pub open spec fn tried_answers(answers: Seq<bool>) -> Seq<bool> {
    if answers.len() > 10000 {
        answers.take(10000)
    } else {
        answers
    }
}

/// The step after the answers so far: `answers[0]` tells whether the path
/// exists, `answers[k]` whether its `k`-th numbered name does. A free path is
/// written; a taken one is overwritten, skipped, or renamed to its first free
/// numbered name, nowhere when all 9999 are taken.
pub open spec fn export_step_of(path: Seq<char>, policy: Seq<char>, answers: Seq<bool>) -> ExportStepView {
    if answers.len() == 0 {
        ExportStepView::Ask(path)
    } else if !answers[0] {
        ExportStepView::Decided(Some(path))
    } else {
        match conflict_action_of(policy) {
            ConflictAction::Overwrite => ExportStepView::Decided(Some(path)),
            ConflictAction::Skip => ExportStepView::Decided(None),
            ConflictAction::Rename => if first_free_answer(tried_answers(answers)) >= 1 {
                ExportStepView::Decided(Some(renamed_path(path, first_free_answer(tried_answers(answers)) as nat)))
            } else if answers.len() > 9999 {
                ExportStepView::Decided(None)
            } else {
                ExportStepView::Ask(renamed_path(path, answers.len()))
            },
        }
    }
}

proof fn lemma_first_free_found(answers: Seq<bool>, k: int)
    requires
        1 <= k < answers.len(),
        !answers[k],
        forall|j: int| 1 <= j < k ==> answers[j],
    ensures
        first_free_answer(answers) == k,
    decreases answers.len(),
{
    if k < answers.len() - 1 {
        lemma_first_free_found(answers.drop_last(), k);
    } else {
        lemma_first_free_none(answers.drop_last());
    }
}

proof fn lemma_first_free_none(answers: Seq<bool>)
    requires
        forall|j: int| 1 <= j < answers.len() ==> answers[j],
    ensures
        first_free_answer(answers) == -1,
    decreases answers.len(),
{
    if answers.len() > 1 {
        lemma_first_free_none(answers.drop_last());
    }
}

/// Chooses the next step of resolving an export path from the answers so far.
pub fn export_conflict_step(path: &str, policy: &str, answers: &Vec<bool>) -> (r: ExportStep)
    ensures
        export_step_view(r) == export_step_of(path@, policy@, answers@),
{
    if answers.len() == 0 {
        return ExportStep::Ask(path.to_owned());
    }
    if !answers[0] {
        return ExportStep::Decided(Some(path.to_owned()));
    }
    match conflict_action(policy) {
        ConflictAction::Overwrite => ExportStep::Decided(Some(path.to_owned())),
        ConflictAction::Skip => ExportStep::Decided(None),
        ConflictAction::Rename => {
            let ghost tried = tried_answers(answers@);
            let n = if answers.len() > 10000 { 10000 } else { answers.len() };
            assert(tried.len() == n);
            let mut k: usize = 1;
            while k < n
                invariant
                    1 <= k <= n,
                    n == tried.len(),
                    tried == tried_answers(answers@),
                    n <= 10000,
                    conflict_action_of(policy@) == ConflictAction::Rename,
                    answers@.len() > 0 && answers@[0],
                    forall|j: int| 1 <= j < k ==> tried[j],
                decreases n - k,
            {
                assert(tried[k as int] == answers@[k as int]);
                if !answers[k] {
                    proof {
                        lemma_first_free_found(tried, k as int);
                    }
                    let named = renamed_export_path(path, k as u32);
                    assert((k as u32) as nat == first_free_answer(tried) as nat);
                    assert(named@ == renamed_path(path@, first_free_answer(tried) as nat));
                    assert(export_step_view(ExportStep::Decided(Some(named))) == ExportStepView::Decided(Some(named@)));
                    return ExportStep::Decided(Some(named));
                }
                k += 1;
            }
            proof {
                lemma_first_free_none(tried);
            }
            if answers.len() > 9999 {
                ExportStep::Decided(None)
            } else {
                ExportStep::Ask(renamed_export_path(path, answers.len() as u32))
            }
        },
    }
}

/// The first numbered name from `k` on, up to 9999, that `taken` does not
/// find.
pub open spec fn least_free(path: Seq<char>, taken: spec_fn(Seq<char>) -> bool, k: nat) -> Option<nat>
    decreases 10000 - k,
{
    if k > 9999 {
        None
    } else if !taken(renamed_path(path, k)) {
        Some(k)
    } else {
        least_free(path, taken, k + 1)
    }
}

/// Where an export writes when `taken` tells which paths are taken: the path
/// when free, else by the policy, renaming to the first free of the 9999
/// numbered names.
pub open spec fn export_target(path: Seq<char>, policy: Seq<char>, taken: spec_fn(Seq<char>) -> bool) -> Option<Seq<char>> {
    if !taken(path) {
        Some(path)
    } else {
        match conflict_action_of(policy) {
            ConflictAction::Overwrite => Some(path),
            ConflictAction::Skip => None,
            ConflictAction::Rename => match least_free(path, taken, 1) {
                Some(k) => Some(renamed_path(path, k)),
                None => None,
            },
        }
    }
}

/// The first `n` answers `taken` gives: for the path, then its numbered names.
pub open spec fn answers_of(path: Seq<char>, taken: spec_fn(Seq<char>) -> bool, n: nat) -> Seq<bool> {
    Seq::new(n, |i: int| if i == 0 { taken(path) } else { taken(renamed_path(path, i as nat)) })
}

proof fn lemma_first_free_props(a: Seq<bool>)
    ensures
        first_free_answer(a) == -1 || 1 <= first_free_answer(a) < a.len(),
        first_free_answer(a) >= 1 ==> !a[first_free_answer(a)],
        forall|j: int| 1 <= j < (if first_free_answer(a) >= 1 { first_free_answer(a) } else { a.len() as int }) ==> a[j],
    decreases a.len(),
{
    if a.len() > 1 {
        let d = a.drop_last();
        lemma_first_free_props(d);
        assert forall|j: int| 1 <= j < d.len() implies d[j] == a[j] by {}
    }
}

proof fn lemma_least_free_found(path: Seq<char>, taken: spec_fn(Seq<char>) -> bool, k: nat, f: nat)
    requires
        1 <= k <= f <= 9999,
        forall|i: nat| k <= i < f ==> taken(renamed_path(path, i)),
        !taken(renamed_path(path, f)),
    ensures
        least_free(path, taken, k) == Some(f),
    decreases f - k,
{
    if k < f {
        lemma_least_free_found(path, taken, k + 1, f);
    }
}

proof fn lemma_least_free_none(path: Seq<char>, taken: spec_fn(Seq<char>) -> bool, k: nat)
    requires
        1 <= k,
        forall|i: nat| k <= i <= 9999 ==> taken(renamed_path(path, i)),
    ensures
        least_free(path, taken, k) is None,
    decreases 10000 - k,
{
    if k <= 9999 {
        lemma_least_free_none(path, taken, k + 1);
    }
}

/// Answering each step's question with `taken` leads to where the export
/// writes: each step either asks about the path or its next numbered name, or
/// has decided where `taken` says the export writes, and at the latest after
/// 10000 answers it has decided.
pub proof fn lemma_export_steps_resolve(
    path: Seq<char>,
    policy: Seq<char>,
    taken: spec_fn(Seq<char>) -> bool,
    n: nat,
)
    requires
        n <= 10000,
    ensures
        match export_step_of(path, policy, answers_of(path, taken, n)) {
            ExportStepView::Decided(r) => r == export_target(path, policy, taken),
            ExportStepView::Ask(q) => n < 10000 && q == (if n == 0 { path } else { renamed_path(path, n) }),
        },
        n == 10000 ==> export_step_of(path, policy, answers_of(path, taken, n)) is Decided,
{
    let a = answers_of(path, taken, n);
    assert(tried_answers(a) == a);
    if n > 0 && taken(path) && conflict_action_of(policy) == ConflictAction::Rename {
        lemma_first_free_props(a);
        let f = first_free_answer(a);
        if f >= 1 {
            assert forall|i: nat| 1 <= i < f implies taken(renamed_path(path, i)) by {
                assert(a[i as int]);
            }
            assert(!a[f]);
            lemma_least_free_found(path, taken, 1, f as nat);
        } else if n > 9999 {
            assert forall|i: nat| 1 <= i <= 9999 implies taken(renamed_path(path, i)) by {
                assert(a[i as int]);
            }
            lemma_least_free_none(path, taken, 1);
        }
    }
}

} // verus!
