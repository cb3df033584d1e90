//! How values are shown in the library window: ratings, badges, dates, CSV cells,
//! the search history and plain text of HTML comments.
use crate::fields::split_csv_field;
use crate::text::{
    append_str, append_vec, ascii_lower, chars_of, csv_items, eq_ignore_ascii_case, find_char,
    first_index, has_char, int_digits, join, last_index, nat_digits,
    parse_i64, parse_i64_vec, replace_all, replace_str, rfind_char, slice_vec, std_to_uppercase,
    string_of, string_views, trim, trim_vec, u64_digits, i64_digits, uppercase, views,
};
use vstd::prelude::*;

verus! {

/// `r / 2` rounded toward zero, as Rust divides.
pub open spec fn half_toward_zero(r: int) -> int {
    if r >= 0 {
        r / 2
    } else {
        -((-r) / 2)
    }
}

/// A rating out of ten shown in stars: half of it, with `.5` for an odd rating.
pub open spec fn half_star_text(rating: int) -> Seq<char> {
    if rating % 2 != 0 {
        int_digits(half_toward_zero(rating)) + ".5"@
    } else {
        int_digits(half_toward_zero(rating))
    }
}

/// Shows a rating out of ten in stars.
pub fn format_half_star_rating(rating: i64) -> (r: String)
    ensures
        r@ == half_star_text(rating as int),
{
    let whole = rating / 2;
    let half = rating % 2 != 0;
    assert(whole == half_toward_zero(rating as int));
    assert(half == (rating as int % 2 != 0));
    let mut v = i64_digits(whole);
    if half {
        append_str(&mut v, ".5");
    }
    string_of(&v)
}

/// Index of the first entry equal to `q` ignoring ASCII case, or -1.
pub open spec fn first_equal_ignoring_case(items: Seq<Seq<char>>, q: Seq<char>) -> int
    decreases items.len(),
{
    if items.len() == 0 {
        -1
    } else {
        let r = first_equal_ignoring_case(items.drop_last(), q);
        if r >= 0 {
            r
        } else if ascii_lower(items.last()) == ascii_lower(q) {
            items.len() - 1
        } else {
            -1
        }
    }
}

/// The search history after a search for `query`: the trimmed query first, its
/// earlier entry (matched ignoring ASCII case) dropped, at most `max` entries kept.
/// A blank query or a zero bound leaves the history as it is.
pub open spec fn history_after(h: Seq<Seq<char>>, max: int, query: Seq<char>) -> Seq<Seq<char>> {
    let q = trim(query);
    if q.len() == 0 || max == 0 {
        h
    } else {
        let i = first_equal_ignoring_case(h, q);
        let rest = if i >= 0 {
            h.remove(i)
        } else {
            h
        };
        let all = seq![q] + rest;
        if all.len() > max {
            all.take(max)
        } else {
            all
        }
    }
}

proof fn lemma_first_equal_bounds(items: Seq<Seq<char>>, q: Seq<char>)
    ensures
        -1 <= first_equal_ignoring_case(items, q) < items.len(),
    decreases items.len(),
{
    if items.len() > 0 {
        lemma_first_equal_bounds(items.drop_last(), q);
    }
}

proof fn lemma_first_equal_found(items: Seq<Seq<char>>, q: Seq<char>, i: int)
    requires
        0 <= i < items.len(),
        ascii_lower(items[i]) == ascii_lower(q),
        forall|j: int| 0 <= j < i ==> ascii_lower(#[trigger] items[j]) != ascii_lower(q),
    ensures
        first_equal_ignoring_case(items, q) == i,
    decreases items.len(),
{
    if i < items.len() - 1 {
        lemma_first_equal_found(items.drop_last(), q, i);
    } else {
        lemma_first_equal_none(items.drop_last(), q);
    }
}

proof fn lemma_first_equal_none(items: Seq<Seq<char>>, q: Seq<char>)
    requires
        forall|j: int| 0 <= j < items.len() ==> ascii_lower(#[trigger] items[j]) != ascii_lower(q),
    ensures
        first_equal_ignoring_case(items, q) == -1,
    decreases items.len(),
{
    if items.len() > 0 {
        lemma_first_equal_none(items.drop_last(), q);
    }
}

/// Records a search in the history.
pub fn record_search_history(history: &mut Vec<String>, max: usize, query: &str)
    ensures
        string_views(final(history)@) == history_after(string_views(old(history)@), max as int, query@),
{
    let q = trim_vec(&chars_of(query));
    if q.len() == 0 || max == 0 {
        return;
    }
    let ghost h0 = string_views(history@);
    let mut i: usize = 0;
    let mut found: Option<usize> = None;
    while found.is_none() && i < history.len()
        invariant
            i <= history.len(),
            string_views(history@) == h0,
            found is None ==> forall|j: int| 0 <= j < i ==> ascii_lower(#[trigger] h0[j]) != ascii_lower(q@),
            found matches Some(k) ==> k < h0.len() && first_equal_ignoring_case(h0, q@) == k,
        decreases history.len() - i + if found is None { 1int } else { 0int },
    {
        let item = chars_of(history[i].as_str());
        assert(item@ == h0[i as int]);
        if eq_ignore_ascii_case(&item, &q) {
            proof {
                lemma_first_equal_found(h0, q@, i as int);
            }
            found = Some(i);
        } else {
            i += 1;
        }
    }
    proof {
        if found is None {
            lemma_first_equal_none(h0, q@);
        }
    }
    match found {
        Some(k) => {
            history.remove(k);
            assert(string_views(history@) =~= h0.remove(k as int));
        },
        None => {},
    }
    let ghost h1 = string_views(history@);
    history.insert(0, string_of(&q));
    assert(string_views(history@) =~= seq![q@] + h1);
    let ghost h2 = string_views(history@);
    history.truncate(max);
    assert(string_views(history@) =~= if h2.len() > max {
        h2.take(max as int)
    } else {
        h2
    });
}

/// The folder and leaf of a saved search name `folder/leaf`: split at the last
/// `/` when both sides are non-blank, else `Ungrouped` and the whole name.
pub open spec fn saved_search_parts(name: Seq<char>) -> (Seq<char>, Seq<char>) {
    let i = last_index(name, '/');
    if i >= 0 && trim(name.take(i)).len() > 0 && trim(name.skip(i + 1)).len() > 0 {
        (name.take(i), name.skip(i + 1))
    } else {
        ("Ungrouped"@, name)
    }
}

/// Splits a saved search name into its folder and leaf.
pub fn split_saved_search_name(name: &str) -> (r: (String, String))
    ensures
        (r.0@, r.1@) == saved_search_parts(name@),
{
    let v = chars_of(name);
    match rfind_char(&v, '/') {
        Some(i) => {
            let folder = slice_vec(&v, 0, i);
            let leaf = slice_vec(&v, i + 1, v.len());
            assert(folder@ =~= v@.take(i as int));
            assert(leaf@ =~= v@.skip(i + 1));
            if trim_vec(&folder).len() > 0 && trim_vec(&leaf).len() > 0 {
                return (string_of(&folder), string_of(&leaf));
            }
        },
        None => {},
    }
    (string_of(&chars_of("Ungrouped")), string_of(&v))
}

/// The name a saved search is stored under: its trimmed name, behind its trimmed
/// folder and a slash when the folder is not blank.
pub open spec fn saved_search_full_name(folder: Seq<char>, name: Seq<char>) -> Seq<char> {
    if trim(folder).len() == 0 {
        trim(name)
    } else {
        trim(folder) + seq!['/'] + trim(name)
    }
}

/// Joins a folder and a name into the name a saved search is stored under.
pub fn full_saved_search_name(folder: &str, name: &str) -> (r: String)
    ensures
        r@ == saved_search_full_name(folder@, name@),
{
    let f = trim_vec(&chars_of(folder));
    let n = trim_vec(&chars_of(name));
    if f.len() == 0 {
        return string_of(&n);
    }
    let mut out = f;
    append_str(&mut out, "/");
    append_vec(&mut out, &n);
    proof {
        reveal_strlit("/");
    }
    string_of(&out)
}

/// A saved search stored from a folder and a name is listed under them again:
/// splitting its stored name gives back the trimmed folder (`Ungrouped` when it
/// was blank) and the trimmed name, as long as the name is not blank and holds no
/// slash of its own.
pub proof fn lemma_saved_search_name_round_trip(folder: Seq<char>, name: Seq<char>)
    requires
        trim(name).len() > 0,
        !trim(name).contains('/'),
    ensures
        saved_search_parts(saved_search_full_name(folder, name)) == if trim(folder).len() == 0 {
            ("Ungrouped"@, trim(name))
        } else {
            (trim(folder), trim(name))
        },
{
    let f = trim(folder);
    let n = trim(name);
    let full = saved_search_full_name(folder, name);
    if f.len() == 0 {
        crate::text::lemma_last_index_none(n, '/');
    } else {
        assert(full[f.len() as int] == '/');
        assert forall|j: int| f.len() < j < full.len() implies full[j] != '/' by {
            assert(full[j] == n[j - f.len() - 1]);
        }
        crate::text::lemma_last_index_unique(full, '/', f.len() as int);
        assert(full.take(f.len() as int) =~= f);
        assert(full.skip(f.len() as int + 1) =~= n);
        crate::fields::lemma_trim_idempotent(folder);
        crate::fields::lemma_trim_idempotent(name);
    }
}

/// A CSV cell: quoted, with quotes doubled, when it holds a comma or a quote.
pub open spec fn csv_cell(value: Seq<char>) -> Seq<char> {
    if value.contains(',') || value.contains('"') {
        seq!['"'] + replace_all(value, seq!['"'], seq!['"', '"']) + seq!['"']
    } else {
        value
    }
}

/// Escapes a value for a CSV cell.
pub fn escape_csv_cell(value: &str) -> (r: String)
    ensures
        r@ == csv_cell(value@),
{
    let v = chars_of(value);
    if has_char(&v, ',') || has_char(&v, '"') {
        proof {
            reveal_strlit("\"");
            reveal_strlit("\"\"");
        }
        let inner = replace_str(&v, "\"", "\"\"");
        assert("\""@ =~= seq!['"']);
        assert("\"\""@ =~= seq!['"', '"']);
        let mut out: Vec<char> = Vec::new();
        out.push('"');
        append_vec(&mut out, &inner);
        out.push('"');
        assert(out@ =~= csv_cell(value@));
        string_of(&out)
    } else {
        string_of(&v)
    }
}

/// One line of a statistics export: `kind,name,value`.
pub open spec fn stat_line(kind: Seq<char>, name: Seq<char>, value: nat) -> Seq<char> {
    kind + seq![','] + csv_cell(name) + seq![','] + nat_digits(value)
}

/// Appends a `kind,name,count` line for each counted item, in order.
pub fn append_stat_lines(lines: &mut Vec<String>, kind: &str, items: &Vec<(String, usize)>)
    ensures
        string_views(final(lines)@) == string_views(old(lines)@) + Seq::new(
            items@.len(),
            |i: int| stat_line(kind@, items@[i].0@, items@[i].1 as nat),
        ),
{
    let ghost start = string_views(lines@);
    let mut i: usize = 0;
    while i < items.len()
        invariant
            i <= items.len(),
            string_views(lines@) == start + Seq::new(
                i as nat,
                |j: int| stat_line(kind@, items@[j].0@, items@[j].1 as nat),
            ),
        decreases items.len() - i,
    {
        let mut v: Vec<char> = Vec::new();
        append_str(&mut v, kind);
        v.push(',');
        let cell = escape_csv_cell(items[i].0.as_str());
        append_str(&mut v, cell.as_str());
        v.push(',');
        append_vec(&mut v, &u64_digits(items[i].1 as u64));
        assert(v@ =~= stat_line(kind@, items@[i as int].0@, items@[i as int].1 as nat));
        let ghost before = string_views(lines@);
        lines.push(string_of(&v));
        assert(string_views(lines@) =~= before.push(v@));
        assert(string_views(lines@) =~= start + Seq::new(
            (i + 1) as nat,
            |j: int| stat_line(kind@, items@[j].0@, items@[j].1 as nat),
        ));
        i += 1;
    }
}

/// Appends a `kind,name,bytes` line for each sized item, in order.
pub fn append_size_stat_lines(lines: &mut Vec<String>, kind: &str, items: &Vec<(String, u64)>)
    ensures
        string_views(final(lines)@) == string_views(old(lines)@) + Seq::new(
            items@.len(),
            |i: int| stat_line(kind@, items@[i].0@, items@[i].1 as nat),
        ),
{
    let ghost start = string_views(lines@);
    let mut i: usize = 0;
    while i < items.len()
        invariant
            i <= items.len(),
            string_views(lines@) == start + Seq::new(
                i as nat,
                |j: int| stat_line(kind@, items@[j].0@, items@[j].1 as nat),
            ),
        decreases items.len() - i,
    {
        let mut v: Vec<char> = Vec::new();
        append_str(&mut v, kind);
        v.push(',');
        let cell = escape_csv_cell(items[i].0.as_str());
        append_str(&mut v, cell.as_str());
        v.push(',');
        append_vec(&mut v, &u64_digits(items[i].1));
        assert(v@ =~= stat_line(kind@, items@[i as int].0@, items@[i as int].1 as nat));
        let ghost before = string_views(lines@);
        lines.push(string_of(&v));
        assert(string_views(lines@) =~= before.push(v@));
        assert(string_views(lines@) =~= start + Seq::new(
            (i + 1) as nat,
            |j: int| stat_line(kind@, items@[j].0@, items@[j].1 as nat),
        ));
        i += 1;
    }
}

/// A stored rating: the trimmed text as a whole number, 0 when it is not one.
pub open spec fn rating_value(text: Seq<char>) -> i64 {
    match parse_i64(trim(text)) {
        Some(n) => n,
        None => 0,
    }
}

/// Reads a stored rating.
pub fn parse_rating_value(rating: &str) -> (r: i64)
    ensures
        r == rating_value(rating@),
{
    match parse_i64_vec(&trim_vec(&chars_of(rating))) {
        Some(n) => n,
        None => 0,
    }
}

/// A format badge: the trimmed format upper-cased, in brackets.
pub open spec fn badge(format: Seq<char>) -> Seq<char> {
    seq!['['] + uppercase(trim(format)) + seq![']']
}

/// Shows a format as a badge.
pub fn format_badge_text(format: &str) -> (r: String)
    ensures
        r@ == badge(format@),
{
    let t = string_of(&trim_vec(&chars_of(format)));
    let u = std_to_uppercase(t.as_str());
    let mut v: Vec<char> = Vec::new();
    v.push('[');
    append_str(&mut v, u.as_str());
    v.push(']');
    assert(v@ =~= badge(format@));
    string_of(&v)
}

/// The badges of the languages of a comma-separated list, separated by spaces.
pub open spec fn language_badges(languages: Seq<char>) -> Seq<char> {
    join(csv_items(languages).map_values(|l: Seq<char>| badge(l)), seq![' '])
}

/// Shows a comma-separated list of languages as badges.
pub fn language_badge_text(languages: &str) -> (r: String)
    ensures
        r@ == language_badges(languages@),
{
    let parts = split_csv_field(languages);
    let mut badges: Vec<Vec<char>> = Vec::new();
    let mut i: usize = 0;
    while i < parts.len()
        invariant
            i <= parts.len(),
            string_views(parts@) == csv_items(languages@),
            views(badges@) == string_views(parts@).take(i as int).map_values(|l: Seq<char>| badge(l)),
        decreases parts.len() - i,
    {
        let b = format_badge_text(parts[i].as_str());
        let ghost before = badges@;
        badges.push(chars_of(b.as_str()));
        assert(string_views(parts@)[i as int] == parts@[i as int]@);
        assert(views(badges@) =~= views(before).push(badge(string_views(parts@)[i as int])));
        assert(views(badges@) =~= string_views(parts@).take(i + 1).map_values(|l: Seq<char>| badge(l)));
        i += 1;
    }
    assert(string_views(parts@).take(parts.len() as int) =~= string_views(parts@));
    proof {
        reveal_strlit(" ");
    }
    assert(" "@ =~= seq![' ']);
    string_of(&crate::text::join_vec(&badges, &chars_of(" ")))
}

/// A date cell: `-` for a blank value, else the trimmed value up to its first `T`.
pub open spec fn date_cell(value: Seq<char>) -> Seq<char> {
    let t = trim(value);
    if t.len() == 0 {
        seq!['-']
    } else if first_index(t, 'T') >= 0 {
        t.take(first_index(t, 'T'))
    } else {
        t
    }
}

/// Shows a stored date or date-time as its date.
pub fn format_date_cell(value: &str) -> (r: String)
    ensures
        r@ == date_cell(value@),
{
    let t = trim_vec(&chars_of(value));
    if t.len() == 0 {
        let mut v: Vec<char> = Vec::new();
        v.push('-');
        return string_of(&v);
    }
    match find_char(&t, 'T') {
        Some(i) => {
            let d = slice_vec(&t, 0, i);
            assert(d@ =~= t@.take(i as int));
            string_of(&d)
        },
        None => string_of(&t),
    }
}


/// The text of HTML with its tags dropped: characters between `<` and `>` are
/// skipped, `<` and `>` themselves too.
pub open spec fn untagged(s: Seq<char>, in_tag: bool) -> Seq<char>
    decreases s.len(),
{
    if s.len() == 0 {
        Seq::empty()
    } else if s[0] == '<' {
        untagged(s.drop_first(), true)
    } else if s[0] == '>' {
        untagged(s.drop_first(), false)
    } else if in_tag {
        untagged(s.drop_first(), true)
    } else {
        seq![s[0]] + untagged(s.drop_first(), false)
    }
}

/// Plain text of an HTML comment: tags dropped, then `&amp;`, `&lt;`, `&gt;`,
/// `&quot;` and `&#39;` decoded in that order.
pub open spec fn plain_text(s: Seq<char>) -> Seq<char> {
    replace_all(
        replace_all(
            replace_all(
                replace_all(replace_all(untagged(s, false), "&amp;"@, "&"@), "&lt;"@, "<"@),
                "&gt;"@,
                ">"@,
            ),
            "&quot;"@,
            "\""@,
        ),
        "&#39;"@,
        "'"@,
    )
}

/// Turns an HTML comment into plain text.
pub fn strip_html_tags(text: &str) -> (r: String)
    ensures
        r@ == plain_text(text@),
{
    let v = chars_of(text);
    let mut out: Vec<char> = Vec::new();
    let mut in_tag = false;
    let mut i: usize = 0;
    assert(v@.skip(0) =~= v@);
    while i < v.len()
        invariant
            i <= v.len(),
            v@ == text@,
            out@ + untagged(v@.skip(i as int), in_tag) == untagged(v@, false),
        decreases v.len() - i,
    {
        let c = v[i];
        let ghost rest = v@.skip(i as int);
        assert(rest.drop_first() =~= v@.skip(i + 1));
        assert(rest[0] == c);
        if c == '<' {
            in_tag = true;
        } else if c == '>' {
            in_tag = false;
        } else if !in_tag {
            let ghost before = out@;
            out.push(c);
            assert(out@ + untagged(v@.skip(i + 1), false) =~= before + (seq![c] + untagged(v@.skip(i + 1), false)));
        }
        i += 1;
    }
    assert(v@.skip(v.len() as int) =~= Seq::<char>::empty());
    assert(out@ =~= untagged(v@, false));
    proof {
        reveal_strlit("&amp;");
        reveal_strlit("&lt;");
        reveal_strlit("&gt;");
        reveal_strlit("&quot;");
        reveal_strlit("&#39;");
    }
    let a = replace_str(&out, "&amp;", "&");
    let b = replace_str(&a, "&lt;", "<");
    let c = replace_str(&b, "&gt;", ">");
    let d = replace_str(&c, "&quot;", "\"");
    let e = replace_str(&d, "&#39;", "'");
    string_of(&e)
}

/// State of a metadata download in the queue.
#[derive(Clone, Copy, Debug, PartialEq, Eq, Structural)]
pub enum MetadataQueueStatus {
    Pending,
    Running,
    Success,
    Failed,
}

/// The word shown for a queue state.
pub open spec fn queue_status_label(s: MetadataQueueStatus) -> Seq<char> {
    match s {
        MetadataQueueStatus::Pending => "pending"@,
        MetadataQueueStatus::Running => "running"@,
        MetadataQueueStatus::Success => "success"@,
        MetadataQueueStatus::Failed => "failed"@,
    }
}

impl MetadataQueueStatus {
    /// The word shown for the state.
    pub fn label(self) -> (r: &'static str)
        ensures
            r@ == queue_status_label(self),
    {
        match self {
            MetadataQueueStatus::Pending => "pending",
            MetadataQueueStatus::Running => "running",
            MetadataQueueStatus::Success => "success",
            MetadataQueueStatus::Failed => "failed",
        }
    }
}

/// What a background job does.
#[derive(Clone, Copy, Debug, PartialEq, Eq, Structural)]
pub enum JobKind {
    Generic,
    Convert,
    SaveToDisk,
}

/// The name shown for a kind of job.
pub open spec fn job_kind_label(k: JobKind) -> Seq<char> {
    match k {
        JobKind::Generic => "General"@,
        JobKind::Convert => "Convert"@,
        JobKind::SaveToDisk => "Save to disk"@,
    }
}

impl JobKind {
    /// The name shown for the kind.
    pub fn label(self) -> (r: &'static str)
        ensures
            r@ == job_kind_label(self),
    {
        match self {
            JobKind::Generic => "General",
            JobKind::Convert => "Convert",
            JobKind::SaveToDisk => "Save to disk",
        }
    }
}

/// State of a background job.
#[derive(Clone, Copy, Debug, PartialEq, Eq, Structural)]
pub enum JobStatus {
    Queued,
    Running,
    Paused,
    Completed,
    Cancelled,
    Failed,
}

/// The word shown for a job state.
pub open spec fn job_status_label(s: JobStatus) -> Seq<char> {
    match s {
        JobStatus::Queued => "Queued"@,
        JobStatus::Running => "Running"@,
        JobStatus::Paused => "Paused"@,
        JobStatus::Completed => "Completed"@,
        JobStatus::Cancelled => "Cancelled"@,
        JobStatus::Failed => "Failed"@,
    }
}

impl JobStatus {
    /// The word shown for the state.
    pub fn label(&self) -> (r: &'static str)
        ensures
            r@ == job_status_label(*self),
    {
        match self {
            JobStatus::Queued => "Queued",
            JobStatus::Running => "Running",
            JobStatus::Paused => "Paused",
            JobStatus::Completed => "Completed",
            JobStatus::Cancelled => "Cancelled",
            JobStatus::Failed => "Failed",
        }
    }
}


/// How many non-blank identifier lines have a `type:value` colon, and how many do not.
pub open spec fn identifier_line_counts_of(ls: Seq<Seq<char>>) -> (nat, nat)
    decreases ls.len(),
{
    if ls.len() == 0 {
        (0, 0)
    } else {
        let r = identifier_line_counts_of(ls.drop_last());
        let t = trim(ls.last());
        if t.len() == 0 {
            r
        } else if t.contains(':') {
            ((r.0 + 1) as nat, r.1)
        } else {
            (r.0, (r.1 + 1) as nat)
        }
    }
}

/// Counts the valid and invalid lines of an identifiers field.
pub fn identifier_line_counts(identifiers: &str) -> (r: (usize, usize))
    ensures
        (r.0 as nat, r.1 as nat) == identifier_line_counts_of(crate::text::lines(identifiers@)),
{
    let ls = crate::text::lines_vec(&chars_of(identifiers));
    let mut valid: usize = 0;
    let mut invalid: usize = 0;
    let mut i: usize = 0;
    while i < ls.len()
        invariant
            i <= ls@.len(),
            views(ls@) == crate::text::lines(identifiers@),
            (valid as nat, invalid as nat) == identifier_line_counts_of(views(ls@).take(i as int)),
            valid + invalid <= i,
        decreases ls.len() - i,
    {
        assert(views(ls@).take(i + 1).drop_last() =~= views(ls@).take(i as int));
        assert(views(ls@)[i as int] == ls@[i as int]@);
        let t = trim_vec(&ls[i]);
        if t.len() > 0 {
            if has_char(&t, ':') {
                valid = valid + 1;
            } else {
                invalid = invalid + 1;
            }
        }
        i += 1;
    }
    assert(views(ls@).take(ls@.len() as int) =~= views(ls@));
    (valid, invalid)
}

} // verus!
