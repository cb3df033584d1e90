//! Decisions behind the library window's dialogs and panels.
use crate::display::JobStatus;
use crate::text::{
    chars_of, contains_seq, contains_vec, lower_vec, lowercase, string_of, string_views, trim,
    trim_vec, vec_eq_str,
};
use vstd::prelude::*;

verus! {

/// The warnings shown for the options of a conversion: MOBI with embedded
/// fonts, PDF with line unwrapping, and four zero page margins.
pub open spec fn conversion_warnings_of(
    output_format: Seq<char>,
    embed_fonts: bool,
    heuristic_unwrap_lines: bool,
    zero_margins: bool,
) -> Seq<Seq<char>> {
    let f = lowercase(output_format);
    let a: Seq<Seq<char>> = if f == "mobi"@ && embed_fonts {
        seq!["MOBI embedding may be ignored by readers"@]
    } else {
        Seq::empty()
    };
    let b: Seq<Seq<char>> = if f == "pdf"@ && heuristic_unwrap_lines {
        seq!["PDF output ignores hard line unwrap heuristics"@]
    } else {
        Seq::empty()
    };
    let c: Seq<Seq<char>> = if zero_margins {
        seq!["Zero page margins can reduce readability on small screens"@]
    } else {
        Seq::empty()
    };
    a + b + c
}

/// Appends a message to a list of texts.
fn push_text(out: &mut Vec<String>, m: &str)
    ensures
        string_views(final(out)@) == string_views(old(out)@).push(m@),
{
    out.push(m.to_owned());
    assert(string_views(out@) =~= string_views(old(out)@).push(m@));
}

/// Warnings for a conversion's output format and options; `zero_margins` says
/// whether all four page margins are zero.
pub fn conversion_warnings(
    output_format: &str,
    embed_fonts: bool,
    heuristic_unwrap_lines: bool,
    zero_margins: bool,
) -> (r: Vec<String>)
    ensures
        string_views(r@) == conversion_warnings_of(output_format@, embed_fonts, heuristic_unwrap_lines, zero_margins),
{
    let f = lower_vec(&chars_of(output_format));
    let mut out: Vec<String> = Vec::new();
    let ghost e = string_views(out@);
    if vec_eq_str(&f, "mobi") && embed_fonts {
        push_text(&mut out, "MOBI embedding may be ignored by readers");
    }
    let ghost s1 = string_views(out@);
    if vec_eq_str(&f, "pdf") && heuristic_unwrap_lines {
        push_text(&mut out, "PDF output ignores hard line unwrap heuristics");
    }
    let ghost s2 = string_views(out@);
    if zero_margins {
        push_text(&mut out, "Zero page margins can reduce readability on small screens");
    }
    proof {
        let spec = conversion_warnings_of(output_format@, embed_fonts, heuristic_unwrap_lines, zero_margins);
        assert(e =~= Seq::<Seq<char>>::empty());
        assert(string_views(out@) =~= spec);
    }
    out
}

/// A text is highlighted when the trimmed query is not empty and its lower case
/// occurs in the text's lower case.
pub open spec fn highlighted(text: Seq<char>, query: Seq<char>) -> bool {
    trim(query).len() > 0 && contains_seq(lowercase(text), lowercase(trim(query)))
}

/// Whether a text is highlighted for a search query.
pub fn text_matches_query(text: &str, query: &str) -> (r: bool)
    ensures
        r == highlighted(text@, query@),
{
    let q = trim_vec(&chars_of(query));
    if q.len() == 0 {
        return false;
    }
    let hay = lower_vec(&chars_of(text));
    let needle = lower_vec(&q);
    contains_vec(&hay, &needle)
}

/// The metadata that a download returned for a book, as far as the queue shows it.
#[derive(Clone, Debug)]
pub struct MetadataDownloadResult {
    pub book_id: i64,
    pub provider: String,
    pub title: Option<String>,
    pub authors: Vec<String>,
}

/// `title — authors`, with placeholders for a missing title or author list.
pub open spec fn preview_line_of(title: Option<Seq<char>>, authors: Seq<Seq<char>>) -> Seq<char> {
    let t = match title {
        Some(t) => t,
        None => "<untitled>"@,
    };
    let a = if authors.len() == 0 {
        "<unknown author>"@
    } else {
        crate::text::join(authors, ", "@)
    };
    t + " — "@ + a
}

impl MetadataDownloadResult {
    /// The line that previews the result in the queue.
    pub fn preview_line(&self) -> (r: String)
        ensures
            r@ == preview_line_of(crate::paths::opt_view(self.title), string_views(self.authors@)),
    {
        let mut out = match &self.title {
            Some(t) => chars_of(t.as_str()),
            None => chars_of("<untitled>"),
        };
        crate::text::append_str(&mut out, " — ");
        if self.authors.len() == 0 {
            crate::text::append_str(&mut out, "<unknown author>");
        } else {
            let parts = crate::text::vecs_of(&self.authors);
            let joined = crate::text::join_with(&parts, ", ");
            crate::text::append_vec(&mut out, &joined);
        }
        string_of(&out)
    }
}

/// The clause the query builder writes for a field, an operator and a value.
pub open spec fn builder_clause(field: Seq<char>, op: Seq<char>, value: Seq<char>) -> Seq<char> {
    if op == "is"@ {
        field + ":\""@ + value + "\""@
    } else if op == "not"@ {
        "not "@ + field + ":\""@ + value + "\""@
    } else {
        field + ":"@ + value
    }
}

/// Adds the query builder's clause to a virtual library query: nothing when the
/// trimmed field, operator or value is empty; the clause alone when the query is
/// blank; else the query, ` and ` and the clause.
pub fn append_query_builder_clause(new_query: &mut String, builder_field: &str, builder_op: &str, builder_value: &str)
    ensures
        trim(builder_field@).len() == 0 || trim(builder_op@).len() == 0 || trim(builder_value@).len() == 0
            ==> final(new_query)@ == old(new_query)@,
        trim(builder_field@).len() > 0 && trim(builder_op@).len() > 0 && trim(builder_value@).len() > 0
            ==> final(new_query)@ == {
            let c = builder_clause(trim(builder_field@), trim(builder_op@), trim(builder_value@));
            if trim(old(new_query)@).len() == 0 {
                c
            } else {
                old(new_query)@ + " and "@ + c
            }
        },
{
    let field = trim_vec(&chars_of(builder_field));
    let op = trim_vec(&chars_of(builder_op));
    let value = trim_vec(&chars_of(builder_value));
    if field.len() == 0 || op.len() == 0 || value.len() == 0 {
        return;
    }
    let mut clause: Vec<char> = Vec::new();
    if vec_eq_str(&op, "is") {
        crate::text::append_vec(&mut clause, &field);
        crate::text::append_str(&mut clause, ":\"");
        crate::text::append_vec(&mut clause, &value);
        crate::text::append_str(&mut clause, "\"");
    } else if vec_eq_str(&op, "not") {
        crate::text::append_str(&mut clause, "not ");
        crate::text::append_vec(&mut clause, &field);
        crate::text::append_str(&mut clause, ":\"");
        crate::text::append_vec(&mut clause, &value);
        crate::text::append_str(&mut clause, "\"");
    } else {
        crate::text::append_vec(&mut clause, &field);
        crate::text::append_str(&mut clause, ":");
        crate::text::append_vec(&mut clause, &value);
    }
    assert(clause@ =~= builder_clause(field@, op@, value@));
    let current = trim_vec(&chars_of(new_query.as_str()));
    if current.len() == 0 {
        *new_query = string_of(&clause);
    } else {
        let mut q = chars_of(new_query.as_str());
        crate::text::append_str(&mut q, " and ");
        crate::text::append_vec(&mut q, &clause);
        *new_query = string_of(&q);
    }
}

/// Whether a job still counts as active.
pub open spec fn job_active(s: JobStatus) -> bool {
    s == JobStatus::Queued || s == JobStatus::Running || s == JobStatus::Paused
}

/// The number of active jobs.
pub open spec fn active_count(s: Seq<JobStatus>) -> nat
    decreases s.len(),
{
    if s.len() == 0 {
        0
    } else {
        active_count(s.drop_last()) + if job_active(s.last()) {
            1nat
        } else {
            0nat
        }
    }
}

/// How many of the jobs are queued, running or paused.
pub fn active_jobs_count(statuses: &Vec<JobStatus>) -> (r: usize)
    ensures
        r == active_count(statuses@),
{
    let mut n: usize = 0;
    let mut i: usize = 0;
    while i < statuses.len()
        invariant
            i <= statuses@.len(),
            n == active_count(statuses@.take(i as int)),
            n <= i,
        decreases statuses.len() - i,
    {
        assert(statuses@.take(i + 1).drop_last() =~= statuses@.take(i as int));
        let s = statuses[i];
        if s == JobStatus::Queued || s == JobStatus::Running || s == JobStatus::Paused {
            n += 1;
        }
        i += 1;
    }
    assert(statuses@.take(statuses@.len() as int) =~= statuses@);
    n
}

/// Drops the oldest jobs beyond the history's limit.
pub fn trim_job_history<T>(jobs: &mut Vec<T>, max_job_history: usize)
    ensures
        final(jobs)@ == if old(jobs)@.len() > max_job_history {
            old(jobs)@.skip(old(jobs)@.len() - max_job_history)
        } else {
            old(jobs)@
        },
{
    if jobs.len() > max_job_history {
        let remove = jobs.len() - max_job_history;
        let mut k: usize = 0;
        assert(old(jobs)@.skip(0) =~= old(jobs)@);
        while k < remove
            invariant
                k <= remove,
                remove == old(jobs)@.len() - max_job_history,
                remove <= old(jobs)@.len(),
                jobs@ == old(jobs)@.skip(k as int),
            decreases remove - k,
        {
            jobs.remove(0);
            assert(jobs@ =~= old(jobs)@.skip(k + 1));
            k += 1;
        }
    }
}

/// Adds a notification to the queue of those shown, keeping only the newest
/// `toast_max`.
pub fn push_toast<T>(toasts: &mut Vec<T>, toast: T, toast_max: usize)
    ensures
        final(toasts)@ == if old(toasts)@.len() + 1 > toast_max {
            old(toasts)@.push(toast).skip(old(toasts)@.len() + 1 - toast_max)
        } else {
            old(toasts)@.push(toast)
        },
{
    toasts.push(toast);
    trim_job_history(toasts, toast_max);
}

/// The custom column being edited: the trimmed label typed in, or else the
/// first column's label.
pub fn selected_column_label(edit_label: &str, column_labels: &Vec<String>) -> (r: Option<String>)
    ensures
        crate::paths::opt_view(r) == if trim(edit_label@).len() > 0 {
            Some(trim(edit_label@))
        } else if column_labels@.len() > 0 {
            Some(column_labels@[0]@)
        } else {
            None::<Seq<char>>
        },
{
    let t = trim_vec(&chars_of(edit_label));
    if t.len() > 0 {
        Some(string_of(&t))
    } else if column_labels.len() > 0 {
        Some(column_labels[0].clone())
    } else {
        None
    }
}

/// The value of a hexadecimal digit, either case.
pub open spec fn hex_value(c: char) -> Option<int> {
    if '0' <= c <= '9' {
        Some(c as int - '0' as int)
    } else if 'a' <= c <= 'f' {
        Some(c as int - 'a' as int + 10)
    } else if 'A' <= c <= 'F' {
        Some(c as int - 'A' as int + 10)
    } else {
        None
    }
}

/// `u8::from_str_radix` in base 16 on a two-character text: two digits, or `+`
/// and one digit.
pub open spec fn hex_byte(a: char, b: char) -> Option<u8> {
    match (hex_value(a), hex_value(b)) {
        (Some(x), Some(y)) => Some((16 * x + y) as u8),
        (None, Some(y)) => if a == '+' {
            Some(y as u8)
        } else {
            None
        },
        _ => None,
    }
}

/// Drops leading `#` characters.
pub open spec fn strip_hashes(s: Seq<char>) -> Seq<char>
    decreases s.len(),
{
    if s.len() > 0 && s[0] == '#' {
        strip_hashes(s.drop_first())
    } else {
        s
    }
}

/// The digits of a colour text: trimmed, without its leading `#`s.
pub open spec fn color_digits(value: Seq<char>) -> Seq<char> {
    strip_hashes(trim(value))
}

/// The bytes a character takes in UTF-8.
pub open spec fn utf8_width(c: char) -> nat {
    if (c as u32) < 0x80 {
        1
    } else if (c as u32) < 0x800 {
        2
    } else if (c as u32) < 0x10000 {
        3
    } else {
        4
    }
}

/// The bytes a text takes in UTF-8.
pub open spec fn utf8_len(s: Seq<char>) -> nat
    decreases s.len(),
{
    if s.len() == 0 {
        0
    } else {
        utf8_len(s.drop_last()) + utf8_width(s.last())
    }
}

/// Whether byte offset `b` falls between two characters of `s`.
pub open spec fn char_boundary(s: Seq<char>, b: nat) -> bool {
    exists|i: int| 0 <= i <= s.len() && utf8_len(#[trigger] s.take(i)) == b
}

/// Colour digits of six bytes are cut at bytes 2 and 4; those offsets must fall
/// between characters.
pub open spec fn color_cuts_ok(value: Seq<char>) -> bool {
    let d = color_digits(value);
    utf8_len(d) == 6 ==> char_boundary(d, 2) && char_boundary(d, 4)
}

/// The colour of a `#rrggbb` text.
pub open spec fn hex_color(value: Seq<char>) -> Option<(u8, u8, u8)> {
    let d = color_digits(value);
    if d.len() == 6 {
        match (hex_byte(d[0], d[1]), hex_byte(d[2], d[3]), hex_byte(d[4], d[5])) {
            (Some(r), Some(g), Some(b)) => Some((r, g, b)),
            _ => None,
        }
    } else {
        None
    }
}

fn hex_digit(c: char) -> (r: Option<u8>)
    ensures
        match r {
            Some(v) => hex_value(c) == Some(v as int),
            None => hex_value(c) is None,
        },
{
    if '0' <= c && c <= '9' {
        Some(((c as u32) - ('0' as u32)) as u8)
    } else if 'a' <= c && c <= 'f' {
        Some(((c as u32) - ('a' as u32) + 10) as u8)
    } else if 'A' <= c && c <= 'F' {
        Some(((c as u32) - ('A' as u32) + 10) as u8)
    } else {
        None
    }
}

fn parse_hex_byte(a: char, b: char) -> (r: Option<u8>)
    ensures
        r == hex_byte(a, b),
{
    match (hex_digit(a), hex_digit(b)) {
        (Some(x), Some(y)) => Some(16 * x + y),
        (None, Some(y)) => if a == '+' {
            Some(y)
        } else {
            None
        },
        _ => None,
    }
}

/// Reads a `#rrggbb` colour (any number of leading `#`, surrounding blanks
/// ignored), as red, green and blue.
pub fn parse_hex_color(value: &str) -> (r: Option<(u8, u8, u8)>)
    requires
        color_cuts_ok(value@),
    ensures
        r == hex_color(value@),
{
    let t = trim_vec(&chars_of(value));
    let mut start: usize = 0;
    assert(t@.skip(0) =~= t@);
    while start < t.len() && t[start] == '#'
        invariant
            start <= t@.len(),
            strip_hashes(t@.skip(start as int)) == strip_hashes(t@),
        decreases t.len() - start,
    {
        assert(t@.skip(start as int).drop_first() =~= t@.skip(start + 1));
        start += 1;
    }
    let d = crate::text::slice_vec(&t, start, t.len());
    assert(d@ =~= t@.skip(start as int));
    assert(strip_hashes(d@) == d@);
    if d.len() != 6 {
        return None;
    }
    match (parse_hex_byte(d[0], d[1]), parse_hex_byte(d[2], d[3]), parse_hex_byte(d[4], d[5])) {
        (Some(r), Some(g), Some(b)) => Some((r, g, b)),
        _ => None,
    }
}

/// The colour of a book's row: the missing-cover colour for a book without a
/// cover when that rule is on, else the low-rating colour for a rating above
/// zero and at most the threshold when that rule is on, else none.
pub open spec fn row_color(
    book: crate::books::BookRow,
    conditional_missing_cover: bool,
    color_missing_cover: Seq<char>,
    conditional_low_rating: bool,
    low_rating_threshold: i64,
    color_low_rating: Seq<char>,
) -> Option<(u8, u8, u8)> {
    let rating = crate::display::rating_value(book.rating@);
    if conditional_missing_cover && !book.has_cover {
        hex_color(color_missing_cover)
    } else if conditional_low_rating && rating <= low_rating_threshold && rating > 0 {
        hex_color(color_low_rating)
    } else {
        None
    }
}

/// The text colour of a book's row.
pub fn row_text_color(
    book: &crate::books::BookRow,
    conditional_missing_cover: bool,
    color_missing_cover: &str,
    conditional_low_rating: bool,
    low_rating_threshold: i64,
    color_low_rating: &str,
) -> (r: Option<(u8, u8, u8)>)
    requires
        conditional_missing_cover && !book.has_cover ==> color_cuts_ok(color_missing_cover@),
        !(conditional_missing_cover && !book.has_cover) && conditional_low_rating
            && 0 < crate::display::rating_value(book.rating@) <= low_rating_threshold
            ==> color_cuts_ok(color_low_rating@),
    ensures
        r == row_color(*book, conditional_missing_cover, color_missing_cover@, conditional_low_rating,
            low_rating_threshold, color_low_rating@),
{
    if conditional_missing_cover && !book.has_cover {
        return parse_hex_color(color_missing_cover);
    }
    let rating = crate::display::parse_rating_value(book.rating.as_str());
    if conditional_low_rating && rating <= low_rating_threshold && rating > 0 {
        return parse_hex_color(color_low_rating);
    }
    None
}

/// The first position of `x`, or -1.
pub open spec fn first_pos(s: Seq<i64>, x: i64) -> int
    decreases s.len(),
{
    if s.len() == 0 {
        -1
    } else if first_pos(s.drop_last(), x) >= 0 {
        first_pos(s.drop_last(), x)
    } else if s.last() == x {
        s.len() - 1
    } else {
        -1
    }
}

/// The smallest of `row` and the positions holding `last`.
pub open spec fn span_start(ids: Seq<i64>, last: i64, row: int) -> int
    decreases ids.len(),
{
    if ids.len() == 0 {
        row
    } else {
        let s = span_start(ids.drop_last(), last, row);
        if ids.last() == last && ids.len() - 1 < s {
            ids.len() - 1
        } else {
            s
        }
    }
}

/// The largest of `row` and the positions holding `last`.
pub open spec fn span_end(ids: Seq<i64>, last: i64, row: int) -> int
    decreases ids.len(),
{
    if ids.len() == 0 {
        row
    } else {
        let e = span_end(ids.drop_last(), last, row);
        if ids.last() == last && ids.len() - 1 > e {
            ids.len() - 1
        } else {
            e
        }
    }
}

proof fn lemma_span_bounds(ids: Seq<i64>, last: i64, row: int)
    requires
        0 <= row < ids.len(),
    ensures
        0 <= span_start(ids, last, row) <= row,
        row <= span_end(ids, last, row) < ids.len(),
    decreases ids.len(),
{
    if ids.len() - 1 > row {
        lemma_span_bounds(ids.drop_last(), last, row);
    } else {
        lemma_span_all_low(ids.drop_last(), last, row);
    }
}

proof fn lemma_span_all_low(ids: Seq<i64>, last: i64, row: int)
    requires
        0 <= row,
        ids.len() <= row,
    ensures
        0 <= span_start(ids, last, row) <= row,
        span_end(ids, last, row) == row,
    decreases ids.len(),
{
    if ids.len() > 0 {
        lemma_span_all_low(ids.drop_last(), last, row);
    }
}

/// The selection after clicking a row: with shift, the rows from the last
/// clicked book's first row (or the clicked row, if earlier) to its last row (or
/// the clicked row, if later), or the clicked book alone when none was clicked
/// before; with control or command, the clicked book toggled in or out; else
/// the clicked book alone. A click without shift makes the book the last one.
pub fn select_row(
    book_ids: &Vec<i64>,
    row_index: usize,
    shift: bool,
    ctrl_or_command: bool,
    selected_ids: &mut Vec<i64>,
    last_selected: &mut Option<i64>,
)
    requires
        row_index < book_ids@.len(),
    ensures
        ({
            let id = book_ids@[row_index as int];
            if shift {
                &&& *final(last_selected) == *old(last_selected)
                &&& final(selected_ids)@ == match *old(last_selected) {
                    Some(last) => book_ids@.subrange(
                        span_start(book_ids@, last, row_index as int),
                        span_end(book_ids@, last, row_index as int) + 1,
                    ),
                    None => seq![id],
                }
            } else if ctrl_or_command {
                &&& *final(last_selected) == Some(id)
                &&& final(selected_ids)@ == if first_pos(old(selected_ids)@, id) >= 0 {
                    old(selected_ids)@.remove(first_pos(old(selected_ids)@, id))
                } else {
                    old(selected_ids)@.push(id)
                }
            } else {
                &&& *final(last_selected) == Some(id)
                &&& final(selected_ids)@ == seq![id]
            }
        }),
{
    let id = book_ids[row_index];
    if shift {
        match *last_selected {
            Some(last) => {
                let mut start = row_index;
                let mut end = row_index;
                let mut i: usize = 0;
                while i < book_ids.len()
                    invariant
                        i <= book_ids@.len(),
                        row_index < book_ids@.len(),
                        start as int == span_start(book_ids@.take(i as int), last, row_index as int),
                        end as int == span_end(book_ids@.take(i as int), last, row_index as int),
                    decreases book_ids.len() - i,
                {
                    assert(book_ids@.take(i + 1).drop_last() =~= book_ids@.take(i as int));
                    assert(book_ids@.take(i + 1).last() == book_ids@[i as int]);
                    if book_ids[i] == last {
                        if i < start {
                            start = i;
                        }
                        if i > end {
                            end = i;
                        }
                    }
                    i += 1;
                }
                assert(book_ids@.take(book_ids@.len() as int) =~= book_ids@);
                proof {
                    lemma_span_bounds(book_ids@, last, row_index as int);
                }
                let mut picked: Vec<i64> = Vec::new();
                let mut k = start;
                while k <= end
                    invariant
                        start <= k <= end + 1,
                        end < book_ids@.len(),
                        book_ids@.len() == book_ids.len(),
                        picked@ == book_ids@.subrange(start as int, k as int),
                    decreases end + 1 - k,
                {
                    picked.push(book_ids[k]);
                    assert(picked@ =~= book_ids@.subrange(start as int, k + 1));
                    k += 1;
                }
                *selected_ids = picked;
            },
            None => {
                let mut v: Vec<i64> = Vec::new();
                v.push(id);
                *selected_ids = v;
            },
        }
    } else if ctrl_or_command {
        let mut pos: usize = 0;
        let ghost sel = selected_ids@;
        while pos < selected_ids.len() && selected_ids[pos] != id
            invariant
                pos <= selected_ids@.len(),
                selected_ids@ == sel,
                first_pos(sel.take(pos as int), id) == -1,
            decreases selected_ids.len() - pos,
        {
            assert(sel.take(pos + 1).drop_last() =~= sel.take(pos as int));
            pos += 1;
        }
        if pos < selected_ids.len() {
            proof {
                lemma_first_pos_found(sel, id, pos as int);
            }
            selected_ids.remove(pos);
        } else {
            assert(sel.take(pos as int) =~= sel);
            selected_ids.push(id);
        }
        *last_selected = Some(id);
    } else {
        let mut v: Vec<i64> = Vec::new();
        v.push(id);
        *selected_ids = v;
        *last_selected = Some(id);
    }
}

proof fn lemma_first_pos_found(s: Seq<i64>, x: i64, p: int)
    requires
        0 <= p < s.len(),
        s[p] == x,
        first_pos(s.take(p), x) == -1,
    ensures
        first_pos(s, x) == p,
    decreases s.len(),
{
    if p < s.len() - 1 {
        assert(s.drop_last().take(p) =~= s.take(p));
        lemma_first_pos_found(s.drop_last(), x, p);
    } else {
        assert(s.drop_last() =~= s.take(p));
    }
}

/// The newest `limit` notification messages, newest first.
pub fn recent_notifications(messages: &Vec<String>, limit: usize) -> (r: Vec<String>)
    ensures
        string_views(r@) == string_views(messages@).reverse().take(
            if limit < messages@.len() { limit as int } else { messages@.len() as int },
        ),
{
    let ghost rev = string_views(messages@).reverse();
    let mut out: Vec<String> = Vec::new();
    let mut k: usize = 0;
    let n = messages.len();
    while k < limit && k < n
        invariant
            n == messages@.len(),
            k <= n,
            k <= limit,
            rev == string_views(messages@).reverse(),
            string_views(out@) == rev.take(k as int),
        decreases n - k,
    {
        let ghost before = string_views(out@);
        let ghost sv = string_views(messages@);
        let m = messages[n - 1 - k].clone();
        assert(rev =~= Seq::new(sv.len(), |i: int| sv[sv.len() - 1 - i]));
        assert(rev[k as int] == m@);
        out.push(m);
        assert(string_views(out@) =~= before.push(m@));
        assert(rev.take(k + 1) =~= rev.take(k as int).push(rev[k as int]));
        k += 1;
    }
    proof {
        if n > 0 {
            let sv = string_views(messages@);
            assert(rev =~= Seq::new(sv.len(), |i: int| sv[sv.len() - 1 - i]));
        } else {
            assert(rev =~= Seq::<Seq<char>>::empty());
        }
    }
    assert(rev.len() == n);
    assert(k == limit || k == n);
    if k == n {
        assert(rev.take(k as int) =~= rev.take(n as int));
    }
    out
}

} // verus!
