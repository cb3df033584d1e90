//! The job history file: one line per job, `id`, kind, state, output path and
//! name separated by tabs.
use crate::display::{job_kind_label, job_status_label, JobKind, JobStatus};
use crate::text::{
    all_digits, chars_of, digits_value, join, join_vec, nat_digits, replace_all, replace_vec,
    split, split_vec, string_of, trim, trim_vec, u64_digits, vec_eq_str, views,
};
use vstd::prelude::*;

verus! {

/// What the history keeps of a job.
#[derive(Clone, Debug)]
pub struct JobRecord {
    pub id: u64,
    pub name: String,
    pub kind: JobKind,
    pub status: JobStatus,
    pub output_path: Option<String>,
}

/// The plain contents of a job record.
pub struct JobRecordView {
    pub id: u64,
    pub name: Seq<char>,
    pub kind: JobKind,
    pub status: JobStatus,
    pub output_path: Option<Seq<char>>,
}

impl View for JobRecord {
    type V = JobRecordView;

    open spec fn view(&self) -> JobRecordView {
        JobRecordView {
            id: self.id,
            name: self.name@,
            kind: self.kind,
            status: self.status,
            output_path: crate::paths::opt_view(self.output_path),
        }
    }
}

/// Views of a list of job records.
pub open spec fn record_views(s: Seq<JobRecord>) -> Seq<JobRecordView> {
    s.map_values(|j: JobRecord| j@)
}

/// A field with its tabs turned into spaces.
pub open spec fn untabbed(s: Seq<char>) -> Seq<char> {
    replace_all(s, seq!['\t'], seq![' '])
}

/// The fields of a job's history line.
pub open spec fn job_fields(j: JobRecordView) -> Seq<Seq<char>> {
    let out = match j.output_path {
        Some(o) => o,
        None => Seq::empty(),
    };
    seq![nat_digits(j.id as nat), job_kind_label(j.kind), job_status_label(j.status), untabbed(out), untabbed(j.name)]
}

/// A job's history line.
pub open spec fn job_line(j: JobRecordView) -> Seq<char> {
    join(job_fields(j), seq!['\t'])
}

/// The history text: the jobs' lines joined by line feeds.
pub open spec fn history_text(jobs: Seq<JobRecordView>) -> Seq<char> {
    join(jobs.map_values(|j: JobRecordView| job_line(j)), seq!['\n'])
}

/// The history text of some jobs.
pub fn encode_job_history(jobs: &Vec<JobRecord>) -> (r: String)
    ensures
        r@ == history_text(record_views(jobs@)),
{
    let tab = chars_of("\t");
    let space = chars_of(" ");
    let nl = chars_of("\n");
    proof {
        reveal_strlit("\t");
        reveal_strlit(" ");
        reveal_strlit("\n");
    }
    assert(tab@ =~= seq!['\t']);
    assert(space@ =~= seq![' ']);
    assert(nl@ =~= seq!['\n']);
    let ghost want = record_views(jobs@).map_values(|j: JobRecordView| job_line(j));
    let mut lines: Vec<Vec<char>> = Vec::new();
    let mut i: usize = 0;
    while i < jobs.len()
        invariant
            i <= jobs@.len(),
            tab@ == seq!['\t'],
            space@ == seq![' '],
            want == record_views(jobs@).map_values(|j: JobRecordView| job_line(j)),
            views(lines@) == want.take(i as int),
        decreases jobs.len() - i,
    {
        let j = &jobs[i];
        let out = match &j.output_path {
            Some(o) => chars_of(o.as_str()),
            None => Vec::new(),
        };
        let mut fields: Vec<Vec<char>> = Vec::new();
        fields.push(u64_digits(j.id));
        fields.push(chars_of(j.kind.label()));
        fields.push(chars_of(j.status.label()));
        fields.push(replace_vec(&out, &tab, &space));
        fields.push(replace_vec(&chars_of(j.name.as_str()), &tab, &space));
        assert(views(fields@) =~= job_fields(jobs@[i as int]@));
        let line = join_vec(&fields, &tab);
        let ghost before = views(lines@);
        lines.push(line);
        assert(views(lines@) =~= before.push(want[i as int]));
        assert(want.take(i + 1) =~= want.take(i as int).push(want[i as int]));
        i += 1;
    }
    assert(want.take(jobs@.len() as int) =~= want);
    string_of(&join_vec(&lines, &nl))
}

/// A line without the carriage return that ended it.
pub open spec fn strip_cr(s: Seq<char>) -> Seq<char> {
    if s.len() > 0 && s.last() == '\r' {
        s.drop_last()
    } else {
        s
    }
}

/// `str::lines`: the pieces between line feeds, a line that a line feed ends
/// losing a carriage return before it, and no empty piece after a final line feed.
pub open spec fn std_lines(s: Seq<char>) -> Seq<Seq<char>> {
    let p = split(s, '\n');
    if s.len() == 0 {
        Seq::empty()
    } else if s.last() == '\n' {
        p.drop_last().map_values(|l: Seq<char>| strip_cr(l))
    } else {
        p.drop_last().map_values(|l: Seq<char>| strip_cr(l)).push(p.last())
    }
}

/// `str::parse::<u64>`: decimal digits after an optional `+`, within range.
pub open spec fn parse_u64(s: Seq<char>) -> Option<u64> {
    let body = if s.len() > 0 && s[0] == '+' {
        s.drop_first()
    } else {
        s
    };
    if body.len() > 0 && all_digits(body) && digits_value(body) <= u64::MAX {
        Some(digits_value(body) as u64)
    } else {
        None
    }
}

/// The kind a history line names; anything unknown is a general job.
pub open spec fn kind_from_label(s: Seq<char>) -> JobKind {
    if s == "Convert"@ {
        JobKind::Convert
    } else if s == "Save to disk"@ {
        JobKind::SaveToDisk
    } else {
        JobKind::Generic
    }
}

/// The state a history line names; anything unknown is completed.
pub open spec fn status_from_label(s: Seq<char>) -> JobStatus {
    if s == "Queued"@ {
        JobStatus::Queued
    } else if s == "Running"@ {
        JobStatus::Running
    } else if s == "Paused"@ {
        JobStatus::Paused
    } else if s == "Cancelled"@ {
        JobStatus::Cancelled
    } else if s == "Failed"@ {
        JobStatus::Failed
    } else {
        JobStatus::Completed
    }
}

/// The job a history line holds: none with fewer than five fields; an id that
/// does not read as a number is 0, a blank output path is none.
pub open spec fn line_record(line: Seq<char>) -> Option<JobRecordView> {
    let p = split(line, '\t');
    if p.len() < 5 {
        None
    } else {
        Some(
            JobRecordView {
                id: match parse_u64(p[0]) {
                    Some(v) => v,
                    None => 0,
                },
                kind: kind_from_label(p[1]),
                status: status_from_label(p[2]),
                output_path: if trim(p[3]).len() == 0 {
                    None
                } else {
                    Some(p[3])
                },
                name: p[4],
            },
        )
    }
}

/// The jobs of some history lines, in order.
pub open spec fn records_of(lines: Seq<Seq<char>>) -> Seq<JobRecordView>
    decreases lines.len(),
{
    if lines.len() == 0 {
        Seq::empty()
    } else {
        match line_record(lines.last()) {
            Some(j) => records_of(lines.drop_last()).push(j),
            None => records_of(lines.drop_last()),
        }
    }
}

/// The jobs of a history text.
pub open spec fn history_records(content: Seq<char>) -> Seq<JobRecordView> {
    records_of(std_lines(content))
}

/// Parses an unsigned decimal number.
pub fn parse_u64_vec(s: &Vec<char>) -> (r: Option<u64>)
    ensures
        r == parse_u64(s@),
{
    let n = s.len();
    let start: usize = if n > 0 && s[0] == '+' { 1 } else { 0 };
    let ghost body = s@.skip(start as int);
    if start == 1 {
        assert(body =~= s@.drop_first());
    } else {
        assert(body =~= s@);
    }
    if start == n {
        return None;
    }
    let limit: u128 = 18446744073709551615;
    let mut acc: u128 = 0;
    let mut big = false;
    let mut i = start;
    while i < n
        invariant
            start <= i <= n == s.len(),
            start == (if s@.len() > 0 && s@[0] == '+' { 1usize } else { 0usize }),
            body == s@.skip(start as int),
            limit == u64::MAX,
            acc <= limit,
            forall|j: int| 0 <= j < i - start ==> '0' <= #[trigger] body[j] <= '9',
            !big ==> acc as nat == digits_value(body.take(i - start)),
            big ==> digits_value(body.take(i - start)) > limit,
        decreases n - i,
    {
        let c = s[i];
        assert(body[i - start] == c);
        if !('0' <= c && c <= '9') {
            assert(!all_digits(body));
            return None;
        }
        let d = ((c as u32) - 48) as u128;
        assert(body.take(i + 1 - start).drop_last() =~= body.take(i - start));
        assert(body.take(i + 1 - start).last() == c);
        if !big {
            let next = acc * 10 + d;
            if next > limit {
                big = true;
            } else {
                acc = next;
            }
        }
        i += 1;
    }
    assert(body.take(n - start) =~= body);
    if big {
        None
    } else {
        Some(acc as u64)
    }
}

fn kind_from_text(s: &Vec<char>) -> (r: JobKind)
    ensures
        r == kind_from_label(s@),
{
    if vec_eq_str(s, "Convert") {
        JobKind::Convert
    } else if vec_eq_str(s, "Save to disk") {
        JobKind::SaveToDisk
    } else {
        JobKind::Generic
    }
}

fn status_from_text(s: &Vec<char>) -> (r: JobStatus)
    ensures
        r == status_from_label(s@),
{
    if vec_eq_str(s, "Queued") {
        JobStatus::Queued
    } else if vec_eq_str(s, "Running") {
        JobStatus::Running
    } else if vec_eq_str(s, "Paused") {
        JobStatus::Paused
    } else if vec_eq_str(s, "Cancelled") {
        JobStatus::Cancelled
    } else if vec_eq_str(s, "Failed") {
        JobStatus::Failed
    } else {
        JobStatus::Completed
    }
}

/// The job of one history line.
fn record_from_line(line: &Vec<char>) -> (r: Option<JobRecord>)
    ensures
        match r {
            Some(j) => line_record(line@) == Some(j@),
            None => line_record(line@) is None,
        },
{
    let p = split_vec(line, '\t');
    if p.len() < 5 {
        return None;
    }
    assert(views(p@)[0] == p@[0]@ && views(p@)[1] == p@[1]@ && views(p@)[2] == p@[2]@);
    assert(views(p@)[3] == p@[3]@ && views(p@)[4] == p@[4]@);
    let id = match parse_u64_vec(&p[0]) {
        Some(v) => v,
        None => 0,
    };
    let output_path = if trim_vec(&p[3]).len() == 0 {
        None
    } else {
        Some(string_of(&p[3]))
    };
    Some(
        JobRecord {
            id,
            name: string_of(&p[4]),
            kind: kind_from_text(&p[1]),
            status: status_from_text(&p[2]),
            output_path,
        },
    )
}

/// The lines of a text as `str::lines` gives them.
pub fn std_lines_vec(s: &Vec<char>) -> (r: Vec<Vec<char>>)
    ensures
        views(r@) == std_lines(s@),
{
    let p = split_vec(s, '\n');
    proof {
        crate::text::lemma_split_len(s@, '\n');
    }
    let mut out: Vec<Vec<char>> = Vec::new();
    if s.len() == 0 {
        assert(views(out@) =~= std_lines(s@));
        return out;
    }
    let ghost pv = views(p@);
    let ghost front = pv.drop_last().map_values(|l: Seq<char>| strip_cr(l));
    let mut i: usize = 0;
    let last_index = p.len() - 1;
    while i < last_index
        invariant
            p@.len() >= 1,
            pv == views(p@),
            front == pv.drop_last().map_values(|l: Seq<char>| strip_cr(l)),
            last_index == p@.len() - 1,
            i <= last_index,
            views(out@) == front.take(i as int),
        decreases p.len() - i,
    {
        let l = &p[i];
        let piece = if l.len() > 0 && l[l.len() - 1] == '\r' {
            crate::text::slice_vec(l, 0, l.len() - 1)
        } else {
            crate::text::slice_vec(l, 0, l.len())
        };
        assert(pv[i as int] == l@);
        assert(piece@ =~= strip_cr(l@));
        let ghost before = views(out@);
        out.push(piece);
        assert(views(out@) =~= before.push(front[i as int]));
        assert(front.take(i + 1) =~= front.take(i as int).push(front[i as int]));
        i += 1;
    }
    assert(front.take(i as int) =~= front);
    if s[s.len() - 1] != '\n' {
        let last = crate::text::slice_vec(&p[p.len() - 1], 0, p[p.len() - 1].len());
        assert(last@ =~= pv.last());
        let ghost before = views(out@);
        out.push(last);
        assert(views(out@) =~= before.push(pv.last()));
    }
    out
}

/// The jobs a history text holds.
pub fn decode_job_history(content: &str) -> (r: Vec<JobRecord>)
    ensures
        record_views(r@) == history_records(content@),
{
    let lines = std_lines_vec(&chars_of(content));
    let ghost ls = views(lines@);
    let mut out: Vec<JobRecord> = Vec::new();
    let mut i: usize = 0;
    while i < lines.len()
        invariant
            i <= lines@.len(),
            ls == views(lines@),
            record_views(out@) == records_of(ls.take(i as int)),
        decreases lines.len() - i,
    {
        assert(ls.take(i + 1).drop_last() =~= ls.take(i as int));
        assert(ls.take(i + 1).last() == lines@[i as int]@);
        match record_from_line(&lines[i]) {
            Some(j) => {
                let ghost before = record_views(out@);
                out.push(j);
                assert(record_views(out@) =~= before.push(j@));
            },
            None => {},
        }
        i += 1;
    }
    assert(ls.take(lines@.len() as int) =~= ls);
    out
}

/// The next free job id after reading some jobs: one past the largest id that
/// is at least the current next id.
pub open spec fn next_id_after(records: Seq<JobRecordView>, next_job_id: u64) -> int
    decreases records.len(),
{
    if records.len() == 0 {
        next_job_id as int
    } else {
        let n = next_id_after(records.drop_last(), next_job_id);
        if records.last().id >= n {
            records.last().id + 1
        } else {
            n
        }
    }
}

/// Moves the next job id past the ids of jobs read from the history.
pub fn next_job_id_after(records: &Vec<JobRecord>, next_job_id: u64) -> (r: u64)
    requires
        forall|i: int| 0 <= i < records@.len() ==> (#[trigger] records@[i]).id < u64::MAX,
    ensures
        r == next_id_after(record_views(records@), next_job_id),
{
    let ghost rv = record_views(records@);
    let mut next = next_job_id;
    let mut i: usize = 0;
    while i < records.len()
        invariant
            i <= records@.len(),
            rv == record_views(records@),
            forall|k: int| 0 <= k < records@.len() ==> (#[trigger] records@[k]).id < u64::MAX,
            next == next_id_after(rv.take(i as int), next_job_id),
        decreases records.len() - i,
    {
        assert(rv.take(i + 1).drop_last() =~= rv.take(i as int));
        assert(rv.take(i + 1).last() == records@[i as int]@);
        if records[i].id >= next {
            next = records[i].id + 1;
        }
        i += 1;
    }
    assert(rv.take(records@.len() as int) =~= rv);
    next
}

/// A text without the character `c` is left alone when `c` is replaced.
proof fn lemma_replace_absent(s: Seq<char>, c: char, rep: Seq<char>)
    requires
        !s.contains(c),
    ensures
        replace_all(s, seq![c], rep) == s,
    decreases s.len(),
{
    if s.len() > 0 {
        assert(s.take(1) != seq![c]) by {
            if s.take(1) == seq![c] {
                assert(s[0] == s.take(1)[0]);
            }
        }
        assert(!s.drop_first().contains(c)) by {
            if s.drop_first().contains(c) {
                let j = choose|j: int| 0 <= j < s.drop_first().len() && s.drop_first()[j] == c;
                assert(s[j + 1] == c);
            }
        }
        lemma_replace_absent(s.drop_first(), c, rep);
        assert(seq![s[0]] + s.drop_first() =~= s);
    }
}

/// The decimal digits of `n` are digits and read back as `n`.
proof fn lemma_nat_digits(n: nat)
    ensures
        nat_digits(n).len() > 0,
        all_digits(nat_digits(n)),
        digits_value(nat_digits(n)) == n,
    decreases n,
{
    if n < 10 {
        let c = crate::text::digit_char(n);
        assert(c as u32 == 48 + n);
        assert(seq![c].drop_last() =~= Seq::<char>::empty());
        assert(seq![c].last() == c);
        assert(digits_value(Seq::<char>::empty()) == 0);
        assert(digits_value(seq![c]) == digits_value(seq![c].drop_last()) * 10 + ((c as u32) - ('0' as u32)) as nat);
        assert(nat_digits(n) == seq![c]);
    } else {
        lemma_nat_digits(n / 10);
        let d = nat_digits(n / 10);
        let c = crate::text::digit_char(n % 10);
        assert(c as u32 == 48 + n % 10);
        assert(nat_digits(n) == d.push(c));
        assert(d.push(c).drop_last() =~= d);
        assert(digits_value(d.push(c)) == digits_value(d) * 10 + ((c as u32) - ('0' as u32)) as nat);
        assert(n == (n / 10) * 10 + n % 10) by (nonlinear_arith);
        assert(digits_value(d.push(c)) == n);
        assert forall|i: int| 0 <= i < d.push(c).len() implies '0' <= #[trigger] d.push(c)[i] <= '9' by {
            if i < d.len() {
                assert(d.push(c)[i] == d[i]);
            }
        }
    }
}

/// Text joined from pieces and a separator without `c` has no `c`.
proof fn lemma_join_free(parts: Seq<Seq<char>>, sep: Seq<char>, c: char)
    requires
        forall|i: int| 0 <= i < parts.len() ==> !(#[trigger] parts[i]).contains(c),
        !sep.contains(c),
    ensures
        !join(parts, sep).contains(c),
    decreases parts.len(),
{
    if parts.len() == 1 {
        assert(!parts[0].contains(c));
    } else if parts.len() > 1 {
        let front = parts.drop_last();
        assert forall|i: int| 0 <= i < front.len() implies !(#[trigger] front[i]).contains(c) by {
            assert(front[i] == parts[i]);
        }
        lemma_join_free(front, sep, c);
        let l = parts.last();
        assert(!l.contains(c)) by {
            assert(parts[parts.len() - 1] == l);
        }
        let j = join(front, sep);
        assert(!(j + sep + l).contains(c)) by {
            if (j + sep + l).contains(c) {
                let k = choose|k: int| 0 <= k < (j + sep + l).len() && (j + sep + l)[k] == c;
                if k < j.len() {
                    assert(j[k] == c);
                } else if k < j.len() + sep.len() {
                    assert(sep[k - j.len()] == c);
                } else {
                    assert(l[k - j.len() - sep.len()] == c);
                }
            }
        }
    }
}

/// The labels of kinds and states are plain words that read back as themselves.
proof fn lemma_labels(k: JobKind, st: JobStatus, c: char)
    requires
        c == '\t' || c == '\n',
    ensures
        !job_kind_label(k).contains(c),
        !job_status_label(st).contains(c),
        kind_from_label(job_kind_label(k)) == k,
        status_from_label(job_status_label(st)) == st,
{
    reveal_strlit("General");
    reveal_strlit("Convert");
    reveal_strlit("Save to disk");
    reveal_strlit("Queued");
    reveal_strlit("Running");
    reveal_strlit("Paused");
    reveal_strlit("Completed");
    reveal_strlit("Cancelled");
    reveal_strlit("Failed");
    let kl = job_kind_label(k);
    let sl = job_status_label(st);
    assert(!kl.contains(c)) by {
        if kl.contains(c) {
            let i = choose|i: int| 0 <= i < kl.len() && kl[i] == c;
        }
    }
    assert(!sl.contains(c)) by {
        if sl.contains(c) {
            let i = choose|i: int| 0 <= i < sl.len() && sl[i] == c;
        }
    }
    assert("General"@ != "Convert"@ && "General"@ != "Save to disk"@) by {
        assert("General"@[0] != "Convert"@[0]);
        assert("General"@.len() != "Save to disk"@.len());
    }
    assert("Save to disk"@ != "Convert"@) by {
        assert("Save to disk"@.len() != "Convert"@.len());
    }
    assert("Completed"@ != "Queued"@ && "Completed"@ != "Running"@ && "Completed"@ != "Paused"@) by {
        assert("Completed"@.len() != "Queued"@.len());
        assert("Completed"@.len() != "Running"@.len());
        assert("Completed"@.len() != "Paused"@.len());
    }
    assert("Completed"@ != "Cancelled"@ && "Completed"@ != "Failed"@) by {
        assert("Completed"@[1] != "Cancelled"@[1]);
        assert("Completed"@.len() != "Failed"@.len());
    }
    assert("Running"@ != "Queued"@) by {
        assert("Running"@[0] != "Queued"@[0]);
    }
    assert("Paused"@ != "Queued"@ && "Paused"@ != "Running"@) by {
        assert("Paused"@[0] != "Queued"@[0]);
        assert("Paused"@[0] != "Running"@[0]);
    }
    assert("Cancelled"@ != "Queued"@ && "Cancelled"@ != "Running"@ && "Cancelled"@ != "Paused"@) by {
        assert("Cancelled"@[0] != "Queued"@[0]);
        assert("Cancelled"@[0] != "Running"@[0]);
        assert("Cancelled"@[0] != "Paused"@[0]);
    }
    assert("Failed"@ != "Queued"@ && "Failed"@ != "Running"@ && "Failed"@ != "Paused"@ && "Failed"@ != "Cancelled"@) by {
        assert("Failed"@[0] != "Queued"@[0]);
        assert("Failed"@[0] != "Running"@[0]);
        assert("Failed"@[0] != "Paused"@[0]);
        assert("Failed"@[0] != "Cancelled"@[0]);
    }
}

/// A history field: no tab and no line feed.
pub open spec fn plain_field(s: Seq<char>) -> bool {
    !s.contains('\t') && !s.contains('\n')
}

/// A job that its history line gives back: plain name and output path, and an
/// output path, where there is one, that is not blank.
pub open spec fn keeps_in_history(j: JobRecordView) -> bool {
    &&& plain_field(j.name)
    &&& match j.output_path {
        Some(o) => plain_field(o) && trim(o).len() > 0,
        None => true,
    }
}

/// A line holding a job that keeps reads back as that job, and has neither a
/// line feed nor, unless the name ends with one, a final carriage return.
proof fn lemma_job_line(j: JobRecordView)
    requires
        keeps_in_history(j),
    ensures
        line_record(job_line(j)) == Some(j),
        !job_line(j).contains('\n'),
        job_line(j).len() > 0,
        job_line(j).last() == if j.name.len() > 0 {
            j.name.last()
        } else {
            '\t'
        },
{
    let f = job_fields(j);
    let out = match j.output_path {
        Some(o) => o,
        None => Seq::<char>::empty(),
    };
    assert(!out.contains('\t') && !out.contains('\n'));
    lemma_replace_absent(out, '\t', seq![' ']);
    lemma_replace_absent(j.name, '\t', seq![' ']);
    lemma_nat_digits(j.id as nat);
    lemma_labels(j.kind, j.status, '\t');
    lemma_labels(j.kind, j.status, '\n');
    let d = nat_digits(j.id as nat);
    assert(!d.contains('\t') && !d.contains('\n')) by {
        if d.contains('\t') || d.contains('\n') {
            let i = choose|i: int| 0 <= i < d.len() && (d[i] == '\t' || d[i] == '\n');
            assert('0' <= d[i] <= '9');
        }
    }
    assert(f[0] == d && f[3] == out && f[4] == j.name);
    assert forall|i: int| 0 <= i < f.len() implies !(#[trigger] f[i]).contains('\t') by {
        if i == 1 {
            assert(f[1] == job_kind_label(j.kind));
        } else if i == 2 {
            assert(f[2] == job_status_label(j.status));
        }
    }
    assert forall|i: int| 0 <= i < f.len() implies !(#[trigger] f[i]).contains('\n') by {
        if i == 1 {
            assert(f[1] == job_kind_label(j.kind));
        } else if i == 2 {
            assert(f[2] == job_status_label(j.status));
        }
    }
    crate::text::lemma_split_join(f, '\t');
    lemma_join_free(f, seq!['\t'], '\n');
    assert(parse_u64(d) == Some(j.id)) by {
        assert(d[0] != '+') by {
            assert('0' <= d[0] <= '9');
        }
    }
    assert(j.output_path is None ==> trim(out).len() == 0) by {
        if j.output_path is None {
            assert(out.len() == 0);
        }
    }
    let p = split(job_line(j), '\t');
    assert(p == f);
    let got = line_record(job_line(j)).unwrap();
    assert(got.id == j.id && got.kind == j.kind && got.status == j.status && got.name == j.name);
    assert(got.output_path == j.output_path);
    assert(job_line(j) == join(f.drop_last(), seq!['\t']) + seq!['\t'] + f.last());
    assert(f.last() == j.name);
}

/// Lines each holding a job read back as those jobs.
proof fn lemma_records_of_lines(jobs: Seq<JobRecordView>)
    requires
        forall|i: int| 0 <= i < jobs.len() ==> keeps_in_history(#[trigger] jobs[i]),
    ensures
        records_of(jobs.map_values(|j: JobRecordView| job_line(j))) == jobs,
    decreases jobs.len(),
{
    if jobs.len() > 0 {
        let front = jobs.drop_last();
        assert forall|i: int| 0 <= i < front.len() implies keeps_in_history(#[trigger] front[i]) by {
            assert(front[i] == jobs[i]);
        }
        lemma_records_of_lines(front);
        let ls = jobs.map_values(|j: JobRecordView| job_line(j));
        assert(ls.drop_last() =~= front.map_values(|j: JobRecordView| job_line(j)));
        assert(keeps_in_history(jobs[jobs.len() - 1]));
        lemma_job_line(jobs.last());
        assert(ls.last() == job_line(jobs.last()));
        assert(front.push(jobs.last()) =~= jobs);
    }
}

/// Writing jobs to the history text and reading the text back gives the same
/// jobs, when their names and output paths hold no tab or line feed, their
/// output paths are not blank, and no name but the last ends with a carriage
/// return (the line break after it would take that carriage return along).
pub proof fn lemma_job_history_roundtrip(jobs: Seq<JobRecordView>)
    requires
        forall|i: int| 0 <= i < jobs.len() ==> keeps_in_history(#[trigger] jobs[i]),
        forall|i: int| 0 <= i < jobs.len() - 1 ==> !((#[trigger] jobs[i]).name.len() > 0 && jobs[i].name.last() == '\r'),
    ensures
        history_records(history_text(jobs)) == jobs,
{
    let ls = jobs.map_values(|j: JobRecordView| job_line(j));
    lemma_records_of_lines(jobs);
    if jobs.len() > 0 {
        assert forall|i: int| 0 <= i < ls.len() implies !(#[trigger] ls[i]).contains('\n') by {
            assert(keeps_in_history(jobs[i]));
            lemma_job_line(jobs[i]);
        }
        crate::text::lemma_split_join(ls, '\n');
        let t = history_text(jobs);
        assert(keeps_in_history(jobs[jobs.len() - 1]));
        lemma_job_line(jobs[jobs.len() - 1]);
        assert(ls.last() == job_line(jobs[jobs.len() - 1]));
        if ls.len() == 1 {
            assert(t == ls[0]);
        } else {
            assert(t == join(ls.drop_last(), seq!['\n']) + seq!['\n'] + ls.last());
        }
        assert(t.len() > 0 && t.last() == ls.last().last());
        assert(t.last() != '\n') by {
            assert(ls.last()[ls.last().len() - 1] == ls.last().last());
        }
        let p = split(t, '\n');
        assert(p == ls);
        assert forall|i: int| 0 <= i < ls.len() - 1 implies strip_cr(#[trigger] ls[i]) == ls[i] by {
            assert(keeps_in_history(jobs[i]));
            lemma_job_line(jobs[i]);
        }
        assert(p.drop_last().map_values(|l: Seq<char>| strip_cr(l)).push(p.last()) =~= ls);
    } else {
        assert(history_text(jobs) =~= Seq::<char>::empty());
        assert(ls =~= Seq::<Seq<char>>::empty());
    }
}

/// A control of the jobs panel.
#[derive(Clone, Copy, Debug, PartialEq, Eq, Structural)]
pub enum JobControl {
    MoveUp,
    MoveDown,
    Pause,
    Resume,
    Cancel,
    Clone,
    Retry,
}

/// Which controls a job at position `idx` of `total` offers: moves for queued
/// jobs that have a neighbour that way, pause while running, resume while paused,
/// cancel until completed or cancelled, clone and retry once completed or failed.
pub open spec fn control_offered(status: JobStatus, control: JobControl, idx: int, total: int) -> bool {
    match control {
        JobControl::MoveUp => status == JobStatus::Queued && idx > 0,
        JobControl::MoveDown => status == JobStatus::Queued && idx + 1 < total,
        JobControl::Pause => status == JobStatus::Running,
        JobControl::Resume => status == JobStatus::Paused,
        JobControl::Cancel => status != JobStatus::Completed && status != JobStatus::Cancelled,
        JobControl::Clone | JobControl::Retry => status == JobStatus::Completed || status == JobStatus::Failed,
    }
}

/// Whether the jobs panel offers a control for a job.
pub fn job_control_offered(status: JobStatus, control: JobControl, idx: usize, total: usize) -> (r: bool)
    ensures
        r == control_offered(status, control, idx as int, total as int),
{
    match control {
        JobControl::MoveUp => status == JobStatus::Queued && idx > 0,
        JobControl::MoveDown => status == JobStatus::Queued && idx < total && idx + 1 < total,
        JobControl::Pause => status == JobStatus::Running,
        JobControl::Resume => status == JobStatus::Paused,
        JobControl::Cancel => status != JobStatus::Completed && status != JobStatus::Cancelled,
        JobControl::Clone | JobControl::Retry => status == JobStatus::Completed || status == JobStatus::Failed,
    }
}

/// The state a control leaves a job in.
pub open spec fn status_after_control(status: JobStatus, control: JobControl) -> JobStatus {
    match control {
        JobControl::Pause => JobStatus::Paused,
        JobControl::Resume => JobStatus::Running,
        JobControl::Cancel => JobStatus::Cancelled,
        _ => status,
    }
}

/// Applies a control to a job's state.
pub fn apply_job_control(status: JobStatus, control: JobControl) -> (r: JobStatus)
    ensures
        r == status_after_control(status, control),
{
    match control {
        JobControl::Pause => JobStatus::Paused,
        JobControl::Resume => JobStatus::Running,
        JobControl::Cancel => JobStatus::Cancelled,
        _ => status,
    }
}

/// A job's state after a tick: queued jobs start running, running jobs complete
/// once their progress is full, others stay.
pub open spec fn status_after_tick(status: JobStatus, progress_full: bool) -> JobStatus {
    match status {
        JobStatus::Queued => JobStatus::Running,
        JobStatus::Running => if progress_full {
            JobStatus::Completed
        } else {
            JobStatus::Running
        },
        _ => status,
    }
}

/// Advances a job's state by a tick; `progress_full` says whether a running
/// job's progress has reached the end.
pub fn tick_job_status(status: JobStatus, progress_full: bool) -> (r: JobStatus)
    ensures
        r == status_after_tick(status, progress_full),
{
    match status {
        JobStatus::Queued => JobStatus::Running,
        JobStatus::Running => if progress_full {
            JobStatus::Completed
        } else {
            JobStatus::Running
        },
        _ => status,
    }
}

/// Swaps a queued job with its neighbour above (`up`) or below.
pub fn move_job<T>(jobs: &mut Vec<T>, idx: usize, up: bool)
    requires
        idx < old(jobs)@.len(),
        up ==> idx > 0,
        !up ==> idx + 1 < old(jobs)@.len(),
    ensures
        ({
            let other = if up { idx - 1 } else { idx + 1 };
            final(jobs)@ == old(jobs)@.update(idx as int, old(jobs)@[other as int]).update(other as int, old(jobs)@[idx as int])
        }),
{
    let n = jobs.len();
    assert(idx < n);
    let other = if up { idx - 1 } else { idx + 1 };
    let lo = if up { other } else { idx };
    let ghost before = jobs@;
    let x = jobs.remove(lo);
    jobs.insert(lo + 1, x);
    assert(jobs@ =~= before.update(idx as int, before[other as int]).update(other as int, before[idx as int]));
}

/// What a retried or cloned job does again.
#[derive(Clone, Debug)]
pub enum JobRetryAction {
    Convert { ids: Vec<i64>, output_format: String, output_dir: String },
    SaveToDisk { ids: Vec<i64>, output_dir: String },
}

/// The kind of job a retry runs.
pub open spec fn retry_kind(action: JobRetryAction) -> JobKind {
    match action {
        JobRetryAction::Convert { .. } => JobKind::Convert,
        JobRetryAction::SaveToDisk { .. } => JobKind::SaveToDisk,
    }
}

/// The details shown for a retried job: its kind, how many books, the format
/// of a conversion, and the output folder.
pub open spec fn retry_details_of(action: JobRetryAction) -> Seq<(Seq<char>, Seq<char>)> {
    match action {
        JobRetryAction::Convert { ids, output_format, output_dir } => seq![
            ("kind"@, "convert"@),
            ("books"@, nat_digits(ids@.len())),
            ("format"@, output_format@),
            ("output_dir"@, output_dir@),
        ],
        JobRetryAction::SaveToDisk { ids, output_dir } => seq![
            ("kind"@, "save_to_disk"@),
            ("books"@, nat_digits(ids@.len())),
            ("output_dir"@, output_dir@),
        ],
    }
}

/// The plain contents of detail pairs.
pub open spec fn detail_views(d: Seq<(String, String)>) -> Seq<(Seq<char>, Seq<char>)> {
    d.map_values(|p: (String, String)| (p.0@, p.1@))
}

fn push_detail(d: &mut Vec<(String, String)>, name: &str, value: String)
    ensures
        detail_views(final(d)@) == detail_views(old(d)@).push((name@, value@)),
{
    let ghost before = detail_views(d@);
    let ghost v = value@;
    d.push((name.to_owned(), value));
    assert(detail_views(d@) =~= before.push((name@, v)));
}

/// The kind and details of a job that retries or clones an earlier one.
pub fn retry_job_details(action: &JobRetryAction) -> (r: (JobKind, Vec<(String, String)>))
    ensures
        r.0 == retry_kind(*action),
        detail_views(r.1@) == retry_details_of(*action),
{
    let mut d: Vec<(String, String)> = Vec::new();
    assert(detail_views(d@) =~= Seq::<(Seq<char>, Seq<char>)>::empty());
    match action {
        JobRetryAction::Convert { ids, output_format, output_dir } => {
            push_detail(&mut d, "kind", "convert".to_owned());
            push_detail(&mut d, "books", string_of(&u64_digits(ids.len() as u64)));
            push_detail(&mut d, "format", output_format.clone());
            push_detail(&mut d, "output_dir", output_dir.clone());
            assert(detail_views(d@) =~= retry_details_of(*action));
            (JobKind::Convert, d)
        },
        JobRetryAction::SaveToDisk { ids, output_dir } => {
            push_detail(&mut d, "kind", "save_to_disk".to_owned());
            push_detail(&mut d, "books", string_of(&u64_digits(ids.len() as u64)));
            push_detail(&mut d, "output_dir", output_dir.clone());
            assert(detail_views(d@) =~= retry_details_of(*action));
            (JobKind::SaveToDisk, d)
        },
    }
}

/// The name and details of the job that records a save to disk.
pub open spec fn save_to_disk_record(
    selected: nat,
    exported: nat,
    skipped: nat,
    template: Seq<char>,
    conflict_policy: Seq<char>,
    output_dir: Seq<char>,
) -> (Seq<char>, Seq<(Seq<char>, Seq<char>)>) {
    (
        "Save to disk "@ + nat_digits(selected) + " books"@,
        seq![
            ("books_selected"@, nat_digits(selected)),
            ("files_exported"@, nat_digits(exported)),
            ("files_skipped"@, nat_digits(skipped)),
            ("template"@, template),
            ("conflict_policy"@, conflict_policy),
            ("output_dir"@, output_dir),
        ],
    )
}

/// The job name and details recorded after saving books to disk.
pub fn save_to_disk_job(
    selected: u64,
    exported: u64,
    skipped: u64,
    template: &str,
    conflict_policy: &str,
    output_dir: &str,
) -> (r: (String, Vec<(String, String)>))
    ensures
        ({
            let want = save_to_disk_record(
                selected as nat,
                exported as nat,
                skipped as nat,
                template@,
                conflict_policy@,
                output_dir@,
            );
            r.0@ == want.0 && detail_views(r.1@) == want.1
        }),
{
    let mut name = chars_of("Save to disk ");
    crate::text::append_vec(&mut name, &u64_digits(selected));
    crate::text::append_str(&mut name, " books");
    let mut d: Vec<(String, String)> = Vec::new();
    assert(detail_views(d@) =~= Seq::<(Seq<char>, Seq<char>)>::empty());
    push_detail(&mut d, "books_selected", string_of(&u64_digits(selected)));
    push_detail(&mut d, "files_exported", string_of(&u64_digits(exported)));
    push_detail(&mut d, "files_skipped", string_of(&u64_digits(skipped)));
    push_detail(&mut d, "template", template.to_owned());
    push_detail(&mut d, "conflict_policy", conflict_policy.to_owned());
    push_detail(&mut d, "output_dir", output_dir.to_owned());
    let ghost want = save_to_disk_record(
        selected as nat,
        exported as nat,
        skipped as nat,
        template@,
        conflict_policy@,
        output_dir@,
    );
    assert(detail_views(d@) =~= want.1);
    (string_of(&name), d)
}

/// The news history kept after adding a line: the earlier lines and the new one,
/// of which the first 500 are kept, joined by line feeds.
pub open spec fn news_history_after(content: Seq<char>, line: Seq<char>) -> Seq<char> {
    let ls = std_lines(content).push(line);
    join(if ls.len() > 500 { ls.take(500) } else { ls }, seq!['\n'])
}

/// The news history text after adding a line to the text read from its file
/// (empty when there is no file yet).
pub fn append_news_history(content: &str, line: &str) -> (r: String)
    ensures
        r@ == news_history_after(content@, line@),
{
    let mut ls = std_lines_vec(&chars_of(content));
    let ghost before = views(ls@);
    let lv = chars_of(line);
    ls.push(lv);
    let ghost all = views(ls@);
    assert(all =~= before.push(line@));
    if ls.len() > 500 {
        ls.truncate(500);
        assert(views(ls@) =~= all.take(500));
    } else {
        assert(views(ls@) == all);
    }
    let nl = chars_of("\n");
    proof {
        reveal_strlit("\n");
    }
    assert(nl@ =~= seq!['\n']);
    string_of(&join_vec(&ls, &nl))
}

/// Moving a job up and then moving it back down restores the list; pausing a
/// running job and resuming it leaves it running.
pub proof fn lemma_job_moves_undo<T>(jobs: Seq<T>, idx: int)
    requires
        0 < idx < jobs.len(),
    ensures
        ({
            let up = jobs.update(idx, jobs[idx - 1]).update(idx - 1, jobs[idx]);
            up.update(idx - 1, up[idx]).update(idx, up[idx - 1]) == jobs
        }),
        status_after_control(status_after_control(JobStatus::Running, JobControl::Pause), JobControl::Resume)
            == JobStatus::Running,
{
    let up = jobs.update(idx, jobs[idx - 1]).update(idx - 1, jobs[idx]);
    assert(up.update(idx - 1, up[idx]).update(idx, up[idx - 1]) =~= jobs);
}

} // verus!
