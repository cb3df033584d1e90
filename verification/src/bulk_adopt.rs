//! Bounded, restartable adoption of the formats that one library source still
//! references: the bookkeeping of a run, page by page and candidate by candidate.
use crate::adopt::{AdoptFormatRequest, AdoptFormatResult};
use vstd::prelude::*;

verus! {

/// Largest page of candidates requested from the database at once.
pub const MAX_BULK_ADOPT_PAGE_SIZE: usize = 500;

/// Largest number of logical formats one bulk run may select.
pub const MAX_BULK_ADOPT_FORMATS: usize = 10_000;

/// Largest number of problems one bulk run records.
pub const MAX_BULK_ADOPT_PROBLEMS: usize = 1_000;

/// Clamps a requested number of formats to the bulk limit.
pub fn normalize_bulk_limit(requested: usize) -> (r: usize)
    ensures
        r == if requested <= MAX_BULK_ADOPT_FORMATS {
            requested
        } else {
            MAX_BULK_ADOPT_FORMATS
        },
{
    if requested <= MAX_BULK_ADOPT_FORMATS {
        requested
    } else {
        MAX_BULK_ADOPT_FORMATS
    }
}

/// What a bulk run is asked to do.
#[derive(Clone, Debug)]
pub struct SourceBulkAdoptOptions {
    pub apply: bool,
    pub max_formats: usize,
    pub page_size: usize,
    pub problem_limit: usize,
}

impl Default for SourceBulkAdoptOptions {
    /// A dry run over at most 25 formats, in full pages, recording up to 50 problems.
    fn default() -> (r: Self)
        ensures
            !r.apply,
            r.max_formats == 25,
            r.page_size == MAX_BULK_ADOPT_PAGE_SIZE,
            r.problem_limit == 50,
    {
        SourceBulkAdoptOptions {
            apply: false,
            max_formats: 25,
            page_size: MAX_BULK_ADOPT_PAGE_SIZE,
            problem_limit: 50,
        }
    }
}

/// The bounds a run actually works within.
#[derive(Clone, Copy, Debug, PartialEq, Eq, Structural)]
pub struct BulkAdoptLimits {
    pub max_formats: usize,
    pub page_size: usize,
    pub problem_limit: usize,
}

impl BulkAdoptLimits {
    /// Within the hard bounds of a bulk run.
    pub open spec fn valid(self) -> bool {
        &&& self.max_formats <= MAX_BULK_ADOPT_FORMATS
        &&& 1 <= self.page_size <= MAX_BULK_ADOPT_PAGE_SIZE
        &&& self.problem_limit <= MAX_BULK_ADOPT_PROBLEMS
    }
}

/// The smaller of two numbers.
pub open spec fn min_of(a: int, b: int) -> int {
    if a <= b {
        a
    } else {
        b
    }
}

impl SourceBulkAdoptOptions {
    /// The requested bounds cut to the hard bounds; a page holds at least one candidate.
    pub open spec fn limits_of(&self) -> BulkAdoptLimits {
        BulkAdoptLimits {
            max_formats: min_of(self.max_formats as int, MAX_BULK_ADOPT_FORMATS as int) as usize,
            page_size: if self.page_size < 1 {
                1usize
            } else {
                min_of(self.page_size as int, MAX_BULK_ADOPT_PAGE_SIZE as int) as usize
            },
            problem_limit: min_of(self.problem_limit as int, MAX_BULK_ADOPT_PROBLEMS as int) as usize,
        }
    }

    /// The requested bounds cut to the hard bounds; a page holds at least one candidate.
    pub fn limits(&self) -> (r: BulkAdoptLimits)
        ensures
            r == self.limits_of(),
            r.max_formats == min_of(self.max_formats as int, MAX_BULK_ADOPT_FORMATS as int),
            r.page_size == if self.page_size < 1 {
                1
            } else {
                min_of(self.page_size as int, MAX_BULK_ADOPT_PAGE_SIZE as int)
            },
            r.problem_limit == min_of(self.problem_limit as int, MAX_BULK_ADOPT_PROBLEMS as int),
            r.valid(),
    {
        let max_formats = normalize_bulk_limit(self.max_formats);
        let page_size = if self.page_size < 1 {
            1
        } else if self.page_size <= MAX_BULK_ADOPT_PAGE_SIZE {
            self.page_size
        } else {
            MAX_BULK_ADOPT_PAGE_SIZE
        };
        let problem_limit = if self.problem_limit <= MAX_BULK_ADOPT_PROBLEMS {
            self.problem_limit
        } else {
            MAX_BULK_ADOPT_PROBLEMS
        };
        BulkAdoptLimits { max_formats, page_size, problem_limit }
    }
}

/// One logical format that a source still references and that has no managed copy.
#[derive(Clone, Debug)]
pub struct SourceAdoptionCandidate {
    pub book_id: i64,
    pub book_format_id: i64,
    pub format: String,
    pub reference_asset_id: i64,
}

/// A progress report of a bulk run.
#[derive(Clone, Copy, Debug, PartialEq, Eq, Structural)]
pub enum SourceBulkAdoptProgress {
    SelectionStarted,
    PageComplete { selected: u64, attempted: u64 },
    AdoptionProgress { attempted: u64, adopted_new: u64, failed: u64 },
    Complete { selected: u64, attempted: u64, adopted_new: u64, failed: u64 },
}

/// A candidate whose adoption failed, with the reason.
#[derive(Clone, Debug)]
pub struct SourceBulkAdoptProblem {
    pub book_id: i64,
    pub book_format_id: i64,
    pub format: String,
    pub reference_asset_id: i64,
    pub message: String,
}

/// The tally of a bulk run.
#[derive(Clone, Debug)]
pub struct SourceBulkAdoptResult {
    pub source_id: i64,
    pub apply: bool,
    pub selected: u64,
    pub attempted: u64,
    pub adopted_new: u64,
    pub already_adopted: u64,
    pub reused_existing_objects: u64,
    pub failed: u64,
    pub logical_bytes_adopted: u64,
    pub stored_bytes_adopted: u64,
    pub last_book_format_id: Option<i64>,
    pub dependent_formats_before: u64,
    pub dependent_formats_after: u64,
    pub managed_backed_formats_before: u64,
    pub managed_backed_formats_after: u64,
    pub candidates: Vec<SourceAdoptionCandidate>,
    pub problems: Vec<SourceBulkAdoptProblem>,
}

/// The request that adopts a candidate: its book and format, from its reference.
pub fn adoption_request(candidate: &SourceAdoptionCandidate) -> (r: AdoptFormatRequest)
    ensures
        r.book_id == candidate.book_id,
        r.format@ == candidate.format@,
        r.reference_asset_id == Some(candidate.reference_asset_id),
{
    AdoptFormatRequest {
        book_id: candidate.book_id,
        format: candidate.format.clone(),
        reference_asset_id: Some(candidate.reference_asset_id),
    }
}

/// The problem recorded for a candidate whose adoption failed with `message`.
pub open spec fn is_problem_for(
    p: SourceBulkAdoptProblem,
    candidate: SourceAdoptionCandidate,
    message: Seq<char>,
) -> bool {
    &&& p.book_id == candidate.book_id
    &&& p.book_format_id == candidate.book_format_id
    &&& p.format@ == candidate.format@
    &&& p.reference_asset_id == candidate.reference_asset_id
    &&& p.message@ == message
}

/// How recording one candidate changes the tally: it is selected and listed;
/// with no outcome (a dry run) nothing else changes; an adoption counts one
/// attempt, as new or already adopted, with its reuse and sizes; a failure counts
/// one attempt and one failure, and records a problem for the candidate with the
/// message while fewer than `problem_limit` are recorded.
pub open spec fn records_outcome(
    before: SourceBulkAdoptResult,
    after: SourceBulkAdoptResult,
    candidate: SourceAdoptionCandidate,
    outcome: Option<Result<AdoptFormatResult, String>>,
    problem_limit: usize,
) -> bool {
    &&& after.source_id == before.source_id
    &&& after.apply == before.apply
    &&& after.selected == before.selected + 1
    &&& after.candidates@ == before.candidates@.push(candidate)
    &&& after.last_book_format_id == Some(candidate.book_format_id)
    &&& after.dependent_formats_before == before.dependent_formats_before
    &&& after.dependent_formats_after == before.dependent_formats_after
    &&& after.managed_backed_formats_before == before.managed_backed_formats_before
    &&& after.managed_backed_formats_after == before.managed_backed_formats_after
    &&& match outcome {
        None => {
            &&& after.attempted == before.attempted
            &&& after.adopted_new == before.adopted_new
            &&& after.already_adopted == before.already_adopted
            &&& after.reused_existing_objects == before.reused_existing_objects
            &&& after.failed == before.failed
            &&& after.logical_bytes_adopted == before.logical_bytes_adopted
            &&& after.stored_bytes_adopted == before.stored_bytes_adopted
            &&& after.problems@ == before.problems@
        },
        Some(Ok(res)) => {
            &&& after.attempted == before.attempted + 1
            &&& after.adopted_new == before.adopted_new + if res.already_adopted {
                0int
            } else {
                1int
            }
            &&& after.already_adopted == before.already_adopted + if res.already_adopted {
                1int
            } else {
                0int
            }
            &&& after.reused_existing_objects == before.reused_existing_objects
                + if res.reused_existing_object {
                1int
            } else {
                0int
            }
            &&& after.failed == before.failed
            &&& after.logical_bytes_adopted == before.logical_bytes_adopted
                + res.logical_size_bytes
            &&& after.stored_bytes_adopted == before.stored_bytes_adopted
                + res.stored_size_bytes
            &&& after.problems@ == before.problems@
        },
        Some(Err(message)) => {
            &&& after.attempted == before.attempted + 1
            &&& after.adopted_new == before.adopted_new
            &&& after.already_adopted == before.already_adopted
            &&& after.reused_existing_objects == before.reused_existing_objects
            &&& after.failed == before.failed + 1
            &&& after.logical_bytes_adopted == before.logical_bytes_adopted
            &&& after.stored_bytes_adopted == before.stored_bytes_adopted
            &&& if before.problems@.len() < problem_limit {
                &&& after.problems@.len() == before.problems@.len() + 1
                &&& after.problems@.drop_last() == before.problems@
                &&& is_problem_for(after.problems@.last(), candidate, message@)
            } else {
                after.problems@ == before.problems@
            }
        },
    }
}

impl SourceBulkAdoptResult {
    /// The tally is consistent with a run within `limits`: one candidate per
    /// selection, every attempt ended as new, already adopted or failed, and the
    /// problems are the first failures up to the problem limit.
    pub open spec fn wf(&self, limits: BulkAdoptLimits) -> bool {
        &&& self.selected == self.candidates@.len()
        &&& self.selected <= limits.max_formats
        &&& self.attempted == if self.apply {
            self.selected
        } else {
            0
        }
        &&& self.attempted == self.adopted_new + self.already_adopted + self.failed
        &&& self.reused_existing_objects <= self.adopted_new + self.already_adopted
        &&& self.problems@.len() == min_of(self.failed as int, limits.problem_limit as int)
        &&& self.last_book_format_id == if self.candidates@.len() == 0 {
            None
        } else {
            Some(self.candidates@.last().book_format_id)
        }
    }

    /// A run that has selected nothing yet, with the source's counts before it.
    pub fn start(
        source_id: i64,
        apply: bool,
        dependent_formats_before: u64,
        managed_backed_formats_before: u64,
    ) -> (r: Self)
        ensures
            r.source_id == source_id,
            r.apply == apply,
            r.selected == 0,
            r.attempted == 0,
            r.adopted_new == 0,
            r.already_adopted == 0,
            r.reused_existing_objects == 0,
            r.failed == 0,
            r.logical_bytes_adopted == 0,
            r.stored_bytes_adopted == 0,
            r.last_book_format_id is None,
            r.dependent_formats_before == dependent_formats_before,
            r.dependent_formats_after == dependent_formats_before,
            r.managed_backed_formats_before == managed_backed_formats_before,
            r.managed_backed_formats_after == managed_backed_formats_before,
            r.candidates@.len() == 0,
            r.problems@.len() == 0,
            forall|limits: BulkAdoptLimits| r.wf(limits),
    {
        SourceBulkAdoptResult {
            source_id,
            apply,
            selected: 0,
            attempted: 0,
            adopted_new: 0,
            already_adopted: 0,
            reused_existing_objects: 0,
            failed: 0,
            logical_bytes_adopted: 0,
            stored_bytes_adopted: 0,
            last_book_format_id: None,
            dependent_formats_before,
            dependent_formats_after: dependent_formats_before,
            managed_backed_formats_before,
            managed_backed_formats_after: managed_backed_formats_before,
            candidates: Vec::new(),
            problems: Vec::new(),
        }
    }

    /// Whether the run may still select a candidate.
    pub fn has_room(&self, limits: BulkAdoptLimits) -> (r: bool)
        ensures
            r == (self.selected < limits.max_formats),
    {
        self.selected < limits.max_formats as u64
    }

    /// How many candidates the next page asks for: a full page, or what remains of
    /// the bound; `None` once the bound is reached.
    pub fn next_page_size(&self, limits: BulkAdoptLimits) -> (r: Option<usize>)
        requires
            self.wf(limits),
            limits.valid(),
        ensures
            r == if self.selected < limits.max_formats {
                Some(min_of(limits.page_size as int, limits.max_formats - self.selected) as usize)
            } else {
                None::<usize>
            },
    {
        if self.selected < limits.max_formats as u64 {
            let remaining = limits.max_formats - self.selected as usize;
            Some(
                if limits.page_size <= remaining {
                    limits.page_size
                } else {
                    remaining
                },
            )
        } else {
            None
        }
    }

    /// Where the next page starts: after the last selected candidate's format and
    /// reference.
    pub fn cursor(&self) -> (r: Option<(i64, i64)>)
        ensures
            r == if self.candidates@.len() == 0 {
                None::<(i64, i64)>
            } else {
                Some(
                    (
                        self.candidates@.last().book_format_id,
                        self.candidates@.last().reference_asset_id,
                    ),
                )
            },
    {
        let n = self.candidates.len();
        if n == 0 {
            None
        } else {
            Some((self.candidates[n - 1].book_format_id, self.candidates[n - 1].reference_asset_id))
        }
    }

    /// Records one selected candidate and, when the run applies, how its adoption
    /// ended: the adoption's result, or the message of its failure.
    pub fn record_candidate(
        &mut self,
        candidate: SourceAdoptionCandidate,
        outcome: Option<Result<AdoptFormatResult, String>>,
        limits: BulkAdoptLimits,
    )
        requires
            old(self).wf(limits),
            limits.valid(),
            old(self).selected < limits.max_formats,
            (outcome is Some) == old(self).apply,
            outcome matches Some(Ok(res)) ==> old(self).logical_bytes_adopted + res.logical_size_bytes
                <= u64::MAX && old(self).stored_bytes_adopted + res.stored_size_bytes <= u64::MAX,
        ensures
            final(self).wf(limits),
            records_outcome(*old(self), *final(self), candidate, outcome, limits.problem_limit),
    {
        self.selected = self.selected + 1;
        self.last_book_format_id = Some(candidate.book_format_id);
        match outcome {
            None => {},
            Some(Ok(res)) => {
                self.attempted = self.attempted + 1;
                if res.already_adopted {
                    self.already_adopted = self.already_adopted + 1;
                } else {
                    self.adopted_new = self.adopted_new + 1;
                }
                if res.reused_existing_object {
                    self.reused_existing_objects = self.reused_existing_objects + 1;
                }
                self.logical_bytes_adopted = self.logical_bytes_adopted + res.logical_size_bytes;
                self.stored_bytes_adopted = self.stored_bytes_adopted + res.stored_size_bytes;
            },
            Some(Err(message)) => {
                self.attempted = self.attempted + 1;
                self.failed = self.failed + 1;
                if self.problems.len() < limits.problem_limit {
                    let ghost before = self.problems@;
                    self.problems.push(
                        SourceBulkAdoptProblem {
                            book_id: candidate.book_id,
                            book_format_id: candidate.book_format_id,
                            format: candidate.format.clone(),
                            reference_asset_id: candidate.reference_asset_id,
                            message,
                        },
                    );
                    assert(self.problems@.drop_last() =~= before);
                }
            },
        }
        self.candidates.push(candidate);
    }

    /// The reports made when a page is done: the selection count, and when the run
    /// applies, the adoption counts too.
    pub fn page_progress(&self) -> (r: Vec<SourceBulkAdoptProgress>)
        ensures
            r@ == if self.apply {
                seq![
                    SourceBulkAdoptProgress::PageComplete {
                        selected: self.selected,
                        attempted: self.attempted,
                    },
                    SourceBulkAdoptProgress::AdoptionProgress {
                        attempted: self.attempted,
                        adopted_new: self.adopted_new,
                        failed: self.failed,
                    },
                ]
            } else {
                seq![
                    SourceBulkAdoptProgress::PageComplete {
                        selected: self.selected,
                        attempted: self.attempted,
                    },
                ]
            },
    {
        let mut r: Vec<SourceBulkAdoptProgress> = Vec::new();
        r.push(
            SourceBulkAdoptProgress::PageComplete { selected: self.selected, attempted: self.attempted },
        );
        if self.apply {
            r.push(
                SourceBulkAdoptProgress::AdoptionProgress {
                    attempted: self.attempted,
                    adopted_new: self.adopted_new,
                    failed: self.failed,
                },
            );
        }
        r
    }

    /// The report made when the run is done.
    pub fn complete_progress(&self) -> (r: SourceBulkAdoptProgress)
        ensures
            r == (SourceBulkAdoptProgress::Complete {
                selected: self.selected,
                attempted: self.attempted,
                adopted_new: self.adopted_new,
                failed: self.failed,
            }),
    {
        SourceBulkAdoptProgress::Complete {
            selected: self.selected,
            attempted: self.attempted,
            adopted_new: self.adopted_new,
            failed: self.failed,
        }
    }

    /// Records the source's counts after a run that applied; a dry run keeps the
    /// counts from before.
    pub fn record_final_audit(&mut self, dependent_formats: u64, managed_backed_formats: u64)
        ensures
            final(self).dependent_formats_after == if old(self).apply {
                dependent_formats
            } else {
                old(self).dependent_formats_after
            },
            final(self).managed_backed_formats_after == if old(self).apply {
                managed_backed_formats
            } else {
                old(self).managed_backed_formats_after
            },
            final(self).source_id == old(self).source_id,
            final(self).apply == old(self).apply,
            final(self).selected == old(self).selected,
            final(self).attempted == old(self).attempted,
            final(self).adopted_new == old(self).adopted_new,
            final(self).already_adopted == old(self).already_adopted,
            final(self).reused_existing_objects == old(self).reused_existing_objects,
            final(self).failed == old(self).failed,
            final(self).logical_bytes_adopted == old(self).logical_bytes_adopted,
            final(self).stored_bytes_adopted == old(self).stored_bytes_adopted,
            final(self).last_book_format_id == old(self).last_book_format_id,
            final(self).dependent_formats_before == old(self).dependent_formats_before,
            final(self).managed_backed_formats_before == old(self).managed_backed_formats_before,
            final(self).candidates@ == old(self).candidates@,
            final(self).problems@ == old(self).problems@,
    {
        if self.apply {
            self.dependent_formats_after = dependent_formats;
            self.managed_backed_formats_after = managed_backed_formats;
        }
    }
}

/// The counts of a run stay within its bounds: it never selects more than its
/// format bound, every attempt is counted exactly once as new, already adopted or
/// failed, the problems are at most the problem bound and at most the failures, and
/// a dry run attempts nothing.
pub proof fn lemma_bulk_run_bounded(r: SourceBulkAdoptResult, limits: BulkAdoptLimits)
    requires
        r.wf(limits),
        limits.valid(),
    ensures
        r.selected <= limits.max_formats <= MAX_BULK_ADOPT_FORMATS,
        r.candidates@.len() == r.selected,
        r.attempted <= r.selected,
        r.attempted == r.adopted_new + r.already_adopted + r.failed,
        r.problems@.len() <= r.failed,
        r.problems@.len() <= limits.problem_limit <= MAX_BULK_ADOPT_PROBLEMS,
        r.failed <= limits.problem_limit ==> r.problems@.len() == r.failed,
        r.reused_existing_objects <= r.attempted,
        !r.apply ==> r.attempted == 0 && r.adopted_new == 0 && r.already_adopted == 0 && r.failed
            == 0 && r.problems@.len() == 0,
{
}

/// The reports of finished pages, in order: each page reports its selection
/// count, followed, in a run that applies, by its adoption counts for the same
/// attempts.
pub open spec fn pages_reported(ev: Seq<SourceBulkAdoptProgress>, apply: bool) -> bool
    decreases ev.len(),
{
    if ev.len() == 0 {
        true
    } else if apply {
        ev.len() >= 2 && (ev.last() matches SourceBulkAdoptProgress::AdoptionProgress { attempted, .. } && ev[
            ev.len() - 2
        ] matches SourceBulkAdoptProgress::PageComplete { attempted: a2, .. } && a2 == attempted)
            && pages_reported(ev.take(ev.len() - 2), apply)
    } else {
        ev.last() is PageComplete && pages_reported(ev.drop_last(), apply)
    }
}

/// The reports of a run so far: the selection start, then the finished pages'.
pub open spec fn run_reported(ev: Seq<SourceBulkAdoptProgress>, apply: bool) -> bool {
    ev.len() >= 1 && ev[0] == SourceBulkAdoptProgress::SelectionStarted && pages_reported(ev.drop_first(), apply)
}

/// How many page reports a sequence of reports holds.
pub open spec fn page_reports(ev: Seq<SourceBulkAdoptProgress>) -> nat
    decreases ev.len(),
{
    if ev.len() == 0 {
        0
    } else {
        page_reports(ev.drop_last()) + if ev.last() is PageComplete {
            1nat
        } else {
            0nat
        }
    }
}

/// A bulk run in progress: its tally, its bounds, what is left of the page being
/// worked through, whether that page is still to be reported, how many pages
/// were taken, and the reports made so far.
pub struct BulkRun {
    result: SourceBulkAdoptResult,
    limits: BulkAdoptLimits,
    page: Vec<SourceAdoptionCandidate>,
    selecting: bool,
    in_page: bool,
    options: Ghost<SourceBulkAdoptOptions>,
    reports: Ghost<Seq<SourceBulkAdoptProgress>>,
}

impl BulkRun {
    #[verifier::type_invariant]
    spec fn inv(self) -> bool {
        &&& self.result.wf(self.limits)
        &&& self.limits.valid()
        &&& run_reported(self.reports@, self.result.apply)
        &&& self.limits == self.options@.limits_of()
        &&& self.result.apply == self.options@.apply
    }

    /// The options the run was started with.
    pub closed spec fn started_with(self) -> SourceBulkAdoptOptions {
        self.options@
    }

    /// Whether a page was taken and is not reported yet.
    pub closed spec fn page_in_progress(self) -> bool {
        self.in_page
    }

    /// How many non-empty pages the run has taken.
    pub closed spec fn pages_taken(self) -> nat {
        page_reports(self.reports@) + if self.in_page {
            1nat
        } else {
            0nat
        }
    }

    /// Whether a page was taken and is not reported yet.
    pub fn in_page(&self) -> (r: bool)
        ensures
            r == self.page_in_progress(),
    {
        self.in_page
    }

    /// The run's tally so far.
    pub closed spec fn tally(self) -> SourceBulkAdoptResult {
        self.result
    }

    /// The bounds the run works within.
    pub closed spec fn bounds(self) -> BulkAdoptLimits {
        self.limits
    }

    /// The reports the run has made so far.
    pub closed spec fn reported(self) -> Seq<SourceBulkAdoptProgress> {
        self.reports@
    }

    /// Whether the run still selects pages.
    pub closed spec fn still_selecting(self) -> bool {
        self.selecting
    }

    /// What is left of the current page.
    pub closed spec fn pending(self) -> Seq<SourceAdoptionCandidate> {
        self.page@
    }

    /// The run's tally so far.
    pub fn result(&self) -> (r: &SourceBulkAdoptResult)
        ensures
            *r == self.tally(),
    {
        &self.result
    }

    /// Starts a run with the options' bounds and apply flag and the source's
    /// counts before it; its first report is the selection start.
    pub fn begin(
        source_id: i64,
        options: &SourceBulkAdoptOptions,
        dependent_formats_before: u64,
        managed_backed_formats_before: u64,
    ) -> (r: (Self, SourceBulkAdoptProgress))
        ensures
            r.1 == SourceBulkAdoptProgress::SelectionStarted,
            r.0.reported() == seq![SourceBulkAdoptProgress::SelectionStarted],
            r.0.tally().apply == options.apply,
            r.0.tally().source_id == source_id,
            r.0.tally().selected == 0,
            r.0.tally().dependent_formats_before == dependent_formats_before,
            r.0.tally().managed_backed_formats_before == managed_backed_formats_before,
            r.0.tally().dependent_formats_after == dependent_formats_before,
            r.0.tally().managed_backed_formats_after == managed_backed_formats_before,
            r.0.bounds() == options.limits_of(),
            r.0.still_selecting(),
            r.0.pending().len() == 0,
            !r.0.page_in_progress(),
            r.0.pages_taken() == 0,
            r.0.started_with() == *options,
    {
        let limits = options.limits();
        let result = SourceBulkAdoptResult::start(source_id, options.apply, dependent_formats_before, managed_backed_formats_before);
        let ghost ev = seq![SourceBulkAdoptProgress::SelectionStarted];
        assert(ev.drop_first() =~= Seq::<SourceBulkAdoptProgress>::empty());
        assert(ev.drop_last() =~= Seq::<SourceBulkAdoptProgress>::empty());
        assert(page_reports(ev.drop_last()) == 0);
        assert(ev.last() == SourceBulkAdoptProgress::SelectionStarted);
        assert(page_reports(ev) == 0);
        (
            BulkRun {
                result,
                limits,
                page: Vec::new(),
                selecting: true,
                in_page: false,
                options: Ghost(*options),
                reports: Ghost(ev),
            },
            SourceBulkAdoptProgress::SelectionStarted,
        )
    }

    /// The next page to ask for, where it starts and how many candidates it
    /// holds; none while a page is not reported yet, once selection is over, or
    /// once the bound is reached.
    pub fn next_page_request(&self) -> (r: Option<(Option<(i64, i64)>, usize)>)
        ensures
            r is Some <==> !self.page_in_progress() && self.still_selecting() && self.tally().selected
                < self.bounds().max_formats,
            r matches Some((c, n)) ==> n == min_of(
                self.bounds().page_size as int,
                self.bounds().max_formats - self.tally().selected,
            ) && c == (if self.tally().candidates@.len() == 0 {
                None::<(i64, i64)>
            } else {
                Some((self.tally().candidates@.last().book_format_id, self.tally().candidates@.last().reference_asset_id))
            }),
    {
        proof {
            use_type_invariant(self);
        }
        if !self.selecting || self.in_page {
            return None;
        }
        match self.result.next_page_size(self.limits) {
            Some(n) => Some((self.result.cursor(), n)),
            None => None,
        }
    }

    /// Takes the page the database returned; an empty page ends the selection,
    /// and a non-empty one is to be reported once worked through.
    pub fn take_page(&mut self, page: Vec<SourceAdoptionCandidate>) -> (r: bool)
        requires
            !old(self).page_in_progress(),
        ensures
            r == (page@.len() > 0),
            final(self).page_in_progress() == r,
            final(self).pages_taken() == old(self).pages_taken() + if r {
                1nat
            } else {
                0nat
            },
            final(self).pending() == page@,
            final(self).still_selecting() == (old(self).still_selecting() && page@.len() > 0),
            final(self).tally() == old(self).tally(),
            final(self).bounds() == old(self).bounds(),
            final(self).started_with() == old(self).started_with(),
            final(self).reported() == old(self).reported(),
    {
        proof {
            use_type_invariant(&*self);
        }
        let nonempty = page.len() > 0;
        self.page = page;
        if !nonempty {
            self.selecting = false;
        } else {
            self.in_page = true;
        }
        nonempty
    }

    /// The next candidate of the page, while the run has room; none, dropping the
    /// rest of the page, once the page or the room is used up.
    pub fn next_candidate(&mut self) -> (r: Option<SourceAdoptionCandidate>)
        ensures
            final(self).tally() == old(self).tally(),
            final(self).bounds() == old(self).bounds(),
            final(self).started_with() == old(self).started_with(),
            final(self).reported() == old(self).reported(),
            final(self).still_selecting() == old(self).still_selecting(),
            final(self).page_in_progress() == old(self).page_in_progress(),
            final(self).pages_taken() == old(self).pages_taken(),
            match r {
                Some(c) => old(self).pending().len() > 0 && old(self).tally().selected < old(self).bounds().max_formats
                    && c == old(self).pending()[0] && final(self).pending() == old(self).pending().drop_first(),
                None => (old(self).pending().len() == 0 || old(self).tally().selected >= old(self).bounds().max_formats)
                    && final(self).pending().len() == 0,
            },
    {
        proof {
            use_type_invariant(&*self);
        }
        if self.page.len() == 0 || !self.result.has_room(self.limits) {
            self.page = Vec::new();
            return None;
        }
        let mut page: Vec<SourceAdoptionCandidate> = Vec::new();
        std::mem::swap(&mut page, &mut self.page);
        let c = page.remove(0);
        assert(page@ =~= old(self).page@.drop_first());
        self.page = page;
        Some(c)
    }

    /// Records a candidate taken from the page and, in a run that applies, how its
    /// adoption ended.
    pub fn record(&mut self, candidate: SourceAdoptionCandidate, outcome: Option<Result<AdoptFormatResult, String>>)
        requires
            old(self).tally().selected < old(self).bounds().max_formats,
            (outcome is Some) == old(self).tally().apply,
            outcome matches Some(Ok(res)) ==> old(self).tally().logical_bytes_adopted + res.logical_size_bytes
                <= u64::MAX && old(self).tally().stored_bytes_adopted + res.stored_size_bytes <= u64::MAX,
        ensures
            records_outcome(old(self).tally(), final(self).tally(), candidate, outcome, old(self).bounds().problem_limit),
            final(self).bounds() == old(self).bounds(),
            final(self).started_with() == old(self).started_with(),
            final(self).reported() == old(self).reported(),
            final(self).still_selecting() == old(self).still_selecting(),
            final(self).pending() == old(self).pending(),
            final(self).page_in_progress() == old(self).page_in_progress(),
            final(self).pages_taken() == old(self).pages_taken(),
    {
        proof {
            use_type_invariant(&*self);
        }
        let limits = self.limits;
        let mut result = SourceBulkAdoptResult::start(self.result.source_id, self.result.apply, 0, 0);
        std::mem::swap(&mut result, &mut self.result);
        result.record_candidate(candidate, outcome, limits);
        self.result = result;
    }

    /// Ends the current page and gives its reports: the selection count, and in a
    /// run that applies, the adoption counts.
    pub fn finish_page(&mut self) -> (r: Vec<SourceBulkAdoptProgress>)
        requires
            old(self).page_in_progress(),
        ensures
            !final(self).page_in_progress(),
            final(self).pages_taken() == old(self).pages_taken(),
            final(self).reported() == old(self).reported() + r@,
            r@.len() >= 1 && r@[0] == (SourceBulkAdoptProgress::PageComplete {
                selected: old(self).tally().selected,
                attempted: old(self).tally().attempted,
            }),
            final(self).tally() == old(self).tally(),
            final(self).bounds() == old(self).bounds(),
            final(self).started_with() == old(self).started_with(),
            final(self).still_selecting() == old(self).still_selecting(),
            final(self).pending().len() == 0,
    {
        proof {
            use_type_invariant(&*self);
        }
        let events = self.result.page_progress();
        let ghost before = self.reports@;
        let ghost after = before + events@;
        proof {
            assert(after.drop_first() =~= before.drop_first() + events@);
            let pc = before.push(events@[0]);
            assert(pc.drop_last() =~= before);
            assert(page_reports(pc) == page_reports(before) + 1);
            if self.result.apply {
                assert((before.drop_first() + events@).take(after.drop_first().len() - 2) =~= before.drop_first());
                assert(after.drop_last() =~= pc);
                assert(page_reports(after) == page_reports(pc));
            } else {
                assert((before.drop_first() + events@).drop_last() =~= before.drop_first());
                assert(after =~= pc);
            }
        }
        self.page = Vec::new();
        self.in_page = false;
        self.reports = Ghost(after);
        events
    }

    /// Whether the source is audited again once selection is over: only a run that
    /// applies changes what the source references.
    pub fn audits_after(&self) -> (r: bool)
        ensures
            r == self.tally().apply,
    {
        self.result.apply
    }

    /// Records the source's counts after the run; a dry run keeps the counts from
    /// before.
    pub fn record_final_audit(&mut self, dependent_formats: u64, managed_backed_formats: u64)
        ensures
            final(self).tally().dependent_formats_after == if old(self).tally().apply {
                dependent_formats
            } else {
                old(self).tally().dependent_formats_after
            },
            final(self).tally().managed_backed_formats_after == if old(self).tally().apply {
                managed_backed_formats
            } else {
                old(self).tally().managed_backed_formats_after
            },
            final(self).tally().selected == old(self).tally().selected,
            final(self).tally().apply == old(self).tally().apply,
            final(self).bounds() == old(self).bounds(),
            final(self).started_with() == old(self).started_with(),
            final(self).reported() == old(self).reported(),
            final(self).page_in_progress() == old(self).page_in_progress(),
            final(self).pages_taken() == old(self).pages_taken(),
    {
        proof {
            use_type_invariant(&*self);
        }
        let mut result = SourceBulkAdoptResult::start(self.result.source_id, self.result.apply, 0, 0);
        std::mem::swap(&mut result, &mut self.result);
        result.record_final_audit(dependent_formats, managed_backed_formats);
        self.result = result;
    }

    /// Ends the run: its tally and its last report. Over the whole run, the
    /// reports start with the selection start, end with the completion and its
    /// counts, which occur nowhere else, and between them give each finished page's
    /// selection count, followed, in a run that applies, by its adoption counts for
    /// the same attempts; there is one page report per non-empty page taken. The
    /// tally keeps the bounds of the options the run was started with: it selects
    /// at most their format bound, lists each selected candidate, attempts every
    /// one exactly when the run applies, counts each attempt once as new, already
    /// adopted or failed, keeps at most the problem bound and at most one problem
    /// per failure, and remembers the last candidate's format.
    pub fn complete(self) -> (r: (SourceBulkAdoptResult, SourceBulkAdoptProgress))
        requires
            !self.page_in_progress(),
        ensures
            page_reports(self.reported()) == self.pages_taken(),
            r.0 == self.tally(),
            r.1 == (SourceBulkAdoptProgress::Complete {
                selected: r.0.selected,
                attempted: r.0.attempted,
                adopted_new: r.0.adopted_new,
                failed: r.0.failed,
            }),
            run_reported(self.reported(), r.0.apply),
            r.0.wf(self.bounds()),
            self.bounds().valid(),
            forall|i: int| 0 <= i < self.reported().len() ==> !(#[trigger] self.reported()[i] is Complete),
            r.0.selected <= min_of(self.started_with().max_formats as int, MAX_BULK_ADOPT_FORMATS as int),
            r.0.candidates@.len() == r.0.selected,
            r.0.problems@.len() <= min_of(self.started_with().problem_limit as int, MAX_BULK_ADOPT_PROBLEMS as int),
            r.0.problems@.len() <= r.0.failed,
            r.0.attempted == if self.started_with().apply {
                r.0.selected
            } else {
                0
            },
            r.0.attempted == r.0.adopted_new + r.0.already_adopted + r.0.failed,
            r.0.last_book_format_id == if r.0.candidates@.len() == 0 {
                None
            } else {
                Some(r.0.candidates@.last().book_format_id)
            },
    {
        proof {
            use_type_invariant(&self);
            lemma_no_complete(self.reports@.drop_first(), self.result.apply);
            lemma_bulk_run_law(self.result, self.options@);
            assert forall|i: int| 0 <= i < self.reports@.len() implies !(#[trigger] self.reports@[i] is Complete) by {
                if i > 0 {
                    assert(self.reports@[i] == self.reports@.drop_first()[i - 1]);
                }
            }
        }
        let event = self.result.complete_progress();
        (self.result, event)
    }
}

proof fn lemma_no_complete(ev: Seq<SourceBulkAdoptProgress>, apply: bool)
    requires
        pages_reported(ev, apply),
    ensures
        forall|i: int| 0 <= i < ev.len() ==> !(#[trigger] ev[i] is Complete),
    decreases ev.len(),
{
    if ev.len() > 0 {
        let front = if apply { ev.take(ev.len() - 2) } else { ev.drop_last() };
        lemma_no_complete(front, apply);
        assert forall|i: int| 0 <= i < ev.len() implies !(#[trigger] ev[i] is Complete) by {
            if i < front.len() {
                assert(ev[i] == front[i]);
            }
        }
    }
}

/// A finished run keeps the bounds of the options it was started with: it
/// selects at most their format bound, lists each selected candidate, attempts
/// every candidate exactly when it applies, counts each attempt once, and records
/// at most the problem bound and at most one problem per failure.
pub proof fn lemma_bulk_run_law(r: SourceBulkAdoptResult, options: SourceBulkAdoptOptions)
    requires
        r.wf(options.limits_of()),
        r.apply == options.apply,
    ensures
        r.selected <= min_of(options.max_formats as int, MAX_BULK_ADOPT_FORMATS as int),
        r.candidates@.len() == r.selected,
        r.problems@.len() <= min_of(options.problem_limit as int, MAX_BULK_ADOPT_PROBLEMS as int),
        r.problems@.len() <= r.failed,
        r.attempted == if options.apply { r.selected } else { 0 },
        r.attempted == r.adopted_new + r.already_adopted + r.failed,
        r.last_book_format_id == if r.candidates@.len() == 0 {
            None
        } else {
            Some(r.candidates@.last().book_format_id)
        },
{
    lemma_bulk_run_bounded(r, options.limits_of());
}

} // verus!
