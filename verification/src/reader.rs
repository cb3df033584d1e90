//! The built-in reader: pages of text, navigation, search, contents, bookmarks,
//! annotations and recently read books.
use crate::text::{
    append_str, append_vec, chars_of, contains_seq, contains_vec, lines, lines_vec, lowercase,
    lower_vec, nat_digits, slice_vec, string_of, string_views, trim, trim_start, trim_vec, u64_digits,
    views,
};
use vstd::prelude::*;

verus! {

/// Consecutive pieces of `n` characters; the last may be shorter.
pub open spec fn chunks(s: Seq<char>, n: nat) -> Seq<Seq<char>>
    recommends
        n > 0,
    decreases s.len(),
{
    if n == 0 || s.len() == 0 {
        Seq::empty()
    } else if s.len() <= n {
        seq![s]
    } else {
        seq![s.take(n as int)] + chunks(s.skip(n as int), n)
    }
}

/// The pages of a text: the whole text when pages are unbounded, else pieces of
/// `n` characters, and a single empty page for an empty text.
pub open spec fn paginated(s: Seq<char>, n: nat) -> Seq<Seq<char>> {
    if n == 0 {
        seq![s]
    } else if s.len() == 0 {
        seq![Seq::<char>::empty()]
    } else {
        chunks(s, n)
    }
}

/// All pieces put back together.
pub open spec fn flatten(pages: Seq<Seq<char>>) -> Seq<char>
    decreases pages.len(),
{
    if pages.len() == 0 {
        Seq::empty()
    } else {
        pages[0] + flatten(pages.drop_first())
    }
}

/// Splits a text into pages of `page_chars` characters.
pub fn paginate_text(text: &str, page_chars: usize) -> (r: Vec<String>)
    ensures
        string_views(r@) == paginated(text@, page_chars as nat),
{
    let v = chars_of(text);
    let mut pages: Vec<String> = Vec::new();
    if page_chars == 0 {
        pages.push(string_of(&v));
        assert(string_views(pages@) =~= paginated(text@, 0));
        return pages;
    }
    let n = page_chars;
    let mut i: usize = 0;
    assert(v@.skip(0) =~= v@);
    while i < v.len()
        invariant
            i <= v.len(),
            n > 0,
            v@ == text@,
            string_views(pages@) + chunks(v@.skip(i as int), n as nat) == chunks(v@, n as nat),
        decreases v.len() - i,
    {
        let rest_len = v.len() - i;
        let end = if rest_len > n {
            i + n
        } else {
            v.len()
        };
        let piece = slice_vec(&v, i, end);
        let ghost rest = v@.skip(i as int);
        let ghost before = string_views(pages@);
        pages.push(string_of(&piece));
        proof {
            if rest_len > n {
                assert(piece@ =~= rest.take(n as int));
                assert(rest.skip(n as int) =~= v@.skip(end as int));
                assert(chunks(rest, n as nat) == seq![rest.take(n as int)] + chunks(rest.skip(n as int), n as nat));
            } else {
                assert(piece@ =~= rest);
                assert(v@.skip(end as int) =~= Seq::<char>::empty());
                assert(chunks(rest, n as nat) == seq![rest]);
            }
            assert(string_views(pages@) =~= before.push(piece@));
            assert(string_views(pages@) + chunks(v@.skip(end as int), n as nat) =~= before + chunks(rest, n as nat));
        }
        i = end;
    }
    assert(v@.skip(v.len() as int) =~= Seq::<char>::empty());
    assert(string_views(pages@) =~= chunks(v@, n as nat));
    if pages.len() == 0 {
        pages.push(String::new());
        assert(string_views(pages@) =~= seq![Seq::<char>::empty()]);
    }
    pages
}

/// Pagination keeps the text whole and in order: the pages put together are the
/// text; every page but the last holds exactly `n` characters, the last at most
/// `n` and at least one unless the text is empty.
pub proof fn lemma_pages_rebuild_text(s: Seq<char>, n: nat)
    requires
        n > 0,
    ensures
        flatten(paginated(s, n)) == s,
        paginated(s, n).len() > 0,
        forall|i: int| 0 <= i < paginated(s, n).len() - 1 ==> (#[trigger] paginated(s, n)[i]).len() == n,
        paginated(s, n).last().len() <= n,
        s.len() > 0 ==> paginated(s, n).last().len() > 0,
    decreases s.len(),
{
    if s.len() == 0 {
        assert(flatten(Seq::<Seq<char>>::empty()) =~= Seq::<char>::empty());
        assert(seq![Seq::<char>::empty()].drop_first() =~= Seq::<Seq<char>>::empty());
        assert(flatten(seq![Seq::<char>::empty()]) =~= Seq::<char>::empty() + flatten(Seq::<Seq<char>>::empty()));
    } else if s.len() <= n {
        assert(seq![s].drop_first() =~= Seq::<Seq<char>>::empty());
        assert(flatten(Seq::<Seq<char>>::empty()) =~= Seq::<char>::empty());
        assert(flatten(seq![s]) =~= s + flatten(Seq::<Seq<char>>::empty()));
    } else {
        let rest = s.skip(n as int);
        lemma_pages_rebuild_text(rest, n);
        let c = chunks(s, n);
        assert(c == seq![s.take(n as int)] + chunks(rest, n));
        assert(rest.len() > 0);
        assert(paginated(rest, n) == chunks(rest, n));
        assert(c.drop_first() =~= chunks(rest, n));
        assert(flatten(c) == s.take(n as int) + flatten(chunks(rest, n)));
        assert(s.take(n as int) + rest =~= s);
        assert forall|i: int| 0 <= i < c.len() - 1 implies (#[trigger] c[i]).len() == n by {
            if i > 0 {
                assert(c[i] == chunks(rest, n)[i - 1]);
            }
        }
        assert(c.last() == chunks(rest, n).last());
    }
}


/// Colour theme of the reader.
#[derive(Clone, Copy, Debug, PartialEq, Eq, Structural)]
pub enum ReaderTheme {
    Light,
    Dark,
    Sepia,
}

/// The theme a configuration word names: `dark` and `sepia` theirs, anything else
/// light.
pub open spec fn theme_from(value: Seq<char>) -> ReaderTheme {
    if value == "dark"@ {
        ReaderTheme::Dark
    } else if value == "sepia"@ {
        ReaderTheme::Sepia
    } else {
        ReaderTheme::Light
    }
}

/// Display label of a theme.
pub open spec fn theme_label(t: ReaderTheme) -> Seq<char> {
    match t {
        ReaderTheme::Light => "Light"@,
        ReaderTheme::Dark => "Dark"@,
        ReaderTheme::Sepia => "Sepia"@,
    }
}

impl ReaderTheme {
    /// Reads a theme from its configuration word.
    pub fn from_config(value: &str) -> (r: ReaderTheme)
        ensures
            r == theme_from(value@),
    {
        let v = chars_of(value);
        if crate::text::vec_eq_str(&v, "dark") {
            ReaderTheme::Dark
        } else if crate::text::vec_eq_str(&v, "sepia") {
            ReaderTheme::Sepia
        } else {
            ReaderTheme::Light
        }
    }

    /// Display label of the theme.
    pub fn label(&self) -> (r: &'static str)
        ensures
            r@ == theme_label(*self),
    {
        match self {
            ReaderTheme::Light => "Light",
            ReaderTheme::Dark => "Dark",
            ReaderTheme::Sepia => "Sepia",
        }
    }
}

/// Colour of a highlight.
#[derive(Clone, Copy, Debug, PartialEq, Eq, Structural)]
pub enum ReaderHighlightColor {
    Yellow,
    Green,
    Blue,
    Pink,
}

/// What the reader shows.
#[derive(Clone, Debug)]
pub enum ReaderContent {
    Text { raw: String, pages: Vec<String> },
    Unsupported,
    Empty,
}

/// A heading of the contents.
#[derive(Clone, Debug)]
pub struct ReaderTocEntry {
    pub title: String,
    pub page: usize,
}

/// A bookmarked page.
#[derive(Clone, Debug)]
pub struct ReaderBookmark {
    pub title: String,
    pub page: usize,
}

/// A highlighted passage with a note.
#[derive(Clone, Debug)]
pub struct ReaderAnnotation {
    pub page: usize,
    pub text: String,
    pub note: String,
    pub color: ReaderHighlightColor,
}

/// A page where the search text was found.
#[derive(Clone, Debug)]
pub struct ReaderSearchResult {
    pub label: String,
    pub page: Option<usize>,
    pub book_id: Option<i64>,
}

/// A recently read book and the page it was left at.
#[derive(Clone, Debug)]
pub struct ReaderRecent {
    pub book_id: i64,
    pub title: String,
    pub page: usize,
}

/// Views of contents entries: title and page.
pub open spec fn toc_views(v: Seq<ReaderTocEntry>) -> Seq<(Seq<char>, usize)> {
    v.map_values(|e: ReaderTocEntry| (e.title@, e.page))
}

/// Views of bookmarks: title and page.
pub open spec fn bookmark_views(v: Seq<ReaderBookmark>) -> Seq<(Seq<char>, usize)> {
    v.map_values(|e: ReaderBookmark| (e.title@, e.page))
}

/// Views of annotations: page, text, note and colour.
pub open spec fn annotation_views(v: Seq<ReaderAnnotation>) -> Seq<(usize, Seq<char>, Seq<char>, ReaderHighlightColor)> {
    v.map_values(|e: ReaderAnnotation| (e.page, e.text@, e.note@, e.color))
}

/// Views of search results: label, page and book.
pub open spec fn result_views(v: Seq<ReaderSearchResult>) -> Seq<(Seq<char>, Option<usize>, Option<i64>)> {
    v.map_values(|e: ReaderSearchResult| (e.label@, e.page, e.book_id))
}

/// Views of recently read books: book, title and page.
pub open spec fn recent_views(v: Seq<ReaderRecent>) -> Seq<(i64, Seq<char>, usize)> {
    v.map_values(|e: ReaderRecent| (e.book_id, e.title@, e.page))
}

/// How many recently read books are remembered.
pub const MAX_RECENT_BOOKS: usize = 10;

/// The entries of other books.
pub open spec fn other_books(r: Seq<(i64, Seq<char>, usize)>, book_id: i64) -> Seq<(i64, Seq<char>, usize)> {
    r.filter(|e: (i64, Seq<char>, usize)| e.0 != book_id)
}

/// The recent list after reading `page` of a book: the book first, its earlier
/// entry dropped, at most the remembered number kept.
pub open spec fn recent_after(
    r: Seq<(i64, Seq<char>, usize)>,
    book_id: i64,
    title: Seq<char>,
    page: usize,
) -> Seq<(i64, Seq<char>, usize)> {
    let all = seq![(book_id, title, page)] + other_books(r, book_id);
    if all.len() > MAX_RECENT_BOOKS {
        all.take(MAX_RECENT_BOOKS as int)
    } else {
        all
    }
}

/// No book is listed twice.
pub open spec fn recent_unique(r: Seq<(i64, Seq<char>, usize)>) -> bool {
    forall|i: int, j: int| 0 <= i < j < r.len() ==> r[i].0 != r[j].0
}

/// The pages of the shown text; none for other content.
pub open spec fn content_pages(c: ReaderContent) -> Seq<Seq<char>> {
    match c {
        ReaderContent::Text { raw: _, pages } => string_views(pages@),
        _ => Seq::empty(),
    }
}

/// Whether a line opens a heading: its first non-blank character is `#`.
pub open spec fn is_heading_line(line: Seq<char>) -> bool {
    trim_start(line).len() > 0 && trim_start(line)[0] == '#'
}

/// A line without its leading `#` characters.
pub open spec fn strip_hashes(line: Seq<char>) -> Seq<char>
    decreases line.len(),
{
    if line.len() > 0 && line[0] == '#' {
        strip_hashes(line.drop_first())
    } else {
        line
    }
}

/// Index of the first heading line, or -1.
pub open spec fn first_heading(ls: Seq<Seq<char>>) -> int
    decreases ls.len(),
{
    if ls.len() == 0 {
        -1
    } else {
        let r = first_heading(ls.drop_last());
        if r >= 0 {
            r
        } else if is_heading_line(ls.last()) {
            ls.len() - 1
        } else {
            -1
        }
    }
}

/// The heading title of a page: its first heading line without the leading `#`
/// characters, trimmed; none when that is blank or there is no heading.
pub open spec fn page_heading(page: Seq<char>) -> Option<Seq<char>> {
    let ls = lines(page);
    let i = first_heading(ls);
    if i >= 0 && trim(strip_hashes(ls[i])).len() > 0 {
        Some(trim(strip_hashes(ls[i])))
    } else {
        None
    }
}

/// The headings of the pages, each with its page.
pub open spec fn headings(pages: Seq<Seq<char>>) -> Seq<(Seq<char>, usize)>
    decreases pages.len(),
{
    if pages.len() == 0 {
        Seq::empty()
    } else {
        let r = headings(pages.drop_last());
        match page_heading(pages.last()) {
            Some(t) => r.push((t, (pages.len() - 1) as usize)),
            None => r,
        }
    }
}

/// The contents of the shown text: its headings, or a single `Start` at the first
/// page when there are none.
pub open spec fn contents_of(pages: Seq<Seq<char>>) -> Seq<(Seq<char>, usize)> {
    if headings(pages).len() == 0 {
        seq![("Start"@, 0usize)]
    } else {
        headings(pages)
    }
}

/// Every heading's page is one of the pages.
proof fn lemma_headings_in_range(pages: Seq<Seq<char>>)
    requires
        pages.len() <= usize::MAX,
    ensures
        forall|i: int| 0 <= i < headings(pages).len() ==> (#[trigger] headings(pages)[i]).1 < pages.len(),
    decreases pages.len(),
{
    if pages.len() > 0 {
        lemma_headings_in_range(pages.drop_last());
        let r = headings(pages.drop_last());
        assert forall|i: int| 0 <= i < headings(pages).len() implies (#[trigger] headings(pages)[i]).1 < pages.len() by {
            if i < r.len() {
                assert(headings(pages)[i] == r[i]);
            }
        }
    }
}

proof fn lemma_first_heading_bounds(ls: Seq<Seq<char>>)
    ensures
        -1 <= first_heading(ls) < ls.len(),
        first_heading(ls) >= 0 ==> is_heading_line(ls[first_heading(ls)]),
        forall|j: int| 0 <= j < ls.len() && (first_heading(ls) < 0 || j < first_heading(ls)) ==> !is_heading_line(#[trigger] ls[j]),
    decreases ls.len(),
{
    if ls.len() > 0 {
        lemma_first_heading_bounds(ls.drop_last());
        assert forall|j: int| 0 <= j < ls.len() && (first_heading(ls) < 0 || j < first_heading(ls)) implies !is_heading_line(#[trigger] ls[j]) by {
            if j < ls.len() - 1 {
                assert(ls[j] == ls.drop_last()[j]);
            }
        }
    }
}

/// Whether a line opens a heading.
fn heading_line(line: &Vec<char>) -> (r: bool)
    ensures
        r == is_heading_line(line@),
{
    let mut lo: usize = 0;
    assert(line@.skip(0) =~= line@);
    while lo < line.len() && crate::text::is_whitespace(line[lo])
        invariant
            lo <= line.len(),
            trim_start(line@) == trim_start(line@.skip(lo as int)),
        decreases line.len() - lo,
    {
        assert(line@.skip(lo as int).drop_first() =~= line@.skip(lo + 1));
        lo += 1;
    }
    assert(lo < line.len() ==> trim_start(line@.skip(lo as int)) == line@.skip(lo as int));
    assert(lo == line.len() ==> line@.skip(lo as int) =~= Seq::<char>::empty());
    lo < line.len() && line[lo] == '#'
}

/// The line without its leading `#` characters.
fn without_hashes(line: &Vec<char>) -> (r: Vec<char>)
    ensures
        r@ == strip_hashes(line@),
{
    let mut i: usize = 0;
    assert(line@.skip(0) =~= line@);
    while i < line.len() && line[i] == '#'
        invariant
            i <= line.len(),
            strip_hashes(line@) == strip_hashes(line@.skip(i as int)),
        decreases line.len() - i,
    {
        assert(line@.skip(i as int).drop_first() =~= line@.skip(i + 1));
        i += 1;
    }
    let r = slice_vec(line, i, line.len());
    assert(r@ =~= line@.skip(i as int));
    r
}

/// The heading title of a page, if any.
pub fn heading_of_page(page: &str) -> (r: Option<String>)
    ensures
        opt_text(r) == page_heading(page@),
{
    let ls = lines_vec(&chars_of(page));
    proof {
        lemma_first_heading_bounds(views(ls@));
    }
    let mut i: usize = 0;
    while i < ls.len()
        invariant
            i <= ls.len(),
            views(ls@) == lines(page@),
            forall|j: int| 0 <= j < i ==> !is_heading_line(#[trigger] views(ls@)[j]),
        decreases ls.len() - i,
    {
        assert(views(ls@)[i as int] == ls@[i as int]@);
        if heading_line(&ls[i]) {
            proof {
                lemma_first_heading_bounds(views(ls@));
                assert(first_heading(views(ls@)) == i) by {
                    let f = first_heading(views(ls@));
                    if f < 0 || f > i {
                    } else if f < i {
                        assert(!is_heading_line(views(ls@)[f]));
                    }
                }
            }
            let t = trim_vec(&without_hashes(&ls[i]));
            if t.len() > 0 {
                return Some(string_of(&t));
            } else {
                return None;
            }
        }
        i += 1;
    }
    proof {
        lemma_first_heading_bounds(views(ls@));
        let f = first_heading(views(ls@));
        if f >= 0 {
            assert(!is_heading_line(views(ls@)[f]));
        }
    }
    None
}

/// The characters of an optional string.
pub open spec fn opt_text(o: Option<String>) -> Option<Seq<char>> {
    match o {
        Some(s) => Some(s@),
        None => None,
    }
}


/// The reader's state apart from how it draws text.
#[derive(Clone, Debug)]
pub struct ReaderState {
    pub open: bool,
    pub book_id: Option<i64>,
    pub title: String,
    pub format: String,
    pub content: ReaderContent,
    pub page: usize,
    pub page_chars: usize,
    pub theme: ReaderTheme,
    pub search_query: String,
    pub search_results: Vec<ReaderSearchResult>,
    pub search_result_cursor: Option<usize>,
    pub last_match: Option<usize>,
    pub toc: Vec<ReaderTocEntry>,
    pub bookmarks: Vec<ReaderBookmark>,
    pub selected_text: String,
    pub highlight_note: String,
    pub highlight_color: ReaderHighlightColor,
    pub annotations: Vec<ReaderAnnotation>,
    pub recent: Vec<ReaderRecent>,
    pub error: Option<String>,
}

impl ReaderState {
    /// Number of pages of the shown text.
    pub open spec fn pages(&self) -> Seq<Seq<char>> {
        content_pages(self.content)
    }

    /// The reader is consistent: the page is one of the pages (the first when there
    /// are none), every contents entry points at a page, and the recent list names
    /// each book once and stays within its bound.
    pub open spec fn wf(&self) -> bool {
        &&& if self.pages().len() > 0 {
            self.page < self.pages().len()
        } else {
            self.page == 0
        }
        &&& forall|i: int| 0 <= i < self.toc@.len() ==> (#[trigger] self.toc@[i]).page < if self.pages().len() > 0 {
            self.pages().len()
        } else {
            1
        }
        &&& recent_unique(recent_views(self.recent@))
        &&& self.recent@.len() <= MAX_RECENT_BOOKS
        &&& self.pages().len() <= usize::MAX
    }

    /// A closed reader on the light theme with unbounded pages of `page_chars`.
    pub fn new(page_chars: usize, theme: ReaderTheme) -> (r: ReaderState)
        ensures
            r.wf(),
            !r.open,
            r.page_chars == page_chars,
            r.theme == theme,
            r.content is Empty,
    {
        ReaderState {
            open: false,
            book_id: None,
            title: String::new(),
            format: String::new(),
            content: ReaderContent::Empty,
            page: 0,
            page_chars,
            theme,
            search_query: String::new(),
            search_results: Vec::new(),
            search_result_cursor: None,
            last_match: None,
            toc: Vec::new(),
            bookmarks: Vec::new(),
            selected_text: String::new(),
            highlight_note: String::new(),
            highlight_color: ReaderHighlightColor::Yellow,
            annotations: Vec::new(),
            recent: Vec::new(),
            error: None,
        }
    }

    /// Whether the reader is consistent (`wf`), for callers that hold a state
    /// they did not get from this module's functions.
    pub fn is_consistent(&self) -> (r: bool)
        ensures
            r == self.wf(),
    {
        let n = self.page_count();
        let page_ok = if n > 0 {
            self.page < n
        } else {
            self.page == 0
        };
        if !page_ok {
            return false;
        }
        let bound = if n > 0 {
            n
        } else {
            1
        };
        let mut i: usize = 0;
        while i < self.toc.len()
            invariant
                i <= self.toc@.len(),
                bound == if self.pages().len() > 0 {
                    self.pages().len()
                } else {
                    1
                },
                forall|k: int| 0 <= k < i ==> (#[trigger] self.toc@[k]).page < bound,
            decreases self.toc.len() - i,
        {
            if self.toc[i].page >= bound {
                return false;
            }
            i += 1;
        }
        if self.recent.len() > MAX_RECENT_BOOKS {
            return false;
        }
        let mut a: usize = 0;
        while a < self.recent.len()
            invariant
                a <= self.recent@.len(),
                forall|x: int, y: int|
                    0 <= x < a && x < y < self.recent@.len() ==> (#[trigger] self.recent@[x]).book_id
                        != (#[trigger] self.recent@[y]).book_id,
            decreases self.recent.len() - a,
        {
            let mut b: usize = a + 1;
            while b < self.recent.len()
                invariant
                    a < self.recent@.len(),
                    a + 1 <= b <= self.recent@.len(),
                    forall|x: int, y: int|
                        0 <= x < a && x < y < self.recent@.len() ==> (#[trigger] self.recent@[x]).book_id
                            != (#[trigger] self.recent@[y]).book_id,
                    forall|y: int| a < y < b ==> self.recent@[a as int].book_id != (#[trigger] self.recent@[y]).book_id,
                decreases self.recent.len() - b,
            {
                if self.recent[a].book_id == self.recent[b].book_id {
                    assert(recent_views(self.recent@)[a as int].0 == recent_views(self.recent@)[b as int].0);
                    return false;
                }
                b += 1;
            }
            a += 1;
        }
        assert(recent_unique(recent_views(self.recent@)));
        true
    }

    /// Number of pages of the shown text.
    pub fn page_count(&self) -> (r: usize)
        ensures
            r == self.pages().len(),
    {
        match &self.content {
            ReaderContent::Text { raw: _, pages } => {
                assert(string_views(pages@).len() == pages@.len());
                pages.len()
            },
            _ => 0,
        }
    }

    /// Notes that `page` of a book was read: the book goes first in the recent list.
    pub fn push_recent(&mut self, book_id: i64, title: &str, page: usize)
        requires
            old(self).wf(),
        ensures
            final(self).wf(),
            recent_views(final(self).recent@) == recent_after(recent_views(old(self).recent@), book_id, title@, page),
            final(self).page == old(self).page,
            same_reading(*old(self), *final(self)),
    {
        let ghost r0 = recent_views(self.recent@);
        let mut kept: Vec<ReaderRecent> = Vec::new();
        let mut i: usize = 0;
        while i < self.recent.len()
            invariant
                i <= self.recent@.len(),
                r0 == recent_views(self.recent@),
                recent_views(kept@) == other_books(r0.take(i as int), book_id),
            decreases self.recent.len() - i,
        {
            proof {
                reveal_with_fuel(Seq::<_>::filter, 1);
            }
            assert(r0.take(i + 1).drop_last() =~= r0.take(i as int));
            if self.recent[i].book_id != book_id {
                let e = ReaderRecent {
                    book_id: self.recent[i].book_id,
                    title: self.recent[i].title.clone(),
                    page: self.recent[i].page,
                };
                let ghost before = kept@;
                kept.push(e);
                assert(recent_views(kept@) =~= recent_views(before).push(r0[i as int]));
            }
            i += 1;
        }
        assert(r0.take(self.recent@.len() as int) =~= r0);
        let ghost kept_v = recent_views(kept@);
        kept.insert(0, ReaderRecent { book_id, title: string_of(&chars_of(title)), page });
        assert(recent_views(kept@) =~= seq![(book_id, title@, page)] + kept_v);
        let ghost all = recent_views(kept@);
        kept.truncate(MAX_RECENT_BOOKS);
        assert(recent_views(kept@) =~= if all.len() > MAX_RECENT_BOOKS {
            all.take(MAX_RECENT_BOOKS as int)
        } else {
            all
        });
        assert(recent_views(kept@) =~= recent_after(r0, book_id, title@, page));
        proof {
            let f = other_books(r0, book_id);
            assert(recent_unique(f)) by {
                lemma_filter_unique(r0, book_id);
            }
            assert forall|a: int, b: int| 0 <= a < b < recent_views(kept@).len() implies recent_views(kept@)[a].0 != recent_views(kept@)[b].0 by {
                assert(recent_views(kept@)[a] == all[a]);
                assert(recent_views(kept@)[b] == all[b]);
                if a == 0 {
                    assert(all[b] == f[b - 1]);
                    assert(f.contains(f[b - 1]));
                } else {
                    assert(all[a] == f[a - 1]);
                    assert(all[b] == f[b - 1]);
                }
            }
        }
        self.recent = kept;
    }
}

/// Filtering a list that names each book once keeps it so, keeps only entries of
/// the list, and drops `book_id`.
proof fn lemma_filter_unique(r: Seq<(i64, Seq<char>, usize)>, book_id: i64)
    requires
        recent_unique(r),
    ensures
        recent_unique(other_books(r, book_id)),
        forall|i: int| 0 <= i < other_books(r, book_id).len() ==> (#[trigger] other_books(r, book_id)[i]).0 != book_id,
        forall|i: int| 0 <= i < other_books(r, book_id).len() ==> exists|k: int| 0 <= k < r.len() && r[k] == #[trigger] other_books(r, book_id)[i],
    decreases r.len(),
{
    reveal_with_fuel(Seq::<_>::filter, 1);
    if r.len() > 0 {
        let front = r.drop_last();
        assert(recent_unique(front)) by {
            assert forall|i: int, j: int| 0 <= i < j < front.len() implies front[i].0 != front[j].0 by {
                assert(front[i] == r[i]);
                assert(front[j] == r[j]);
            }
        }
        lemma_filter_unique(front, book_id);
        let ff = other_books(front, book_id);
        let f = other_books(r, book_id);
        assert forall|i: int| 0 <= i < ff.len() implies exists|k: int| 0 <= k < r.len() - 1 && r[k] == #[trigger] ff[i] by {
            let k = choose|k: int| 0 <= k < front.len() && front[k] == ff[i];
            assert(r[k] == front[k]);
        }
        if r.last().0 != book_id {
            assert(f == ff.push(r.last()));
            assert forall|i: int| 0 <= i < ff.len() implies (#[trigger] ff[i]).0 != r.last().0 by {
                let k = choose|k: int| 0 <= k < r.len() - 1 && r[k] == ff[i];
                assert(r.last() == r[r.len() - 1]);
            }
            assert forall|i: int| 0 <= i < f.len() implies exists|k: int| 0 <= k < r.len() && r[k] == #[trigger] f[i] by {
                if i < ff.len() {
                    assert(f[i] == ff[i]);
                    let k = choose|k: int| 0 <= k < r.len() - 1 && r[k] == ff[i];
                    assert(r[k] == f[i]);
                } else {
                    assert(r[r.len() - 1] == f[i]);
                }
            }
            assert forall|a: int, b: int| 0 <= a < b < f.len() implies f[a].0 != f[b].0 by {
                if b == ff.len() {
                    assert(f[a] == ff[a]);
                } else {
                    assert(f[a] == ff[a]);
                    assert(f[b] == ff[b]);
                }
            }
        } else {
            assert(f == ff);
            assert forall|i: int| 0 <= i < f.len() implies exists|k: int| 0 <= k < r.len() && r[k] == #[trigger] f[i] by {
                let k = choose|k: int| 0 <= k < r.len() - 1 && r[k] == ff[i];
            }
        }
    }
}


/// Everything but the page and the recent list is the same.
pub open spec fn same_reading(a: ReaderState, b: ReaderState) -> bool {
    &&& a.open == b.open
    &&& a.book_id == b.book_id
    &&& a.title == b.title
    &&& a.format == b.format
    &&& a.content == b.content
    &&& a.page_chars == b.page_chars
    &&& a.theme == b.theme
    &&& a.search_query == b.search_query
    &&& a.search_results == b.search_results
    &&& a.search_result_cursor == b.search_result_cursor
    &&& a.last_match == b.last_match
    &&& a.toc == b.toc
    &&& a.bookmarks == b.bookmarks
    &&& a.selected_text == b.selected_text
    &&& a.highlight_note == b.highlight_note
    &&& a.highlight_color == b.highlight_color
    &&& a.annotations == b.annotations
    &&& a.error == b.error
}

/// Everything but the contents is the same.
pub open spec fn same_except_toc(a: ReaderState, b: ReaderState) -> bool {
    &&& a.open == b.open
    &&& a.book_id == b.book_id
    &&& a.title == b.title
    &&& a.format == b.format
    &&& a.content == b.content
    &&& a.page == b.page
    &&& a.page_chars == b.page_chars
    &&& a.theme == b.theme
    &&& a.search_query == b.search_query
    &&& a.search_results == b.search_results
    &&& a.search_result_cursor == b.search_result_cursor
    &&& a.last_match == b.last_match
    &&& a.bookmarks == b.bookmarks
    &&& a.selected_text == b.selected_text
    &&& a.highlight_note == b.highlight_note
    &&& a.highlight_color == b.highlight_color
    &&& a.annotations == b.annotations
    &&& a.recent == b.recent
    &&& a.error == b.error
}

/// The recent list after turning to `page`: updated for the open book, kept when
/// no book is open.
pub open spec fn recent_on_turn(old: ReaderState, page: usize) -> Seq<(i64, Seq<char>, usize)> {
    match old.book_id {
        Some(id) => recent_after(recent_views(old.recent@), id, old.title@, page),
        None => recent_views(old.recent@),
    }
}

/// The page after `next_page`: one on, stopping at the last.
pub open spec fn next_page_of(page: usize, count: nat) -> usize {
    if page + 1 <= count - 1 {
        (page + 1) as usize
    } else {
        (count - 1) as usize
    }
}

/// Index of the first contents entry after `page`, or -1.
pub open spec fn first_entry_after(toc: Seq<ReaderTocEntry>, page: usize) -> int
    decreases toc.len(),
{
    if toc.len() == 0 {
        -1
    } else {
        let r = first_entry_after(toc.drop_last(), page);
        if r >= 0 {
            r
        } else if toc.last().page > page {
            toc.len() - 1
        } else {
            -1
        }
    }
}

/// Index of the last contents entry before `page`, or -1.
pub open spec fn last_entry_before(toc: Seq<ReaderTocEntry>, page: usize) -> int
    decreases toc.len(),
{
    if toc.len() == 0 {
        -1
    } else if toc.last().page < page {
        toc.len() - 1
    } else {
        last_entry_before(toc.drop_last(), page)
    }
}

proof fn lemma_first_entry_after(toc: Seq<ReaderTocEntry>, page: usize, i: int)
    requires
        0 <= i < toc.len(),
        toc[i].page > page,
        forall|j: int| 0 <= j < i ==> (#[trigger] toc[j]).page <= page,
    ensures
        first_entry_after(toc, page) == i,
    decreases toc.len(),
{
    if i < toc.len() - 1 {
        lemma_first_entry_after(toc.drop_last(), page, i);
    } else {
        lemma_first_entry_after_none(toc.drop_last(), page);
    }
}

proof fn lemma_first_entry_after_none(toc: Seq<ReaderTocEntry>, page: usize)
    requires
        forall|j: int| 0 <= j < toc.len() ==> (#[trigger] toc[j]).page <= page,
    ensures
        first_entry_after(toc, page) == -1,
    decreases toc.len(),
{
    if toc.len() > 0 {
        lemma_first_entry_after_none(toc.drop_last(), page);
    }
}

proof fn lemma_last_entry_before(toc: Seq<ReaderTocEntry>, page: usize, i: int)
    requires
        0 <= i < toc.len(),
        toc[i].page < page,
        forall|j: int| i < j < toc.len() ==> (#[trigger] toc[j]).page >= page,
    ensures
        last_entry_before(toc, page) == i,
    decreases toc.len(),
{
    if i < toc.len() - 1 {
        lemma_last_entry_before(toc.drop_last(), page, i);
    }
}

proof fn lemma_last_entry_before_none(toc: Seq<ReaderTocEntry>, page: usize)
    requires
        forall|j: int| 0 <= j < toc.len() ==> (#[trigger] toc[j]).page >= page,
    ensures
        last_entry_before(toc, page) == -1,
    decreases toc.len(),
{
    if toc.len() > 0 {
        lemma_last_entry_before_none(toc.drop_last(), page);
    }
}

impl ReaderState {
    /// Turns to the next page, staying on the last; the open book's place is noted.
    pub fn next_page(&mut self)
        requires
            old(self).wf(),
        ensures
            final(self).wf(),
            same_reading(*old(self), *final(self)),
            old(self).pages().len() == 0 ==> final(self).page == old(self).page && final(self).recent
                == old(self).recent,
            old(self).pages().len() > 0 ==> final(self).page == next_page_of(
                old(self).page,
                old(self).pages().len(),
            ) && recent_views(final(self).recent@) == recent_on_turn(*old(self), final(self).page),
    {
        let count = self.page_count();
        if count == 0 {
            return;
        }
        self.page = if self.page + 1 <= count - 1 {
            self.page + 1
        } else {
            count - 1
        };
        match self.book_id {
            Some(id) => {
                let title = self.title.clone();
                let page = self.page;
                self.push_recent(id, title.as_str(), page);
            },
            None => {},
        }
    }

    /// Turns to the previous page, staying on the first; the open book's place is
    /// noted when the page changes.
    pub fn prev_page(&mut self)
        requires
            old(self).wf(),
        ensures
            final(self).wf(),
            same_reading(*old(self), *final(self)),
            old(self).page == 0 ==> final(self).page == 0 && final(self).recent == old(self).recent,
            old(self).page > 0 ==> final(self).page == old(self).page - 1 && recent_views(final(self).recent@)
                == recent_on_turn(*old(self), final(self).page),
    {
        if self.page > 0 {
            self.page = self.page - 1;
            match self.book_id {
                Some(id) => {
                    let title = self.title.clone();
                    let page = self.page;
                    self.push_recent(id, title.as_str(), page);
                },
                None => {},
            }
        }
    }

    /// Turns to the page with number `page`, counted from one, within the text.
    pub fn go_to_page(&mut self, page: usize)
        requires
            old(self).wf(),
        ensures
            final(self).wf(),
            same_reading(*old(self), *final(self)),
            final(self).recent == old(self).recent,
            final(self).page == if old(self).pages().len() == 0 {
                old(self).page as int
            } else {
                let wanted = if page >= 1 {
                    page - 1
                } else {
                    0
                };
                if wanted <= old(self).pages().len() - 1 {
                    wanted
                } else {
                    old(self).pages().len() - 1
                }
            },
    {
        let count = self.page_count();
        if count == 0 {
            return;
        }
        let wanted = if page >= 1 {
            page - 1
        } else {
            0
        };
        self.page = if wanted <= count - 1 {
            wanted
        } else {
            count - 1
        };
    }

    /// Turns to page index `page` of `book_id` when that book is open.
    pub fn jump_to(&mut self, book_id: i64, page: usize)
        requires
            old(self).wf(),
        ensures
            final(self).wf(),
            same_reading(*old(self), *final(self)),
            final(self).recent == old(self).recent,
            final(self).page == if old(self).book_id == Some(book_id) {
                let last = if old(self).pages().len() >= 1 {
                    old(self).pages().len() - 1
                } else {
                    0
                };
                if page <= last {
                    page as int
                } else {
                    last
                }
            } else {
                old(self).page as int
            },
    {
        if self.book_id == Some(book_id) {
            let count = self.page_count();
            let last = if count >= 1 {
                count - 1
            } else {
                0
            };
            self.page = if page <= last {
                page
            } else {
                last
            };
        }
    }

    /// Turns to the next heading after the page, or else to the next page.
    pub fn next_chapter(&mut self)
        requires
            old(self).wf(),
        ensures
            final(self).wf(),
            same_reading(*old(self), *final(self)),
            first_entry_after(old(self).toc@, old(self).page) >= 0 ==> final(self).page == old(
                self,
            ).toc@[first_entry_after(old(self).toc@, old(self).page)].page && final(self).recent
                == old(self).recent,
            first_entry_after(old(self).toc@, old(self).page) < 0 && old(self).pages().len() > 0
                ==> final(self).page == next_page_of(old(self).page, old(self).pages().len())
                && recent_views(final(self).recent@) == recent_on_turn(*old(self), final(self).page),
            first_entry_after(old(self).toc@, old(self).page) < 0 && old(self).pages().len() == 0
                ==> final(self).page == old(self).page && final(self).recent == old(self).recent,
    {
        let mut i: usize = 0;
        while i < self.toc.len()
            invariant
                i <= self.toc@.len(),
                *self == *old(self),
                self.wf(),
                forall|j: int| 0 <= j < i ==> (#[trigger] self.toc@[j]).page <= self.page,
            decreases self.toc.len() - i,
        {
            if self.toc[i].page > self.page {
                proof {
                    lemma_first_entry_after(self.toc@, self.page, i as int);
                }
                self.page = self.toc[i].page;
                return;
            }
            i += 1;
        }
        proof {
            lemma_first_entry_after_none(self.toc@, self.page);
        }
        self.next_page();
    }

    /// Turns to the last heading before the page, or else to the previous page.
    pub fn prev_chapter(&mut self)
        requires
            old(self).wf(),
        ensures
            final(self).wf(),
            same_reading(*old(self), *final(self)),
            last_entry_before(old(self).toc@, old(self).page) >= 0 ==> final(self).page == old(
                self,
            ).toc@[last_entry_before(old(self).toc@, old(self).page)].page && final(self).recent
                == old(self).recent,
            last_entry_before(old(self).toc@, old(self).page) < 0 && old(self).page > 0
                ==> final(self).page == old(self).page - 1 && recent_views(final(self).recent@)
                == recent_on_turn(*old(self), final(self).page),
            last_entry_before(old(self).toc@, old(self).page) < 0 && old(self).page == 0
                ==> final(self).page == 0 && final(self).recent == old(self).recent,
    {
        let mut i: usize = self.toc.len();
        while i > 0
            invariant
                i <= self.toc@.len(),
                *self == *old(self),
                self.wf(),
                forall|j: int| i <= j < self.toc@.len() ==> (#[trigger] self.toc@[j]).page >= self.page,
            decreases i,
        {
            if self.toc[i - 1].page < self.page {
                proof {
                    lemma_last_entry_before(self.toc@, self.page, i - 1);
                }
                self.page = self.toc[i - 1].page;
                return;
            }
            i -= 1;
        }
        proof {
            lemma_last_entry_before_none(self.toc@, self.page);
        }
        self.prev_page();
    }
}


/// The label of a bookmark: `Page n` with the page counted from one.
pub open spec fn bookmark_label(page: usize) -> Seq<char> {
    "Page "@ + nat_digits((page + 1) as nat)
}

/// The first line of a page, or nothing.
pub open spec fn first_line(page: Seq<char>) -> Seq<char> {
    if lines(page).len() > 0 {
        lines(page)[0]
    } else {
        Seq::empty()
    }
}

/// Whether the search text (already lower-cased) occurs on a page, ignoring case.
pub open spec fn page_matches(page: Seq<char>, query: Seq<char>) -> bool {
    contains_seq(lowercase(page), query)
}

/// How the reader fits its text: to the window's width, or a whole page at a time.
#[derive(Clone, Copy, Debug, PartialEq, Eq, Structural)]
pub enum ReaderFitMode {
    FitWidth,
    FitPage,
}

/// The page size kept for a requested one: 600 to 1800 characters when a whole
/// page is fitted, 1200 to 6000 otherwise.
pub open spec fn fitted_page_chars(requested: int, mode: ReaderFitMode) -> int {
    let (lo, hi) = match mode {
        ReaderFitMode::FitPage => (600int, 1800int),
        ReaderFitMode::FitWidth => (1200int, 6000int),
    };
    if requested < lo {
        lo
    } else if requested > hi {
        hi
    } else {
        requested
    }
}

/// Clamps a requested page size to the bounds of the fit mode.
pub fn page_chars_for_fit(requested: usize, mode: ReaderFitMode) -> (r: usize)
    ensures
        r == fitted_page_chars(requested as int, mode),
{
    let (lo, hi): (usize, usize) = match mode {
        ReaderFitMode::FitPage => (600, 1800),
        ReaderFitMode::FitWidth => (1200, 6000),
    };
    if requested < lo {
        lo
    } else if requested > hi {
        hi
    } else {
        requested
    }
}

/// A book's line among library-wide results: its title, a dash, and its authors,
/// or `Unknown` when it has none.
pub open spec fn library_hit_label(title: Seq<char>, authors: Seq<char>) -> Seq<char> {
    title + " \u{2014} "@ + if authors.len() == 0 {
        "Unknown"@
    } else {
        authors
    }
}

/// A book matches a lower-case query when its lower-cased title, authors or tags
/// contain it.
pub open spec fn book_matches(b: crate::books::BookRow, query: Seq<char>) -> bool {
    contains_seq(lowercase(b.title@), query) || contains_seq(lowercase(b.authors@), query)
        || contains_seq(lowercase(b.tags@), query)
}

/// The library-wide results for a lower-case query: each matching book, in
/// order, with its label and id and no page.
pub open spec fn library_hits(books: Seq<crate::books::BookRow>, query: Seq<char>) -> Seq<
    (Seq<char>, Option<usize>, Option<i64>),
>
    decreases books.len(),
{
    if books.len() == 0 {
        Seq::empty()
    } else {
        let r = library_hits(books.drop_last(), query);
        let b = books.last();
        if book_matches(b, query) {
            r.push((library_hit_label(b.title@, b.authors@), None::<usize>, Some(b.id)))
        } else {
            r
        }
    }
}

/// The library-wide results for a lower-case query are the books whose
/// lower-cased title, authors or tags contain it, in order, each labelled with
/// its title, a dash and its authors (`Unknown` when it has none), with its id
/// and no page.
pub proof fn lemma_library_hits_are_the_matching_books(books: Seq<crate::books::BookRow>, q: Seq<char>)
    ensures
        library_hits(books, q) == books.filter(
            |b: crate::books::BookRow|
                contains_seq(lowercase(b.title@), q) || contains_seq(lowercase(b.authors@), q) || contains_seq(
                    lowercase(b.tags@),
                    q,
                ),
        ).map_values(
            |b: crate::books::BookRow|
                (
                    b.title@ + " \u{2014} "@ + if b.authors@.len() == 0 {
                        "Unknown"@
                    } else {
                        b.authors@
                    },
                    None::<usize>,
                    Some(b.id),
                ),
        ),
    decreases books.len(),
{
    let pred = |b: crate::books::BookRow|
        contains_seq(lowercase(b.title@), q) || contains_seq(lowercase(b.authors@), q) || contains_seq(
            lowercase(b.tags@),
            q,
        );
    let lab = |b: crate::books::BookRow|
        (
            b.title@ + " \u{2014} "@ + if b.authors@.len() == 0 {
                "Unknown"@
            } else {
                b.authors@
            },
            None::<usize>,
            Some(b.id),
        );
    reveal_with_fuel(Seq::<_>::filter, 1);
    if books.len() > 0 {
        lemma_library_hits_are_the_matching_books(books.drop_last(), q);
        let f0 = books.drop_last().filter(pred);
        if pred(books.last()) {
            assert(books.filter(pred) == f0.push(books.last()));
            assert(books.filter(pred).map_values(lab) =~= f0.map_values(lab).push(lab(books.last())));
        } else {
            assert(books.filter(pred) == f0);
        }
    } else {
        assert(books.filter(pred) =~= Seq::<crate::books::BookRow>::empty());
        assert(books.filter(pred).map_values(lab) =~= Seq::empty());
    }
}

/// Searches the whole library for the query, trimmed and lower-cased.
pub fn library_search_results(books: &Vec<crate::books::BookRow>, query: &str) -> (r: Vec<ReaderSearchResult>)
    ensures
        result_views(r@) == library_hits(books@, lowercase(trim(query@))),
{
    let q = lower_vec(&trim_vec(&chars_of(query)));
    let mut out: Vec<ReaderSearchResult> = Vec::new();
    let mut i: usize = 0;
    while i < books.len()
        invariant
            i <= books.len(),
            q@ == lowercase(trim(query@)),
            result_views(out@) == library_hits(books@.take(i as int), q@),
        decreases books.len() - i,
    {
        assert(books@.take(i + 1).drop_last() =~= books@.take(i as int));
        let b = &books[i];
        let hit = contains_vec(&lower_vec(&chars_of(b.title.as_str())), &q) || contains_vec(
            &lower_vec(&chars_of(b.authors.as_str())),
            &q,
        ) || contains_vec(&lower_vec(&chars_of(b.tags.as_str())), &q);
        if hit {
            let mut label: Vec<char> = chars_of(b.title.as_str());
            append_str(&mut label, " \u{2014} ");
            if b.authors.as_str().is_empty() {
                append_str(&mut label, "Unknown");
            } else {
                append_str(&mut label, b.authors.as_str());
            }
            let ghost before = out@;
            out.push(ReaderSearchResult { label: string_of(&label), page: None, book_id: Some(b.id) });
            assert(result_views(out@) =~= result_views(before).push(
                (library_hit_label(b.title@, b.authors@), None::<usize>, Some(b.id)),
            ));
        } else {
            assert(result_views(out@) == library_hits(books@.take(i + 1), q@));
        }
        i += 1;
    }
    assert(books@.take(books.len() as int) =~= books@);
    out
}

/// The result listed for a matching page: `Page n: ` and the page's first line.
pub open spec fn hit_label(page: Seq<char>, idx: int) -> Seq<char> {
    "Page "@ + nat_digits((idx + 1) as nat) + ": "@ + trim(first_line(page))
}

/// The search results over the pages: each matching page, in order.
pub open spec fn hits(pages: Seq<Seq<char>>, query: Seq<char>, book_id: Option<i64>) -> Seq<(Seq<char>, Option<usize>, Option<i64>)>
    decreases pages.len(),
{
    if pages.len() == 0 {
        Seq::empty()
    } else {
        let r = hits(pages.drop_last(), query, book_id);
        let i = pages.len() - 1;
        if page_matches(pages.last(), query) {
            r.push((hit_label(pages.last(), i), Some(i as usize), book_id))
        } else {
            r
        }
    }
}

/// A search over pages lists exactly the pages whose lower-cased text contains
/// the (lower-cased) query, in page order, each with its label, its index and the
/// book; the page a search turns to is the first such page at or after where it
/// starts.
pub proof fn lemma_hits_are_the_matching_pages(pages: Seq<Seq<char>>, q: Seq<char>, b: Option<i64>)
    requires
        pages.len() <= usize::MAX,
    ensures
        forall|k: int|
            0 <= k < hits(pages, q, b).len() ==> {
                let h = #[trigger] hits(pages, q, b)[k];
                &&& h.1 is Some
                &&& (h.1->0 as int) < pages.len()
                &&& contains_seq(lowercase(pages[h.1->0 as int]), q)
                &&& h == (
                    "Page "@ + nat_digits((h.1->0 + 1) as nat) + ": "@ + trim(first_line(pages[h.1->0 as int])),
                    h.1,
                    b,
                )
            },
        forall|k: int, l: int|
            0 <= k < l < hits(pages, q, b).len() ==> (#[trigger] hits(pages, q, b)[k]).1->0 < (
            #[trigger] hits(pages, q, b)[l]).1->0,
        forall|i: int|
            0 <= i < pages.len() && contains_seq(lowercase(#[trigger] pages[i]), q) ==> exists|k: int|
                0 <= k < hits(pages, q, b).len() && (#[trigger] hits(pages, q, b)[k]).1 == Some(i as usize),
        forall|start: int, k: int|
            #[trigger] is_next_match(pages, q, start, k) <==> (start <= k < pages.len() && contains_seq(
                lowercase(pages[k]),
                q,
            ) && forall|j: int| start <= j < k ==> !contains_seq(lowercase(#[trigger] pages[j]), q)),
    decreases pages.len(),
{
    if pages.len() > 0 {
        let d = pages.drop_last();
        lemma_hits_are_the_matching_pages(d, q, b);
        let r = hits(d, q, b);
        let n = pages.len() - 1;
        assert forall|i: int| 0 <= i < d.len() implies d[i] == pages[i] by {}
        if contains_seq(lowercase(pages.last()), q) {
            let h = hits(pages, q, b);
            assert(h == r.push((hit_label(pages.last(), n), Some(n as usize), b)));
            assert forall|k: int| 0 <= k < h.len() implies {
                let e = #[trigger] h[k];
                &&& e.1 is Some
                &&& (e.1->0 as int) < pages.len()
                &&& contains_seq(lowercase(pages[e.1->0 as int]), q)
                &&& e == (
                    "Page "@ + nat_digits((e.1->0 + 1) as nat) + ": "@ + trim(first_line(pages[e.1->0 as int])),
                    e.1,
                    b,
                )
            } by {
                if k < r.len() {
                    assert(h[k] == r[k]);
                }
            }
            assert forall|k: int, l: int| 0 <= k < l < h.len() implies (#[trigger] h[k]).1->0 < (#[trigger] h[l]).1->0 by {
                assert(h[k] == r[k]);
                if l < r.len() {
                    assert(h[l] == r[l]);
                }
            }
            assert forall|i: int| 0 <= i < pages.len() && contains_seq(lowercase(#[trigger] pages[i]), q) implies exists|k: int|
                0 <= k < h.len() && (#[trigger] h[k]).1 == Some(i as usize) by {
                if i < n {
                    assert(contains_seq(lowercase(d[i]), q));
                    let k = choose|k: int| 0 <= k < r.len() && (#[trigger] r[k]).1 == Some(i as usize);
                    assert(h[k] == r[k]);
                } else {
                    assert(h[r.len() as int].1 == Some(i as usize));
                }
            }
        } else {
            assert(hits(pages, q, b) == r);
            assert forall|i: int| 0 <= i < pages.len() && contains_seq(lowercase(#[trigger] pages[i]), q) implies exists|k: int|
                0 <= k < r.len() && (#[trigger] r[k]).1 == Some(i as usize) by {
                assert(i < n);
                assert(contains_seq(lowercase(d[i]), q));
            }
        }
    }
}

/// `k` is the first matching page at or after `start`.
pub open spec fn is_next_match(pages: Seq<Seq<char>>, query: Seq<char>, start: int, k: int) -> bool {
    &&& start <= k < pages.len()
    &&& page_matches(pages[k], query)
    &&& forall|j: int| start <= j < k ==> !page_matches(#[trigger] pages[j], query)
}

/// Some page at or after `start` matches.
pub open spec fn has_next_match(pages: Seq<Seq<char>>, query: Seq<char>, start: int) -> bool {
    exists|j: int| start <= j < pages.len() && page_matches(#[trigger] pages[j], query)
}

/// `j` is the first result for page `k`.
pub open spec fn is_result_for(results: Seq<(Seq<char>, Option<usize>, Option<i64>)>, k: usize, j: int) -> bool {
    &&& 0 <= j < results.len()
    &&& results[j].1 == Some(k)
    &&& forall|m: int| 0 <= m < j ==> (#[trigger] results[m]).1 != Some(k)
}

impl ReaderState {
    /// Bookmarks the page.
    pub fn add_bookmark(&mut self)
        requires
            old(self).wf(),
        ensures
            final(self).wf(),
            bookmark_views(final(self).bookmarks@) == bookmark_views(old(self).bookmarks@).push(
                (bookmark_label(old(self).page), old(self).page),
            ),
            final(self).page == old(self).page,
            final(self).recent == old(self).recent,
            final(self).toc == old(self).toc,
            final(self).content == old(self).content,
            final(self).annotations == old(self).annotations,
    {
        let mut label: Vec<char> = Vec::new();
        append_str(&mut label, "Page ");
        append_vec(&mut label, &u64_digits((self.page + 1) as u64));
        let ghost before = bookmark_views(self.bookmarks@);
        self.bookmarks.push(ReaderBookmark { title: string_of(&label), page: self.page });
        assert(bookmark_views(self.bookmarks@) =~= before.push((bookmark_label(self.page), self.page)));
    }

    /// Removes the bookmark at `idx`, if there is one.
    pub fn remove_bookmark(&mut self, idx: usize)
        requires
            old(self).wf(),
        ensures
            final(self).wf(),
            bookmark_views(final(self).bookmarks@) == if idx < old(self).bookmarks@.len() {
                bookmark_views(old(self).bookmarks@).remove(idx as int)
            } else {
                bookmark_views(old(self).bookmarks@)
            },
            final(self).page == old(self).page,
            final(self).recent == old(self).recent,
            final(self).toc == old(self).toc,
            final(self).content == old(self).content,
            final(self).annotations == old(self).annotations,
    {
        if idx < self.bookmarks.len() {
            let ghost before = bookmark_views(self.bookmarks@);
            self.bookmarks.remove(idx);
            assert(bookmark_views(self.bookmarks@) =~= before.remove(idx as int));
        }
    }

    /// Annotates the page with the selected text, trimmed, and the trimmed note; the
    /// note is cleared. Nothing happens without a selection.
    pub fn add_annotation(&mut self)
        requires
            old(self).wf(),
        ensures
            final(self).wf(),
            trim(old(self).selected_text@).len() == 0 ==> annotation_views(final(self).annotations@)
                == annotation_views(old(self).annotations@) && final(self).highlight_note@
                == old(self).highlight_note@,
            trim(old(self).selected_text@).len() > 0 ==> annotation_views(final(self).annotations@)
                == annotation_views(old(self).annotations@).push(
                (
                    old(self).page,
                    trim(old(self).selected_text@),
                    trim(old(self).highlight_note@),
                    old(self).highlight_color,
                ),
            ) && final(self).highlight_note@.len() == 0,
            final(self).page == old(self).page,
            final(self).recent == old(self).recent,
            final(self).toc == old(self).toc,
            final(self).content == old(self).content,
            final(self).bookmarks == old(self).bookmarks,
    {
        let text = trim_vec(&chars_of(self.selected_text.as_str()));
        if text.len() == 0 {
            return;
        }
        let note = trim_vec(&chars_of(self.highlight_note.as_str()));
        let ghost before = annotation_views(self.annotations@);
        self.annotations.push(
            ReaderAnnotation {
                page: self.page,
                text: string_of(&text),
                note: string_of(&note),
                color: self.highlight_color,
            },
        );
        assert(annotation_views(self.annotations@) =~= before.push(
            (self.page, text@, note@, self.highlight_color),
        ));
        self.highlight_note = String::new();
    }

    /// Rebuilds the contents from the headings of the shown text.
    pub fn rebuild_toc(&mut self)
        requires
            old(self).pages().len() <= usize::MAX,
        ensures
            toc_views(final(self).toc@) == contents_of(old(self).pages()),
            forall|i: int| 0 <= i < final(self).toc@.len() ==> (#[trigger] final(self).toc@[i]).page < if old(self).pages().len() > 0 {
                old(self).pages().len()
            } else {
                1
            },
            final(self).page == old(self).page,
            final(self).recent == old(self).recent,
            same_except_toc(*old(self), *final(self)),
    {
        let mut toc: Vec<ReaderTocEntry> = Vec::new();
        let ghost pages = self.pages();
        match &self.content {
            ReaderContent::Text { raw: _, pages: ps } => {
                let mut i: usize = 0;
                while i < ps.len()
                    invariant
                        i <= ps@.len(),
                        pages == string_views(ps@),
                        toc_views(toc@) == headings(pages.take(i as int)),
                    decreases ps.len() - i,
                {
                    assert(pages.take(i + 1).drop_last() =~= pages.take(i as int));
                    assert(pages[i as int] == ps@[i as int]@);
                    match heading_of_page(ps[i].as_str()) {
                        Some(t) => {
                            let ghost before = toc_views(toc@);
                            toc.push(ReaderTocEntry { title: t, page: i });
                            assert(toc_views(toc@) =~= before.push((t@, i)));
                        },
                        None => {},
                    }
                    i += 1;
                }
                assert(pages.take(ps@.len() as int) =~= pages);
            },
            _ => {
                assert(toc_views(toc@) =~= headings(pages));
            },
        }
        proof {
            lemma_headings_in_range(pages);
        }
        if toc.len() == 0 {
            toc.push(ReaderTocEntry { title: string_of(&chars_of("Start")), page: 0 });
            assert(toc_views(toc@) =~= seq![("Start"@, 0usize)]);
        }
        assert forall|i: int| 0 <= i < toc@.len() implies (#[trigger] toc@[i]).page < if pages.len() > 0 {
            pages.len()
        } else {
            1
        } by {
            assert(toc_views(toc@)[i] == (toc@[i].title@, toc@[i].page));
        }
        self.toc = toc;
    }
}


/// The first matching page at or after `start`, or -1.
pub open spec fn next_match(pages: Seq<Seq<char>>, query: Seq<char>, start: int) -> int {
    if has_next_match(pages, query, start) {
        choose|k: int| is_next_match(pages, query, start, k)
    } else {
        -1
    }
}

/// The first result for page `k`, or -1.
pub open spec fn result_for(results: Seq<(Seq<char>, Option<usize>, Option<i64>)>, k: usize) -> int {
    if exists|j: int| is_result_for(results, k, j) {
        choose|j: int| is_result_for(results, k, j)
    } else {
        -1
    }
}

proof fn lemma_next_match_unique(pages: Seq<Seq<char>>, query: Seq<char>, start: int, k: int)
    requires
        is_next_match(pages, query, start, k),
    ensures
        has_next_match(pages, query, start),
        next_match(pages, query, start) == k,
{
    assert(page_matches(pages[k], query));
    let c = choose|c: int| is_next_match(pages, query, start, c);
    if c < k {
        assert(!page_matches(pages[c], query));
    } else if c > k {
        assert(!page_matches(pages[k], query));
    }
}

proof fn lemma_result_for_unique(results: Seq<(Seq<char>, Option<usize>, Option<i64>)>, k: usize, j: int)
    requires
        is_result_for(results, k, j),
    ensures
        result_for(results, k) == j,
{
    let c = choose|c: int| is_result_for(results, k, c);
    if c < j {
        assert(results[c].1 != Some(k));
    } else if c > j {
        assert(results[j].1 != Some(k));
    }
}

/// The label of a search result.
fn hit_label_of(page: &Vec<char>, idx: usize) -> (r: String)
    requires
        idx < usize::MAX,
    ensures
        r@ == hit_label(page@, idx as int),
{
    let ls = lines_vec(page);
    let first: Vec<char> = if ls.len() > 0 {
        assert(views(ls@)[0] == ls@[0]@);
        slice_vec(&ls[0], 0, ls[0].len())
    } else {
        Vec::new()
    };
    assert(first@ =~= first_line(page@));
    let mut v: Vec<char> = Vec::new();
    append_str(&mut v, "Page ");
    append_vec(&mut v, &u64_digits((idx + 1) as u64));
    append_str(&mut v, ": ");
    append_vec(&mut v, &trim_vec(&first));
    assert(v@ =~= hit_label(page@, idx as int));
    string_of(&v)
}

/// The results of a search over the pages, and the first match at or after `start`.
fn search_pages(pages: &Vec<String>, query: &Vec<char>, book_id: Option<i64>, start: usize) -> (r: (
    Vec<ReaderSearchResult>,
    Option<usize>,
))
    ensures
        result_views(r.0@) == hits(string_views(pages@), query@, book_id),
        match r.1 {
            Some(k) => is_next_match(string_views(pages@), query@, start as int, k as int),
            None => !has_next_match(string_views(pages@), query@, start as int),
        },
{
    let ghost ps = string_views(pages@);
    let mut results: Vec<ReaderSearchResult> = Vec::new();
    let mut found: Option<usize> = None;
    let mut i: usize = 0;
    while i < pages.len()
        invariant
            i <= pages@.len(),
            ps == string_views(pages@),
            result_views(results@) == hits(ps.take(i as int), query@, book_id),
            match found {
                Some(k) => is_next_match(ps, query@, start as int, k as int) && k < i,
                None => forall|j: int| start <= j < i ==> !page_matches(#[trigger] ps[j], query@),
            },
        decreases pages.len() - i,
    {
        assert(ps.take(i + 1).drop_last() =~= ps.take(i as int));
        assert(ps[i as int] == pages@[i as int]@);
        let page = chars_of(pages[i].as_str());
        let lower = lower_vec(&page);
        let matched = contains_vec(&lower, query);
        if matched {
            let label = hit_label_of(&page, i);
            let ghost before = result_views(results@);
            results.push(ReaderSearchResult { label, page: Some(i), book_id });
            assert(result_views(results@) =~= before.push((hit_label(ps[i as int], i as int), Some(i), book_id)));
            if found.is_none() && i >= start {
                found = Some(i);
            }
        }
        i += 1;
    }
    assert(ps.take(pages@.len() as int) =~= ps);
    (results, found)
}

/// The first result for page `k`, if any.
fn result_position(results: &Vec<ReaderSearchResult>, k: usize) -> (r: Option<usize>)
    ensures
        match r {
            Some(j) => is_result_for(result_views(results@), k, j as int),
            None => forall|m: int| 0 <= m < results@.len() ==> (#[trigger] result_views(results@)[m]).1 != Some(k),
        },
{
    let mut j: usize = 0;
    while j < results.len()
        invariant
            j <= results@.len(),
            forall|m: int| 0 <= m < j ==> (#[trigger] result_views(results@)[m]).1 != Some(k),
        decreases results.len() - j,
    {
        assert(result_views(results@)[j as int].1 == results@[j as int].page);
        if results[j].page == Some(k) {
            return Some(j);
        }
        j += 1;
    }
    None
}

/// The text a content was read from, for text content.
pub open spec fn content_raw(c: ReaderContent) -> Option<Seq<char>> {
    match c {
        ReaderContent::Text { raw, pages: _ } => Some(raw@),
        _ => None,
    }
}

impl ReaderState {
    /// Searches the pages for the search text, trimmed and lower-cased, ignoring
    /// case: lists every matching page, and turns to the first match at or after
    /// the page after the last match (the first page at the start), wrapping the
    /// next search to the beginning when there is none. A blank search clears the
    /// results.
    pub fn find_next(&mut self)
        requires
            old(self).wf(),
        ensures
            final(self).wf(),
            ({
                let q = lowercase(trim(old(self).search_query@));
                let pages = old(self).pages();
                let start = match old(self).last_match {
                    Some(m) => m as int,
                    None => 0,
                };
                if q.len() == 0 {
                    &&& final(self).last_match is None
                    &&& final(self).search_results@.len() == 0
                    &&& final(self).search_result_cursor is None
                    &&& final(self).page == old(self).page
                } else if old(self).content is Text {
                    &&& result_views(final(self).search_results@) == hits(pages, q, old(self).book_id)
                    &&& if has_next_match(pages, q, start) {
                        let k = next_match(pages, q, start);
                        &&& final(self).page == k
                        &&& final(self).last_match == Some((k + 1) as usize)
                        &&& final(self).search_result_cursor == if result_for(
                            result_views(final(self).search_results@),
                            k as usize,
                        ) >= 0 {
                            Some(result_for(result_views(final(self).search_results@), k as usize) as usize)
                        } else {
                            None::<usize>
                        }
                    } else {
                        &&& final(self).last_match == Some(0usize)
                        &&& final(self).search_result_cursor is None
                        &&& final(self).page == old(self).page
                    }
                } else {
                    &&& final(self).last_match == old(self).last_match
                    &&& final(self).search_results == old(self).search_results
                    &&& final(self).search_result_cursor == old(self).search_result_cursor
                    &&& final(self).page == old(self).page
                }
            }),
            final(self).content == old(self).content,
            final(self).recent == old(self).recent,
            final(self).toc == old(self).toc,
            final(self).bookmarks == old(self).bookmarks,
            final(self).annotations == old(self).annotations,
            final(self).book_id == old(self).book_id,
            final(self).search_query == old(self).search_query,
    {
        let q = lower_vec(&trim_vec(&chars_of(self.search_query.as_str())));
        if q.len() == 0 {
            self.last_match = None;
            self.search_results = Vec::new();
            self.search_result_cursor = None;
            return;
        }
        let start = match self.last_match {
            Some(m) => m,
            None => 0,
        };
        let outcome = match &self.content {
            ReaderContent::Text { raw: _, pages } => Some(search_pages(pages, &q, self.book_id, start)),
            _ => None,
        };
        match outcome {
            Some((results, found)) => {
                let ghost pages = self.pages();
                self.search_results = results;
                match found {
                    Some(k) => {
                        proof {
                            lemma_next_match_unique(pages, q@, start as int, k as int);
                        }
                        self.page = k;
                        self.last_match = Some(k + 1);
                        let pos = result_position(&self.search_results, k);
                        proof {
                            match pos {
                                Some(j) => lemma_result_for_unique(result_views(self.search_results@), k, j as int),
                                None => {
                                    if exists|j: int| is_result_for(result_views(self.search_results@), k, j) {
                                        let j = choose|j: int| is_result_for(result_views(self.search_results@), k, j);
                                        assert(result_views(self.search_results@)[j].1 == Some(k));
                                    }
                                },
                            }
                        }
                        self.search_result_cursor = pos;
                    },
                    None => {
                        self.last_match = Some(0);
                        self.search_result_cursor = None;
                    },
                }
            },
            None => {},
        }
    }

    /// Changes the characters per page and repaginates shown text, keeping the page
    /// within the new pages and rebuilding the contents. Zero or the current value
    /// changes nothing.
    pub fn update_page_chars(&mut self, page_chars: usize)
        requires
            old(self).wf(),
        ensures
            final(self).wf(),
            page_chars == 0 || page_chars == old(self).page_chars ==> *final(self) == *old(self),
            page_chars != 0 && page_chars != old(self).page_chars ==> {
                &&& final(self).page_chars == page_chars
                &&& content_raw(final(self).content) == content_raw(old(self).content)
                &&& match content_raw(old(self).content) {
                    Some(raw) => {
                        &&& final(self).pages() == paginated(raw, page_chars as nat)
                        &&& final(self).page == if old(self).page < final(self).pages().len() {
                            old(self).page as int
                        } else {
                            final(self).pages().len() - 1
                        }
                        &&& toc_views(final(self).toc@) == contents_of(final(self).pages())
                    },
                    None => {
                        &&& final(self).content == old(self).content
                        &&& final(self).page == old(self).page
                        &&& final(self).toc == old(self).toc
                    },
                }
            },
            final(self).recent == old(self).recent,
            final(self).bookmarks == old(self).bookmarks,
            final(self).annotations == old(self).annotations,
            final(self).book_id == old(self).book_id,
    {
        if page_chars == 0 || page_chars == self.page_chars {
            return;
        }
        self.page_chars = page_chars;
        let repaged = match &self.content {
            ReaderContent::Text { raw, pages: _ } => {
                let raw2 = raw.clone();
                let pages = paginate_text(raw.as_str(), page_chars);
                Some((raw2, pages))
            },
            _ => None,
        };
        match repaged {
            Some((raw, pages)) => {
                proof {
                    assert(paginated(raw@, page_chars as nat).len() > 0);
                }
                let count = pages.len();
                self.content = ReaderContent::Text { raw, pages };
                if self.page >= count {
                    self.page = count - 1;
                }
                self.rebuild_toc();
            },
            None => {},
        }
    }

    /// Opens loaded content of a book at its first page, with search, bookmarks
    /// and annotations cleared, the contents rebuilt and the book noted as read; a
    /// load failure shows nothing and keeps the error.
    pub fn open_loaded(&mut self, book_id: i64, title: &str, format: &str, loaded: Result<ReaderContent, String>)
        requires
            old(self).wf(),
        ensures
            final(self).wf(),
            final(self).open,
            final(self).book_id == Some(book_id),
            final(self).title@ == title@,
            final(self).format@ == format@,
            final(self).page == 0,
            final(self).search_query@.len() == 0,
            final(self).last_match is None,
            final(self).search_results@.len() == 0,
            final(self).search_result_cursor is None,
            match loaded {
                Ok(c) => final(self).content == c && final(self).error is None,
                Err(e) => final(self).content is Unsupported && final(self).error == Some(e),
            },
            toc_views(final(self).toc@) == contents_of(final(self).pages()),
            final(self).bookmarks@.len() == 0,
            final(self).annotations@.len() == 0,
            recent_views(final(self).recent@) == recent_after(recent_views(old(self).recent@), book_id, title@, 0),
            final(self).page_chars == old(self).page_chars,
    {
        self.book_id = Some(book_id);
        self.title = string_of(&chars_of(title));
        self.format = string_of(&chars_of(format));
        self.page = 0;
        self.search_query = String::new();
        self.last_match = None;
        self.search_results = Vec::new();
        self.search_result_cursor = None;
        match loaded {
            Ok(c) => {
                self.content = c;
                self.error = None;
            },
            Err(e) => {
                self.content = ReaderContent::Unsupported;
                self.error = Some(e);
            },
        }
        let count = self.page_count();
        assert(self.pages().len() <= usize::MAX);
        self.rebuild_toc();
        self.bookmarks = Vec::new();
        self.annotations = Vec::new();
        self.open = true;
        self.push_recent(book_id, title, 0);
    }

    /// Opens a text given in full, paginated with the reader's page size.
    pub fn open_virtual_text(&mut self, book_id: i64, title: &str, raw: &str)
        requires
            old(self).wf(),
        ensures
            final(self).wf(),
            final(self).open,
            final(self).book_id == Some(book_id),
            final(self).title@ == title@,
            final(self).format@ == "txt"@,
            final(self).page == 0,
            final(self).error is None,
            content_raw(final(self).content) == Some(raw@),
            final(self).pages() == paginated(raw@, old(self).page_chars as nat),
            toc_views(final(self).toc@) == contents_of(final(self).pages()),
            final(self).bookmarks@.len() == 0,
            final(self).annotations@.len() == 0,
            final(self).last_match is None,
            final(self).search_results@.len() == 0,
            recent_views(final(self).recent@) == recent_after(recent_views(old(self).recent@), book_id, title@, 0),
    {
        let pages = paginate_text(raw, self.page_chars);
        let content = ReaderContent::Text { raw: string_of(&chars_of(raw)), pages };
        self.open_loaded(book_id, title, "txt", Ok(content));
    }

    /// Closes the book: nothing shown, search results, contents, bookmarks and
    /// annotations cleared.
    pub fn close(&mut self)
        requires
            old(self).wf(),
        ensures
            final(self).wf(),
            final(self).book_id is None,
            final(self).title@.len() == 0,
            final(self).format@.len() == 0,
            final(self).page == 0,
            final(self).error is None,
            final(self).content is Empty,
            final(self).search_results@.len() == 0,
            final(self).search_result_cursor is None,
            final(self).toc@.len() == 0,
            final(self).bookmarks@.len() == 0,
            final(self).annotations@.len() == 0,
            final(self).recent == old(self).recent,
            final(self).open == old(self).open,
    {
        self.book_id = None;
        self.title = String::new();
        self.format = String::new();
        self.page = 0;
        self.error = None;
        self.content = ReaderContent::Empty;
        self.search_results = Vec::new();
        self.search_result_cursor = None;
        self.toc = Vec::new();
        self.bookmarks = Vec::new();
        self.annotations = Vec::new();
    }
}

/// Turning pages and chapters, searching and repaginating always leave the reader
/// on one of its pages, with every contents entry on a page and each book listed
/// once among at most ten recent ones; the state a reader starts in is such a state.
pub proof fn lemma_reader_page_in_range(r: ReaderState)
    requires
        r.wf(),
    ensures
        r.pages().len() > 0 ==> r.page < r.pages().len(),
        r.pages().len() == 0 ==> r.page == 0,
        recent_unique(recent_views(r.recent@)),
        r.recent@.len() <= MAX_RECENT_BOOKS,
{
}

} // verus!
