use crate::browser::{BrowserCategory, BrowserFilter, BrowserFilterMode, FilterView, filter_views};
use crate::columns::{GroupMode, SortDirection, SortMode};
use crate::fields::field_matches;
use crate::order::{Order, compare_chars, lemma_lex_irreflexive, lemma_lex_transitive, lemma_lex_trichotomy, lex_lt, lex_order};
use crate::text::{ascii_lower, chars_of, contains_seq, csv_items, csv_items_vec, lowercase, string_of, trim};
use vstd::prelude::*;

verus! {

/// One book as the library table shows it.
#[derive(Clone, Debug)]
pub struct BookRow {
    pub id: i64,
    pub title: String,
    pub format: String,
    pub path: String,
    pub authors: String,
    pub tags: String,
    pub series: String,
    pub rating: String,
    pub publisher: String,
    pub languages: String,
    pub has_cover: bool,
    pub date_added: String,
    pub date_modified: String,
    pub pubdate: String,
}

/// The plain contents of a book row.
pub struct BookRowView {
    pub id: int,
    pub title: Seq<char>,
    pub format: Seq<char>,
    pub path: Seq<char>,
    pub authors: Seq<char>,
    pub tags: Seq<char>,
    pub series: Seq<char>,
    pub rating: Seq<char>,
    pub publisher: Seq<char>,
    pub languages: Seq<char>,
    pub has_cover: bool,
    pub date_added: Seq<char>,
    pub date_modified: Seq<char>,
    pub pubdate: Seq<char>,
}

impl View for BookRow {
    type V = BookRowView;

    open spec fn view(&self) -> BookRowView {
        BookRowView {
            id: self.id as int,
            title: self.title@,
            format: self.format@,
            path: self.path@,
            authors: self.authors@,
            tags: self.tags@,
            series: self.series@,
            rating: self.rating@,
            publisher: self.publisher@,
            languages: self.languages@,
            has_cover: self.has_cover,
            date_added: self.date_added@,
            date_modified: self.date_modified@,
            pubdate: self.pubdate@,
        }
    }
}

pub open spec fn row_views(rows: Seq<BookRow>) -> Seq<BookRowView> {
    rows.map_values(|r: BookRow| r@)
}

impl BookRow {
    /// A copy with the same contents.
    pub fn duplicate(&self) -> (r: BookRow)
        ensures
            r@ == self@,
    {
        BookRow {
            id: self.id,
            title: self.title.clone(),
            format: self.format.clone(),
            path: self.path.clone(),
            authors: self.authors.clone(),
            tags: self.tags.clone(),
            series: self.series.clone(),
            rating: self.rating.clone(),
            publisher: self.publisher.clone(),
            languages: self.languages.clone(),
            has_cover: self.has_cover,
            date_added: self.date_added.clone(),
            date_modified: self.date_modified.clone(),
            pubdate: self.pubdate.clone(),
        }
    }
}

/// What a sort mode orders by: a text field, or the id.
pub enum SortKey {
    Text(Seq<char>),
    Num(int),
}

pub open spec fn sort_key(m: SortMode, r: BookRowView) -> SortKey {
    match m {
        SortMode::Title => SortKey::Text(r.title),
        SortMode::Authors => SortKey::Text(r.authors),
        SortMode::Series => SortKey::Text(r.series),
        SortMode::Tags => SortKey::Text(r.tags),
        SortMode::Formats => SortKey::Text(r.format),
        SortMode::Rating => SortKey::Text(r.rating),
        SortMode::Publisher => SortKey::Text(r.publisher),
        SortMode::Languages => SortKey::Text(r.languages),
        SortMode::DateAdded => SortKey::Text(r.date_added),
        SortMode::DateModified => SortKey::Text(r.date_modified),
        SortMode::PubDate => SortKey::Text(r.pubdate),
        SortMode::Id => SortKey::Num(r.id),
    }
}

pub open spec fn int_order(a: int, b: int) -> Order {
    if a < b {
        Order::Less
    } else if a == b {
        Order::Equal
    } else {
        Order::Greater
    }
}

/// Order of sort keys: text by `lex_order`, ids by value, text before ids.
pub open spec fn key_order(a: SortKey, b: SortKey) -> Order {
    match (a, b) {
        (SortKey::Text(x), SortKey::Text(y)) => lex_order(x, y),
        (SortKey::Num(x), SortKey::Num(y)) => int_order(x, y),
        (SortKey::Text(_), SortKey::Num(_)) => Order::Less,
        (SortKey::Num(_), SortKey::Text(_)) => Order::Greater,
    }
}

/// How two rows compare in one sort mode.
pub open spec fn row_order(m: SortMode, a: BookRowView, b: BookRowView) -> Order {
    key_order(sort_key(m, a), sort_key(m, b))
}

/// The first item of a comma-separated field, or empty.
pub open spec fn first_item(s: Seq<char>) -> Seq<char> {
    if csv_items(s).len() > 0 {
        csv_items(s)[0]
    } else {
        Seq::<char>::empty()
    }
}

/// What rows are grouped by.
pub open spec fn group_key(g: GroupMode, r: BookRowView) -> Seq<char> {
    match g {
        GroupMode::Flat => Seq::<char>::empty(),
        GroupMode::Series => r.series,
        GroupMode::Authors => first_item(r.authors),
        GroupMode::Tags => first_item(r.tags),
    }
}

pub open spec fn group_order(g: GroupMode, a: BookRowView, b: BookRowView) -> Order {
    lex_order(group_key(g, a), group_key(g, b))
}

fn compare_text(a: &String, b: &String) -> (r: Order)
    ensures
        r == lex_order(a@, b@),
{
    let x = chars_of(a.as_str());
    let y = chars_of(b.as_str());
    compare_chars(&x, &y)
}

/// Compares two rows in one sort mode.
pub fn compare_row(mode: SortMode, a: &BookRow, b: &BookRow) -> (r: Order)
    ensures
        r == row_order(mode, a@, b@),
{
    match mode {
        SortMode::Title => compare_text(&a.title, &b.title),
        SortMode::Authors => compare_text(&a.authors, &b.authors),
        SortMode::Series => compare_text(&a.series, &b.series),
        SortMode::Tags => compare_text(&a.tags, &b.tags),
        SortMode::Formats => compare_text(&a.format, &b.format),
        SortMode::Rating => compare_text(&a.rating, &b.rating),
        SortMode::Publisher => compare_text(&a.publisher, &b.publisher),
        SortMode::Languages => compare_text(&a.languages, &b.languages),
        SortMode::DateAdded => compare_text(&a.date_added, &b.date_added),
        SortMode::DateModified => compare_text(&a.date_modified, &b.date_modified),
        SortMode::PubDate => compare_text(&a.pubdate, &b.pubdate),
        SortMode::Id => {
            if a.id < b.id {
                Order::Less
            } else if a.id == b.id {
                Order::Equal
            } else {
                Order::Greater
            }
        },
    }
}

fn first_item_of(s: &String) -> (r: Vec<char>)
    ensures
        r@ == first_item(s@),
{
    let v = chars_of(s.as_str());
    let items = csv_items_vec(&v);
    if items.len() > 0 {
        items[0].clone()
    } else {
        Vec::new()
    }
}

/// Compares two rows by their group.
pub fn compare_group(mode: GroupMode, a: &BookRow, b: &BookRow) -> (r: Order)
    ensures
        r == group_order(mode, a@, b@),
{
    match mode {
        GroupMode::Flat => {
            let e: Vec<char> = Vec::new();
            proof {
                lemma_lex_irreflexive(e@);
            }
            Order::Equal
        },
        GroupMode::Series => compare_text(&a.series, &b.series),
        GroupMode::Authors => {
            let x = first_item_of(&a.authors);
            let y = first_item_of(&b.authors);
            compare_chars(&x, &y)
        },
        GroupMode::Tags => {
            let x = first_item_of(&a.tags);
            let y = first_item_of(&b.tags);
            compare_chars(&x, &y)
        },
    }
}

pub open spec fn then(first: Order, next: Order) -> Order {
    if first == Order::Equal {
        next
    } else {
        first
    }
}

/// The order of the book list: by group, then the primary mode, then the
/// secondary mode when there is one, then the position before sorting.
pub open spec fn list_order(g: GroupMode, p: SortMode, s: Option<SortMode>, a: BookRowView, ia: int, b: BookRowView, ib: int) -> Order {
    then(
        group_order(g, a, b),
        then(
            row_order(p, a, b),
            then(
                match s {
                    Some(m) => row_order(m, a, b),
                    None => Order::Equal,
                },
                int_order(ia, ib),
            ),
        ),
    )
}

pub open spec fn flip(o: Order) -> Order {
    match o {
        Order::Less => Order::Greater,
        Order::Equal => Order::Equal,
        Order::Greater => Order::Less,
    }
}

proof fn lemma_lex_order_props(a: Seq<char>, b: Seq<char>, c: Seq<char>)
    ensures
        lex_order(b, a) == flip(lex_order(a, b)),
        lex_order(a, b) == Order::Equal <==> a == b,
        lex_order(a, b) == Order::Less && lex_order(b, c) == Order::Less ==> lex_order(a, c) == Order::Less,
{
    lemma_lex_trichotomy(a, b);
    lemma_lex_trichotomy(b, c);
    lemma_lex_trichotomy(a, c);
    if lex_lt(a, b) && lex_lt(b, c) {
        lemma_lex_transitive(a, b, c);
    }
}

proof fn lemma_key_order_props(a: SortKey, b: SortKey, c: SortKey)
    ensures
        key_order(b, a) == flip(key_order(a, b)),
        key_order(a, b) == Order::Equal <==> a == b,
        key_order(a, b) == Order::Less && key_order(b, c) == Order::Less ==> key_order(a, c) == Order::Less,
{
    match (a, b, c) {
        (SortKey::Text(x), SortKey::Text(y), SortKey::Text(z)) => lemma_lex_order_props(x, y, z),
        (SortKey::Text(x), SortKey::Text(y), _) => lemma_lex_order_props(x, y, y),
        _ => {},
    }
}

/// Keys whose `then`-combined order the list uses.
pub open spec fn list_key(g: GroupMode, p: SortMode, s: Option<SortMode>, r: BookRowView, i: int) -> (Seq<char>, SortKey, SortKey, int) {
    (group_key(g, r), sort_key(p, r), match s {
        Some(m) => sort_key(m, r),
        None => SortKey::Text(Seq::<char>::empty()),
    }, i)
}

pub open spec fn tuple_order(a: (Seq<char>, SortKey, SortKey, int), b: (Seq<char>, SortKey, SortKey, int)) -> Order {
    then(lex_order(a.0, b.0), then(key_order(a.1, b.1), then(key_order(a.2, b.2), int_order(a.3, b.3))))
}

proof fn lemma_list_order_is_tuple_order(g: GroupMode, p: SortMode, s: Option<SortMode>, a: BookRowView, ia: int, b: BookRowView, ib: int)
    ensures
        list_order(g, p, s, a, ia, b, ib) == tuple_order(list_key(g, p, s, a, ia), list_key(g, p, s, b, ib)),
{
    let e = Seq::<char>::empty();
    lemma_lex_order_props(e, e, e);
}

proof fn lemma_tuple_order_props(a: (Seq<char>, SortKey, SortKey, int), b: (Seq<char>, SortKey, SortKey, int), c: (Seq<char>, SortKey, SortKey, int))
    ensures
        tuple_order(b, a) == flip(tuple_order(a, b)),
        tuple_order(a, b) == Order::Equal ==> a.3 == b.3,
        tuple_order(a, b) == Order::Less && tuple_order(b, c) == Order::Less ==> tuple_order(a, c) == Order::Less,
{
    lemma_lex_order_props(a.0, b.0, c.0);
    lemma_lex_order_props(b.0, a.0, c.0);
    lemma_lex_order_props(a.0, c.0, b.0);
    lemma_key_order_props(a.1, b.1, c.1);
    lemma_key_order_props(b.1, a.1, c.1);
    lemma_key_order_props(a.1, c.1, b.1);
    lemma_key_order_props(a.2, b.2, c.2);
    lemma_key_order_props(b.2, a.2, c.2);
    lemma_key_order_props(a.2, c.2, b.2);
}

/// A list of positions below `n` without repeats that holds every one of them.
pub open spec fn is_permutation(perm: Seq<int>, n: int) -> bool {
    &&& perm.len() == n
    &&& forall|k: int| 0 <= k < n ==> 0 <= #[trigger] perm[k] < n
    &&& forall|k: int, l: int| 0 <= k < l < n ==> perm[k] != perm[l]
}

/// `out` holds the rows in list order (reversed for a descending sort).
pub open spec fn sorted_as_list(rows: Seq<BookRowView>, out: Seq<BookRowView>, g: GroupMode, p: SortMode, s: Option<SortMode>, dir: SortDirection) -> bool {
    exists|perm: Seq<int>|
        {
            &&& is_permutation(perm, rows.len() as int)
            &&& forall|k: int, l: int|
                0 <= k < l < rows.len() ==> list_order(g, p, s, rows[perm[k]], perm[k], rows[perm[l]], perm[l]) == Order::Less
            &&& out.len() == rows.len()
            &&& forall|k: int|
                0 <= k < rows.len() ==> #[trigger] out[k] == if dir == SortDirection::Asc {
                    rows[perm[k]]
                } else {
                    rows[perm[rows.len() - 1 - k]]
                }
        }
}

fn compare_listed(g: GroupMode, p: SortMode, s: Option<SortMode>, a: &BookRow, ia: usize, b: &BookRow, ib: usize) -> (r: Order)
    ensures
        r == list_order(g, p, s, a@, ia as int, b@, ib as int),
{
    let c = compare_group(g, a, b);
    if c != Order::Equal {
        return c;
    }
    let c = compare_row(p, a, b);
    if c != Order::Equal {
        return c;
    }
    match s {
        Some(m) => {
            let c = compare_row(m, a, b);
            if c != Order::Equal {
                return c;
            }
        },
        None => {},
    }
    if ia < ib {
        Order::Less
    } else if ia == ib {
        Order::Equal
    } else {
        Order::Greater
    }
}

/// Sorts the book list: by group, primary mode, secondary mode and given
/// position, then reversed for a descending sort.
pub fn sort_rows(list: &Vec<BookRow>, group_mode: GroupMode, primary: SortMode, secondary: Option<SortMode>, direction: SortDirection) -> (r: Vec<BookRow>)
    ensures
        sorted_as_list(row_views(list@), row_views(r@), group_mode, primary, secondary, direction),
{
    let ghost rows = row_views(list@);
    let n = list.len();
    let mut order: Vec<usize> = Vec::new();
    let mut i: usize = 0;
    while i < n
        invariant
            n == list.len(),
            rows == row_views(list@),
            i <= n,
            order.len() == i,
            forall|k: int| 0 <= k < i ==> 0 <= #[trigger] order@[k] < i,
            forall|k: int, l: int| 0 <= k < l < i ==> order@[k] != order@[l],
            forall|k: int, l: int|
                0 <= k < l < i ==> list_order(group_mode, primary, secondary, rows[order@[k] as int], order@[k] as int, rows[order@[l] as int], order@[l] as int) == Order::Less,
        decreases n - i,
    {
        let mut pos: usize = 0;
        while pos < order.len()
            invariant
                n == list.len(),
                rows == row_views(list@),
                i < n,
                order.len() == i,
                pos <= order.len(),
                forall|k: int| 0 <= k < i ==> 0 <= #[trigger] order@[k] < i,
                forall|k: int| 0 <= k < pos ==> list_order(group_mode, primary, secondary, rows[order@[k] as int], order@[k] as int, rows[i as int], i as int) == Order::Less,
            ensures
                pos <= order.len(),
                forall|k: int| 0 <= k < pos ==> list_order(group_mode, primary, secondary, rows[order@[k] as int], order@[k] as int, rows[i as int], i as int) == Order::Less,
                pos < order.len() ==> list_order(group_mode, primary, secondary, rows[order@[pos as int] as int], order@[pos as int] as int, rows[i as int], i as int) != Order::Less,
            decreases order.len() - pos,
        {
            let j = order[pos];
            let c = compare_listed(group_mode, primary, secondary, &list[j], j, &list[i], i);
            if c != Order::Less {
                break;
            }
            pos += 1;
        }
        let ghost before = order@;
        proof {
            let ki = list_key(group_mode, primary, secondary, rows[i as int], i as int);
            assert forall|k: int| pos <= k < i implies list_order(group_mode, primary, secondary, rows[i as int], i as int, rows[before[k] as int], before[k] as int) == Order::Less by {
                let kp = list_key(group_mode, primary, secondary, rows[before[pos as int] as int], before[pos as int] as int);
                let kk = list_key(group_mode, primary, secondary, rows[before[k] as int], before[k] as int);
                lemma_list_order_is_tuple_order(group_mode, primary, secondary, rows[before[pos as int] as int], before[pos as int] as int, rows[i as int], i as int);
                lemma_list_order_is_tuple_order(group_mode, primary, secondary, rows[i as int], i as int, rows[before[pos as int] as int], before[pos as int] as int);
                lemma_list_order_is_tuple_order(group_mode, primary, secondary, rows[i as int], i as int, rows[before[k] as int], before[k] as int);
                lemma_list_order_is_tuple_order(group_mode, primary, secondary, rows[before[pos as int] as int], before[pos as int] as int, rows[before[k] as int], before[k] as int);
                lemma_tuple_order_props(kp, ki, kk);
                lemma_tuple_order_props(ki, kp, kk);
            }
        }
        order.insert(pos, i);
        assert(order@ =~= before.insert(pos as int, i));
        assert forall|k: int, l: int| 0 <= k < l < i + 1 implies list_order(group_mode, primary, secondary, rows[order@[k] as int], order@[k] as int, rows[order@[l] as int], order@[l] as int) == Order::Less by {
            if k < pos && l > pos {
                let ka = list_key(group_mode, primary, secondary, rows[order@[k] as int], order@[k] as int);
                let ki = list_key(group_mode, primary, secondary, rows[i as int], i as int);
                let kb = list_key(group_mode, primary, secondary, rows[order@[l] as int], order@[l] as int);
                lemma_list_order_is_tuple_order(group_mode, primary, secondary, rows[order@[k] as int], order@[k] as int, rows[i as int], i as int);
                lemma_list_order_is_tuple_order(group_mode, primary, secondary, rows[i as int], i as int, rows[order@[l] as int], order@[l] as int);
                lemma_list_order_is_tuple_order(group_mode, primary, secondary, rows[order@[k] as int], order@[k] as int, rows[order@[l] as int], order@[l] as int);
                lemma_tuple_order_props(ka, ki, kb);
            }
        }
        i += 1;
    }
    let mut out: Vec<BookRow> = Vec::new();
    let mut k: usize = 0;
    while k < n
        invariant
            n == list.len(),
            rows == row_views(list@),
            order.len() == n,
            forall|x: int| 0 <= x < n ==> 0 <= #[trigger] order@[x] < n,
            k <= n,
            out.len() == k,
            forall|x: int|
                0 <= x < k ==> #[trigger] row_views(out@)[x] == if direction == SortDirection::Asc {
                    rows[order@[x] as int]
                } else {
                    rows[order@[n - 1 - x] as int]
                },
        decreases n - k,
    {
        let idx = if direction == SortDirection::Asc { order[k] } else { order[n - 1 - k] };
        let row = list[idx].duplicate();
        let ghost before = out@;
        out.push(row);
        assert(row_views(out@) =~= row_views(before).push(row@));
        assert(row@ == rows[idx as int]);
        k += 1;
    }
    let ghost perm = order@.map_values(|x: usize| x as int);
    assert(is_permutation(perm, n as int));
    assert(forall|x: int| 0 <= x < n ==> perm[x] == order@[x] as int);
    assert(row_views(out@).len() == rows.len());
    out
}


/// Whether a browser filter matches a book: the filter value, lower-cased, is
/// looked for in the category's field; ratings must equal it in ASCII case.
pub open spec fn filter_matches(f: FilterView, r: BookRowView) -> bool {
    let needle = lowercase(f.value);
    match f.category {
        BrowserCategory::Authors => field_matches(r.authors, needle),
        BrowserCategory::Tags => field_matches(r.tags, needle),
        BrowserCategory::Series => field_matches(r.series, needle),
        BrowserCategory::Publishers => field_matches(r.publisher, needle),
        BrowserCategory::Ratings => ascii_lower(trim(r.rating)) == ascii_lower(needle),
        BrowserCategory::Languages => field_matches(r.languages, needle),
    }
}

/// Whether a book passes a browser filter.
pub open spec fn filter_passes(f: FilterView, r: BookRowView) -> bool {
    match f.mode {
        BrowserFilterMode::Include => filter_matches(f, r),
        BrowserFilterMode::Exclude => !filter_matches(f, r),
    }
}

/// Whether a book is shown: its format equals the format filter in ASCII case,
/// it passes every browser filter, and it is tagged with news when only news
/// is asked for.
pub open spec fn row_shown(r: BookRowView, format: Option<Seq<char>>, filters: Seq<FilterView>, news_only: bool) -> bool {
    &&& match format {
        Some(f) => ascii_lower(r.format) == ascii_lower(f),
        None => true,
    }
    &&& forall|i: int| 0 <= i < filters.len() ==> filter_passes(#[trigger] filters[i], r)
    &&& (news_only ==> field_matches(r.tags, "news"@))
}

pub open spec fn shown_rows(rows: Seq<BookRowView>, format: Option<Seq<char>>, filters: Seq<FilterView>, news_only: bool) -> Seq<BookRowView> {
    rows.filter(|r: BookRowView| row_shown(r, format, filters, news_only))
}

fn filter_matches_row(f: &BrowserFilter, r: &BookRow) -> (b: bool)
    ensures
        b == filter_matches(f@, r@),
{
    let needle_v = crate::text::lower_vec(&chars_of(f.value.as_str()));
    let needle = string_of(&needle_v);
    match f.category {
        BrowserCategory::Authors => crate::fields::field_contains(r.authors.as_str(), needle.as_str()),
        BrowserCategory::Tags => crate::fields::field_contains(r.tags.as_str(), needle.as_str()),
        BrowserCategory::Series => crate::fields::field_contains(r.series.as_str(), needle.as_str()),
        BrowserCategory::Publishers => crate::fields::field_contains(r.publisher.as_str(), needle.as_str()),
        BrowserCategory::Ratings => {
            let t = crate::text::trim_vec(&chars_of(r.rating.as_str()));
            crate::text::eq_ignore_ascii_case(&t, &needle_v)
        },
        BrowserCategory::Languages => crate::fields::field_contains(r.languages.as_str(), needle.as_str()),
    }
}

fn row_is_shown(r: &BookRow, format: &Option<String>, filters: &Vec<BrowserFilter>, news_only: bool) -> (b: bool)
    ensures
        b == row_shown(r@, match format { Some(f) => Some(f@), None => None }, filter_views(filters@), news_only),
{
    let ghost fv = match format { Some(f) => Some(f@), None => None::<Seq<char>> };
    match format {
        Some(f) => {
            let a = chars_of(r.format.as_str());
            let b = chars_of(f.as_str());
            if !crate::text::eq_ignore_ascii_case(&a, &b) {
                return false;
            }
        },
        None => {},
    }
    let mut i: usize = 0;
    while i < filters.len()
        invariant
            i <= filters.len(),
            forall|j: int| 0 <= j < i ==> filter_passes(#[trigger] filter_views(filters@)[j], r@),
        decreases filters.len() - i,
    {
        let m = filter_matches_row(&filters[i], r);
        let pass = match filters[i].mode {
            BrowserFilterMode::Include => m,
            BrowserFilterMode::Exclude => !m,
        };
        if !pass {
            assert(!filter_passes(filter_views(filters@)[i as int], r@));
            return false;
        }
        i += 1;
    }
    if news_only {
        if !crate::fields::field_contains(r.tags.as_str(), "news") {
            return false;
        }
    }
    true
}

/// The books that pass the format, browser and news filters, in their order.
pub fn filter_books(all_books: &Vec<BookRow>, format_filter: &Option<String>, filters: &Vec<BrowserFilter>, news_only: bool) -> (r: Vec<BookRow>)
    ensures
        row_views(r@) == shown_rows(row_views(all_books@), match format_filter { Some(f) => Some(f@), None => None }, filter_views(filters@), news_only),
{
    let ghost fv = match format_filter { Some(f) => Some(f@), None => None::<Seq<char>> };
    let ghost rows = row_views(all_books@);
    let mut out: Vec<BookRow> = Vec::new();
    let mut i: usize = 0;
    while i < all_books.len()
        invariant
            i <= all_books.len(),
            rows == row_views(all_books@),
            fv == match format_filter { Some(f) => Some(f@), None => None::<Seq<char>> },
            row_views(out@) == rows.take(i as int).filter(|r: BookRowView| row_shown(r, fv, filter_views(filters@), news_only)),
        decreases all_books.len() - i,
    {
        proof {
            reveal_with_fuel(Seq::<_>::filter, 1);
        }
        assert(rows.take(i + 1).drop_last() =~= rows.take(i as int));
        if row_is_shown(&all_books[i], format_filter, filters, news_only) {
            let row = all_books[i].duplicate();
            let ghost before = out@;
            out.push(row);
            assert(row_views(out@) =~= row_views(before).push(row@));
        }
        i += 1;
    }
    assert(rows.take(all_books.len() as int) =~= rows);
    out
}

/// Each sort mode compares the field it names: text fields by code point order,
/// the id by number.
pub proof fn lemma_sort_mode_compares_its_field(a: BookRowView, b: BookRowView)
    ensures
        row_order(SortMode::Title, a, b) == lex_order(a.title, b.title),
        row_order(SortMode::Authors, a, b) == lex_order(a.authors, b.authors),
        row_order(SortMode::Series, a, b) == lex_order(a.series, b.series),
        row_order(SortMode::Tags, a, b) == lex_order(a.tags, b.tags),
        row_order(SortMode::Formats, a, b) == lex_order(a.format, b.format),
        row_order(SortMode::Rating, a, b) == lex_order(a.rating, b.rating),
        row_order(SortMode::Publisher, a, b) == lex_order(a.publisher, b.publisher),
        row_order(SortMode::Languages, a, b) == lex_order(a.languages, b.languages),
        row_order(SortMode::DateAdded, a, b) == lex_order(a.date_added, b.date_added),
        row_order(SortMode::DateModified, a, b) == lex_order(a.date_modified, b.date_modified),
        row_order(SortMode::PubDate, a, b) == lex_order(a.pubdate, b.pubdate),
        row_order(SortMode::Id, a, b) == if a.id < b.id {
            Order::Less
        } else if a.id == b.id {
            Order::Equal
        } else {
            Order::Greater
        },
{
}

/// An ungrouped list comes out in the order of its primary sort mode: ascending,
/// no row comes after one that the mode puts after it; descending, the reverse.
pub proof fn lemma_sorted_follows_primary(
    rows: Seq<BookRowView>,
    out: Seq<BookRowView>,
    p: SortMode,
    s: Option<SortMode>,
    dir: SortDirection,
)
    requires
        sorted_as_list(rows, out, GroupMode::Flat, p, s, dir),
    ensures
        out.len() == rows.len(),
        forall|k: int, l: int|
            0 <= k < l < out.len() ==> if dir == SortDirection::Asc {
                row_order(p, #[trigger] out[k], #[trigger] out[l]) != Order::Greater
            } else {
                row_order(p, out[k], out[l]) != Order::Less
            },
{
    let perm = choose|perm: Seq<int>|
        {
            &&& is_permutation(perm, rows.len() as int)
            &&& forall|k: int, l: int|
                0 <= k < l < rows.len() ==> list_order(GroupMode::Flat, p, s, rows[perm[k]], perm[k], rows[perm[l]], perm[l]) == Order::Less
            &&& out.len() == rows.len()
            &&& forall|k: int|
                0 <= k < rows.len() ==> #[trigger] out[k] == if dir == SortDirection::Asc {
                    rows[perm[k]]
                } else {
                    rows[perm[rows.len() - 1 - k]]
                }
        };
    lemma_lex_irreflexive(Seq::<char>::empty());
    let n = rows.len() as int;
    assert forall|k: int, l: int|
        0 <= k < l < out.len() implies if dir == SortDirection::Asc {
            row_order(p, #[trigger] out[k], #[trigger] out[l]) != Order::Greater
        } else {
            row_order(p, out[k], out[l]) != Order::Less
        } by {
        if dir == SortDirection::Asc {
            assert(list_order(GroupMode::Flat, p, s, rows[perm[k]], perm[k], rows[perm[l]], perm[l]) == Order::Less);
            assert(group_order(GroupMode::Flat, rows[perm[k]], rows[perm[l]]) == Order::Equal);
        } else {
            let k2 = n - 1 - l;
            let l2 = n - 1 - k;
            assert(list_order(GroupMode::Flat, p, s, rows[perm[k2]], perm[k2], rows[perm[l2]], perm[l2]) == Order::Less);
            assert(group_order(GroupMode::Flat, rows[perm[k2]], rows[perm[l2]]) == Order::Equal);
            assert(out[k] == rows[perm[l2]]);
            assert(out[l] == rows[perm[k2]]);
            lemma_key_order_props(sort_key(p, out[l]), sort_key(p, out[k]), sort_key(p, out[k]));
        }
    }
}

/// Rows are grouped by the field the group mode names: nothing when flat, the
/// series, or the first listed author or tag (blank when there is none).
pub proof fn lemma_group_mode_compares_its_field(a: BookRowView, b: BookRowView)
    ensures
        group_order(GroupMode::Flat, a, b) == Order::Equal,
        group_order(GroupMode::Series, a, b) == lex_order(a.series, b.series),
        group_order(GroupMode::Authors, a, b) == lex_order(
            if csv_items(a.authors).len() > 0 { csv_items(a.authors)[0] } else { Seq::<char>::empty() },
            if csv_items(b.authors).len() > 0 { csv_items(b.authors)[0] } else { Seq::<char>::empty() },
        ),
        group_order(GroupMode::Tags, a, b) == lex_order(
            if csv_items(a.tags).len() > 0 { csv_items(a.tags)[0] } else { Seq::<char>::empty() },
            if csv_items(b.tags).len() > 0 { csv_items(b.tags)[0] } else { Seq::<char>::empty() },
        ),
{
    lemma_lex_irreflexive(Seq::<char>::empty());
}

/// In an ascending sort, rows in the same group are in primary order, and rows
/// the primary mode ties are in secondary order.
pub proof fn lemma_sorted_within_groups(
    rows: Seq<BookRowView>,
    out: Seq<BookRowView>,
    g: GroupMode,
    p: SortMode,
    s: Option<SortMode>,
)
    requires
        sorted_as_list(rows, out, g, p, s, SortDirection::Asc),
    ensures
        forall|k: int, l: int|
            0 <= k < l < out.len() ==> group_order(g, #[trigger] out[k], #[trigger] out[l]) != Order::Greater,
        forall|k: int, l: int|
            0 <= k < l < out.len() && group_order(g, out[k], out[l]) == Order::Equal ==> row_order(
                p,
                #[trigger] out[k],
                #[trigger] out[l],
            ) != Order::Greater,
        forall|k: int, l: int|
            0 <= k < l < out.len() && group_order(g, out[k], out[l]) == Order::Equal && row_order(
                p,
                out[k],
                out[l],
            ) == Order::Equal && s is Some ==> row_order(s->0, #[trigger] out[k], #[trigger] out[l])
                != Order::Greater,
{
    let perm = choose|perm: Seq<int>|
        {
            &&& is_permutation(perm, rows.len() as int)
            &&& forall|k: int, l: int|
                0 <= k < l < rows.len() ==> list_order(g, p, s, rows[perm[k]], perm[k], rows[perm[l]], perm[l]) == Order::Less
            &&& out.len() == rows.len()
            &&& forall|k: int|
                0 <= k < rows.len() ==> #[trigger] out[k] == if SortDirection::Asc == SortDirection::Asc {
                    rows[perm[k]]
                } else {
                    rows[perm[rows.len() - 1 - k]]
                }
        };
    assert forall|k: int, l: int| 0 <= k < l < out.len() implies list_order(g, p, s, #[trigger] out[k], perm[k], #[trigger] out[l], perm[l])
        == Order::Less by {
        assert(list_order(g, p, s, rows[perm[k]], perm[k], rows[perm[l]], perm[l]) == Order::Less);
    }
}

/// Sorting an ungrouped list by publisher, ascending, puts no publisher before
/// one that comes earlier in code point order.
pub proof fn lemma_sorted_by_publisher(rows: Seq<BookRowView>, out: Seq<BookRowView>, s: Option<SortMode>)
    requires
        sorted_as_list(rows, out, GroupMode::Flat, SortMode::Publisher, s, SortDirection::Asc),
    ensures
        forall|k: int, l: int| 0 <= k < l < out.len() ==> !lex_lt(#[trigger] out[l].publisher, #[trigger] out[k].publisher),
{
    lemma_sorted_follows_primary(rows, out, SortMode::Publisher, s, SortDirection::Asc);
    assert forall|k: int, l: int| 0 <= k < l < out.len() implies !lex_lt(#[trigger] out[l].publisher, #[trigger] out[k].publisher) by {
        assert(row_order(SortMode::Publisher, out[k], out[l]) != Order::Greater);
        lemma_lex_trichotomy(out[k].publisher, out[l].publisher);
    }
}

/// The format filter keeps the books of that format, in any ASCII case; asking
/// for news keeps the books whose lower-cased tags contain `news`.
pub proof fn lemma_format_and_news_filters(r: BookRowView, format: Seq<char>)
    ensures
        row_shown(r, Some(format), Seq::empty(), false) <==> ascii_lower(r.format) == ascii_lower(format),
        row_shown(r, None, Seq::empty(), true) <==> contains_seq(lowercase(r.tags), "news"@),
{
    reveal_strlit("news");
    assert(trim("news"@) == "news"@) by {
        assert(!crate::text::is_ws('n') && !crate::text::is_ws('s'));
    }
}

/// A single browser filter keeps a book exactly when the field of its category
/// holds the lower-cased value (a blank value matches every book), or, for
/// ratings, when the trimmed rating equals the value in ASCII case; an
/// excluding filter keeps the other books.
pub proof fn lemma_single_filter(r: BookRowView, f: FilterView)
    ensures
        row_shown(r, None, seq![f], false) <==> ({
            let v = lowercase(f.value);
            let m = match f.category {
                BrowserCategory::Authors => trim(v).len() == 0 || contains_seq(lowercase(r.authors), v),
                BrowserCategory::Tags => trim(v).len() == 0 || contains_seq(lowercase(r.tags), v),
                BrowserCategory::Series => trim(v).len() == 0 || contains_seq(lowercase(r.series), v),
                BrowserCategory::Publishers => trim(v).len() == 0 || contains_seq(lowercase(r.publisher), v),
                BrowserCategory::Ratings => ascii_lower(trim(r.rating)) == ascii_lower(v),
                BrowserCategory::Languages => trim(v).len() == 0 || contains_seq(lowercase(r.languages), v),
            };
            match f.mode {
                BrowserFilterMode::Include => m,
                BrowserFilterMode::Exclude => !m,
            }
        }),
{
    assert(seq![f][0] == f);
}

/// The settings that decide which books the table lists, and in which order.
pub struct ListSettings {
    pub format_filter: Option<String>,
    pub browser_filters: Vec<BrowserFilter>,
    pub news_only: bool,
    pub group_mode: GroupMode,
    pub sort_mode: SortMode,
    pub secondary_sort: Option<SortMode>,
    pub sort_dir: SortDirection,
}

/// The table's book list: the books that pass the filters, sorted.
pub fn apply_filters(all_books: &Vec<BookRow>, settings: &ListSettings) -> (r: Vec<BookRow>)
    ensures
        sorted_as_list(
            shown_rows(
                row_views(all_books@),
                match settings.format_filter { Some(f) => Some(f@), None => None },
                filter_views(settings.browser_filters@),
                settings.news_only,
            ),
            row_views(r@),
            settings.group_mode,
            settings.sort_mode,
            settings.secondary_sort,
            settings.sort_dir,
        ),
{
    let shown = filter_books(all_books, &settings.format_filter, &settings.browser_filters, settings.news_only);
    sort_rows(&shown, settings.group_mode, settings.sort_mode, settings.secondary_sort, settings.sort_dir)
}

/// The heading of a book's group in a grouped table.
pub open spec fn group_label(g: GroupMode, r: BookRowView) -> Seq<char> {
    match g {
        GroupMode::Flat => "All books"@,
        GroupMode::Series => if trim(r.series).len() == 0 {
            "Series: (none)"@
        } else {
            "Series: "@ + r.series
        },
        GroupMode::Authors => "Author: "@ + if csv_items(r.authors).len() > 0 {
            csv_items(r.authors)[0]
        } else {
            "(none)"@
        },
        GroupMode::Tags => "Tag: "@ + if csv_items(r.tags).len() > 0 {
            csv_items(r.tags)[0]
        } else {
            "(none)"@
        },
    }
}

fn first_or_none(s: &String) -> (r: Vec<char>)
    ensures
        r@ == if csv_items(s@).len() > 0 { csv_items(s@)[0] } else { "(none)"@ },
{
    let v = chars_of(s.as_str());
    let items = csv_items_vec(&v);
    if items.len() > 0 {
        items[0].clone()
    } else {
        chars_of("(none)")
    }
}

pub fn book_group_label(mode: GroupMode, book: &BookRow) -> (r: String)
    ensures
        r@ == group_label(mode, book@),
{
    match mode {
        GroupMode::Flat => string_of(&chars_of("All books")),
        GroupMode::Series => {
            let s = chars_of(book.series.as_str());
            if crate::text::trim_vec(&s).len() == 0 {
                string_of(&chars_of("Series: (none)"))
            } else {
                let mut out = chars_of("Series: ");
                crate::text::append_vec(&mut out, &s);
                string_of(&out)
            }
        },
        GroupMode::Authors => {
            let mut out = chars_of("Author: ");
            crate::text::append_vec(&mut out, &first_or_none(&book.authors));
            string_of(&out)
        },
        GroupMode::Tags => {
            let mut out = chars_of("Tag: ");
            crate::text::append_vec(&mut out, &first_or_none(&book.tags));
            string_of(&out)
        },
    }
}

/// A line of the table: a group heading, or the book at a position of the list.
#[derive(Clone, Debug)]
pub enum TableDisplayRow {
    GroupHeader(String),
    BookRow(usize),
}

pub enum DisplayRowView {
    Header(Seq<char>),
    Book(int),
}

impl View for TableDisplayRow {
    type V = DisplayRowView;

    open spec fn view(&self) -> DisplayRowView {
        match self {
            TableDisplayRow::GroupHeader(s) => DisplayRowView::Header(s@),
            TableDisplayRow::BookRow(i) => DisplayRowView::Book(*i as int),
        }
    }
}

pub open spec fn display_views(v: Seq<TableDisplayRow>) -> Seq<DisplayRowView> {
    v.map_values(|r: TableDisplayRow| r@)
}

/// The lines for the first `n` books: each book, preceded by a heading when
/// its group label differs from that of the book before it (the first book
/// always gets one). Without grouping there are no headings.
pub open spec fn display_rows(g: GroupMode, books: Seq<BookRowView>, n: int) -> Seq<DisplayRowView>
    decreases n,
{
    if n <= 0 {
        Seq::<DisplayRowView>::empty()
    } else {
        let prev = display_rows(g, books, n - 1);
        let label = group_label(g, books[n - 1]);
        let current = if n == 1 { Seq::<char>::empty() } else { group_label(g, books[n - 2]) };
        let with_head = if g != GroupMode::Flat && label != current {
            prev.push(DisplayRowView::Header(label))
        } else {
            prev
        };
        with_head.push(DisplayRowView::Book(n - 1))
    }
}

pub fn table_display_rows(mode: GroupMode, books: &Vec<BookRow>) -> (r: Vec<TableDisplayRow>)
    ensures
        display_views(r@) == display_rows(mode, row_views(books@), books.len() as int),
{
    let ghost bs = row_views(books@);
    let mut out: Vec<TableDisplayRow> = Vec::new();
    let mut current: Vec<char> = Vec::new();
    let mut i: usize = 0;
    while i < books.len()
        invariant
            i <= books.len(),
            bs == row_views(books@),
            display_views(out@) == display_rows(mode, bs, i as int),
            current@ == if i == 0 { Seq::<char>::empty() } else { group_label(mode, bs[i - 1]) },
        decreases books.len() - i,
    {
        let label = book_group_label(mode, &books[i]);
        let lv = chars_of(label.as_str());
        if mode != GroupMode::Flat && !crate::text::vec_eq(&lv, &current) {
            let ghost before = out@;
            out.push(TableDisplayRow::GroupHeader(label));
            assert(display_views(out@) =~= display_views(before).push(DisplayRowView::Header(lv@)));
        }
        let ghost before = out@;
        out.push(TableDisplayRow::BookRow(i));
        assert(display_views(out@) =~= display_views(before).push(DisplayRowView::Book(i as int)));
        current = lv;
        i += 1;
    }
    out
}

/// The row of a book: its lists joined with `, `, its rating written out, its
/// other fields as stored, blanks and no cover when its details are missing;
/// `series` is the series column's text.
pub open spec fn row_of(
    id: i64,
    title: Seq<char>,
    format: Seq<char>,
    path: Seq<char>,
    meta: Option<crate::calibre::BookMeta>,
    series: Seq<char>,
) -> BookRowView {
    match meta {
        Some(m) => BookRowView {
            id: id as int,
            title,
            format,
            path,
            authors: crate::text::join(crate::text::string_views(m.authors@), ", "@),
            tags: crate::text::join(crate::text::string_views(m.tags@), ", "@),
            series,
            rating: match m.rating {
                Some(r) => crate::text::int_digits(r as int),
                None => Seq::empty(),
            },
            publisher: crate::fields::or_empty(m.publisher),
            languages: crate::text::join(crate::text::string_views(m.languages@), ", "@),
            has_cover: m.cover,
            date_added: crate::fields::or_empty(m.added),
            date_modified: crate::fields::or_empty(m.modified),
            pubdate: crate::fields::or_empty(m.pubdate),
        },
        None => BookRowView {
            id: id as int,
            title,
            format,
            path,
            authors: Seq::empty(),
            tags: Seq::empty(),
            series: Seq::empty(),
            rating: Seq::empty(),
            publisher: Seq::empty(),
            languages: Seq::empty(),
            has_cover: false,
            date_added: Seq::empty(),
            date_modified: Seq::empty(),
            pubdate: Seq::empty(),
        },
    }
}

fn joined(items: &Vec<String>) -> (r: String)
    ensures
        r@ == crate::text::join(crate::text::string_views(items@), ", "@),
{
    string_of(&crate::text::join_with(&crate::text::vecs_of(items), ", "))
}

fn text_or_blank(o: &Option<String>) -> (r: String)
    ensures
        r@ == crate::fields::or_empty(*o),
{
    match o {
        Some(s) => s.clone(),
        None => String::new(),
    }
}

/// Builds the table row of a book from its record and, when loaded, its
/// details; `series` is the series column's text, which the caller writes.
pub fn build_row(
    id: i64,
    title: &str,
    format: &str,
    path: &str,
    meta: Option<&crate::calibre::BookMeta>,
    series: String,
) -> (r: BookRow)
    ensures
        r@ == row_of(
            id,
            title@,
            format@,
            path@,
            match meta {
                Some(m) => Some(*m),
                None => None,
            },
            series@,
        ),
{
    match meta {
        Some(m) => BookRow {
            id,
            title: title.to_owned(),
            format: format.to_owned(),
            path: path.to_owned(),
            authors: joined(&m.authors),
            tags: joined(&m.tags),
            series,
            rating: match m.rating {
                Some(v) => string_of(&crate::text::i64_digits(v)),
                None => String::new(),
            },
            publisher: text_or_blank(&m.publisher),
            languages: joined(&m.languages),
            has_cover: m.cover,
            date_added: text_or_blank(&m.added),
            date_modified: text_or_blank(&m.modified),
            pubdate: text_or_blank(&m.pubdate),
        },
        None => BookRow {
            id,
            title: title.to_owned(),
            format: format.to_owned(),
            path: path.to_owned(),
            authors: String::new(),
            tags: String::new(),
            series: String::new(),
            rating: String::new(),
            publisher: String::new(),
            languages: String::new(),
            has_cover: false,
            date_added: String::new(),
            date_modified: String::new(),
            pubdate: String::new(),
        },
    }
}

} // verus!
