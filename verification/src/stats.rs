//! Library statistics: counts and sizes per name, listed largest first.
use crate::order::{lemma_lex_transitive, lemma_lex_trichotomy, lex_lt};
use crate::books::BookRow;
use crate::presets::{lemma_pairs_map_absent, lemma_pairs_map_entry, lemma_pairs_map_update, names_unique, pairs_map};
use crate::text::{chars_of, string_of, views};
use vstd::prelude::*;

verus! {

/// A named amount as plain values.
pub type Tally = (Seq<char>, u64);

/// `a` is listed before `b`: a larger amount first, equal amounts by name.
pub open spec fn listed_before(a: Tally, b: Tally) -> bool {
    a.1 > b.1 || (a.1 == b.1 && lex_lt(a.0, b.0))
}

/// No entry is listed after one it should precede.
pub open spec fn listed_in_order(s: Seq<Tally>) -> bool {
    forall|i: int, j: int| 0 <= i < j < s.len() ==> !listed_before(s[j], s[i])
}

/// Views of named sizes.
pub open spec fn size_views(v: Seq<(String, u64)>) -> Seq<Tally> {
    v.map_values(|p: (String, u64)| (p.0@, p.1))
}

/// Views of named counts.
pub open spec fn count_views(v: Seq<(String, usize)>) -> Seq<Tally> {
    v.map_values(|p: (String, usize)| (p.0@, p.1 as u64))
}

proof fn lemma_listed_before_transitive(a: Tally, b: Tally, c: Tally)
    requires
        listed_before(a, b),
        listed_before(b, c),
    ensures
        listed_before(a, c),
{
    if a.1 == b.1 && b.1 == c.1 {
        lemma_lex_transitive(a.0, b.0, c.0);
    }
}

proof fn lemma_listed_before_asymmetric(a: Tally, b: Tally)
    ensures
        !(listed_before(a, b) && listed_before(b, a)),
{
    lemma_lex_trichotomy(a.0, b.0);
}

/// Whether `a` is listed before `b`.
fn listed_first(a: &(String, u64), b: &(String, u64)) -> (r: bool)
    ensures
        r == listed_before((a.0@, a.1), (b.0@, b.1)),
{
    if a.1 != b.1 {
        a.1 > b.1
    } else {
        let x = chars_of(a.0.as_str());
        let y = chars_of(b.0.as_str());
        crate::order::compare_chars(&x, &y) == crate::order::Order::Less
    }
}

/// Named sizes listed largest first, equal sizes by name.
pub fn sort_size_map(items: Vec<(String, u64)>) -> (r: Vec<(String, u64)>)
    ensures
        listed_in_order(size_views(r@)),
        size_views(r@).to_multiset() == size_views(items@).to_multiset(),
{
    let mut out: Vec<(String, u64)> = Vec::new();
    let mut i: usize = 0;
    let ghost src = size_views(items@);
    assert(src.take(0) =~= Seq::<Tally>::empty());
    assert(size_views(out@) =~= Seq::<Tally>::empty());
    while i < items.len()
        invariant
            i <= items.len(),
            src == size_views(items@),
            listed_in_order(size_views(out@)),
            size_views(out@).to_multiset() == src.take(i as int).to_multiset(),
        decreases items.len() - i,
    {
        let x = (items[i].0.clone(), items[i].1);
        let ghost xv: Tally = (x.0@, x.1);
        assert(xv == src[i as int]);
        let ghost cur = size_views(out@);
        let mut pos: usize = 0;
        while pos < out.len() && !listed_first(&x, &out[pos])
            invariant
                pos <= out.len(),
                cur == size_views(out@),
                xv == (x.0@, x.1),
                forall|k: int| 0 <= k < pos ==> !listed_before(xv, #[trigger] cur[k]),
            decreases out.len() - pos,
        {
            assert(cur[pos as int] == (out@[pos as int].0@, out@[pos as int].1));
            pos += 1;
        }
        proof {
            if pos < out.len() {
                assert(cur[pos as int] == (out@[pos as int].0@, out@[pos as int].1));
                assert(listed_before(xv, cur[pos as int]));
            }
        }
        out.insert(pos, x);
        let ghost next = size_views(out@);
        assert(next =~= cur.insert(pos as int, xv));
        assert forall|a: int, b: int| 0 <= a < b < next.len() implies !listed_before(next[b], next[a]) by {
            if b == pos {
                assert(next[a] == cur[a]);
            } else if a == pos {
                assert(next[b] == cur[b - 1]);
                if listed_before(cur[b - 1], xv) {
                    if b - 1 > pos as int {
                        lemma_listed_before_transitive(cur[b - 1], xv, cur[pos as int]);
                    } else {
                        lemma_listed_before_asymmetric(xv, cur[pos as int]);
                    }
                }
            } else {
                let a0 = if a < pos { a } else { a - 1 };
                let b0 = if b < pos { b } else { b - 1 };
                assert(next[a] == cur[a0]);
                assert(next[b] == cur[b0]);
            }
        }
        proof {
            vstd::seq_lib::to_multiset_insert(cur, pos as int, xv);
            assert(src.take(i + 1) =~= src.take(i as int).push(xv));
            vstd::seq_lib::to_multiset_build(src.take(i as int), xv);
        }
        i += 1;
    }
    assert(src.take(items.len() as int) =~= src);
    out
}

/// Named counts listed largest first, equal counts by name.
pub fn sort_count_map(items: Vec<(String, usize)>) -> (r: Vec<(String, usize)>)
    ensures
        listed_in_order(count_views(r@)),
        count_views(r@).to_multiset() == count_views(items@).to_multiset(),
{
    let mut wide: Vec<(String, u64)> = Vec::new();
    let mut i: usize = 0;
    while i < items.len()
        invariant
            i <= items.len(),
            size_views(wide@) == count_views(items@).take(i as int),
        decreases items.len() - i,
    {
        let ghost before = wide@;
        let name = items[i].0.clone();
        let pair = (name, items[i].1 as u64);
        wide.push(pair);
        assert(size_views(wide@) =~= size_views(before).push((items@[i as int].0@, items@[i as int].1 as u64)));
        assert(size_views(wide@) =~= count_views(items@).take(i + 1));
        i += 1;
    }
    assert(count_views(items@).take(items.len() as int) =~= count_views(items@));
    let sorted = sort_size_map(wide);
    assert forall|j: int| 0 <= j < sorted@.len() implies sorted@[j].1 <= usize::MAX by {
        let x = size_views(sorted@)[j];
        vstd::seq_lib::to_multiset_contains(size_views(sorted@), x);
        vstd::seq_lib::to_multiset_contains(count_views(items@), x);
        assert(size_views(sorted@).contains(x));
        let m = choose|m: int| 0 <= m < count_views(items@).len() && count_views(items@)[m] == x;
        assert(count_views(items@)[m].1 == items@[m].1 as u64);
    }
    let mut out: Vec<(String, usize)> = Vec::new();
    let mut k: usize = 0;
    while k < sorted.len()
        invariant
            k <= sorted.len(),
            forall|j: int| 0 <= j < sorted@.len() ==> #[trigger] sorted@[j].1 <= usize::MAX,
            count_views(out@) == size_views(sorted@).take(k as int),
        decreases sorted.len() - k,
    {
        let ghost before = out@;
        let name = sorted[k].0.clone();
        let pair = (name, sorted[k].1 as usize);
        out.push(pair);
        assert(count_views(out@) =~= count_views(before).push((sorted@[k as int].0@, sorted@[k as int].1)));
        assert(count_views(out@) =~= size_views(sorted@).take(k + 1));
        k += 1;
    }
    assert(size_views(sorted@).take(sorted.len() as int) =~= size_views(sorted@));
    out
}


/// The amount tallied for a name, 0 when it has none.
pub open spec fn tally_of(m: Map<Seq<char>, u64>, k: Seq<char>) -> int {
    if m.contains_key(k) {
        m[k] as int
    } else {
        0
    }
}

/// How often each name occurs in a list of names.
pub open spec fn key_counts(keys: Seq<Seq<char>>) -> Map<Seq<char>, u64>
    decreases keys.len(),
{
    if keys.len() == 0 {
        Map::empty()
    } else {
        let m = key_counts(keys.drop_last());
        m.insert(keys.last(), (tally_of(m, keys.last()) + 1) as u64)
    }
}

/// The sum of the amounts of a list of named amounts.
pub open spec fn amount_sum(items: Seq<Tally>) -> nat
    decreases items.len(),
{
    if items.len() == 0 {
        0
    } else {
        amount_sum(items.drop_last()) + items.last().1 as nat
    }
}

/// The total amount of each name in a list of named amounts.
pub open spec fn amount_totals(items: Seq<Tally>) -> Map<Seq<char>, u64>
    decreases items.len(),
{
    if items.len() == 0 {
        Map::empty()
    } else {
        let m = amount_totals(items.drop_last());
        m.insert(items.last().0, (tally_of(m, items.last().0) + items.last().1) as u64)
    }
}

proof fn lemma_key_counts_bound(keys: Seq<Seq<char>>, k: Seq<char>)
    ensures
        0 <= tally_of(key_counts(keys), k) <= keys.len(),
    decreases keys.len(),
{
    if keys.len() > 0 {
        lemma_key_counts_bound(keys.drop_last(), k);
        lemma_key_counts_bound(keys.drop_last(), keys.last());
    }
}

proof fn lemma_amount_totals_bound(items: Seq<Tally>, k: Seq<char>)
    ensures
        0 <= tally_of(amount_totals(items), k) <= amount_sum(items),
    decreases items.len(),
{
    if items.len() > 0 {
        lemma_amount_totals_bound(items.drop_last(), k);
        lemma_amount_totals_bound(items.drop_last(), items.last().0);
    }
}

/// Adds `amount` to the tally of `key`.
fn tally_add(tally: &mut Vec<(String, u64)>, key: &Vec<char>, amount: u64)
    requires
        names_unique(size_views(old(tally)@)),
        tally_of(pairs_map(size_views(old(tally)@)), key@) + amount <= u64::MAX,
    ensures
        names_unique(size_views(final(tally)@)),
        pairs_map(size_views(final(tally)@)) == pairs_map(size_views(old(tally)@)).insert(
            key@,
            (tally_of(pairs_map(size_views(old(tally)@)), key@) + amount) as u64,
        ),
{
    let ghost s0 = size_views(tally@);
    let mut i: usize = 0;
    while i < tally.len()
        invariant
            i <= tally@.len(),
            s0 == size_views(tally@),
            s0 == size_views(old(tally)@),
            names_unique(s0),
            tally_of(pairs_map(s0), key@) + amount <= u64::MAX,
            forall|j: int| 0 <= j < i ==> (#[trigger] s0[j]).0 != key@,
        decreases tally.len() - i,
    {
        assert(s0[i as int] == (tally@[i as int].0@, tally@[i as int].1));
        if crate::text::vec_eq(&chars_of(tally[i].0.as_str()), key) {
            proof {
                lemma_pairs_map_entry(s0, i as int);
                assert(s0[i as int].0 == key@);
                assert(tally_of(pairs_map(s0), key@) == s0[i as int].1);
            }
            let v = tally[i].1 + amount;
            let name = tally[i].0.clone();
            tally.set(i, (name, v));
            proof {
                lemma_pairs_map_update(s0, i as int, v);
                assert(size_views(tally@) =~= s0.update(i as int, (s0[i as int].0, v)));
                assert(v == (tally_of(pairs_map(s0), key@) + amount) as u64);
                assert(pairs_map(size_views(tally@)) == pairs_map(s0).insert(key@, v));
            }
            return;
        }
        i += 1;
    }
    proof {
        lemma_pairs_map_absent(s0, key@);
    }
    tally.push((string_of(key), amount));
    assert(size_views(tally@) =~= s0.push((key@, amount)));
    assert(s0.push((key@, amount)).drop_last() =~= s0);
}

/// Counts how often each name occurs.
fn count_keys(keys: &Vec<Vec<char>>) -> (r: Vec<(String, u64)>)
    ensures
        names_unique(size_views(r@)),
        pairs_map(size_views(r@)) == key_counts(views(keys@)),
{
    let mut tally: Vec<(String, u64)> = Vec::new();
    let mut i: usize = 0;
    assert(size_views(tally@) =~= Seq::<Tally>::empty());
    while i < keys.len()
        invariant
            i <= keys@.len(),
            names_unique(size_views(tally@)),
            pairs_map(size_views(tally@)) == key_counts(views(keys@).take(i as int)),
        decreases keys.len() - i,
    {
        let ghost before = views(keys@).take(i as int);
        assert(views(keys@).take(i + 1).drop_last() =~= before);
        assert(views(keys@)[i as int] == keys@[i as int]@);
        proof {
            lemma_key_counts_bound(before, keys@[i as int]@);
        }
        tally_add(&mut tally, &keys[i], 1);
        i += 1;
    }
    assert(views(keys@).take(keys@.len() as int) =~= views(keys@));
    tally
}

/// `out` lists the tallies of `m` largest first: each name once with its amount.
pub open spec fn lists_tallies(out: Seq<Tally>, m: Map<Seq<char>, u64>) -> bool {
    &&& listed_in_order(out)
    &&& exists|t: Seq<Tally>|
        names_unique(t) && pairs_map(t) == m && #[trigger] t.to_multiset() == out.to_multiset()
}

/// An asset as the statistics count it.
#[derive(Clone, Debug)]
pub struct StatsAsset {
    pub book_id: i64,
    pub source_path: Option<String>,
    pub stored_path: String,
    pub stored_size_bytes: u64,
}

/// Counts and sizes of a library, each list largest first.
#[derive(Clone, Debug)]
pub struct LibraryStatsSummary {
    pub formats: Vec<(String, usize)>,
    pub format_sizes: Vec<(String, u64)>,
    pub languages: Vec<(String, usize)>,
    pub tags: Vec<(String, usize)>,
    pub authors: Vec<(String, usize)>,
    pub series: Vec<(String, usize)>,
}

/// The comma-separated items of each field, one list after another.
pub open spec fn all_items(fields: Seq<Seq<char>>) -> Seq<Seq<char>>
    decreases fields.len(),
{
    if fields.len() == 0 {
        Seq::empty()
    } else {
        all_items(fields.drop_last()) + crate::text::csv_items(fields.last())
    }
}

/// The non-blank series names, as written.
pub open spec fn series_names(series: Seq<Seq<char>>) -> Seq<Seq<char>>
    decreases series.len(),
{
    if series.len() == 0 {
        Seq::empty()
    } else if crate::text::trim(series.last()).len() > 0 {
        series_names(series.drop_last()).push(series.last())
    } else {
        series_names(series.drop_last())
    }
}

/// The format listed for a book: that of its last row, or `unknown`.
pub open spec fn book_format_for(rows: Seq<BookRow>, id: i64) -> Seq<char>
    decreases rows.len(),
{
    if rows.len() == 0 {
        "unknown"@
    } else if rows.last().id == id {
        rows.last().format@
    } else {
        book_format_for(rows.drop_last(), id)
    }
}

/// Each asset's format with its stored size.
pub open spec fn asset_sizes(rows: Seq<BookRow>, assets: Seq<StatsAsset>) -> Seq<Tally> {
    assets.map_values(
        |a: StatsAsset|
            (
                crate::paths::asset_format_of(
                    crate::paths::opt_view(a.source_path),
                    a.stored_path@,
                    book_format_for(rows, a.book_id),
                ),
                a.stored_size_bytes,
            ),
    )
}

/// A field of every row.
pub open spec fn row_field(rows: Seq<BookRow>, f: int) -> Seq<Seq<char>> {
    rows.map_values(
        |r: BookRow|
            if f == 0 {
                r.format@
            } else if f == 1 {
                r.languages@
            } else if f == 2 {
                r.tags@
            } else if f == 3 {
                r.authors@
            } else {
                r.series@
            },
    )
}

/// The values of one field of every row.
fn field_values(rows: &Vec<BookRow>, f: usize) -> (r: Vec<Vec<char>>)
    ensures
        views(r@) == row_field(rows@, f as int),
{
    let mut out: Vec<Vec<char>> = Vec::new();
    let mut i: usize = 0;
    while i < rows.len()
        invariant
            i <= rows@.len(),
            views(out@) == row_field(rows@, f as int).take(i as int),
        decreases rows.len() - i,
    {
        let r = &rows[i];
        let v = if f == 0 {
            chars_of(r.format.as_str())
        } else if f == 1 {
            chars_of(r.languages.as_str())
        } else if f == 2 {
            chars_of(r.tags.as_str())
        } else if f == 3 {
            chars_of(r.authors.as_str())
        } else {
            chars_of(r.series.as_str())
        };
        let ghost before = views(out@);
        out.push(v);
        assert(views(out@) =~= before.push(row_field(rows@, f as int)[i as int]));
        assert(views(out@) =~= row_field(rows@, f as int).take(i + 1));
        i += 1;
    }
    assert(row_field(rows@, f as int).take(rows@.len() as int) =~= row_field(rows@, f as int));
    out
}

/// The comma-separated items of every field, in order.
fn items_of(fields: &Vec<Vec<char>>) -> (r: Vec<Vec<char>>)
    ensures
        views(r@) == all_items(views(fields@)),
{
    let mut out: Vec<Vec<char>> = Vec::new();
    let mut i: usize = 0;
    while i < fields.len()
        invariant
            i <= fields@.len(),
            views(out@) == all_items(views(fields@).take(i as int)),
        decreases fields.len() - i,
    {
        assert(views(fields@).take(i + 1).drop_last() =~= views(fields@).take(i as int));
        assert(views(fields@)[i as int] == fields@[i as int]@);
        let items = crate::text::csv_items_vec(&fields[i]);
        let mut k: usize = 0;
        let ghost base = views(out@);
        while k < items.len()
            invariant
                i < fields@.len(),
                k <= items@.len(),
                views(items@) == crate::text::csv_items(fields@[i as int]@),
                views(out@) == base + views(items@).take(k as int),
            decreases items.len() - k,
        {
            let ghost b2 = views(out@);
            let piece = crate::text::slice_vec(&items[k], 0, items[k].len());
            assert(piece@ =~= items@[k as int]@);
            assert(views(items@)[k as int] == items@[k as int]@);
            out.push(piece);
            assert(views(out@) =~= b2.push(piece@));
            assert(views(out@) =~= base + views(items@).take(k + 1));
            k += 1;
        }
        assert(views(items@).take(items@.len() as int) =~= views(items@));
        i += 1;
    }
    assert(views(fields@).take(fields@.len() as int) =~= views(fields@));
    out
}

/// The non-blank series names of the rows.
fn series_of(series: &Vec<Vec<char>>) -> (r: Vec<Vec<char>>)
    ensures
        views(r@) == series_names(views(series@)),
{
    let mut out: Vec<Vec<char>> = Vec::new();
    let mut i: usize = 0;
    while i < series.len()
        invariant
            i <= series@.len(),
            views(out@) == series_names(views(series@).take(i as int)),
        decreases series.len() - i,
    {
        assert(views(series@).take(i + 1).drop_last() =~= views(series@).take(i as int));
        assert(views(series@)[i as int] == series@[i as int]@);
        if crate::text::trim_vec(&series[i]).len() > 0 {
            let ghost before = views(out@);
            let piece = crate::text::slice_vec(&series[i], 0, series[i].len());
            assert(piece@ =~= series@[i as int]@);
            out.push(piece);
            assert(views(out@) =~= before.push(series@[i as int]@));
        }
        i += 1;
    }
    assert(views(series@).take(series@.len() as int) =~= views(series@));
    out
}

/// The listed format of a book.
fn format_for(rows: &Vec<BookRow>, id: i64) -> (r: String)
    ensures
        r@ == book_format_for(rows@, id),
{
    let mut i: usize = rows.len();
    assert(rows@.take(rows@.len() as int) =~= rows@);
    while i > 0
        invariant
            i <= rows@.len(),
            book_format_for(rows@, id) == book_format_for(rows@.take(i as int), id),
        decreases i,
    {
        assert(rows@.take(i as int).drop_last() =~= rows@.take(i - 1));
        assert(rows@.take(i as int).last() == rows@[i - 1]);
        if rows[i - 1].id == id {
            return rows[i - 1].format.clone();
        }
        i -= 1;
    }
    assert(rows@.take(0) =~= Seq::<BookRow>::empty());
    string_of(&chars_of("unknown"))
}

/// Counts listed largest first.
fn listed_counts(keys: &Vec<Vec<char>>) -> (r: Vec<(String, usize)>)
    ensures
        lists_tallies(count_views(r@), key_counts(views(keys@))),
{
    let tally = count_keys(keys);
    let key_count = keys.len();
    let ghost t = size_views(tally@);
    proof {
        assert forall|j: int| 0 <= j < t.len() implies (#[trigger] t[j]).1 <= usize::MAX by {
            lemma_pairs_map_entry(t, j);
            lemma_key_counts_bound(views(keys@), t[j].0);
        }
    }
    let mut narrow: Vec<(String, usize)> = Vec::new();
    let mut i: usize = 0;
    while i < tally.len()
        invariant
            i <= tally@.len(),
            t == size_views(tally@),
            forall|j: int| 0 <= j < t.len() ==> (#[trigger] t[j]).1 <= usize::MAX,
            count_views(narrow@) == t.take(i as int),
        decreases tally.len() - i,
    {
        let ghost before = narrow@;
        assert(t[i as int] == (tally@[i as int].0@, tally@[i as int].1));
        let name = tally[i].0.clone();
        let pair = (name, tally[i].1 as usize);
        narrow.push(pair);
        assert(count_views(narrow@) =~= count_views(before).push(t[i as int]));
        i += 1;
    }
    assert(t.take(tally@.len() as int) =~= t);
    let r = sort_count_map(narrow);
    assert(t.to_multiset() == count_views(r@).to_multiset());
    r
}

/// The statistics of a library: how many books have each format, language, tag,
/// author and series, and how many bytes each format's assets take, every list
/// largest first and ties by name.
pub fn compute_library_stats(rows: &Vec<BookRow>, assets: &Vec<StatsAsset>) -> (r: LibraryStatsSummary)
    requires
        amount_sum(asset_sizes(rows@, assets@)) <= u64::MAX,
    ensures
        lists_tallies(count_views(r.formats@), key_counts(row_field(rows@, 0))),
        lists_tallies(count_views(r.languages@), key_counts(all_items(row_field(rows@, 1)))),
        lists_tallies(count_views(r.tags@), key_counts(all_items(row_field(rows@, 2)))),
        lists_tallies(count_views(r.authors@), key_counts(all_items(row_field(rows@, 3)))),
        lists_tallies(count_views(r.series@), key_counts(series_names(row_field(rows@, 4)))),
        lists_tallies(size_views(r.format_sizes@), amount_totals(asset_sizes(rows@, assets@))),
{
    let formats = listed_counts(&field_values(rows, 0));
    let languages = listed_counts(&items_of(&field_values(rows, 1)));
    let tags = listed_counts(&items_of(&field_values(rows, 2)));
    let authors = listed_counts(&items_of(&field_values(rows, 3)));
    let series = listed_counts(&series_of(&field_values(rows, 4)));
    let ghost sizes = asset_sizes(rows@, assets@);
    let mut tally: Vec<(String, u64)> = Vec::new();
    assert(size_views(tally@) =~= Seq::<Tally>::empty());
    let mut i: usize = 0;
    while i < assets.len()
        invariant
            i <= assets@.len(),
            sizes == asset_sizes(rows@, assets@),
            amount_sum(sizes) <= u64::MAX,
            names_unique(size_views(tally@)),
            pairs_map(size_views(tally@)) == amount_totals(sizes.take(i as int)),
        decreases assets.len() - i,
    {
        let a = &assets[i];
        let fallback = format_for(rows, a.book_id);
        let f = crate::paths::asset_format(&a.source_path, a.stored_path.as_str(), fallback.as_str());
        let ghost before = sizes.take(i as int);
        assert(sizes.take(i + 1).drop_last() =~= before);
        assert(sizes[i as int] == (f@, a.stored_size_bytes));
        proof {
            lemma_amount_totals_bound(before, f@);
            lemma_amount_sum_prefix(sizes, i + 1);
            assert(sizes.take(i + 1).last() == sizes[i as int]);
            assert(amount_sum(sizes.take(i + 1)) == amount_sum(before) + a.stored_size_bytes);
        }
        tally_add(&mut tally, &chars_of(f.as_str()), a.stored_size_bytes);
        i += 1;
    }
    assert(sizes.take(assets@.len() as int) =~= sizes);
    let format_sizes = sort_size_map(tally);
    LibraryStatsSummary { formats, format_sizes, languages, tags, authors, series }
}

/// A prefix's sum is at most the whole sum.
proof fn lemma_amount_sum_prefix(items: Seq<Tally>, k: int)
    requires
        0 <= k <= items.len(),
    ensures
        amount_sum(items.take(k)) <= amount_sum(items),
    decreases items.len() - k,
{
    if k < items.len() {
        lemma_amount_sum_prefix(items, k + 1);
        assert(items.take(k + 1).drop_last() =~= items.take(k));
    } else {
        assert(items.take(k) =~= items);
    }
}


/// Whether the stored sizes of all assets add up within `u64`.
pub fn amount_fits(rows: &Vec<BookRow>, assets: &Vec<StatsAsset>) -> (r: bool)
    ensures
        r == (amount_sum(asset_sizes(rows@, assets@)) <= u64::MAX),
{
    let ghost sizes = asset_sizes(rows@, assets@);
    let mut acc: u64 = 0;
    let mut i: usize = 0;
    while i < assets.len()
        invariant
            i <= assets@.len(),
            sizes == asset_sizes(rows@, assets@),
            acc == amount_sum(sizes.take(i as int)),
        decreases assets.len() - i,
    {
        assert(sizes.take(i + 1).drop_last() =~= sizes.take(i as int));
        assert(sizes[i as int].1 == assets@[i as int].stored_size_bytes);
        match acc.checked_add(assets[i].stored_size_bytes) {
            Some(v) => {
                acc = v;
            },
            None => {
                proof {
                    lemma_amount_sum_prefix(sizes, i + 1);
                }
                return false;
            },
        }
        i += 1;
    }
    assert(sizes.take(assets@.len() as int) =~= sizes);
    true
}

/// The `kind,name,count` lines of some counted items.
pub open spec fn count_lines(kind: Seq<char>, items: Seq<(String, usize)>) -> Seq<Seq<char>> {
    Seq::new(items.len(), |i: int| crate::display::stat_line(kind, items[i].0@, items[i].1 as nat))
}

/// The `kind,name,count` lines of some sized items.
pub open spec fn size_lines(kind: Seq<char>, items: Seq<(String, u64)>) -> Seq<Seq<char>> {
    Seq::new(items.len(), |i: int| crate::display::stat_line(kind, items[i].0@, items[i].1 as nat))
}

/// The statistics as CSV: a header, then formats, languages, tags, authors,
/// series and the bytes per format, one line each, joined by line feeds.
pub open spec fn stats_csv(s: LibraryStatsSummary) -> Seq<char> {
    crate::text::join(
        seq!["kind,name,count"@] + count_lines("format"@, s.formats@) + count_lines("language"@, s.languages@)
            + count_lines("tag"@, s.tags@) + count_lines("author"@, s.authors@) + count_lines("series"@, s.series@)
            + size_lines("format_size_bytes"@, s.format_sizes@),
        "\n"@,
    )
}

/// The text of the statistics export.
pub fn stats_csv_text(stats: &LibraryStatsSummary) -> (r: String)
    ensures
        r@ == stats_csv(*stats),
{
    let mut lines: Vec<String> = Vec::new();
    lines.push("kind,name,count".to_owned());
    let ghost l0 = crate::text::string_views(lines@);
    assert(l0 =~= seq!["kind,name,count"@]);
    crate::display::append_stat_lines(&mut lines, "format", &stats.formats);
    crate::display::append_stat_lines(&mut lines, "language", &stats.languages);
    crate::display::append_stat_lines(&mut lines, "tag", &stats.tags);
    crate::display::append_stat_lines(&mut lines, "author", &stats.authors);
    crate::display::append_stat_lines(&mut lines, "series", &stats.series);
    crate::display::append_size_stat_lines(&mut lines, "format_size_bytes", &stats.format_sizes);
    let v = crate::text::vecs_of(&lines);
    string_of(&crate::text::join_with(&v, "\n"))
}

} // verus!
