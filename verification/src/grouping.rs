//! Stable ordering by text keys, and the groupings of the browser and the
//! saved-search manager built on it.
use crate::order::{
    compare_chars, insert_sorted_unique, lemma_lex_transitive,
    lemma_lex_trichotomy, lex_lt, strictly_sorted, Order,
};
use crate::text::{chars_of, find_char, first_index, slice_vec, string_of, vec_eq, views};
use vstd::prelude::*;

verus! {

/// Items paired with their keys.
pub open spec fn by_key<T>(s: Seq<T>, key: spec_fn(T) -> Seq<char>) -> Seq<(Seq<char>, T)> {
    s.map_values(|t: T| (key(t), t))
}

/// Keys never decrease along the sequence.
pub open spec fn key_sorted<T>(s: Seq<(Seq<char>, T)>) -> bool {
    forall|i: int, j: int| 0 <= i < j < s.len() ==> !lex_lt(#[trigger] s[j].0, #[trigger] s[i].0)
}

/// The entries with key `k`, in order.
pub open spec fn with_key<T>(s: Seq<(Seq<char>, T)>, k: Seq<char>) -> Seq<(Seq<char>, T)>
    decreases s.len(),
{
    if s.len() == 0 {
        Seq::empty()
    } else if s.last().0 == k {
        with_key(s.drop_last(), k).push(s.last())
    } else {
        with_key(s.drop_last(), k)
    }
}

/// `out` is `inp` stably sorted by key: keys in order, and the entries of each
/// key in the order they had.
pub open spec fn stable_sorted_of<T>(out: Seq<(Seq<char>, T)>, inp: Seq<(Seq<char>, T)>) -> bool {
    &&& key_sorted(out)
    &&& forall|k: Seq<char>| #[trigger] with_key(out, k) == with_key(inp, k)
}

pub proof fn lemma_with_key_add<T>(a: Seq<(Seq<char>, T)>, b: Seq<(Seq<char>, T)>, k: Seq<char>)
    ensures
        with_key(a + b, k) == with_key(a, k) + with_key(b, k),
    decreases b.len(),
{
    if b.len() == 0 {
        assert(a + b =~= a);
        assert(with_key(a, k) + with_key(b, k) =~= with_key(a, k));
    } else {
        assert((a + b).drop_last() =~= a + b.drop_last());
        lemma_with_key_add(a, b.drop_last(), k);
        if b.last().0 == k {
            assert(with_key(a, k) + with_key(b.drop_last(), k).push(b.last())
                =~= (with_key(a, k) + with_key(b.drop_last(), k)).push(b.last()));
        }
    }
}

/// Without an entry of key `k` there is nothing to pick.
proof fn lemma_with_key_absent<T>(s: Seq<(Seq<char>, T)>, k: Seq<char>)
    requires
        forall|i: int| 0 <= i < s.len() ==> #[trigger] s[i].0 != k,
    ensures
        with_key(s, k) == Seq::<(Seq<char>, T)>::empty(),
    decreases s.len(),
{
    if s.len() > 0 {
        lemma_with_key_absent(s.drop_last(), k);
    }
}

/// An entry is among the entries of its own key.
proof fn lemma_with_key_has<T>(s: Seq<(Seq<char>, T)>, i: int)
    requires
        0 <= i < s.len(),
    ensures
        with_key(s, s[i].0).contains(s[i]),
    decreases s.len(),
{
    let k = s[i].0;
    if i == s.len() - 1 {
        assert(with_key(s, k).last() == s[i]);
    } else {
        lemma_with_key_has(s.drop_last(), i);
        assert(s.drop_last()[i] == s[i]);
        let w = with_key(s.drop_last(), k);
        let j = choose|j: int| 0 <= j < w.len() && w[j] == s[i];
        if s.last().0 == k {
            assert(with_key(s, k)[j] == s[i]);
        }
    }
}

/// The entries of a key are entries of the sequence.
proof fn lemma_with_key_within<T>(s: Seq<(Seq<char>, T)>, k: Seq<char>, e: (Seq<char>, T))
    requires
        with_key(s, k).contains(e),
    ensures
        s.contains(e),
    decreases s.len(),
{
    if s.len() > 0 {
        let w = with_key(s.drop_last(), k);
        if s.last() != e {
            if s.last().0 == k {
                let j = choose|j: int| 0 <= j < with_key(s, k).len() && with_key(s, k)[j] == e;
                assert(w[j] == e);
            }
            lemma_with_key_within(s.drop_last(), k, e);
            let j = choose|j: int| 0 <= j < s.drop_last().len() && s.drop_last()[j] == e;
            assert(s[j] == e);
        } else {
            assert(s[s.len() - 1] == e);
        }
    }
}

/// Two entries of one key give that key at least two entries.
proof fn lemma_with_key_two<T>(s: Seq<(Seq<char>, T)>, i: int, j: int)
    requires
        0 <= i < j < s.len(),
        s[i].0 == s[j].0,
    ensures
        with_key(s, s[i].0).len() >= 2,
    decreases s.len(),
{
    let k = s[i].0;
    assert(s.drop_last()[i] == s[i]);
    if j == s.len() - 1 {
        lemma_with_key_has(s.drop_last(), i);
    } else {
        assert(s.drop_last()[j] == s[j]);
        lemma_with_key_two(s.drop_last(), i, j);
    }
}

/// With distinct keys, each key has at most one entry.
proof fn lemma_with_key_distinct<T>(s: Seq<(Seq<char>, T)>, k: Seq<char>)
    requires
        forall|a: int, b: int| 0 <= a < b < s.len() ==> #[trigger] s[a].0 != #[trigger] s[b].0,
    ensures
        with_key(s, k).len() <= 1,
    decreases s.len(),
{
    if s.len() > 0 {
        if s.last().0 == k {
            assert forall|i: int| 0 <= i < s.drop_last().len() implies #[trigger] s.drop_last()[i].0 != k by {
                assert(s.drop_last()[i] == s[i]);
            }
            lemma_with_key_absent(s.drop_last(), k);
        } else {
            lemma_with_key_distinct(s.drop_last(), k);
        }
    }
}

/// Inserting `x` after every entry with a key at most its own and before every
/// entry with a greater key keeps the sequence stably sorted.
proof fn lemma_insert_stable<T>(cur: Seq<(Seq<char>, T)>, pos: int, x: (Seq<char>, T), k: Seq<char>)
    requires
        0 <= pos <= cur.len(),
        key_sorted(cur),
        forall|j: int| 0 <= j < pos ==> !lex_lt(x.0, #[trigger] cur[j].0),
        pos < cur.len() ==> lex_lt(x.0, cur[pos].0),
    ensures
        key_sorted(cur.insert(pos, x)),
        with_key(cur.insert(pos, x), k) == if x.0 == k {
            with_key(cur, k).push(x)
        } else {
            with_key(cur, k)
        },
{
    let next = cur.insert(pos, x);
    assert forall|j: int| pos <= j < cur.len() implies lex_lt(x.0, #[trigger] cur[j].0) by {
        if j > pos {
            lemma_lex_trichotomy(cur[pos].0, cur[j].0);
            if cur[pos].0 != cur[j].0 {
                lemma_lex_transitive(x.0, cur[pos].0, cur[j].0);
            }
        }
    }
    assert forall|a: int, b: int| 0 <= a < b < next.len() implies !lex_lt(#[trigger] next[b].0, #[trigger] next[a].0) by {
        if b == pos {
            assert(next[a] == cur[a]);
        } else if a == pos {
            assert(next[b] == cur[b - 1]);
            lemma_lex_trichotomy(x.0, cur[b - 1].0);
        } else {
            let a0 = if a < pos { a } else { a - 1 };
            let b0 = if b < pos { b } else { b - 1 };
            assert(next[a] == cur[a0]);
            assert(next[b] == cur[b0]);
        }
    }
    let pre = cur.take(pos);
    let post = cur.skip(pos);
    assert(cur =~= pre + post);
    assert(next =~= pre + seq![x] + post);
    lemma_with_key_add(pre, post, k);
    lemma_with_key_add(pre + seq![x], post, k);
    lemma_with_key_add(pre, seq![x], k);
    assert(seq![x].drop_last() =~= Seq::<(Seq<char>, T)>::empty());
    assert(with_key(seq![x], k) =~= if x.0 == k { seq![x] } else { Seq::empty() }) by {
        let e = Seq::<(Seq<char>, T)>::empty();
        assert(seq![x].last() == x);
        assert(seq![x].drop_last() == e);
        assert(with_key(e, k) == e);
        assert(e.push(x) =~= seq![x]);
    }
    if x.0 == k {
        assert forall|i: int| 0 <= i < post.len() implies #[trigger] post[i].0 != k by {
            lemma_lex_trichotomy(k, post[i].0);
        }
        lemma_with_key_absent(post, k);
        assert(with_key(pre, k) + with_key(seq![x], k) + with_key(post, k) =~= with_key(pre, k).push(x));
        assert(with_key(pre, k) + with_key(post, k) =~= with_key(pre, k));
    } else {
        assert(with_key(pre, k) + with_key(seq![x], k) =~= with_key(pre, k));
    }
}

/// Whether `a` sorts before `b`.
fn key_before(a: &Vec<char>, b: &Vec<char>) -> (r: bool)
    ensures
        r == lex_lt(a@, b@),
{
    match compare_chars(a, b) {
        Order::Less => true,
        _ => false,
    }
}

/// Sorts items by their keys, keeping the order of items with equal keys, as
/// `sort_by` on the keys does.
fn stable_sort_by_key<T>(items: Vec<T>, keys: Vec<Vec<char>>, Ghost(key): Ghost<spec_fn(T) -> Seq<char>>) -> (r: Vec<T>)
    requires
        keys@.len() == items@.len(),
        forall|i: int| 0 <= i < items@.len() ==> #[trigger] keys@[i]@ == key(items@[i]),
    ensures
        stable_sorted_of(by_key(r@, key), by_key(items@, key)),
{
    let ghost inp = by_key(items@, key);
    let ghost n = items@.len();
    let mut items = items;
    let mut keys = keys;
    let mut out: Vec<T> = Vec::new();
    let mut out_keys: Vec<Vec<char>> = Vec::new();
    let ghost mut done: int = 0;
    assert(by_key(items@, key) =~= inp.skip(0));
    while items.len() > 0
        invariant
            keys@.len() == items@.len(),
            forall|i: int| 0 <= i < items@.len() ==> #[trigger] keys@[i]@ == key(items@[i]),
            out_keys@.len() == out@.len(),
            forall|i: int| 0 <= i < out@.len() ==> #[trigger] out_keys@[i]@ == key(out@[i]),
            inp.len() == n,
            0 <= done <= n,
            items@.len() == n - done,
            by_key(items@, key) == inp.skip(done),
            key_sorted(by_key(out@, key)),
            forall|k: Seq<char>| #[trigger] with_key(by_key(out@, key), k) == with_key(inp.take(done), k),
        decreases items.len(),
    {
        let ghost before = items@;
        assert(keys@[0]@ == key(items@[0]));
        let x = items.remove(0);
        let kx = keys.remove(0);
        let ghost xv = (key(x), x);
        assert(by_key(before, key)[0] == xv);
        assert(inp.skip(done)[0] == xv);
        assert(items@ =~= before.skip(1));
        assert(by_key(items@, key) =~= by_key(before, key).skip(1));
        assert(inp.skip(done).skip(1) =~= inp.skip(done + 1));
        assert(forall|i: int| 0 <= i < items@.len() ==> #[trigger] keys@[i]@ == key(items@[i])) by {
            assert forall|i: int| 0 <= i < items@.len() implies #[trigger] keys@[i]@ == key(items@[i]) by {
                assert(items@[i] == before[i + 1]);
            }
        }
        let ghost cur = by_key(out@, key);
        let mut pos: usize = 0;
        while pos < out.len() && !key_before(&kx, &out_keys[pos])
            invariant
                pos <= out@.len(),
                out_keys@.len() == out@.len(),
                forall|i: int| 0 <= i < out@.len() ==> #[trigger] out_keys@[i]@ == key(out@[i]),
                cur == by_key(out@, key),
                kx@ == xv.0,
                forall|j: int| 0 <= j < pos ==> !lex_lt(xv.0, #[trigger] cur[j].0),
            decreases out.len() - pos,
        {
            assert(cur[pos as int].0 == out_keys@[pos as int]@);
            pos += 1;
        }
        proof {
            if pos < out.len() {
                assert(cur[pos as int].0 == out_keys@[pos as int]@);
            }
            assert forall|k: Seq<char>| #[trigger] with_key(cur.insert(pos as int, xv), k) == with_key(inp.take(done + 1), k) by {
                lemma_insert_stable(cur, pos as int, xv, k);
                assert(inp.take(done + 1).drop_last() =~= inp.take(done));
                assert(inp.take(done + 1).last() == xv);
            }
            lemma_insert_stable(cur, pos as int, xv, Seq::empty());
        }
        out.insert(pos, x);
        out_keys.insert(pos, kx);
        assert(by_key(out@, key) =~= cur.insert(pos as int, xv));
        proof {
            done = done + 1;
        }
    }
    assert(inp.take(n as int) =~= inp);
    out
}

/// A browser category entry with the number of books under it.
#[derive(Clone, Debug)]
pub struct CategoryCount {
    pub name: String,
    pub count: u64,
}

/// Entries paired with their names.
pub open spec fn by_name(s: Seq<CategoryCount>) -> Seq<(Seq<char>, CategoryCount)> {
    by_key(s, |c: CategoryCount| c.name@)
}

/// The part of a name before its first delimiter, or the whole name.
pub open spec fn root_of(name: Seq<char>, delimiter: char) -> Seq<char> {
    if first_index(name, delimiter) >= 0 {
        name.take(first_index(name, delimiter))
    } else {
        name
    }
}

/// The roots of the names of some entries.
pub open spec fn row_roots(rows: Seq<CategoryCount>, delimiter: char) -> Seq<Seq<char>> {
    rows.map_values(|c: CategoryCount| root_of(c.name@, delimiter))
}

/// The entries whose name has root `root`, in order.
pub open spec fn with_root(rows: Seq<CategoryCount>, root: Seq<char>, delimiter: char) -> Seq<CategoryCount>
    decreases rows.len(),
{
    if rows.len() == 0 {
        Seq::empty()
    } else if root_of(rows.last().name@, delimiter) == root {
        with_root(rows.drop_last(), root, delimiter).push(rows.last())
    } else {
        with_root(rows.drop_last(), root, delimiter)
    }
}

/// The roots that head the groups.
pub open spec fn group_roots(groups: Seq<(String, Vec<CategoryCount>)>) -> Seq<Seq<char>> {
    groups.map_values(|g: (String, Vec<CategoryCount>)| g.0@)
}

fn root_vec(name: &Vec<char>, delimiter: char) -> (r: Vec<char>)
    ensures
        r@ == root_of(name@, delimiter),
{
    match find_char(name, delimiter) {
        Some(i) => slice_vec(name, 0, i),
        None => {
            let r = slice_vec(name, 0, name.len());
            assert(r@ =~= name@);
            r
        },
    }
}

fn copy_category(c: &CategoryCount) -> (r: CategoryCount)
    ensures
        r == *c,
{
    CategoryCount { name: c.name.clone(), count: c.count }
}

/// Groups entries by the part of their name before the first delimiter: one
/// group per root, roots in order, each group's entries ordered by name with
/// entries of equal name in their given order.
pub fn group_hierarchical_categories(rows: &Vec<CategoryCount>, delimiter: char) -> (r: Vec<(String, Vec<CategoryCount>)>)
    ensures
        strictly_sorted(group_roots(r@)),
        group_roots(r@).to_set() == row_roots(rows@, delimiter).to_set(),
        forall|i: int| 0 <= i < r@.len() ==> stable_sorted_of(
            #[trigger] by_name(r@[i].1@),
            by_name(with_root(rows@, r@[i].0@, delimiter)),
        ),
{
    let ghost all = row_roots(rows@, delimiter);
    let mut roots_by_row: Vec<Vec<char>> = Vec::new();
    let mut roots: Vec<Vec<char>> = Vec::new();
    let mut i: usize = 0;
    while i < rows.len()
        invariant
            i <= rows@.len(),
            all == row_roots(rows@, delimiter),
            views(roots_by_row@) == all.take(i as int),
            strictly_sorted(views(roots@)),
            views(roots@).to_set() == all.take(i as int).to_set(),
        decreases rows.len() - i,
    {
        let root = root_vec(&chars_of(rows[i].name.as_str()), delimiter);
        let again = root_vec(&chars_of(rows[i].name.as_str()), delimiter);
        assert(all[i as int] == root@);
        let ghost before = views(roots_by_row@);
        roots_by_row.push(again);
        assert(views(roots_by_row@) =~= before.push(root@));
        assert(all.take(i + 1) =~= all.take(i as int).push(root@));
        insert_sorted_unique(&mut roots, root);
        proof {
            all.take(i as int).lemma_push_to_set_commute(root@);
        }
        i += 1;
    }
    assert(all.take(rows.len() as int) =~= all);
    let mut out: Vec<(String, Vec<CategoryCount>)> = Vec::new();
    let mut k: usize = 0;
    while k < roots.len()
        invariant
            k <= roots@.len(),
            views(roots_by_row@) == row_roots(rows@, delimiter),
            roots_by_row@.len() == rows@.len(),
            strictly_sorted(views(roots@)),
            out@.len() == k,
            forall|g: int| 0 <= g < k ==> (#[trigger] out@[g]).0@ == views(roots@)[g],
            forall|g: int| 0 <= g < k ==> stable_sorted_of(
                #[trigger] by_name(out@[g].1@),
                by_name(with_root(rows@, out@[g].0@, delimiter)),
            ),
        decreases roots.len() - k,
    {
        let mut members: Vec<CategoryCount> = Vec::new();
        let mut names: Vec<Vec<char>> = Vec::new();
        let mut j: usize = 0;
        while j < rows.len()
            invariant
                j <= rows@.len(),
                k < roots@.len(),
                views(roots_by_row@) == row_roots(rows@, delimiter),
                roots_by_row@.len() == rows@.len(),
                members@ == with_root(rows@.take(j as int), roots@[k as int]@, delimiter),
                names@.len() == members@.len(),
                forall|m: int| 0 <= m < members@.len() ==> #[trigger] names@[m]@ == members@[m].name@,
            decreases rows.len() - j,
        {
            assert(rows@.take(j + 1).drop_last() =~= rows@.take(j as int));
            assert(views(roots_by_row@)[j as int] == roots_by_row@[j as int]@);
            if vec_eq(&roots_by_row[j], &roots[k]) {
                members.push(copy_category(&rows[j]));
                names.push(chars_of(rows[j].name.as_str()));
            }
            j += 1;
        }
        assert(rows@.take(rows.len() as int) =~= rows@);
        let ghost group = members@;
        let sorted = stable_sort_by_key(members, names, Ghost(|c: CategoryCount| c.name@));
        assert(by_key(sorted@, |c: CategoryCount| c.name@) =~= by_name(sorted@));
        assert(by_key(group, |c: CategoryCount| c.name@) =~= by_name(group));
        let root = string_of(&roots[k]);
        assert(views(roots@)[k as int] == roots@[k as int]@);
        out.push((root, sorted));
        k += 1;
    }
    assert(group_roots(out@) =~= views(roots@));
    out
}

/// Saved searches paired with their names.
pub open spec fn by_entry_name(s: Seq<(String, String)>) -> Seq<(Seq<char>, (String, String))> {
    by_key(s, |e: (String, String)| e.0@)
}

/// The names of saved-search folders.
pub open spec fn folder_names(s: Seq<(String, Vec<(String, String)>)>) -> Seq<Seq<char>> {
    s.map_values(|f: (String, Vec<(String, String)>)| f.0@)
}

/// Sorts one folder's saved searches by name, keeping equal names in order.
fn sort_entries(entries: Vec<(String, String)>) -> (r: Vec<(String, String)>)
    ensures
        stable_sorted_of(by_entry_name(r@), by_entry_name(entries@)),
{
    let mut keys: Vec<Vec<char>> = Vec::new();
    let mut i: usize = 0;
    while i < entries.len()
        invariant
            i <= entries@.len(),
            keys@.len() == i,
            forall|m: int| 0 <= m < i ==> #[trigger] keys@[m]@ == entries@[m].0@,
        decreases entries.len() - i,
    {
        keys.push(chars_of(entries[i].0.as_str()));
        i += 1;
    }
    let ghost given = entries@;
    let r = stable_sort_by_key(entries, keys, Ghost(|e: (String, String)| e.0@));
    assert(by_key(r@, |e: (String, String)| e.0@) =~= by_entry_name(r@));
    assert(by_key(given, |e: (String, String)| e.0@) =~= by_entry_name(given));
    r
}

/// The saved-search folders ordered by name, each folder's searches ordered by
/// name with equal names in their given order. Folder names are distinct, as
/// the keys of the map they are kept in.
pub fn build_saved_search_groups(folders: Vec<(String, Vec<(String, String)>)>) -> (r: Vec<(String, Vec<(String, String)>)>)
    requires
        folder_names(folders@).no_duplicates(),
    ensures
        strictly_sorted(folder_names(r@)),
        folder_names(r@).to_set() == folder_names(folders@).to_set(),
        forall|i: int| #![trigger r@[i]] 0 <= i < r@.len() ==> exists|j: int| #![trigger folders@[j]]
            0 <= j < folders@.len() && folders@[j].0@ == r@[i].0@
            && stable_sorted_of(by_entry_name(r@[i].1@), by_entry_name(folders@[j].1@)),
{
    let ghost orig = folders@;
    let ghost n = orig.len();
    let mut folders = folders;
    let mut mid: Vec<(String, Vec<(String, String)>)> = Vec::new();
    let mut keys: Vec<Vec<char>> = Vec::new();
    assert(orig.skip(0) =~= orig);
    while folders.len() > 0
        invariant
            folders@ == orig.skip(mid@.len() as int),
            mid@.len() <= n,
            n == orig.len(),
            keys@.len() == mid@.len(),
            forall|m: int| 0 <= m < mid@.len() ==> #[trigger] keys@[m]@ == mid@[m].0@,
            forall|m: int| 0 <= m < mid@.len() ==> (#[trigger] mid@[m]).0 == orig[m].0
                && stable_sorted_of(by_entry_name(mid@[m].1@), by_entry_name(orig[m].1@)),
        decreases folders.len(),
    {
        let ghost before = folders@;
        let (name, entries) = folders.remove(0);
        assert(folders@ =~= orig.skip(mid@.len() as int + 1));
        let sorted = sort_entries(entries);
        keys.push(chars_of(name.as_str()));
        mid.push((name, sorted));
    }
    let ghost m = mid@;
    let out = stable_sort_by_key(mid, keys, Ghost(|f: (String, Vec<(String, String)>)| f.0@));
    proof {
        let kf = |f: (String, Vec<(String, String)>)| f.0@;
        let o = by_key(out@, kf);
        let b = by_key(m, kf);
        assert(folder_names(m) =~= folder_names(orig));
        assert forall|x: int, y: int| 0 <= x < y < b.len() implies #[trigger] b[x].0 != #[trigger] b[y].0 by {
            assert(folder_names(orig)[x] == b[x].0);
            assert(folder_names(orig)[y] == b[y].0);
        }
        assert forall|x: int, y: int| 0 <= x < y < o.len() implies lex_lt(#[trigger] folder_names(out@)[x], #[trigger] folder_names(out@)[y]) by {
            assert(folder_names(out@)[x] == o[x].0);
            assert(folder_names(out@)[y] == o[y].0);
            lemma_lex_trichotomy(o[x].0, o[y].0);
            if o[x].0 == o[y].0 {
                lemma_with_key_two(o, x, y);
                lemma_with_key_distinct(b, o[x].0);
                assert(with_key(o, o[x].0) == with_key(b, o[x].0));
            }
        }
        assert forall|i: int| 0 <= i < o.len() implies #[trigger] b.contains(o[i]) by {
            lemma_with_key_has(o, i);
            assert(with_key(o, o[i].0) == with_key(b, o[i].0));
            lemma_with_key_within(b, o[i].0, o[i]);
        }
        assert forall|j: int| 0 <= j < b.len() implies #[trigger] o.contains(b[j]) by {
            lemma_with_key_has(b, j);
            assert(with_key(o, b[j].0) == with_key(b, b[j].0));
            lemma_with_key_within(o, b[j].0, b[j]);
        }
        assert forall|i: int| #![trigger out@[i]] 0 <= i < out@.len() implies exists|j: int| #![trigger orig[j]]
            0 <= j < orig.len() && orig[j].0@ == out@[i].0@
            && stable_sorted_of(by_entry_name(out@[i].1@), by_entry_name(orig[j].1@)) by {
            assert(b.contains(o[i]));
            let j = choose|j: int| 0 <= j < b.len() && b[j] == o[i];
            assert(m[j] == out@[i]);
        }
        assert forall|t: Seq<char>| folder_names(out@).to_set().contains(t) <==> folder_names(orig).to_set().contains(t) by {
            if folder_names(out@).to_set().contains(t) {
                let i = choose|i: int| 0 <= i < out@.len() && folder_names(out@)[i] == t;
                assert(b.contains(o[i]));
                let j = choose|j: int| 0 <= j < b.len() && b[j] == o[i];
                assert(folder_names(orig)[j] == t);
            }
            if folder_names(orig).to_set().contains(t) {
                let j = choose|j: int| 0 <= j < orig.len() && folder_names(orig)[j] == t;
                assert(o.contains(b[j]));
                let i = choose|i: int| 0 <= i < o.len() && o[i] == b[j];
                assert(folder_names(out@)[i] == t);
            }
        }
        assert(folder_names(out@).to_set() =~= folder_names(orig).to_set());
    }
    out
}

/// Counts never decrease along the entries.
pub open spec fn count_sorted(s: Seq<CategoryCount>) -> bool {
    forall|i: int, j: int| 0 <= i < j < s.len() ==> (#[trigger] s[i]).count <= (#[trigger] s[j]).count
}

/// The entries with count `c`, in order.
pub open spec fn with_count(s: Seq<CategoryCount>, c: u64) -> Seq<CategoryCount>
    decreases s.len(),
{
    if s.len() == 0 {
        Seq::empty()
    } else if s.last().count == c {
        with_count(s.drop_last(), c).push(s.last())
    } else {
        with_count(s.drop_last(), c)
    }
}

/// `out` is `inp` stably sorted by count.
pub open spec fn stable_by_count(out: Seq<CategoryCount>, inp: Seq<CategoryCount>) -> bool {
    &&& count_sorted(out)
    &&& forall|c: u64| #[trigger] with_count(out, c) == with_count(inp, c)
}

proof fn lemma_with_count_add(a: Seq<CategoryCount>, b: Seq<CategoryCount>, c: u64)
    ensures
        with_count(a + b, c) == with_count(a, c) + with_count(b, c),
    decreases b.len(),
{
    if b.len() == 0 {
        assert(a + b =~= a);
        assert(with_count(a, c) + with_count(b, c) =~= with_count(a, c));
    } else {
        assert((a + b).drop_last() =~= a + b.drop_last());
        lemma_with_count_add(a, b.drop_last(), c);
        if b.last().count == c {
            assert(with_count(a, c) + with_count(b.drop_last(), c).push(b.last())
                =~= (with_count(a, c) + with_count(b.drop_last(), c)).push(b.last()));
        }
    }
}

proof fn lemma_with_count_absent(s: Seq<CategoryCount>, c: u64)
    requires
        forall|i: int| 0 <= i < s.len() ==> (#[trigger] s[i]).count != c,
    ensures
        with_count(s, c) == Seq::<CategoryCount>::empty(),
    decreases s.len(),
{
    if s.len() > 0 {
        lemma_with_count_absent(s.drop_last(), c);
    }
}

proof fn lemma_insert_by_count(cur: Seq<CategoryCount>, pos: int, x: CategoryCount, c: u64)
    requires
        0 <= pos <= cur.len(),
        count_sorted(cur),
        forall|j: int| 0 <= j < pos ==> (#[trigger] cur[j]).count <= x.count,
        pos < cur.len() ==> x.count < cur[pos].count,
    ensures
        count_sorted(cur.insert(pos, x)),
        with_count(cur.insert(pos, x), c) == if x.count == c {
            with_count(cur, c).push(x)
        } else {
            with_count(cur, c)
        },
{
    let next = cur.insert(pos, x);
    assert forall|j: int| pos <= j < cur.len() implies x.count < (#[trigger] cur[j]).count by {
        assert(cur[pos].count <= cur[j].count);
    }
    assert forall|a: int, b: int| 0 <= a < b < next.len() implies (#[trigger] next[a]).count <= (#[trigger] next[b]).count by {
        if b == pos {
            assert(next[a] == cur[a]);
        } else if a == pos {
            assert(next[b] == cur[b - 1]);
        } else {
            let a0 = if a < pos { a } else { a - 1 };
            let b0 = if b < pos { b } else { b - 1 };
            assert(next[a] == cur[a0]);
            assert(next[b] == cur[b0]);
        }
    }
    let pre = cur.take(pos);
    let post = cur.skip(pos);
    assert(cur =~= pre + post);
    assert(next =~= pre + seq![x] + post);
    lemma_with_count_add(pre, post, c);
    lemma_with_count_add(pre + seq![x], post, c);
    lemma_with_count_add(pre, seq![x], c);
    assert(with_count(seq![x], c) =~= if x.count == c { seq![x] } else { Seq::empty() }) by {
        let e = Seq::<CategoryCount>::empty();
        assert(seq![x].last() == x);
        assert(seq![x].drop_last() == e);
        assert(with_count(e, c) == e);
        assert(e.push(x) =~= seq![x]);
    }
    if x.count == c {
        assert forall|i: int| 0 <= i < post.len() implies (#[trigger] post[i]).count != c by {
            assert(post[i] == cur[pos + i]);
        }
        lemma_with_count_absent(post, c);
        assert(with_count(pre, c) + with_count(seq![x], c) + with_count(post, c) =~= with_count(pre, c).push(x));
        assert(with_count(pre, c) + with_count(post, c) =~= with_count(pre, c));
    } else {
        assert(with_count(pre, c) + with_count(seq![x], c) =~= with_count(pre, c));
    }
}

/// Entries ordered by count, equal counts in their given order.
fn sort_by_count(items: &Vec<CategoryCount>) -> (r: Vec<CategoryCount>)
    ensures
        stable_by_count(r@, items@),
{
    let mut out: Vec<CategoryCount> = Vec::new();
    let mut i: usize = 0;
    while i < items.len()
        invariant
            i <= items@.len(),
            count_sorted(out@),
            forall|c: u64| #[trigger] with_count(out@, c) == with_count(items@.take(i as int), c),
        decreases items.len() - i,
    {
        let x = copy_category(&items[i]);
        let ghost cur = out@;
        let mut pos: usize = 0;
        while pos < out.len() && out[pos].count <= x.count
            invariant
                pos <= out@.len(),
                cur == out@,
                forall|j: int| 0 <= j < pos ==> (#[trigger] cur[j]).count <= x.count,
            decreases out.len() - pos,
        {
            pos += 1;
        }
        proof {
            assert forall|c: u64| #[trigger] with_count(cur.insert(pos as int, x), c) == with_count(items@.take(i + 1), c) by {
                lemma_insert_by_count(cur, pos as int, x, c);
                assert(items@.take(i + 1).drop_last() =~= items@.take(i as int));
                assert(items@.take(i + 1).last() == x);
            }
            lemma_insert_by_count(cur, pos as int, x, 0);
        }
        out.insert(pos, x);
        i += 1;
    }
    assert(items@.take(items@.len() as int) =~= items@);
    out
}

fn copy_categories(items: &Vec<CategoryCount>) -> (r: Vec<CategoryCount>)
    ensures
        r@ == items@,
{
    let mut out: Vec<CategoryCount> = Vec::new();
    let mut i: usize = 0;
    while i < items.len()
        invariant
            i <= items@.len(),
            out@ == items@.take(i as int),
        decreases items.len() - i,
    {
        out.push(copy_category(&items[i]));
        assert(out@ =~= items@.take(i + 1));
        i += 1;
    }
    assert(items@.take(items@.len() as int) =~= items@);
    out
}

/// A browser category's entries in the order the browser lists them: by name or
/// by count, equal keys in their given order, the whole list reversed when
/// descending.
pub fn sort_browser_entries(items: &Vec<CategoryCount>, sort: crate::browser::BrowserSort, descending: bool) -> (r: Vec<
    CategoryCount,
>)
    ensures
        ({
            let ascending = if descending { r@.reverse() } else { r@ };
            match sort {
                crate::browser::BrowserSort::Name => stable_sorted_of(by_name(ascending), by_name(items@)),
                crate::browser::BrowserSort::Count => stable_by_count(ascending, items@),
            }
        }),
{
    let sorted = match sort {
        crate::browser::BrowserSort::Name => {
            let mut names: Vec<Vec<char>> = Vec::new();
            let mut i: usize = 0;
            while i < items.len()
                invariant
                    i <= items@.len(),
                    names@.len() == i,
                    forall|m: int| 0 <= m < i ==> #[trigger] names@[m]@ == items@[m].name@,
                decreases items.len() - i,
            {
                names.push(chars_of(items[i].name.as_str()));
                i += 1;
            }
            let copies = copy_categories(items);
            let r = stable_sort_by_key(copies, names, Ghost(|c: CategoryCount| c.name@));
            assert(by_key(r@, |c: CategoryCount| c.name@) =~= by_name(r@));
            assert(by_key(items@, |c: CategoryCount| c.name@) =~= by_name(items@));
            r
        },
        crate::browser::BrowserSort::Count => sort_by_count(items),
    };
    if descending {
        let mut out: Vec<CategoryCount> = Vec::new();
        let mut k: usize = sorted.len();
        while k > 0
            invariant
                k <= sorted@.len(),
                out@ == sorted@.skip(k as int).reverse(),
            decreases k,
        {
            let ghost before = out@;
            out.push(copy_category(&sorted[k - 1]));
            assert(out@ =~= sorted@.skip(k - 1).reverse());
            k -= 1;
        }
        assert(sorted@.skip(0) =~= sorted@);
        assert(out@.reverse() =~= sorted@);
        out
    } else {
        sorted
    }
}

/// Whether the browser's search shows an entry: a blank search shows all, else
/// the entry's lower-cased name must hold the lower-cased trimmed search.
pub open spec fn browser_shows(name: Seq<char>, query: Seq<char>) -> bool {
    let q = crate::text::lowercase(crate::text::trim(query));
    q.len() == 0 || crate::text::contains_seq(crate::text::lowercase(name), q)
}

/// The entries the browser's search shows, in order.
pub open spec fn shown_entries(s: Seq<CategoryCount>, query: Seq<char>) -> Seq<CategoryCount>
    decreases s.len(),
{
    if s.len() == 0 {
        Seq::empty()
    } else if browser_shows(s.last().name@, query) {
        shown_entries(s.drop_last(), query).push(s.last())
    } else {
        shown_entries(s.drop_last(), query)
    }
}

/// The entries shown for the browser's search.
pub fn visible_browser_entries(entries: &Vec<CategoryCount>, query: &str) -> (r: Vec<CategoryCount>)
    ensures
        r@ == shown_entries(entries@, query@),
{
    let q = crate::text::lower_vec(&crate::text::trim_vec(&chars_of(query)));
    let mut out: Vec<CategoryCount> = Vec::new();
    let mut i: usize = 0;
    while i < entries.len()
        invariant
            i <= entries@.len(),
            q@ == crate::text::lowercase(crate::text::trim(query@)),
            out@ == shown_entries(entries@.take(i as int), query@),
        decreases entries.len() - i,
    {
        assert(entries@.take(i + 1).drop_last() =~= entries@.take(i as int));
        assert(entries@.take(i + 1).last() == entries@[i as int]);
        let show = q.len() == 0 || crate::text::contains_vec(
            &crate::text::lower_vec(&chars_of(entries[i].name.as_str())),
            &q,
        );
        if show {
            out.push(copy_category(&entries[i]));
        }
        i += 1;
    }
    assert(entries@.take(entries@.len() as int) =~= entries@);
    out
}

} // verus!
