use crate::text::{
    append_str, append_vec, ascii_lower, ascii_lower_vec, chars_of, contains_seq, contains_vec, csv_items, csv_items_vec,
    find_char, first_index, has_char, join, join_with, lines, lines_vec, lower_vec, lowercase,
    slice_vec, split, split_vec, string_of, string_views, strings_of, trim, trim_vec,
    unique_by_lower, unique_by_lower_vec, utf8_len, utf8_len_capped, views, vecs_of, nonempty_trimmed,
};
use crate::order::{insert_sorted_unique, lemma_sorted_list_of, sorted_list_of, strictly_sorted};
use vstd::prelude::*;

verus! {

/// The non-empty trimmed items of a comma-separated list.
pub fn parse_list(text: &str) -> (r: Vec<String>)
    ensures
        string_views(r@) == csv_items(text@),
{
    let v = chars_of(text);
    let items = csv_items_vec(&v);
    strings_of(&items)
}

/// The non-empty trimmed items of a comma-separated field.
pub fn split_csv_field(value: &str) -> (r: Vec<String>)
    ensures
        string_views(r@) == csv_items(value@),
{
    parse_list(value)
}

/// The first item of a comma-separated field, or the empty string.
pub fn first_csv_item(value: &str) -> (r: String)
    ensures
        r@ == (if csv_items(value@).len() > 0 { csv_items(value@)[0] } else { Seq::<char>::empty() }),
{
    let v = chars_of(value);
    let items = csv_items_vec(&v);
    if items.len() > 0 {
        string_of(&items[0])
    } else {
        String::new()
    }
}

/// Each item, or its lower case when `lower` is set.
pub open spec fn maybe_lower(items: Seq<Seq<char>>, lower: bool) -> Seq<Seq<char>> {
    if lower {
        items.map_values(|x: Seq<char>| lowercase(x))
    } else {
        items
    }
}

/// A comma-separated list tidied: items trimmed, empty ones dropped, lower-cased
/// when asked, later items equal to an earlier one in lower case dropped, and
/// the rest joined with `", "`.
pub open spec fn normalized_csv(text: Seq<char>, lower: bool) -> Seq<char> {
    join(unique_by_lower(maybe_lower(csv_items(text), lower)), ", "@)
}

pub fn normalize_csv_list(text: &str, lowercase_items: bool) -> (r: String)
    ensures
        r@ == normalized_csv(text@, lowercase_items),
{
    let v = chars_of(text);
    let items = csv_items_vec(&v);
    let mut normalized: Vec<Vec<char>> = Vec::new();
    if lowercase_items {
        let mut i: usize = 0;
        while i < items.len()
            invariant
                i <= items.len(),
                views(normalized@) == views(items@).take(i as int).map_values(
                    |x: Seq<char>| lowercase(x),
                ),
            decreases items.len() - i,
        {
            let l = lower_vec(&items[i]);
            let ghost before = normalized@;
            normalized.push(l);
            assert(views(normalized@) =~= views(before).push(l@));
            assert(views(normalized@) =~= views(items@).take(i + 1).map_values(
                |x: Seq<char>| lowercase(x),
            ));
            i += 1;
        }
        assert(views(items@).take(items.len() as int) =~= views(items@));
    } else {
        normalized = items;
    }
    let unique = unique_by_lower_vec(&normalized);
    string_of(&join_with(&unique, ", "))
}

/// An item as a tidied list holds it: not empty, without a comma, and without
/// blanks at either end.
pub open spec fn plain_item(x: Seq<char>) -> bool {
    x.len() > 0 && !x.contains(',') && !crate::text::is_ws(x[0]) && !crate::text::is_ws(x.last())
}

proof fn lemma_trim_start(s: Seq<char>)
    ensures
        crate::text::trim_start(s).len() <= s.len(),
        trim_start_is_suffix(s),
        crate::text::trim_start(s).len() > 0 ==> !crate::text::is_ws(crate::text::trim_start(s)[0]),
    decreases s.len(),
{
    if s.len() > 0 && crate::text::is_ws(s[0]) {
        lemma_trim_start(s.drop_first());
        let t = crate::text::trim_start(s.drop_first());
        assert(s.drop_first().skip(s.drop_first().len() - t.len()) =~= s.skip(s.len() - t.len()));
    } else {
        assert(s.skip(0) =~= s);
    }
}

/// Leading blanks are dropped from the front.
pub open spec fn trim_start_is_suffix(s: Seq<char>) -> bool {
    crate::text::trim_start(s) == s.skip(s.len() - crate::text::trim_start(s).len())
}

proof fn lemma_trim_end(s: Seq<char>)
    ensures
        crate::text::trim_end(s).len() <= s.len(),
        crate::text::trim_end(s) == s.take(crate::text::trim_end(s).len() as int),
        crate::text::trim_end(s).len() > 0 ==> !crate::text::is_ws(crate::text::trim_end(s).last()),
    decreases s.len(),
{
    if s.len() > 0 && crate::text::is_ws(s.last()) {
        lemma_trim_end(s.drop_last());
        let t = crate::text::trim_end(s.drop_last());
        assert(s.drop_last().take(t.len() as int) =~= s.take(t.len() as int));
    } else {
        assert(s.take(s.len() as int) =~= s);
    }
}

/// Trimming twice is trimming once.
pub proof fn lemma_trim_idempotent(s: Seq<char>)
    ensures
        trim(trim(s)) == trim(s),
{
    lemma_trim_start(s);
    let a = crate::text::trim_start(s);
    lemma_trim_end(a);
    let t = trim(s);
    if t.len() > 0 {
        assert(t[0] == a[0]);
        assert(crate::text::trim_start(t) == t);
        assert(crate::text::trim_end(t) == t);
    }
}

/// A trimmed non-empty piece without commas is a plain item.
proof fn lemma_trim_plain(s: Seq<char>)
    requires
        !s.contains(','),
        trim(s).len() > 0,
    ensures
        plain_item(trim(s)),
{
    lemma_trim_start(s);
    let a = crate::text::trim_start(s);
    lemma_trim_end(a);
    let t = trim(s);
    assert(t == a.take(t.len() as int));
    assert(t[0] == a[0]);
    assert(!t.contains(',')) by {
        if t.contains(',') {
            let j = choose|j: int| 0 <= j < t.len() && t[j] == ',';
            assert(a[j] == ',');
            assert(s[s.len() - a.len() + j] == ',');
        }
    }
}

/// A plain item is its own trim, also behind one space.
proof fn lemma_plain_trim(x: Seq<char>)
    requires
        plain_item(x),
    ensures
        trim(x) == x,
        trim(seq![' '] + x) == x,
{
    assert(crate::text::trim_start(x) == x);
    assert(crate::text::trim_end(x) == x);
    let y = seq![' '] + x;
    assert(crate::text::is_ws(y[0]));
    assert(y.drop_first() =~= x);
}

/// The pieces of a split hold no separator.
proof fn lemma_split_free(s: Seq<char>, sep: char)
    ensures
        forall|i: int| 0 <= i < split(s, sep).len() ==> !(#[trigger] split(s, sep)[i]).contains(sep),
    decreases s.len(),
{
    crate::text::lemma_split_len(s, sep);
    if s.len() > 0 {
        lemma_split_free(s.drop_last(), sep);
        crate::text::lemma_split_len(s.drop_last(), sep);
        let p = split(s.drop_last(), sep);
        if s.last() != sep {
            let l = p.last().push(s.last());
            assert(!l.contains(sep)) by {
                assert(!p[p.len() - 1].contains(sep));
                if l.contains(sep) {
                    let j = choose|j: int| 0 <= j < l.len() && l[j] == sep;
                    if j < l.len() - 1 {
                        assert(p.last()[j] == sep);
                    }
                }
            }
        } else {
            assert(!Seq::<char>::empty().contains(sep));
        }
    }
}

/// The kept pieces are plain items.
proof fn lemma_nonempty_trimmed_plain(parts: Seq<Seq<char>>)
    requires
        forall|i: int| 0 <= i < parts.len() ==> !(#[trigger] parts[i]).contains(','),
    ensures
        forall|i: int| 0 <= i < nonempty_trimmed(parts).len() ==> plain_item(#[trigger] nonempty_trimmed(parts)[i]),
    decreases parts.len(),
{
    if parts.len() > 0 {
        let d = parts.drop_last();
        assert forall|i: int| 0 <= i < d.len() implies !(#[trigger] d[i]).contains(',') by {
            assert(d[i] == parts[i]);
        }
        lemma_nonempty_trimmed_plain(d);
        let rest = nonempty_trimmed(d);
        let t = trim(parts.last());
        if t.len() > 0 {
            assert(!parts[parts.len() - 1].contains(','));
            lemma_trim_plain(parts.last());
            let r = rest.push(t);
            assert(nonempty_trimmed(parts) == r);
            assert forall|i: int| 0 <= i < r.len() implies plain_item(#[trigger] r[i]) by {
                if i < rest.len() {
                    assert(r[i] == rest[i]);
                }
            }
        }
    }
}

/// No two items are equal in lower case.
pub open spec fn distinct_lower(u: Seq<Seq<char>>) -> bool {
    forall|i: int, j: int| 0 <= i < j < u.len() ==> lowercase(#[trigger] u[i]) != lowercase(#[trigger] u[j])
}

/// What `unique_by_lower` keeps is among its input, and distinct in lower case.
proof fn lemma_unique_by_lower(x: Seq<Seq<char>>)
    ensures
        forall|i: int| 0 <= i < unique_by_lower(x).len() ==> x.contains(#[trigger] unique_by_lower(x)[i]),
        distinct_lower(unique_by_lower(x)),
    decreases x.len(),
{
    if x.len() > 0 {
        let d = x.drop_last();
        lemma_unique_by_lower(d);
        let p = unique_by_lower(d);
        assert forall|i: int| 0 <= i < p.len() implies x.contains(#[trigger] p[i]) by {
            let k = choose|k: int| 0 <= k < d.len() && d[k] == p[i];
            assert(x[k] == p[i]);
        }
        if !d.map_values(|y: Seq<char>| lowercase(y)).contains(lowercase(x.last())) {
            let q = p.push(x.last());
            assert(x[x.len() - 1] == x.last());
            assert forall|i: int| 0 <= i < q.len() implies x.contains(#[trigger] q[i]) by {
                if i < p.len() {
                    assert(q[i] == p[i]);
                }
            }
            assert forall|i: int, j: int| 0 <= i < j < q.len() implies lowercase(#[trigger] q[i]) != lowercase(#[trigger] q[j]) by {
                if j == q.len() - 1 {
                    assert(q[i] == p[i]);
                    let k = choose|k: int| 0 <= k < d.len() && d[k] == p[i];
                    assert(d.map_values(|y: Seq<char>| lowercase(y))[k] == lowercase(p[i]));
                } else {
                    assert(q[i] == p[i] && q[j] == p[j]);
                }
            }
        }
    }
}

/// Items distinct in lower case are all kept.
proof fn lemma_unique_keeps_distinct(u: Seq<Seq<char>>)
    requires
        distinct_lower(u),
    ensures
        unique_by_lower(u) == u,
    decreases u.len(),
{
    if u.len() > 0 {
        let d = u.drop_last();
        assert(distinct_lower(d)) by {
            assert forall|i: int, j: int| 0 <= i < j < d.len() implies lowercase(#[trigger] d[i]) != lowercase(#[trigger] d[j]) by {
                assert(d[i] == u[i] && d[j] == u[j]);
            }
        }
        lemma_unique_keeps_distinct(d);
        let m = d.map_values(|y: Seq<char>| lowercase(y));
        assert(!m.contains(lowercase(u.last()))) by {
            if m.contains(lowercase(u.last())) {
                let k = choose|k: int| 0 <= k < m.len() && m[k] == lowercase(u.last());
                assert(m[k] == lowercase(u[k]));
                assert(u[u.len() - 1] == u.last());
            }
        }
        assert(d.push(u.last()) =~= u);
    }
}

/// Items joined with `", "` are the same as the items, all but the first behind
/// a space, joined with `","`.
pub open spec fn spaced(u: Seq<Seq<char>>) -> Seq<Seq<char>> {
    Seq::new(u.len(), |i: int| if i == 0 { u[0] } else { seq![' '] + u[i] })
}

proof fn lemma_join_spaced(u: Seq<Seq<char>>)
    ensures
        join(u, seq![',', ' ']) == join(spaced(u), seq![',']),
    decreases u.len(),
{
    if u.len() > 1 {
        let d = u.drop_last();
        lemma_join_spaced(d);
        assert(spaced(u).drop_last() =~= spaced(d));
        assert(spaced(u).last() == seq![' '] + u.last());
        assert(join(d, seq![',', ' ']) + seq![',', ' '] + u.last()
            =~= join(spaced(d), seq![',']) + seq![','] + (seq![' '] + u.last()));
    } else if u.len() == 1 {
        assert(spaced(u)[0] == u[0]);
    }
}

proof fn lemma_trimmed_spaced(u: Seq<Seq<char>>)
    requires
        forall|i: int| 0 <= i < u.len() ==> plain_item(#[trigger] u[i]),
    ensures
        nonempty_trimmed(spaced(u)) == u,
    decreases u.len(),
{
    if u.len() > 0 {
        let d = u.drop_last();
        assert forall|i: int| 0 <= i < d.len() implies plain_item(#[trigger] d[i]) by {
            assert(d[i] == u[i]);
        }
        lemma_trimmed_spaced(d);
        assert(spaced(u).drop_last() =~= spaced(d));
        assert(plain_item(u[u.len() - 1]));
        lemma_plain_trim(u.last());
        assert(trim(spaced(u).last()) == u.last());
        assert(d.push(u.last()) =~= u);
    }
}

/// Plain items joined with `", "` split back into the same items.
proof fn lemma_csv_items_of_join(u: Seq<Seq<char>>)
    requires
        forall|i: int| 0 <= i < u.len() ==> plain_item(#[trigger] u[i]),
    ensures
        csv_items(join(u, ", "@)) == u,
{
    reveal_strlit(", ");
    assert(", "@ =~= seq![',', ' ']);
    let r = join(u, seq![',', ' ']);
    lemma_join_spaced(u);
    if u.len() > 0 {
        assert forall|i: int| 0 <= i < spaced(u).len() implies !(#[trigger] spaced(u)[i]).contains(',') by {
            assert(plain_item(u[i]));
            if i > 0 {
                let v = seq![' '] + u[i];
                if v.contains(',') {
                    let j = choose|j: int| 0 <= j < v.len() && v[j] == ',';
                    assert(u[i][j - 1] == ',');
                }
            }
        }
        crate::text::lemma_split_join(spaced(u), ',');
    } else {
        assert(r =~= Seq::<char>::empty());
        let sp = split(r, ',');
        assert(sp =~= seq![Seq::<char>::empty()]);
        assert(sp.drop_last() =~= Seq::<Seq<char>>::empty());
        assert(nonempty_trimmed(sp.drop_last()) == Seq::<Seq<char>>::empty());
        assert(crate::text::trim_start(sp.last()) == sp.last());
        assert(trim(sp.last()).len() == 0);
        assert(nonempty_trimmed(sp) =~= u);
    }
    lemma_trimmed_spaced(u);
}

/// Tidying a list that was already tidied without lower-casing changes nothing.
pub proof fn lemma_normalize_csv_idempotent(text: Seq<char>)
    ensures
        normalized_csv(normalized_csv(text, false), false) == normalized_csv(text, false),
{
    let items = csv_items(text);
    lemma_split_free(text, ',');
    lemma_nonempty_trimmed_plain(split(text, ','));
    lemma_unique_by_lower(items);
    let u = unique_by_lower(items);
    assert forall|i: int| 0 <= i < u.len() implies plain_item(#[trigger] u[i]) by {
        let k = choose|k: int| 0 <= k < items.len() && items[k] == u[i];
    }
    let r = normalized_csv(text, false);
    assert(maybe_lower(items, false) == items);
    lemma_csv_items_of_join(u);
    assert(csv_items(r) == u);
    lemma_unique_keeps_distinct(u);
    assert(maybe_lower(csv_items(r), false) == u);
}

/// Tidying with lower-casing a list it produced changes nothing, for lists whose
/// items, once lower-cased, are still items of a list (not blank, no comma, no
/// blank at either end) and stay as they are when lower-cased again.
pub proof fn lemma_normalize_csv_lower_idempotent(text: Seq<char>)
    requires
        forall|i: int|
            0 <= i < csv_items(text).len() ==> plain_item(lowercase(#[trigger] csv_items(text)[i])),
        forall|i: int|
            0 <= i < csv_items(text).len() ==> lowercase(lowercase(#[trigger] csv_items(text)[i]))
                == lowercase(csv_items(text)[i]),
    ensures
        normalized_csv(normalized_csv(text, true), true) == normalized_csv(text, true),
{
    let items = csv_items(text);
    let l = maybe_lower(items, true);
    lemma_unique_by_lower(l);
    let u = unique_by_lower(l);
    assert forall|i: int| 0 <= i < u.len() implies plain_item(#[trigger] u[i]) && lowercase(u[i]) == u[i] by {
        let k = choose|k: int| 0 <= k < l.len() && l[k] == u[i];
        assert(l[k] == lowercase(items[k]));
    }
    let r = normalized_csv(text, true);
    lemma_csv_items_of_join(u);
    assert(csv_items(r) == u);
    assert(maybe_lower(u, true) =~= u);
    lemma_unique_keeps_distinct(u);
}

/// Trimmed lines that hold a `:`, the empty ones dropped.
pub open spec fn identifier_candidates(ls: Seq<Seq<char>>) -> Seq<Seq<char>>
    decreases ls.len(),
{
    if ls.len() == 0 {
        Seq::<Seq<char>>::empty()
    } else {
        let rest = identifier_candidates(ls.drop_last());
        let t = trim(ls.last());
        if t.len() > 0 && t.contains(':') {
            rest.push(t)
        } else {
            rest
        }
    }
}

/// Identifier lines tidied: trimmed, lines without `:` dropped, later lines
/// equal to an earlier one in lower case dropped, joined with line feeds.
pub open spec fn cleaned_identifier_lines(text: Seq<char>) -> Seq<char> {
    join(unique_by_lower(identifier_candidates(lines(text))), "\n"@)
}

pub fn cleanup_identifier_lines_vec(v: &Vec<char>) -> (r: Vec<char>)
    ensures
        r@ == cleaned_identifier_lines(v@),
{
    let ls = lines_vec(v);
    let mut cands: Vec<Vec<char>> = Vec::new();
    let mut i: usize = 0;
    while i < ls.len()
        invariant
            i <= ls.len(),
            views(cands@) == identifier_candidates(views(ls@).take(i as int)),
        decreases ls.len() - i,
    {
        assert(views(ls@).take(i + 1).drop_last() =~= views(ls@).take(i as int));
        let t = trim_vec(&ls[i]);
        if t.len() > 0 && has_char(&t, ':') {
            cands.push(t);
        }
        i += 1;
    }
    assert(views(ls@).take(ls.len() as int) =~= views(ls@));
    let unique = unique_by_lower_vec(&cands);
    join_with(&unique, "\n")
}

pub fn cleanup_identifier_lines(text: &str) -> (r: String)
    ensures
        r@ == cleaned_identifier_lines(text@),
{
    let v = chars_of(text);
    string_of(&cleanup_identifier_lines_vec(&v))
}

/// One identifier line in normal form `type:value`, the type lower-cased and
/// both parts trimmed; `None` when the line has no `:` or a part is empty.
pub open spec fn normalized_identifier(line: Seq<char>) -> Option<Seq<char>> {
    let t = trim(line);
    let i = first_index(t, ':');
    if i < 0 {
        None
    } else {
        let ty = lowercase(trim(t.take(i)));
        let val = trim(t.skip(i + 1));
        if ty.len() > 0 && val.len() > 0 {
            Some(ty + ":"@ + val)
        } else {
            None
        }
    }
}

pub open spec fn normalized_identifiers(ls: Seq<Seq<char>>) -> Seq<Seq<char>>
    decreases ls.len(),
{
    if ls.len() == 0 {
        Seq::<Seq<char>>::empty()
    } else {
        let rest = normalized_identifiers(ls.drop_last());
        match normalized_identifier(ls.last()) {
            Some(x) => rest.push(x),
            None => rest,
        }
    }
}

/// Identifier text in normal form, then tidied as `cleaned_identifier_lines`.
pub open spec fn normalized_identifier_text(text: Seq<char>) -> Seq<char> {
    cleaned_identifier_lines(join(normalized_identifiers(lines(text)), "\n"@))
}

fn normalize_identifier_line(line: &Vec<char>) -> (r: Option<Vec<char>>)
    ensures
        match r {
            Some(x) => normalized_identifier(line@) == Some(x@),
            None => normalized_identifier(line@) is None,
        },
{
    let t = trim_vec(line);
    match find_char(&t, ':') {
        None => None,
        Some(i) => {
            let left = slice_vec(&t, 0, i);
            assert(left@ =~= t@.take(i as int));
            let right = slice_vec(&t, i + 1, t.len());
            assert(right@ =~= t@.skip(i + 1));
            let ty = lower_vec(&trim_vec(&left));
            let val = trim_vec(&right);
            if ty.len() > 0 && val.len() > 0 {
                let mut out = ty;
                append_str(&mut out, ":");
                append_vec(&mut out, &val);
                Some(out)
            } else {
                None
            }
        },
    }
}

pub fn normalize_identifier_lines(text: &str) -> (r: String)
    ensures
        r@ == normalized_identifier_text(text@),
{
    let v = chars_of(text);
    let ls = lines_vec(&v);
    let mut out: Vec<Vec<char>> = Vec::new();
    let mut i: usize = 0;
    while i < ls.len()
        invariant
            i <= ls.len(),
            views(out@) == normalized_identifiers(views(ls@).take(i as int)),
        decreases ls.len() - i,
    {
        assert(views(ls@).take(i + 1).drop_last() =~= views(ls@).take(i as int));
        match normalize_identifier_line(&ls[i]) {
            Some(x) => {
                out.push(x);
            },
            None => {},
        }
        i += 1;
    }
    assert(views(ls@).take(ls.len() as int) =~= views(ls@));
    let joined = join_with(&out, "\n");
    string_of(&cleanup_identifier_lines_vec(&joined))
}

/// Same as `normalize_identifier_lines`.
pub fn dedupe_identifier_lines(text: &str) -> (r: String)
    ensures
        r@ == normalized_identifier_text(text@),
{
    normalize_identifier_lines(text)
}

/// All characters ASCII.
pub open spec fn all_ascii(s: Seq<char>) -> bool {
    forall|i: int| 0 <= i < s.len() ==> (#[trigger] s[i] as u32) < 0x80
}

/// The leading article `the`, `a` or `an` (in any case) moved to the end:
/// `"The Hobbit"` sorts as `"Hobbit, The"`. The article is matched in the
/// lower-cased title; since it is ASCII, the title's first characters are the
/// article's, which the title must also be longer than.
pub open spec fn title_sort(title: Seq<char>) -> Seq<char> {
    let t = trim(title);
    let lower = lowercase(t);
    if t.len() == 0 {
        t
    } else if crate::text::is_prefix("the "@, lower) && all_ascii(t.take(4)) && t.len() > 4 {
        trim(t.skip(4)) + ", "@ + t.take(3)
    } else if crate::text::is_prefix("a "@, lower) && all_ascii(t.take(2)) && t.len() > 2 {
        trim(t.skip(2)) + ", "@ + t.take(1)
    } else if crate::text::is_prefix("an "@, lower) && all_ascii(t.take(3)) && t.len() > 3 {
        trim(t.skip(3)) + ", "@ + t.take(2)
    } else {
        t
    }
}

/// A title that starts with an article and a space, in any ASCII case, and has
/// more after it, sorts as the rest (trimmed), a comma and a space, and the
/// article as written: `"The Hobbit"` as `"Hobbit, The"`, `"A Tale"` as
/// `"Tale, A"`, `"an Owl"` as `"Owl, an"`. The article is recognised in the
/// title's lower case, so the law is stated for titles whose lower case begins
/// with the ASCII lower case of those first characters.
pub proof fn lemma_title_sort_moves_articles(title: Seq<char>)
    ensures
        ({
            let t = trim(title);
            t.len() > 4 && ascii_lower(t.take(4)) == "the "@ && crate::text::is_prefix(
                ascii_lower(t.take(4)),
                lowercase(t),
            ) ==> title_sort(title) == trim(t.skip(4)) + ", "@ + t.take(3)
        }),
        ({
            let t = trim(title);
            t.len() > 2 && ascii_lower(t.take(2)) == "a "@ && crate::text::is_prefix(
                ascii_lower(t.take(2)),
                lowercase(t),
            ) ==> title_sort(title) == trim(t.skip(2)) + ", "@ + t.take(1)
        }),
        ({
            let t = trim(title);
            t.len() > 3 && ascii_lower(t.take(3)) == "an "@ && crate::text::is_prefix(
                ascii_lower(t.take(3)),
                lowercase(t),
            ) ==> title_sort(title) == trim(t.skip(3)) + ", "@ + t.take(2)
        }),
{
    reveal_strlit("the ");
    reveal_strlit("a ");
    reveal_strlit("an ");
    let t = trim(title);
    let lower = lowercase(t);
    assert forall|k: int| 0 <= k <= t.len() && #[trigger] ascii_lower(t.take(k)) == (if k == 4 {
        "the "@
    } else if k == 2 {
        "a "@
    } else {
        "an "@
    }) && (k == 2 || k == 3 || k == 4) implies all_ascii(t.take(k)) by {
        assert forall|i: int| 0 <= i < k implies (#[trigger] t.take(k)[i] as u32) < 0x80 by {
            assert(ascii_lower(t.take(k))[i] == crate::text::ascii_lower_char(t.take(k)[i]));
        }
    }
    if t.len() > 4 && ascii_lower(t.take(4)) == "the "@ && crate::text::is_prefix(ascii_lower(t.take(4)), lower) {
        assert(all_ascii(t.take(4)));
    }
    if t.len() > 2 && ascii_lower(t.take(2)) == "a "@ && crate::text::is_prefix(ascii_lower(t.take(2)), lower) {
        assert(all_ascii(t.take(2)));
        assert(lower.take(2) == "a "@);
        assert(lower.take(2)[0] == lower[0]);
        assert(lower[0] == 'a');
        if crate::text::is_prefix("the "@, lower) {
            assert(lower.take(4)[0] == lower[0]);
        }
    }
    if t.len() > 3 && ascii_lower(t.take(3)) == "an "@ && crate::text::is_prefix(ascii_lower(t.take(3)), lower) {
        assert(all_ascii(t.take(3)));
        assert(lower.take(3) == "an "@);
        assert(lower.take(3)[0] == lower[0] && lower.take(3)[1] == lower[1]);
        assert(lower[0] == 'a' && lower[1] == 'n');
        if crate::text::is_prefix("the "@, lower) {
            assert(lower.take(4)[0] == lower[0]);
        }
        if crate::text::is_prefix("a "@, lower) {
            assert(lower.take(2)[1] == lower[1]);
        }
    }
}

fn ascii_prefix(t: &Vec<char>, n: usize) -> (r: bool)
    requires
        n <= t.len(),
    ensures
        r == all_ascii(t@.take(n as int)),
{
    let mut i: usize = 0;
    while i < n
        invariant
            n <= t.len(),
            i <= n,
            forall|j: int| 0 <= j < i ==> (t@[j] as u32) < 0x80,
        decreases n - i,
    {
        if (t[i] as u32) >= 0x80 {
            assert(t@.take(n as int)[i as int] == t@[i as int]);
            return false;
        }
        i += 1;
    }
    assert forall|j: int| 0 <= j < n implies (#[trigger] t@.take(n as int)[j] as u32) < 0x80 by {
        assert(t@.take(n as int)[j] == t@[j]);
    }
    true
}

fn article_moved(t: &Vec<char>, n: usize) -> (r: Vec<char>)
    requires
        1 <= n < t.len(),
    ensures
        r@ == trim(t@.skip(n as int)) + ", "@ + t@.take(n - 1),
{
    let rest = slice_vec(t, n, t.len());
    assert(rest@ =~= t@.skip(n as int));
    let mut out = trim_vec(&rest);
    append_str(&mut out, ", ");
    let art = slice_vec(t, 0, n - 1);
    assert(art@ =~= t@.take(n - 1));
    append_vec(&mut out, &art);
    out
}

pub fn derive_title_sort(title: &str) -> (r: String)
    ensures
        r@ == title_sort(title@),
{
    let v = chars_of(title);
    let t = trim_vec(&v);
    if t.len() == 0 {
        return String::new();
    }
    let lower = lower_vec(&t);
    if crate::text::starts_with_str(&lower, "the ") {
        proof {
            reveal_strlit("the ");
        }
        if t.len() > 4 && ascii_prefix(&t, 4) {
            return string_of(&article_moved(&t, 4));
        }
    }
    if crate::text::starts_with_str(&lower, "a ") {
        proof {
            reveal_strlit("a ");
        }
        if t.len() > 2 && ascii_prefix(&t, 2) {
            return string_of(&article_moved(&t, 2));
        }
    }
    if crate::text::starts_with_str(&lower, "an ") {
        proof {
            reveal_strlit("an ");
        }
        if t.len() > 3 && ascii_prefix(&t, 3) {
            return string_of(&article_moved(&t, 3));
        }
    }
    string_of(&t)
}

/// Items whose UTF-8 length is not 2 or 3 bytes.
pub open spec fn bad_language_tokens(items: Seq<Seq<char>>) -> Seq<Seq<char>>
    decreases items.len(),
{
    if items.len() == 0 {
        Seq::<Seq<char>>::empty()
    } else {
        let rest = bad_language_tokens(items.drop_last());
        let n = utf8_len(trim(items.last()));
        if n == 2 || n == 3 {
            rest
        } else {
            rest.push(items.last())
        }
    }
}

/// The hint for language codes that are not 2 or 3 bytes long.
pub open spec fn language_hint_text(value: Seq<char>) -> Option<Seq<char>> {
    let bad = bad_language_tokens(csv_items(value));
    if bad.len() == 0 {
        None
    } else {
        Some("Language tokens should be 2-3 chars: "@ + join(bad, ", "@))
    }
}

pub fn language_hint(value: &str) -> (r: Option<String>)
    ensures
        match r {
            Some(m) => language_hint_text(value@) == Some(m@),
            None => language_hint_text(value@) is None,
        },
{
    let v = chars_of(value);
    let items = csv_items_vec(&v);
    let mut bad: Vec<Vec<char>> = Vec::new();
    let mut i: usize = 0;
    while i < items.len()
        invariant
            i <= items.len(),
            views(bad@) == bad_language_tokens(views(items@).take(i as int)),
        decreases items.len() - i,
    {
        assert(views(items@).take(i + 1).drop_last() =~= views(items@).take(i as int));
        let t = trim_vec(&items[i]);
        let n = utf8_len_capped(&t, 4);
        if !(n == 2 || n == 3) {
            bad.push(items[i].clone());
        }
        i += 1;
    }
    assert(views(items@).take(items.len() as int) =~= views(items@));
    if bad.len() == 0 {
        None
    } else {
        let mut out = chars_of("Language tokens should be 2-3 chars: ");
        let joined = join_with(&bad, ", ");
        append_vec(&mut out, &joined);
        Some(string_of(&out))
    }
}


/// Keys that occur more than once.
pub open spec fn repeated(keys: Seq<Seq<char>>) -> Set<Seq<char>> {
    Set::new(
        |k: Seq<char>|
            exists|i: int, j: int| 0 <= j < i < keys.len() && keys[j] == k && keys[i] == k,
    )
}

proof fn lemma_repeated_step(keys: Seq<Seq<char>>, n: int)
    requires
        0 <= n < keys.len(),
    ensures
        repeated(keys.take(n + 1)) == (if keys.take(n).contains(keys[n]) {
            repeated(keys.take(n)).insert(keys[n])
        } else {
            repeated(keys.take(n))
        }),
{
    let a = keys.take(n);
    let b = keys.take(n + 1);
    let target = if a.contains(keys[n]) {
        repeated(a).insert(keys[n])
    } else {
        repeated(a)
    };
    assert forall|k: Seq<char>| repeated(b).contains(k) <==> target.contains(k) by {
        if repeated(b).contains(k) {
            let (i, j) = choose|i: int, j: int| 0 <= j < i < b.len() && b[j] == k && b[i] == k;
            if i < n {
                assert(a[j] == k && a[i] == k);
                assert(repeated(a).contains(k));
            } else {
                assert(a[j] == keys[n]);
                assert(a.contains(keys[n]));
            }
        }
        if target.contains(k) {
            if repeated(a).contains(k) {
                let (i, j) = choose|i: int, j: int| 0 <= j < i < a.len() && a[j] == k && a[i] == k;
                assert(b[j] == k && b[i] == k);
            } else {
                let j = choose|j: int| 0 <= j < a.len() && a[j] == keys[n];
                assert(b[j] == k && b[n] == k);
            }
        }
    }
    assert(repeated(b) =~= target);
}

/// The hint for items repeated in a comma-separated field, compared in lower
/// case: the repeated keys in sorted order.
pub open spec fn duplicate_hint_text(field: Seq<char>, value: Seq<char>) -> Option<Seq<char>> {
    let d = repeated(csv_items(value).map_values(|x: Seq<char>| lowercase(x)));
    if d == Set::<Seq<char>>::empty() {
        None
    } else {
        Some(field + " contains duplicates: "@ + join(sorted_list_of(d), ", "@))
    }
}

pub fn duplicate_csv_hint(field: &str, value: &str) -> (r: Option<String>)
    ensures
        match r {
            Some(m) => duplicate_hint_text(field@, value@) == Some(m@),
            None => duplicate_hint_text(field@, value@) is None,
        },
{
    let v = chars_of(value);
    let items = csv_items_vec(&v);
    let ghost ks = views(items@).map_values(|x: Seq<char>| lowercase(x));
    let mut keys: Vec<Vec<char>> = Vec::new();
    let mut dups: Vec<Vec<char>> = Vec::new();
    let mut i: usize = 0;
    assert(views(dups@).to_set() =~= repeated(ks.take(0)));
    while i < items.len()
        invariant
            i <= items.len(),
            ks == views(items@).map_values(|x: Seq<char>| lowercase(x)),
            views(keys@) == ks.take(i as int),
            strictly_sorted(views(dups@)),
            views(dups@).to_set() == repeated(ks.take(i as int)),
        decreases items.len() - i,
    {
        let k = lower_vec(&items[i]);
        let seen = crate::text::contains_vec_in(&keys, &k);
        proof {
            lemma_repeated_step(ks, i as int);
        }
        if seen {
            insert_sorted_unique(&mut dups, k.clone());
        }
        let ghost kb = keys@;
        keys.push(k);
        assert(views(keys@) =~= views(kb).push(ks[i as int]));
        assert(views(keys@) =~= ks.take(i + 1));
        i += 1;
    }
    assert(ks.take(items.len() as int) =~= ks);
    proof {
        lemma_sorted_list_of(views(dups@));
    }
    if dups.len() == 0 {
        assert(views(dups@).to_set() =~= Set::<Seq<char>>::empty());
        None
    } else {
        assert(views(dups@).to_set().contains(views(dups@)[0]));
        assert(views(dups@).to_set() != Set::<Seq<char>>::empty());
        let mut out = chars_of(field);
        append_str(&mut out, " contains duplicates: ");
        let joined = join_with(&dups, ", ");
        append_vec(&mut out, &joined);
        Some(string_of(&out))
    }
}


/// Views of a list of string pairs.
pub open spec fn pair_views(v: Seq<(Vec<char>, Vec<char>)>) -> Seq<(Seq<char>, Seq<char>)> {
    v.map_values(|p: (Vec<char>, Vec<char>)| (p.0@, p.1@))
}

/// Views of a list of owned string pairs.
pub open spec fn string_pair_views(v: Seq<(String, String)>) -> Seq<(Seq<char>, Seq<char>)> {
    v.map_values(|p: (String, String)| (p.0@, p.1@))
}

/// An identifier line as a lower-cased type and a value, both trimmed and
/// non-empty; `None` for other lines.
pub open spec fn id_pair(line: Seq<char>) -> Option<(Seq<char>, Seq<char>)> {
    let t = trim(line);
    let i = first_index(t, ':');
    if i < 0 {
        None
    } else {
        let ty = lowercase(trim(t.take(i)));
        let val = trim(t.skip(i + 1));
        if ty.len() > 0 && val.len() > 0 {
            Some((ty, val))
        } else {
            None
        }
    }
}

pub open spec fn id_pairs(ls: Seq<Seq<char>>) -> Seq<(Seq<char>, Seq<char>)>
    decreases ls.len(),
{
    if ls.len() == 0 {
        Seq::<(Seq<char>, Seq<char>)>::empty()
    } else {
        let rest = id_pairs(ls.drop_last());
        match id_pair(ls.last()) {
            Some(p) => rest.push(p),
            None => rest,
        }
    }
}

/// The values given for type `t`, in order.
pub open spec fn values_for(ps: Seq<(Seq<char>, Seq<char>)>, t: Seq<char>) -> Seq<Seq<char>>
    decreases ps.len(),
{
    if ps.len() == 0 {
        Seq::<Seq<char>>::empty()
    } else {
        let rest = values_for(ps.drop_last(), t);
        if ps.last().0 == t {
            rest.push(ps.last().1)
        } else {
            rest
        }
    }
}

/// `"<type> has <n> values"` for each type with more than one distinct value.
pub open spec fn conflict_entries(ps: Seq<(Seq<char>, Seq<char>)>, types: Seq<Seq<char>>) -> Seq<Seq<char>>
    decreases types.len(),
{
    if types.len() == 0 {
        Seq::<Seq<char>>::empty()
    } else {
        let rest = conflict_entries(ps, types.drop_last());
        let t = types.last();
        let n = crate::text::unique_exact(values_for(ps, t)).len();
        if n > 1 {
            rest.push(t + " has "@ + crate::text::nat_digits(n) + " values"@)
        } else {
            rest
        }
    }
}

/// The hint for identifier types given more than one value; types are listed in
/// the order of their first line.
pub open spec fn conflict_hint_text(value: Seq<char>) -> Option<Seq<char>> {
    let ps = id_pairs(lines(value));
    let es = conflict_entries(ps, crate::text::unique_exact(ps.map_values(|p: (Seq<char>, Seq<char>)| p.0)));
    if es.len() == 0 {
        None
    } else {
        Some("Identifier conflicts: "@ + join(es, "; "@))
    }
}

fn id_pair_of(line: &Vec<char>) -> (r: Option<(Vec<char>, Vec<char>)>)
    ensures
        match r {
            Some(p) => id_pair(line@) == Some((p.0@, p.1@)),
            None => id_pair(line@) is None,
        },
{
    let t = trim_vec(line);
    match find_char(&t, ':') {
        None => None,
        Some(i) => {
            let left = slice_vec(&t, 0, i);
            assert(left@ =~= t@.take(i as int));
            let right = slice_vec(&t, i + 1, t.len());
            assert(right@ =~= t@.skip(i + 1));
            let ty = lower_vec(&trim_vec(&left));
            let val = trim_vec(&right);
            if ty.len() > 0 && val.len() > 0 {
                Some((ty, val))
            } else {
                None
            }
        },
    }
}

fn id_pairs_of(ls: &Vec<Vec<char>>) -> (r: Vec<(Vec<char>, Vec<char>)>)
    ensures
        pair_views(r@) == id_pairs(views(ls@)),
{
    let mut out: Vec<(Vec<char>, Vec<char>)> = Vec::new();
    let mut i: usize = 0;
    while i < ls.len()
        invariant
            i <= ls.len(),
            pair_views(out@) == id_pairs(views(ls@).take(i as int)),
        decreases ls.len() - i,
    {
        assert(views(ls@).take(i + 1).drop_last() =~= views(ls@).take(i as int));
        match id_pair_of(&ls[i]) {
            Some(p) => {
                let ghost before = out@;
                out.push(p);
                assert(pair_views(out@) =~= pair_views(before).push((p.0@, p.1@)));
            },
            None => {},
        }
        i += 1;
    }
    assert(views(ls@).take(ls.len() as int) =~= views(ls@));
    out
}

pub fn identifier_conflict_hint(value: &str) -> (r: Option<String>)
    ensures
        match r {
            Some(m) => conflict_hint_text(value@) == Some(m@),
            None => conflict_hint_text(value@) is None,
        },
{
    let v = chars_of(value);
    let ls = lines_vec(&v);
    let ps = id_pairs_of(&ls);
    let ghost pv = pair_views(ps@);
    let mut tys: Vec<Vec<char>> = Vec::new();
    let mut i: usize = 0;
    while i < ps.len()
        invariant
            i <= ps.len(),
            pv == pair_views(ps@),
            views(tys@) == pv.map_values(|p: (Seq<char>, Seq<char>)| p.0).take(i as int),
        decreases ps.len() - i,
    {
        let t = ps[i].0.clone();
        let ghost before = tys@;
        tys.push(t);
        assert(views(tys@) =~= views(before).push(pv[i as int].0));
        assert(views(tys@) =~= pv.map_values(|p: (Seq<char>, Seq<char>)| p.0).take(i + 1));
        i += 1;
    }
    assert(pv.map_values(|p: (Seq<char>, Seq<char>)| p.0).take(ps.len() as int) =~= pv.map_values(|p: (Seq<char>, Seq<char>)| p.0));
    let types = crate::text::unique_exact_vec(&tys);
    let mut entries: Vec<Vec<char>> = Vec::new();
    let mut k: usize = 0;
    while k < types.len()
        invariant
            k <= types.len(),
            pv == pair_views(ps@),
            views(entries@) == conflict_entries(pv, views(types@).take(k as int)),
        decreases types.len() - k,
    {
        assert(views(types@).take(k + 1).drop_last() =~= views(types@).take(k as int));
        let mut vals: Vec<Vec<char>> = Vec::new();
        let mut j: usize = 0;
        while j < ps.len()
            invariant
                j <= ps.len(),
                k < types.len(),
                pv == pair_views(ps@),
                views(vals@) == values_for(pv.take(j as int), types@[k as int]@),
            decreases ps.len() - j,
        {
            assert(pv.take(j + 1).drop_last() =~= pv.take(j as int));
            if crate::text::vec_eq(&ps[j].0, &types[k]) {
                let ghost before = vals@;
                vals.push(ps[j].1.clone());
                assert(views(vals@) =~= views(before).push(pv[j as int].1));
            }
            j += 1;
        }
        assert(pv.take(ps.len() as int) =~= pv);
        let distinct = crate::text::unique_exact_vec(&vals);
        let n = distinct.len();
        if n > 1 {
            let mut e = types[k].clone();
            append_str(&mut e, " has ");
            let d = crate::text::u64_digits(n as u64);
            append_vec(&mut e, &d);
            append_str(&mut e, " values");
            let ghost before = entries@;
            entries.push(e);
            assert(views(entries@) =~= views(before).push(e@));
        }
        k += 1;
    }
    assert(views(types@).take(types.len() as int) =~= views(types@));
    if entries.len() == 0 {
        None
    } else {
        let mut out = chars_of("Identifier conflicts: ");
        let joined = join_with(&entries, "; ");
        append_vec(&mut out, &joined);
        Some(string_of(&out))
    }
}


/// A non-empty trimmed line split at its first `:` into trimmed type and value.
pub open spec fn raw_identifier(line: Seq<char>) -> Option<(Seq<char>, Seq<char>)> {
    let t = trim(line);
    let i = first_index(t, ':');
    if t.len() == 0 || i < 0 {
        None
    } else {
        Some((trim(t.take(i)), trim(t.skip(i + 1))))
    }
}

pub open spec fn raw_identifiers(ls: Seq<Seq<char>>) -> Seq<(Seq<char>, Seq<char>)>
    decreases ls.len(),
{
    if ls.len() == 0 {
        Seq::<(Seq<char>, Seq<char>)>::empty()
    } else {
        let rest = raw_identifiers(ls.drop_last());
        match raw_identifier(ls.last()) {
            Some(p) => rest.push(p),
            None => rest,
        }
    }
}

/// The pairs whose type is not `isbn` in ASCII case.
pub open spec fn without_isbn(ps: Seq<(Seq<char>, Seq<char>)>) -> Seq<(Seq<char>, Seq<char>)>
    decreases ps.len(),
{
    if ps.len() == 0 {
        ps
    } else {
        let rest = without_isbn(ps.drop_last());
        if crate::text::ascii_lower(ps.last().0) == crate::text::ascii_lower("isbn"@) {
            rest
        } else {
            rest.push(ps.last())
        }
    }
}

/// The identifiers of the edit form: each `type:value` line, then, when the
/// ISBN field is filled, every `isbn` line replaced by one pair from that field.
pub open spec fn parsed_identifiers(text: Seq<char>, isbn: Seq<char>) -> Seq<(Seq<char>, Seq<char>)> {
    let ids = raw_identifiers(lines(text));
    if trim(isbn).len() == 0 {
        ids
    } else {
        without_isbn(ids).push(("isbn"@, trim(isbn)))
    }
}

fn raw_identifier_of(line: &Vec<char>) -> (r: Option<(Vec<char>, Vec<char>)>)
    ensures
        match r {
            Some(p) => raw_identifier(line@) == Some((p.0@, p.1@)),
            None => raw_identifier(line@) is None,
        },
{
    let t = trim_vec(line);
    if t.len() == 0 {
        return None;
    }
    match find_char(&t, ':') {
        None => None,
        Some(i) => {
            let left = slice_vec(&t, 0, i);
            assert(left@ =~= t@.take(i as int));
            let right = slice_vec(&t, i + 1, t.len());
            assert(right@ =~= t@.skip(i + 1));
            Some((trim_vec(&left), trim_vec(&right)))
        },
    }
}

fn parse_identifier_pairs(text: &Vec<char>, isbn: &Vec<char>) -> (r: Vec<(Vec<char>, Vec<char>)>)
    ensures
        pair_views(r@) == parsed_identifiers(text@, isbn@),
{
    let ls = lines_vec(text);
    let mut ids: Vec<(Vec<char>, Vec<char>)> = Vec::new();
    let mut i: usize = 0;
    while i < ls.len()
        invariant
            i <= ls.len(),
            pair_views(ids@) == raw_identifiers(views(ls@).take(i as int)),
        decreases ls.len() - i,
    {
        assert(views(ls@).take(i + 1).drop_last() =~= views(ls@).take(i as int));
        match raw_identifier_of(&ls[i]) {
            Some(p) => {
                let ghost before = ids@;
                ids.push(p);
                assert(pair_views(ids@) =~= pair_views(before).push((p.0@, p.1@)));
            },
            None => {},
        }
        i += 1;
    }
    assert(views(ls@).take(ls.len() as int) =~= views(ls@));
    let isbn_t = trim_vec(isbn);
    if isbn_t.len() == 0 {
        return ids;
    }
    let key = chars_of("isbn");
    let ghost all = pair_views(ids@);
    let mut kept: Vec<(Vec<char>, Vec<char>)> = Vec::new();
    let mut j: usize = 0;
    while j < ids.len()
        invariant
            j <= ids.len(),
            all == pair_views(ids@),
            key@ == "isbn"@,
            pair_views(kept@) == without_isbn(all.take(j as int)),
        decreases ids.len() - j,
    {
        assert(all.take(j + 1).drop_last() =~= all.take(j as int));
        if !crate::text::eq_ignore_ascii_case(&ids[j].0, &key) {
            let p = (ids[j].0.clone(), ids[j].1.clone());
            let ghost before = kept@;
            kept.push(p);
            assert(pair_views(kept@) =~= pair_views(before).push(all[j as int]));
        }
        j += 1;
    }
    assert(all.take(ids.len() as int) =~= all);
    let ghost before = kept@;
    kept.push((key, isbn_t));
    assert(pair_views(kept@) =~= pair_views(before).push(("isbn"@, trim(isbn@))));
    kept
}

fn string_pairs_of(ps: &Vec<(Vec<char>, Vec<char>)>) -> (r: Vec<(String, String)>)
    ensures
        string_pair_views(r@) == pair_views(ps@),
{
    let mut out: Vec<(String, String)> = Vec::new();
    let mut i: usize = 0;
    while i < ps.len()
        invariant
            i <= ps.len(),
            string_pair_views(out@) == pair_views(ps@).take(i as int),
        decreases ps.len() - i,
    {
        let p = (string_of(&ps[i].0), string_of(&ps[i].1));
        let ghost before = out@;
        out.push(p);
        assert(string_pair_views(out@) =~= string_pair_views(before).push((p.0@, p.1@)));
        assert(string_pair_views(out@) =~= pair_views(ps@).take(i + 1));
        i += 1;
    }
    assert(pair_views(ps@).take(ps.len() as int) =~= pair_views(ps@));
    out
}

pub fn parse_identifiers(text: &str, isbn: &str) -> (r: Vec<(String, String)>)
    ensures
        string_pair_views(r@) == parsed_identifiers(text@, isbn@),
{
    let t = chars_of(text);
    let i = chars_of(isbn);
    let ps = parse_identifier_pairs(&t, &i);
    string_pairs_of(&ps)
}

/// The value of the first line whose type equals `id_type` in ASCII case.
pub open spec fn identifier_value(ls: Seq<Seq<char>>, id_type: Seq<char>) -> Option<Seq<char>>
    decreases ls.len(),
{
    if ls.len() == 0 {
        None
    } else {
        match identifier_value(ls.drop_last(), id_type) {
            Some(v) => Some(v),
            None => {
                let t = trim(ls.last());
                let i = first_index(t, ':');
                if i >= 0 && crate::text::ascii_lower(trim(t.take(i))) == crate::text::ascii_lower(id_type) {
                    Some(trim(t.skip(i + 1)))
                } else {
                    None
                }
            },
        }
    }
}

pub fn find_identifier_value(text: &str, id_type: &str) -> (r: Option<String>)
    ensures
        match r {
            Some(v) => identifier_value(lines(text@), id_type@) == Some(v@),
            None => identifier_value(lines(text@), id_type@) is None,
        },
{
    let v = chars_of(text);
    let want = chars_of(id_type);
    let ls = lines_vec(&v);
    let mut i: usize = 0;
    while i < ls.len()
        invariant
            i <= ls.len(),
            want@ == id_type@,
            views(ls@) == lines(text@),
            identifier_value(views(ls@).take(i as int), want@) is None,
        decreases ls.len() - i,
    {
        assert(views(ls@).take(i + 1).drop_last() =~= views(ls@).take(i as int));
        let t = trim_vec(&ls[i]);
        match find_char(&t, ':') {
            Some(k) => {
                let left = slice_vec(&t, 0, k);
                assert(left@ =~= t@.take(k as int));
                if crate::text::eq_ignore_ascii_case(&trim_vec(&left), &want) {
                    let right = slice_vec(&t, k + 1, t.len());
                    assert(right@ =~= t@.skip(k + 1));
                    let found = trim_vec(&right);
                    assert(views(ls@).take(i + 1).last() == ls@[i as int]@);
                    assert(identifier_value(views(ls@).take(i + 1), want@) == Some(found@));
                    proof {
                        lemma_identifier_value_prefix(views(ls@), want@, i as int + 1);
                    }
                    return Some(string_of(&found));
                }
            },
            None => {},
        }
        i += 1;
    }
    assert(views(ls@).take(ls.len() as int) =~= views(ls@));
    None
}

/// A line found among the first lines is the one found among all.
proof fn lemma_identifier_value_prefix(ls: Seq<Seq<char>>, id_type: Seq<char>, n: int)
    requires
        0 <= n <= ls.len(),
        identifier_value(ls.take(n), id_type) is Some,
    ensures
        identifier_value(ls, id_type) == identifier_value(ls.take(n), id_type),
    decreases ls.len() - n,
{
    if n < ls.len() {
        assert(ls.take(n + 1).drop_last() =~= ls.take(n));
        lemma_identifier_value_prefix(ls, id_type, n + 1);
    } else {
        assert(ls.take(n) =~= ls);
    }
}

/// Whether the text contains the lower-case needle once lower-cased; an empty
/// or blank needle matches everything.
pub open spec fn field_matches(haystack: Seq<char>, needle_lower: Seq<char>) -> bool {
    trim(needle_lower).len() == 0 || contains_seq(lowercase(haystack), needle_lower)
}

pub fn field_contains(haystack: &str, needle_lower: &str) -> (r: bool)
    ensures
        r == field_matches(haystack@, needle_lower@),
{
    let n = chars_of(needle_lower);
    if trim_vec(&n).len() == 0 {
        return true;
    }
    let h = chars_of(haystack);
    let l = lower_vec(&h);
    contains_vec(&l, &n)
}

/// The last comma-separated item replaced by the picked value, then the list
/// re-joined with `", "` without blank items.
pub open spec fn autocompleted(field: Seq<char>, value: Seq<char>) -> Seq<char> {
    let parts = split(field, ',');
    join(crate::text::nonempty_trimmed(parts.update(parts.len() - 1, value)), ", "@)
}

pub fn apply_autocomplete(field: &mut String, value: &str)
    ensures
        final(field)@ == autocompleted(old(field)@, value@),
{
    let f = chars_of(field.as_str());
    let mut parts = split_vec(&f, ',');
    proof {
        crate::text::lemma_split_len(f@, ',');
    }
    let last = parts.len() - 1;
    let ghost before = views(parts@);
    parts.set(last, chars_of(value));
    assert(views(parts@) =~= before.update(last as int, value@));
    let kept = crate::text::nonempty_trimmed_vec(&parts);
    *field = string_of(&join_with(&kept, ", "));
}

/// Whether some item equals `x` in ASCII case.
pub open spec fn has_ascii_ci(items: Seq<Seq<char>>, x: Seq<char>) -> bool {
    exists|j: int| 0 <= j < items.len() && crate::text::ascii_lower(items[j]) == crate::text::ascii_lower(x)
}

/// Each incoming tag, trimmed, appended unless blank or already present in
/// ASCII case.
pub open spec fn merged_tags(base: Seq<Seq<char>>, incoming: Seq<Seq<char>>) -> Seq<Seq<char>>
    decreases incoming.len(),
{
    if incoming.len() == 0 {
        base
    } else {
        let acc = merged_tags(base, incoming.drop_last());
        let t = trim(incoming.last());
        if t.len() == 0 || has_ascii_ci(acc, t) {
            acc
        } else {
            acc.push(t)
        }
    }
}

/// Tags after merging downloaded tags into the edit form: nothing changes when
/// no tags came or merging is asked for but disabled; merge mode keeps the
/// form's tags, replace mode starts empty.
pub open spec fn tags_after_merge(tags: Seq<char>, incoming: Seq<Seq<char>>, merge_mode: bool, merge_enabled: bool) -> Seq<char> {
    if incoming.len() == 0 || (!merge_enabled && merge_mode) {
        tags
    } else {
        let base = if merge_mode { csv_items(tags) } else { Seq::<Seq<char>>::empty() };
        join(merged_tags(base, incoming), ", "@)
    }
}

fn has_ascii_ci_vec(items: &Vec<Vec<char>>, x: &Vec<char>) -> (r: bool)
    ensures
        r == has_ascii_ci(views(items@), x@),
{
    let mut i: usize = 0;
    while i < items.len()
        invariant
            i <= items.len(),
            forall|j: int| 0 <= j < i ==> crate::text::ascii_lower(views(items@)[j]) != crate::text::ascii_lower(x@),
        decreases items.len() - i,
    {
        if crate::text::eq_ignore_ascii_case(&items[i], x) {
            assert(crate::text::ascii_lower(views(items@)[i as int]) == crate::text::ascii_lower(x@));
            return true;
        }
        i += 1;
    }
    false
}

pub fn merge_tags_into_edit(tags: &mut String, incoming_tags: &Vec<String>, merge_mode: bool, merge_enabled: bool)
    ensures
        final(tags)@ == tags_after_merge(old(tags)@, string_views(incoming_tags@), merge_mode, merge_enabled),
{
    if incoming_tags.len() == 0 {
        return;
    }
    if !merge_enabled && merge_mode {
        return;
    }
    let mut acc: Vec<Vec<char>> = if merge_mode {
        let t = chars_of(tags.as_str());
        csv_items_vec(&t)
    } else {
        Vec::new()
    };
    let ghost base = views(acc@);
    let incoming = vecs_of(incoming_tags);
    let mut i: usize = 0;
    while i < incoming.len()
        invariant
            i <= incoming.len(),
            views(incoming@) == string_views(incoming_tags@),
            views(acc@) == merged_tags(base, views(incoming@).take(i as int)),
        decreases incoming.len() - i,
    {
        assert(views(incoming@).take(i + 1).drop_last() =~= views(incoming@).take(i as int));
        let t = trim_vec(&incoming[i]);
        if t.len() > 0 && !has_ascii_ci_vec(&acc, &t) {
            let ghost before = acc@;
            acc.push(t);
            assert(views(acc@) =~= views(before).push(t@));
        }
        i += 1;
    }
    assert(views(incoming@).take(incoming.len() as int) =~= views(incoming@));
    assert(views(acc@) == merged_tags(base, string_views(incoming_tags@)));
    assert(base == (if merge_mode { csv_items(old(tags)@) } else { Seq::<Seq<char>>::empty() }));
    let joined = join_with(&acc, ", ");
    assert(joined@ == tags_after_merge(old(tags)@, string_views(incoming_tags@), merge_mode, merge_enabled));
    *tags = string_of(&joined);
}

/// Whether some pair equals `(t, v)` in ASCII case.
pub open spec fn has_pair_ascii_ci(ps: Seq<(Seq<char>, Seq<char>)>, t: Seq<char>, v: Seq<char>) -> bool {
    exists|j: int|
        0 <= j < ps.len() && crate::text::ascii_lower(ps[j].0) == crate::text::ascii_lower(t)
            && crate::text::ascii_lower(ps[j].1) == crate::text::ascii_lower(v)
}

/// Each incoming identifier, trimmed, appended unless a part is blank or the
/// pair is already present in ASCII case.
pub open spec fn merged_identifiers(base: Seq<(Seq<char>, Seq<char>)>, incoming: Seq<(Seq<char>, Seq<char>)>) -> Seq<(Seq<char>, Seq<char>)>
    decreases incoming.len(),
{
    if incoming.len() == 0 {
        base
    } else {
        let acc = merged_identifiers(base, incoming.drop_last());
        let t = trim(incoming.last().0);
        let v = trim(incoming.last().1);
        if t.len() == 0 || v.len() == 0 || has_pair_ascii_ci(acc, t, v) {
            acc
        } else {
            acc.push((t, v))
        }
    }
}

/// Pairs written as `type:value` lines.
pub open spec fn identifier_lines(ps: Seq<(Seq<char>, Seq<char>)>) -> Seq<Seq<char>> {
    ps.map_values(|p: (Seq<char>, Seq<char>)| p.0 + ":"@ + p.1)
}

/// Identifier text after merging downloaded identifiers into the edit form.
pub open spec fn identifiers_after_merge(text: Seq<char>, isbn: Seq<char>, incoming: Seq<(Seq<char>, Seq<char>)>, merge_mode: bool, merge_enabled: bool) -> Seq<char> {
    if incoming.len() == 0 || (!merge_enabled && merge_mode) {
        text
    } else {
        let base = if merge_mode { parsed_identifiers(text, isbn) } else { Seq::<(Seq<char>, Seq<char>)>::empty() };
        join(identifier_lines(merged_identifiers(base, incoming)), "\n"@)
    }
}

pub fn merge_identifiers_into_edit(identifiers: &mut String, isbn: &str, incoming_identifiers: &Vec<(String, String)>, merge_mode: bool, merge_enabled: bool)
    ensures
        final(identifiers)@ == identifiers_after_merge(old(identifiers)@, isbn@, string_pair_views(incoming_identifiers@), merge_mode, merge_enabled),
{
    if incoming_identifiers.len() == 0 {
        return;
    }
    if !merge_enabled && merge_mode {
        return;
    }
    let mut acc: Vec<(Vec<char>, Vec<char>)> = if merge_mode {
        let t = chars_of(identifiers.as_str());
        let i = chars_of(isbn);
        parse_identifier_pairs(&t, &i)
    } else {
        Vec::new()
    };
    let ghost base = pair_views(acc@);
    let ghost inc = string_pair_views(incoming_identifiers@);
    let mut i: usize = 0;
    while i < incoming_identifiers.len()
        invariant
            i <= incoming_identifiers.len(),
            inc == string_pair_views(incoming_identifiers@),
            pair_views(acc@) == merged_identifiers(base, inc.take(i as int)),
        decreases incoming_identifiers.len() - i,
    {
        assert(inc.take(i + 1).drop_last() =~= inc.take(i as int));
        let t = trim_vec(&chars_of(incoming_identifiers[i].0.as_str()));
        let v = trim_vec(&chars_of(incoming_identifiers[i].1.as_str()));
        if t.len() > 0 && v.len() > 0 {
            let mut found = false;
            let mut j: usize = 0;
            while j < acc.len()
                invariant
                    j <= acc.len(),
                    found == exists|x: int|
                        0 <= x < j && crate::text::ascii_lower(pair_views(acc@)[x].0) == crate::text::ascii_lower(t@)
                            && crate::text::ascii_lower(pair_views(acc@)[x].1) == crate::text::ascii_lower(v@),
                decreases acc.len() - j,
            {
                if crate::text::eq_ignore_ascii_case(&acc[j].0, &t) && crate::text::eq_ignore_ascii_case(&acc[j].1, &v) {
                    found = true;
                }
                assert(pair_views(acc@)[j as int] == (acc@[j as int].0@, acc@[j as int].1@));
                j += 1;
            }
            if !found {
                let ghost before = acc@;
                acc.push((t, v));
                assert(pair_views(acc@) =~= pair_views(before).push((t@, v@)));
            }
        }
        i += 1;
    }
    assert(inc.take(incoming_identifiers.len() as int) =~= inc);
    let mut ls: Vec<Vec<char>> = Vec::new();
    let mut k: usize = 0;
    while k < acc.len()
        invariant
            k <= acc.len(),
            views(ls@) == identifier_lines(pair_views(acc@)).take(k as int),
        decreases acc.len() - k,
    {
        let mut l = acc[k].0.clone();
        append_str(&mut l, ":");
        append_vec(&mut l, &acc[k].1);
        let ghost before = ls@;
        ls.push(l);
        assert(views(ls@) =~= views(before).push(l@));
        assert(views(ls@) =~= identifier_lines(pair_views(acc@)).take(k + 1));
        k += 1;
    }
    assert(identifier_lines(pair_views(acc@)).take(acc.len() as int) =~= identifier_lines(pair_views(acc@)));
    assert(pair_views(acc@) == merged_identifiers(base, string_pair_views(incoming_identifiers@)));
    assert(base == (if merge_mode { parsed_identifiers(old(identifiers)@, isbn@) } else { Seq::<(Seq<char>, Seq<char>)>::empty() }));
    let joined = join_with(&ls, "\n");
    assert(joined@ == identifiers_after_merge(old(identifiers)@, isbn@, string_pair_views(incoming_identifiers@), merge_mode, merge_enabled));
    *identifiers = string_of(&joined);
}


/// The (year, month, day) that `time::OffsetDateTime::parse` reads from an
/// RFC 3339 date-time, or `None` when it rejects the text.
pub uninterp spec fn rfc3339_date(s: Seq<char>) -> Option<(int, int, int)>;

/// The (year, month, day) that `time::Date::parse` reads with the format
/// `[year]-[month]-[day]`, or `None` when it rejects the text.
pub uninterp spec fn ymd_date(s: Seq<char>) -> Option<(int, int, int)>;

/// A hexadecimal digit, in either case.
pub open spec fn is_hex_digit(c: char) -> bool {
    ('0' <= c <= '9') || ('a' <= c <= 'f') || ('A' <= c <= 'F')
}

/// Thirty-six characters: hexadecimal digits in groups of 8, 4, 4, 4 and 12,
/// joined by hyphens.
pub open spec fn hyphenated_uuid(s: Seq<char>) -> bool {
    &&& s.len() == 36
    &&& forall|i: int|
        0 <= i < 36 ==> if i == 8 || i == 13 || i == 18 || i == 23 {
            s[i] == '-'
        } else {
            is_hex_digit(#[trigger] s[i])
        }
}

/// The text forms of a UUID: 32 hexadecimal digits; the hyphenated form; the
/// hyphenated form in braces; or the hyphenated form after `urn:uuid:`, whose
/// letters may be in either case.
pub open spec fn uuid_parses(s: Seq<char>) -> bool {
    ||| s.len() == 32 && forall|i: int| 0 <= i < 32 ==> is_hex_digit(#[trigger] s[i])
    ||| hyphenated_uuid(s)
    ||| s.len() == 38 && s[0] == '{' && s[37] == '}' && hyphenated_uuid(s.subrange(1, 37))
    ||| s.len() == 45 && crate::text::ascii_lower(s.take(9)) == "urn:uuid:"@ && hyphenated_uuid(s.skip(9))
}

/// Calls `time::OffsetDateTime::parse` with the RFC 3339 format and keeps the
/// date; the result is named by `rfc3339_date`, and its month and day are in
/// the calendar's ranges (`time::Month` is January to December, days 1 to 31).
#[verifier::external_body]
fn parse_rfc3339_date(s: &str) -> (r: Option<(i32, u8, u8)>)
    ensures
        match r {
            Some(d) => rfc3339_date(s@) == Some((d.0 as int, d.1 as int, d.2 as int)) && 1 <= d.1 <= 12 && 1 <= d.2 <= 31,
            None => rfc3339_date(s@) is None,
        },
{
    match time::OffsetDateTime::parse(s, &time::format_description::well_known::Rfc3339) {
        Ok(dt) => Some((dt.year(), u8::from(dt.month()), dt.day())),
        Err(_) => None,
    }
}

/// Calls `time::Date::parse` with the format `[year]-[month]-[day]` (built by
/// `time::format_description::parse`); the result is named by `ymd_date`, with
/// month and day in the calendar's ranges.
#[verifier::external_body]
fn parse_ymd_date(s: &str) -> (r: Option<(i32, u8, u8)>)
    ensures
        match r {
            Some(d) => ymd_date(s@) == Some((d.0 as int, d.1 as int, d.2 as int)) && 1 <= d.1 <= 12 && 1 <= d.2 <= 31,
            None => ymd_date(s@) is None,
        },
{
    let Ok(format) = time::format_description::parse("[year]-[month]-[day]") else {
        return None;
    };
    match time::Date::parse(s, &format) {
        Ok(d) => Some((d.year(), u8::from(d.month()), d.day())),
        Err(_) => None,
    }
}

/// Calls `uuid::Uuid::parse_str`, which accepts exactly the forms of
/// `uuid_parses`: the input's length picks the form (32, 36, 38 or 45 bytes),
/// every accepted byte is ASCII, and the digits may be in either case.
#[verifier::external_body]
fn uuid_is_valid(s: &str) -> (r: bool)
    ensures
        r == uuid_parses(s@),
{
    uuid::Uuid::parse_str(s).is_ok()
}

/// Blank, an RFC 3339 date-time or a `YYYY-MM-DD` date.
pub open spec fn loose_date(value: Seq<char>) -> bool {
    let t = trim(value);
    t.len() == 0 || rfc3339_date(t) is Some || ymd_date(t) is Some
}

pub fn is_loose_date_or_datetime(value: &str) -> (r: bool)
    ensures
        r == loose_date(value@),
{
    let t = crate::text::trim_str(value);
    if t.as_str().is_empty() {
        return true;
    }
    if parse_rfc3339_date(t.as_str()).is_some() {
        return true;
    }
    parse_ymd_date(t.as_str()).is_some()
}

/// The date of a trimmed RFC 3339 date-time or `YYYY-MM-DD` text.
pub open spec fn date_parts(value: Seq<char>) -> Option<(int, int, int)> {
    let t = trim(value);
    if t.len() == 0 {
        None
    } else if rfc3339_date(t) is Some {
        rfc3339_date(t)
    } else {
        ymd_date(t)
    }
}

pub fn parse_date_parts(value: &str) -> (r: Option<(i32, u8, u8)>)
    ensures
        match r {
            Some(d) => date_parts(value@) == Some((d.0 as int, d.1 as int, d.2 as int)),
            None => date_parts(value@) is None,
        },
{
    let t = crate::text::trim_str(value);
    if t.as_str().is_empty() {
        return None;
    }
    match parse_rfc3339_date(t.as_str()) {
        Some(d) => Some(d),
        None => parse_ymd_date(t.as_str()),
    }
}

/// The text fields of the metadata edit form that validation reads.
pub struct EditText {
    pub title: String,
    pub authors: String,
    pub tags: String,
    pub languages: String,
    pub identifiers: String,
    pub uuid: String,
    pub pubdate: String,
    pub timestamp: String,
    pub last_modified: String,
}

pub open spec fn push_some(s: Seq<Seq<char>>, o: Option<Seq<char>>) -> Seq<Seq<char>> {
    match o {
        Some(m) => s.push(m),
        None => s,
    }
}

pub open spec fn push_if(s: Seq<Seq<char>>, cond: bool, m: Seq<char>) -> Seq<Seq<char>> {
    if cond {
        s.push(m)
    } else {
        s
    }
}

/// The problems of the edit form, in the order the form lists them.
pub open spec fn validation_issues(e: EditText) -> Seq<Seq<char>> {
    let s0 = push_if(Seq::<Seq<char>>::empty(), trim(e.title@).len() == 0, "title cannot be empty"@);
    let s1 = push_some(s0, duplicate_hint_text("authors"@, e.authors@));
    let s2 = push_some(s1, duplicate_hint_text("tags"@, e.tags@));
    let s3 = push_some(s2, language_hint_text(e.languages@));
    let s4 = push_some(s3, conflict_hint_text(e.identifiers@));
    let s5 = push_if(s4, trim(e.uuid@).len() > 0 && !uuid_parses(trim(e.uuid@)), "uuid must be a valid UUID"@);
    let s6 = push_if(s5, !loose_date(trim(e.pubdate@)), "publication date must be YYYY-MM-DD or RFC3339 datetime"@);
    let s7 = push_if(s6, !loose_date(trim(e.timestamp@)), "timestamp must be YYYY-MM-DD or RFC3339 datetime"@);
    push_if(s7, !loose_date(trim(e.last_modified@)), "last_modified must be YYYY-MM-DD or RFC3339 datetime"@)
}

fn push_msg(issues: &mut Vec<String>, m: &str)
    ensures
        string_views(final(issues)@) == string_views(old(issues)@).push(m@),
{
    let st = string_of(&chars_of(m));
    issues.push(st);
    assert(string_views(issues@) =~= string_views(old(issues)@).push(m@));
}

fn push_opt(issues: &mut Vec<String>, o: Option<String>)
    ensures
        string_views(final(issues)@) == match o {
            Some(m) => string_views(old(issues)@).push(m@),
            None => string_views(old(issues)@),
        },
{
    match o {
        Some(m) => {
            let ghost mv = m@;
            issues.push(m);
            assert(string_views(issues@) =~= string_views(old(issues)@).push(mv));
        },
        None => {},
    }
}

pub fn collect_edit_validation_issues(edit: &EditText) -> (r: Vec<String>)
    ensures
        string_views(r@) == validation_issues(*edit),
{
    let mut issues: Vec<String> = Vec::new();
    let ghost s0 = string_views(issues@);
    if crate::text::trim_str(edit.title.as_str()).as_str().is_empty() {
        push_msg(&mut issues, "title cannot be empty");
    }
    let ghost s1 = string_views(issues@);
    assert(s1 == push_if(Seq::<Seq<char>>::empty(), trim(edit.title@).len() == 0, "title cannot be empty"@));
    let d = duplicate_csv_hint("authors", edit.authors.as_str());
    push_opt(&mut issues, d);
    let d = duplicate_csv_hint("tags", edit.tags.as_str());
    push_opt(&mut issues, d);
    let d = language_hint(edit.languages.as_str());
    push_opt(&mut issues, d);
    let d = identifier_conflict_hint(edit.identifiers.as_str());
    push_opt(&mut issues, d);
    let u = crate::text::trim_str(edit.uuid.as_str());
    if !u.as_str().is_empty() && !uuid_is_valid(u.as_str()) {
        push_msg(&mut issues, "uuid must be a valid UUID");
    }
    let p = crate::text::trim_str(edit.pubdate.as_str());
    if !is_loose_date_or_datetime(p.as_str()) {
        push_msg(&mut issues, "publication date must be YYYY-MM-DD or RFC3339 datetime");
    }
    let t = crate::text::trim_str(edit.timestamp.as_str());
    if !is_loose_date_or_datetime(t.as_str()) {
        push_msg(&mut issues, "timestamp must be YYYY-MM-DD or RFC3339 datetime");
    }
    let l = crate::text::trim_str(edit.last_modified.as_str());
    if !is_loose_date_or_datetime(l.as_str()) {
        push_msg(&mut issues, "last_modified must be YYYY-MM-DD or RFC3339 datetime");
    }
    issues
}


/// What the edit form is filled from: a book's stored metadata.
#[derive(Clone, Debug)]
pub struct BookDetails {
    pub title: String,
    pub authors: Vec<String>,
    pub tags: Vec<String>,
    pub identifiers: Vec<(String, String)>,
    pub comment: Option<String>,
    pub author_sort: Option<String>,
    pub series_sort: Option<String>,
    pub series_name: Option<String>,
    pub publisher: Option<String>,
    pub languages: Vec<String>,
    pub timestamp: Option<String>,
    pub pubdate: Option<String>,
    pub last_modified: Option<String>,
    pub rating: Option<i64>,
    pub uuid: Option<String>,
}

/// The metadata edit form, apart from the series index.
#[derive(Clone, Debug)]
pub struct EditForm {
    pub title: String,
    pub authors: String,
    pub tags: String,
    pub author_sort: String,
    pub series_sort: String,
    pub series_name: String,
    pub identifiers: String,
    pub isbn: String,
    pub comment: String,
    pub publisher: String,
    pub imprint: String,
    pub edition: String,
    pub rights: String,
    pub languages: String,
    pub timestamp: String,
    pub pubdate: String,
    pub pubdate_year: i32,
    pub pubdate_month: u8,
    pub pubdate_day: u8,
    pub last_modified: String,
    pub rating: i64,
    pub uuid: String,
}

/// The characters of an optional text, empty when absent.
pub open spec fn or_empty(o: Option<String>) -> Seq<char> {
    match o {
        Some(s) => s@,
        None => Seq::empty(),
    }
}

/// Identifier entries written `type:value`.
pub open spec fn identifier_lines_of(ids: Seq<(String, String)>) -> Seq<Seq<char>> {
    ids.map_values(|p: (String, String)| p.0@ + seq![':'] + p.1@)
}

/// Index of the first identifier whose type is `t` in any ASCII case, or -1.
pub open spec fn first_of_type(ids: Seq<(String, String)>, t: Seq<char>) -> int
    decreases ids.len(),
{
    if ids.len() == 0 {
        -1
    } else {
        let r = first_of_type(ids.drop_last(), t);
        if r >= 0 {
            r
        } else if ascii_lower(ids.last().0@) == ascii_lower(t) {
            ids.len() - 1
        } else {
            -1
        }
    }
}

/// Copies an optional text, empty when absent.
fn text_or_empty(o: &Option<String>) -> (r: String)
    ensures
        r@ == or_empty(*o),
{
    match o {
        Some(s) => s.clone(),
        None => String::new(),
    }
}

/// Joins texts with a separator.
fn join_texts(items: &Vec<String>, sep: &str) -> (r: String)
    ensures
        r@ == join(string_views(items@), sep@),
{
    let v = crate::text::vecs_of(items);
    string_of(&crate::text::join_with(&v, sep))
}

/// The edit form filled from a book's metadata: lists joined with `, `,
/// identifiers one `type:value` per line, the ISBN from the first identifier of
/// type `isbn` in any case, the publication date split into its parts (2000-01-01
/// when it does not read as a date), and blanks where nothing is stored.
pub fn edit_form_from_details(details: &BookDetails) -> (r: EditForm)
    ensures
        r.title@ == details.title@,
        r.authors@ == join(string_views(details.authors@), ", "@),
        r.tags@ == join(string_views(details.tags@), ", "@),
        r.author_sort@ == or_empty(details.author_sort),
        r.series_sort@ == or_empty(details.series_sort),
        r.series_name@ == or_empty(details.series_name),
        r.identifiers@ == join(identifier_lines_of(details.identifiers@), "\n"@),
        r.isbn@ == if first_of_type(details.identifiers@, "isbn"@) >= 0 {
            details.identifiers@[first_of_type(details.identifiers@, "isbn"@)].1@
        } else {
            Seq::empty()
        },
        r.comment@ == or_empty(details.comment),
        r.publisher@ == or_empty(details.publisher),
        r.imprint@.len() == 0 && r.edition@.len() == 0 && r.rights@.len() == 0,
        r.languages@ == join(string_views(details.languages@), ", "@),
        r.timestamp@ == or_empty(details.timestamp),
        r.pubdate@ == or_empty(details.pubdate),
        (r.pubdate_year as int, r.pubdate_month as int, r.pubdate_day as int) == match date_parts(
            or_empty(details.pubdate),
        ) {
            Some(d) => d,
            None => (2000, 1, 1),
        },
        r.last_modified@ == or_empty(details.last_modified),
        r.rating == match details.rating {
            Some(n) => n,
            None => 0,
        },
        r.uuid@ == or_empty(details.uuid),
{
    let isbn = match first_identifier_from_details(details, "isbn") {
        Some(v) => v,
        None => String::new(),
    };
    let mut lines: Vec<Vec<char>> = Vec::new();
    let mut k: usize = 0;
    while k < details.identifiers.len()
        invariant
            k <= details.identifiers@.len(),
            views(lines@) == identifier_lines_of(details.identifiers@).take(k as int),
        decreases details.identifiers.len() - k,
    {
        let mut line = chars_of(details.identifiers[k].0.as_str());
        line.push(':');
        crate::text::append_str(&mut line, details.identifiers[k].1.as_str());
        assert(line@ =~= details.identifiers@[k as int].0@ + seq![':'] + details.identifiers@[k as int].1@);
        let ghost before = views(lines@);
        lines.push(line);
        assert(views(lines@) =~= before.push(identifier_lines_of(details.identifiers@)[k as int]));
        assert(views(lines@) =~= identifier_lines_of(details.identifiers@).take(k + 1));
        k += 1;
    }
    assert(identifier_lines_of(details.identifiers@).take(details.identifiers@.len() as int)
        =~= identifier_lines_of(details.identifiers@));
    let pubdate = text_or_empty(&details.pubdate);
    let (pubdate_year, pubdate_month, pubdate_day) = match parse_date_parts(pubdate.as_str()) {
        Some(d) => d,
        None => (2000, 1, 1),
    };
    EditForm {
        title: details.title.clone(),
        authors: join_texts(&details.authors, ", "),
        tags: join_texts(&details.tags, ", "),
        author_sort: text_or_empty(&details.author_sort),
        series_sort: text_or_empty(&details.series_sort),
        series_name: text_or_empty(&details.series_name),
        identifiers: string_of(&crate::text::join_with(&lines, "\n")),
        isbn,
        comment: text_or_empty(&details.comment),
        publisher: text_or_empty(&details.publisher),
        imprint: String::new(),
        edition: String::new(),
        rights: String::new(),
        languages: join_texts(&details.languages, ", "),
        timestamp: text_or_empty(&details.timestamp),
        pubdate,
        pubdate_year,
        pubdate_month,
        pubdate_day,
        last_modified: text_or_empty(&details.last_modified),
        rating: match details.rating {
            Some(n) => n,
            None => 0,
        },
        uuid: text_or_empty(&details.uuid),
    }
}

/// The value of the first identifier whose type is `id_type` in any ASCII case.
pub fn first_identifier_from_details(details: &BookDetails, id_type: &str) -> (r: Option<String>)
    ensures
        match r {
            Some(v) => first_of_type(details.identifiers@, id_type@) >= 0
                && v@ == details.identifiers@[first_of_type(details.identifiers@, id_type@)].1@,
            None => first_of_type(details.identifiers@, id_type@) == -1,
        },
{
    let ids = &details.identifiers;
    let want = ascii_lower_vec(&chars_of(id_type));
    let mut i: usize = 0;
    assert(ids@.take(0) =~= Seq::<(String, String)>::empty());
    while i < ids.len()
        invariant
            i <= ids@.len(),
            ids@ == details.identifiers@,
            want@ == ascii_lower(id_type@),
            first_of_type(ids@.take(i as int), id_type@) == -1,
        decreases ids.len() - i,
    {
        assert(ids@.take(i + 1).drop_last() =~= ids@.take(i as int));
        let t = chars_of(ids[i].0.as_str());
        if crate::text::vec_eq(&ascii_lower_vec(&t), &want) {
            proof {
                lemma_first_of_type_prefix(ids@, id_type@, i + 1);
            }
            return Some(ids[i].1.clone());
        }
        i += 1;
    }
    assert(ids@.take(ids@.len() as int) =~= ids@);
    None
}

/// Once a prefix has an identifier of the type, the first one of the whole list is there.
proof fn lemma_first_of_type_prefix(ids: Seq<(String, String)>, t: Seq<char>, k: int)
    requires
        0 < k <= ids.len(),
        first_of_type(ids.take(k - 1), t) == -1,
        ascii_lower(ids[k - 1].0@) == ascii_lower(t),
    ensures
        first_of_type(ids, t) == k - 1,
    decreases ids.len() - k,
{
    if k < ids.len() {
        assert(ids.drop_last().take(k - 1) =~= ids.take(k - 1));
        assert(ids.drop_last()[k - 1] == ids[k - 1]);
        lemma_first_of_type_prefix(ids.drop_last(), t, k);
    } else {
        assert(ids.drop_last() =~= ids.take(k - 1));
    }
}

/// The fields that neither tidying nor conflict fixing touch are the same.
pub open spec fn same_fixed_fields(a: EditForm, b: EditForm) -> bool {
    &&& a.title == b.title
    &&& a.author_sort == b.author_sort
    &&& a.series_sort == b.series_sort
    &&& a.series_name == b.series_name
    &&& a.isbn == b.isbn
    &&& a.comment == b.comment
    &&& a.pubdate_year == b.pubdate_year
    &&& a.pubdate_month == b.pubdate_month
    &&& a.pubdate_day == b.pubdate_day
    &&& a.rating == b.rating
}

/// A date field left as it is when it reads as a date, else replaced.
pub open spec fn fixed_date(value: Seq<char>, replacement: Seq<char>) -> Seq<char> {
    if loose_date(trim(value)) {
        value
    } else {
        replacement
    }
}

impl EditForm {
    /// Tidies the list fields and trims the free-text ones: authors and tags as
    /// lists, languages as a lower-cased list, identifiers one per line, and
    /// publisher, imprint, edition and rights trimmed.
    pub fn normalize_fields(&mut self)
        ensures
            final(self).authors@ == normalized_csv(old(self).authors@, false),
            final(self).tags@ == normalized_csv(old(self).tags@, false),
            final(self).languages@ == normalized_csv(old(self).languages@, true),
            final(self).identifiers@ == normalized_identifier_text(old(self).identifiers@),
            final(self).publisher@ == trim(old(self).publisher@),
            final(self).imprint@ == trim(old(self).imprint@),
            final(self).edition@ == trim(old(self).edition@),
            final(self).rights@ == trim(old(self).rights@),
            final(self).uuid == old(self).uuid,
            final(self).pubdate == old(self).pubdate,
            final(self).timestamp == old(self).timestamp,
            final(self).last_modified == old(self).last_modified,
            same_fixed_fields(*final(self), *old(self)),
    {
        self.authors = normalize_csv_list(self.authors.as_str(), false);
        self.tags = normalize_csv_list(self.tags.as_str(), false);
        self.languages = normalize_csv_list(self.languages.as_str(), true);
        self.identifiers = normalize_identifier_lines(self.identifiers.as_str());
        self.publisher = crate::text::trim_str(self.publisher.as_str());
        self.imprint = crate::text::trim_str(self.imprint.as_str());
        self.edition = crate::text::trim_str(self.edition.as_str());
        self.rights = crate::text::trim_str(self.rights.as_str());
    }

    /// Resolves what validation would flag, with today's date, the current time
    /// (when it could be read) and a fresh UUID given: identifiers are deduplicated,
    /// a publication date or timestamp that does not read as a date becomes today,
    /// a last-modified that does not becomes the current time (today when there is
    /// none), and a UUID that does not parse becomes the fresh one.
    pub fn fix_conflicts(&mut self, today: &str, now: Option<String>, fresh_uuid: &str)
        ensures
            final(self).identifiers@ == normalized_identifier_text(old(self).identifiers@),
            final(self).pubdate@ == fixed_date(old(self).pubdate@, today@),
            final(self).timestamp@ == fixed_date(old(self).timestamp@, today@),
            final(self).last_modified@ == fixed_date(
                old(self).last_modified@,
                match now {
                    Some(t) => t@,
                    None => today@,
                },
            ),
            final(self).uuid@ == if uuid_parses(trim(old(self).uuid@)) {
                old(self).uuid@
            } else {
                fresh_uuid@
            },
            final(self).authors == old(self).authors,
            final(self).tags == old(self).tags,
            final(self).languages == old(self).languages,
            final(self).publisher == old(self).publisher,
            final(self).imprint == old(self).imprint,
            final(self).edition == old(self).edition,
            final(self).rights == old(self).rights,
            same_fixed_fields(*final(self), *old(self)),
    {
        self.identifiers = dedupe_identifier_lines(self.identifiers.as_str());
        if !is_loose_date_or_datetime(crate::text::trim_str(self.pubdate.as_str()).as_str()) {
            self.pubdate = string_of(&chars_of(today));
        }
        if !is_loose_date_or_datetime(crate::text::trim_str(self.timestamp.as_str()).as_str()) {
            self.timestamp = string_of(&chars_of(today));
        }
        if !is_loose_date_or_datetime(crate::text::trim_str(self.last_modified.as_str()).as_str()) {
            self.last_modified = match now {
                Some(t) => t,
                None => string_of(&chars_of(today)),
            };
        }
        if !uuid_is_valid(crate::text::trim_str(self.uuid.as_str()).as_str()) {
            self.uuid = string_of(&chars_of(fresh_uuid));
        }
    }

    /// The fields validation reads.
    pub fn validation_text(&self) -> (r: EditText)
        ensures
            r.title@ == self.title@ && r.authors@ == self.authors@ && r.tags@ == self.tags@,
            r.languages@ == self.languages@ && r.identifiers@ == self.identifiers@,
            r.uuid@ == self.uuid@ && r.pubdate@ == self.pubdate@ && r.timestamp@ == self.timestamp@,
            r.last_modified@ == self.last_modified@,
    {
        EditText {
            title: self.title.clone(),
            authors: self.authors.clone(),
            tags: self.tags.clone(),
            languages: self.languages.clone(),
            identifiers: self.identifiers.clone(),
            uuid: self.uuid.clone(),
            pubdate: self.pubdate.clone(),
            timestamp: self.timestamp.clone(),
            last_modified: self.last_modified.clone(),
        }
    }
}

/// A changed field: its name, the value before and the value after.
pub type DiffRow = (&'static str, String, String);

/// The plain contents of changed-field rows.
pub open spec fn diff_views(rows: Seq<DiffRow>) -> Seq<(Seq<char>, Seq<char>, Seq<char>)> {
    rows.map_values(|r: DiffRow| (r.0@, r.1@, r.2@))
}

/// One row when the values differ, none when they agree.
pub open spec fn diff_entry(name: Seq<char>, a: Seq<char>, b: Seq<char>) -> Seq<(Seq<char>, Seq<char>, Seq<char>)> {
    if a != b {
        seq![(name, a, b)]
    } else {
        Seq::empty()
    }
}

/// The fields an edit changed, in the form's order; the series index, which the
/// form keeps apart, comes after the series when it changed.
pub open spec fn edit_diff_of(
    before: EditForm,
    after: EditForm,
    series_index_change: Option<(Seq<char>, Seq<char>)>,
) -> Seq<(Seq<char>, Seq<char>, Seq<char>)> {
    let series_index = match series_index_change {
        Some((a, b)) => seq![("series_index"@, a, b)],
        None => Seq::empty(),
    };
    diff_entry("title"@, before.title@, after.title@) + diff_entry("authors"@, before.authors@, after.authors@)
        + diff_entry("author_sort"@, before.author_sort@, after.author_sort@) + diff_entry(
        "series_sort"@,
        before.series_sort@,
        after.series_sort@,
    ) + diff_entry("tags"@, before.tags@, after.tags@) + diff_entry("series"@, before.series_name@, after.series_name@)
        + series_index + diff_entry("identifiers"@, before.identifiers@, after.identifiers@) + diff_entry(
        "isbn"@,
        before.isbn@,
        after.isbn@,
    ) + diff_entry("publisher"@, before.publisher@, after.publisher@) + diff_entry(
        "imprint"@,
        before.imprint@,
        after.imprint@,
    ) + diff_entry("edition"@, before.edition@, after.edition@) + diff_entry("rights"@, before.rights@, after.rights@)
        + diff_entry("languages"@, before.languages@, after.languages@) + diff_entry(
        "timestamp"@,
        before.timestamp@,
        after.timestamp@,
    ) + diff_entry("pubdate"@, before.pubdate@, after.pubdate@) + diff_entry(
        "last_modified"@,
        before.last_modified@,
        after.last_modified@,
    ) + diff_entry(
        "rating"@,
        crate::text::int_digits(before.rating as int),
        crate::text::int_digits(after.rating as int),
    ) + diff_entry("uuid"@, before.uuid@, after.uuid@) + diff_entry("comment"@, before.comment@, after.comment@)
}

/// Every field the diff compares, apart from the title, is the same.
pub open spec fn same_but_title(a: EditForm, b: EditForm) -> bool {
    &&& a.authors@ == b.authors@
    &&& a.author_sort@ == b.author_sort@
    &&& a.series_sort@ == b.series_sort@
    &&& a.tags@ == b.tags@
    &&& a.series_name@ == b.series_name@
    &&& a.identifiers@ == b.identifiers@
    &&& a.isbn@ == b.isbn@
    &&& a.publisher@ == b.publisher@
    &&& a.imprint@ == b.imprint@
    &&& a.edition@ == b.edition@
    &&& a.rights@ == b.rights@
    &&& a.languages@ == b.languages@
    &&& a.timestamp@ == b.timestamp@
    &&& a.pubdate@ == b.pubdate@
    &&& a.last_modified@ == b.last_modified@
    &&& a.rating == b.rating
    &&& a.uuid@ == b.uuid@
    &&& a.comment@ == b.comment@
}

/// The diff lists exactly the fields that changed: a form compared with itself
/// gives no row, and a form whose title alone changed gives the one title row.
pub proof fn lemma_edit_diff_exact(e: EditForm, f: EditForm)
    ensures
        edit_diff_of(e, e, None) == Seq::<(Seq<char>, Seq<char>, Seq<char>)>::empty(),
        same_but_title(e, f) && e.title@ != f.title@ ==> edit_diff_of(e, f, None) == seq![
            ("title"@, e.title@, f.title@),
        ],
{
    assert(edit_diff_of(e, e, None) =~= Seq::<(Seq<char>, Seq<char>, Seq<char>)>::empty());
    if same_but_title(e, f) && e.title@ != f.title@ {
        assert(edit_diff_of(e, f, None) =~= seq![("title"@, e.title@, f.title@)]);
    }
}

fn push_diff(rows: &mut Vec<DiffRow>, name: &'static str, a: &str, b: &str)
    ensures
        diff_views(final(rows)@) == diff_views(old(rows)@) + diff_entry(name@, a@, b@),
{
    if !crate::text::str_eq(a, b) {
        let ghost before = diff_views(rows@);
        rows.push((name, a.to_owned(), b.to_owned()));
        assert(diff_views(rows@) =~= before + diff_entry(name@, a@, b@));
    } else {
        assert(diff_views(rows@) =~= diff_views(rows@) + diff_entry(name@, a@, b@));
    }
}

/// The rows of the fields an edit changed; `series_index_change` holds the
/// series index before and after, written out, when it changed.
pub fn edit_diff_rows(before: &EditForm, after: &EditForm, series_index_change: Option<(String, String)>) -> (r: Vec<DiffRow>)
    ensures
        diff_views(r@) == edit_diff_of(
            *before,
            *after,
            match series_index_change {
                Some((a, b)) => Some((a@, b@)),
                None => None,
            },
        ),
{
    let mut rows: Vec<DiffRow> = Vec::new();
    assert(diff_views(rows@) =~= Seq::<(Seq<char>, Seq<char>, Seq<char>)>::empty());
    push_diff(&mut rows, "title", before.title.as_str(), after.title.as_str());
    push_diff(&mut rows, "authors", before.authors.as_str(), after.authors.as_str());
    push_diff(&mut rows, "author_sort", before.author_sort.as_str(), after.author_sort.as_str());
    push_diff(&mut rows, "series_sort", before.series_sort.as_str(), after.series_sort.as_str());
    push_diff(&mut rows, "tags", before.tags.as_str(), after.tags.as_str());
    push_diff(&mut rows, "series", before.series_name.as_str(), after.series_name.as_str());
    let ghost mid = diff_views(rows@);
    match series_index_change {
        Some((a, b)) => {
            let ghost row = ("series_index"@, a@, b@);
            rows.push(("series_index", a, b));
            assert(diff_views(rows@) =~= mid + seq![row]);
        },
        None => {
            assert(diff_views(rows@) =~= mid + Seq::empty());
        },
    }
    push_diff(&mut rows, "identifiers", before.identifiers.as_str(), after.identifiers.as_str());
    push_diff(&mut rows, "isbn", before.isbn.as_str(), after.isbn.as_str());
    push_diff(&mut rows, "publisher", before.publisher.as_str(), after.publisher.as_str());
    push_diff(&mut rows, "imprint", before.imprint.as_str(), after.imprint.as_str());
    push_diff(&mut rows, "edition", before.edition.as_str(), after.edition.as_str());
    push_diff(&mut rows, "rights", before.rights.as_str(), after.rights.as_str());
    push_diff(&mut rows, "languages", before.languages.as_str(), after.languages.as_str());
    push_diff(&mut rows, "timestamp", before.timestamp.as_str(), after.timestamp.as_str());
    push_diff(&mut rows, "pubdate", before.pubdate.as_str(), after.pubdate.as_str());
    push_diff(&mut rows, "last_modified", before.last_modified.as_str(), after.last_modified.as_str());
    let ra = crate::text::string_of(&crate::text::i64_digits(before.rating));
    let rb = crate::text::string_of(&crate::text::i64_digits(after.rating));
    push_diff(&mut rows, "rating", ra.as_str(), rb.as_str());
    push_diff(&mut rows, "uuid", before.uuid.as_str(), after.uuid.as_str());
    push_diff(&mut rows, "comment", before.comment.as_str(), after.comment.as_str());
    rows
}

/// Digits padded on the left with zeros to `width` characters.
pub open spec fn zero_padded(digits: Seq<char>, width: nat) -> Seq<char> {
    if digits.len() >= width {
        digits
    } else {
        Seq::new((width - digits.len()) as nat, |i: int| '0') + digits
    }
}

/// `{:0w}` of an integer: zeros after the sign, the whole at least `w` wide.
pub open spec fn padded_int(n: int, width: nat) -> Seq<char> {
    if n < 0 {
        seq!['-'] + zero_padded(crate::text::nat_digits((-n) as nat), if width > 0 { (width - 1) as nat } else { 0 })
    } else {
        zero_padded(crate::text::nat_digits(n as nat), width)
    }
}

fn pad_zeros(digits: Vec<char>, width: usize) -> (r: Vec<char>)
    ensures
        r@ == zero_padded(digits@, width as nat),
{
    if digits.len() >= width {
        return digits;
    }
    let mut out: Vec<char> = Vec::new();
    let fill = width - digits.len();
    let mut i: usize = 0;
    while i < fill
        invariant
            i <= fill,
            out@ == Seq::new(i as nat, |k: int| '0'),
        decreases fill - i,
    {
        out.push('0');
        assert(out@ =~= Seq::new((i + 1) as nat, |k: int| '0'));
        i += 1;
    }
    crate::text::append_vec(&mut out, &digits);
    out
}

fn padded(n: i64, width: usize) -> (r: Vec<char>)
    ensures
        r@ == padded_int(n as int, width as nat),
{
    if n < 0 {
        let m: u64 = (0i128 - (n as i128)) as u64;
        let mut out: Vec<char> = Vec::new();
        out.push('-');
        let rest = pad_zeros(crate::text::u64_digits(m), if width > 0 { width - 1 } else { 0 });
        crate::text::append_vec(&mut out, &rest);
        out
    } else {
        pad_zeros(crate::text::u64_digits(n as u64), width)
    }
}

/// The publication date written from the form's year, month and day:
/// `YYYY-MM-DD`, each part zero-padded.
pub fn compose_pubdate(year: i32, month: u8, day: u8) -> (r: String)
    ensures
        r@ == padded_int(year as int, 4) + seq!['-'] + padded_int(month as int, 2) + seq!['-'] + padded_int(day as int, 2),
{
    let mut out = padded(year as i64, 4);
    out.push('-');
    crate::text::append_vec(&mut out, &padded(month as i64, 2));
    out.push('-');
    crate::text::append_vec(&mut out, &padded(day as i64, 2));
    string_of(&out)
}

} // verus!
