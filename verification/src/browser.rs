use crate::text::{
    append_str, append_vec, chars_of, find_char, first_index, lemma_first_index_unique,
    replace_all, replace_vec, slice_vec, string_of, vec_eq_str,
};
use vstd::prelude::*;

verus! {

/// A category of the tag browser.
#[derive(Clone, Copy, Debug, PartialEq, Eq, Structural)]
pub enum BrowserCategory {
    Authors,
    Tags,
    Series,
    Publishers,
    Ratings,
    Languages,
}

/// Order of the entries of a browser category.
#[derive(Clone, Copy, Debug, PartialEq, Eq, Structural)]
pub enum BrowserSort {
    Name,
    Count,
}

/// Whether a browser filter keeps or drops the books it matches.
#[derive(Clone, Copy, Debug, PartialEq, Eq, Structural)]
pub enum BrowserFilterMode {
    Include,
    Exclude,
}

/// A filter picked in the tag browser.
#[derive(Clone, Debug)]
pub struct BrowserFilter {
    pub category: BrowserCategory,
    pub value: String,
    pub mode: BrowserFilterMode,
}

/// The plain contents of a browser filter.
pub struct FilterView {
    pub category: BrowserCategory,
    pub mode: BrowserFilterMode,
    pub value: Seq<char>,
}

impl View for BrowserFilter {
    type V = FilterView;

    open spec fn view(&self) -> FilterView {
        FilterView { category: self.category, mode: self.mode, value: self.value@ }
    }
}

/// Views of a list of filters.
pub open spec fn filter_views(fs: Seq<BrowserFilter>) -> Seq<FilterView> {
    fs.map_values(|f: BrowserFilter| f@)
}

/// Display label of a category.
pub open spec fn category_label(c: BrowserCategory) -> Seq<char> {
    match c {
        BrowserCategory::Authors => "Authors"@,
        BrowserCategory::Tags => "Tags"@,
        BrowserCategory::Series => "Series"@,
        BrowserCategory::Publishers => "Publishers"@,
        BrowserCategory::Ratings => "Ratings"@,
        BrowserCategory::Languages => "Languages"@,
    }
}

/// Storage key of a category.
pub open spec fn category_key(c: BrowserCategory) -> Seq<char> {
    match c {
        BrowserCategory::Authors => "authors"@,
        BrowserCategory::Tags => "tags"@,
        BrowserCategory::Series => "series"@,
        BrowserCategory::Publishers => "publishers"@,
        BrowserCategory::Ratings => "ratings"@,
        BrowserCategory::Languages => "languages"@,
    }
}

impl BrowserCategory {
    pub fn label(self) -> (r: &'static str)
        ensures
            r@ == category_label(self),
    {
        match self {
            BrowserCategory::Authors => "Authors",
            BrowserCategory::Tags => "Tags",
            BrowserCategory::Series => "Series",
            BrowserCategory::Publishers => "Publishers",
            BrowserCategory::Ratings => "Ratings",
            BrowserCategory::Languages => "Languages",
        }
    }

    pub fn key(self) -> (r: &'static str)
        ensures
            r@ == category_key(self),
    {
        match self {
            BrowserCategory::Authors => "authors",
            BrowserCategory::Tags => "tags",
            BrowserCategory::Series => "series",
            BrowserCategory::Publishers => "publishers",
            BrowserCategory::Ratings => "ratings",
            BrowserCategory::Languages => "languages",
        }
    }
}

impl BrowserSort {
    pub fn label(self) -> (r: &'static str)
        ensures
            r@ == (match self {
                BrowserSort::Name => "Name"@,
                BrowserSort::Count => "Count"@,
            }),
    {
        match self {
            BrowserSort::Name => "Name",
            BrowserSort::Count => "Count",
        }
    }
}

/// Storage word of a filter mode.
pub open spec fn filter_mode_key(m: BrowserFilterMode) -> Seq<char> {
    match m {
        BrowserFilterMode::Include => "include"@,
        BrowserFilterMode::Exclude => "exclude"@,
    }
}

pub fn filter_mode_word(m: BrowserFilterMode) -> (r: &'static str)
    ensures
        r@ == filter_mode_key(m),
{
    match m {
        BrowserFilterMode::Include => "include",
        BrowserFilterMode::Exclude => "exclude",
    }
}

/// The category a storage key names.
pub open spec fn category_from(s: Seq<char>) -> Option<BrowserCategory> {
    if s == "authors"@ {
        Some(BrowserCategory::Authors)
    } else if s == "tags"@ {
        Some(BrowserCategory::Tags)
    } else if s == "series"@ {
        Some(BrowserCategory::Series)
    } else if s == "publishers"@ {
        Some(BrowserCategory::Publishers)
    } else if s == "ratings"@ {
        Some(BrowserCategory::Ratings)
    } else if s == "languages"@ {
        Some(BrowserCategory::Languages)
    } else {
        None
    }
}

/// The filter mode a storage word names.
pub open spec fn filter_mode_from(s: Seq<char>) -> Option<BrowserFilterMode> {
    if s == "include"@ {
        Some(BrowserFilterMode::Include)
    } else if s == "exclude"@ {
        Some(BrowserFilterMode::Exclude)
    } else {
        None
    }
}

pub fn category_from_vec(v: &Vec<char>) -> (r: Option<BrowserCategory>)
    ensures
        r == category_from(v@),
{
    if vec_eq_str(v, "authors") {
        return Some(BrowserCategory::Authors);
    }
    if vec_eq_str(v, "tags") {
        return Some(BrowserCategory::Tags);
    }
    if vec_eq_str(v, "series") {
        return Some(BrowserCategory::Series);
    }
    if vec_eq_str(v, "publishers") {
        return Some(BrowserCategory::Publishers);
    }
    if vec_eq_str(v, "ratings") {
        return Some(BrowserCategory::Ratings);
    }
    if vec_eq_str(v, "languages") {
        return Some(BrowserCategory::Languages);
    }
    None
}

pub fn filter_mode_from_vec(v: &Vec<char>) -> (r: Option<BrowserFilterMode>)
    ensures
        r == filter_mode_from(v@),
{
    if vec_eq_str(v, "include") {
        Some(BrowserFilterMode::Include)
    } else if vec_eq_str(v, "exclude") {
        Some(BrowserFilterMode::Exclude)
    } else {
        None
    }
}

/// `"+ Tags: value"` for an included filter, `"- Tags: value"` for an excluded one.
pub open spec fn filter_label(f: FilterView) -> Seq<char> {
    (if f.mode == BrowserFilterMode::Include { "+"@ } else { "-"@ }) + " "@ + category_label(
        f.category,
    ) + ": "@ + f.value
}

impl BrowserFilter {
    /// A copy with the same category, mode and value.
    pub fn duplicate(&self) -> (r: BrowserFilter)
        ensures
            r@ == self@,
    {
        BrowserFilter { category: self.category, value: self.value.clone(), mode: self.mode }
    }

    pub fn label(&self) -> (r: String)
        ensures
            r@ == filter_label(self@),
    {
        let mut out: Vec<char> = Vec::new();
        let prefix = match self.mode {
            BrowserFilterMode::Include => "+",
            BrowserFilterMode::Exclude => "-",
        };
        append_str(&mut out, prefix);
        append_str(&mut out, " ");
        append_str(&mut out, self.category.label());
        append_str(&mut out, ": ");
        append_str(&mut out, self.value.as_str());
        string_of(&out)
    }
}

/// The stored form of a filter: `category|mode|value`, with each `|` of the
/// value written as `\|`.
pub open spec fn encode_filter(f: FilterView) -> Seq<char> {
    category_key(f.category) + "|"@ + filter_mode_key(f.mode) + "|"@ + replace_all(
        f.value,
        "|"@,
        "\\|"@,
    )
}

/// A stored filter read back: split at the first two `|`, the category and mode
/// words read, and each `\|` of the rest turned into `|`; `None` when a part is
/// missing or a word is unknown.
pub open spec fn decode_filter(s: Seq<char>) -> Option<FilterView> {
    let i1 = first_index(s, '|');
    if i1 < 0 {
        None
    } else {
        let rest = s.skip(i1 + 1);
        let i2 = first_index(rest, '|');
        if i2 < 0 {
            None
        } else {
            match (category_from(s.take(i1)), filter_mode_from(rest.take(i2))) {
                (Some(c), Some(m)) => Some(
                    FilterView {
                        category: c,
                        mode: m,
                        value: replace_all(rest.skip(i2 + 1), "\\|"@, "|"@),
                    },
                ),
                _ => None,
            }
        }
    }
}

pub fn encode_filter_entry(filter: &BrowserFilter) -> (r: String)
    ensures
        r@ == encode_filter(filter@),
{
    proof {
        reveal_strlit("|");
        reveal_strlit("\\|");
    }
    let mut out: Vec<char> = Vec::new();
    append_str(&mut out, filter.category.key());
    append_str(&mut out, "|");
    append_str(&mut out, filter_mode_word(filter.mode));
    append_str(&mut out, "|");
    let value = chars_of(filter.value.as_str());
    let pat = chars_of("|");
    let rep = chars_of("\\|");
    let escaped = replace_vec(&value, &pat, &rep);
    append_vec(&mut out, &escaped);
    string_of(&out)
}

pub fn decode_filter_entry_vec(v: &Vec<char>) -> (r: Option<BrowserFilter>)
    ensures
        match r {
            Some(f) => decode_filter(v@) == Some(f@),
            None => decode_filter(v@) is None,
        },
{
    proof {
        reveal_strlit("|");
        reveal_strlit("\\|");
    }
    let i1 = match find_char(v, '|') {
        Some(i) => i,
        None => return None,
    };
    let rest = slice_vec(v, i1 + 1, v.len());
    assert(rest@ =~= v@.skip(i1 + 1));
    let i2 = match find_char(&rest, '|') {
        Some(i) => i,
        None => return None,
    };
    let cat = slice_vec(v, 0, i1);
    assert(cat@ =~= v@.take(i1 as int));
    let mode = slice_vec(&rest, 0, i2);
    assert(mode@ =~= rest@.take(i2 as int));
    let raw = slice_vec(&rest, i2 + 1, rest.len());
    assert(raw@ =~= rest@.skip(i2 + 1));
    let pat = chars_of("\\|");
    let rep = chars_of("|");
    let value = replace_vec(&raw, &pat, &rep);
    let category = match category_from_vec(&cat) {
        Some(c) => c,
        None => return None,
    };
    let mode = match filter_mode_from_vec(&mode) {
        Some(m) => m,
        None => return None,
    };
    Some(BrowserFilter { category, value: string_of(&value), mode })
}

pub fn decode_filter_entry(value: &str) -> (r: Option<BrowserFilter>)
    ensures
        match r {
            Some(f) => decode_filter(value@) == Some(f@),
            None => decode_filter(value@) is None,
        },
{
    let v = chars_of(value);
    decode_filter_entry_vec(&v)
}

/// The escaped value never starts with `|`.
proof fn lemma_escape_head(v: Seq<char>)
    ensures
        replace_all(v, "|"@, "\\|"@).len() == 0 || replace_all(v, "|"@, "\\|"@)[0] != '|',
{
    reveal_strlit("|");
    reveal_strlit("\\|");
    if v.len() > 0 {
        if v.take(1) == "|"@ {
            assert(replace_all(v, "|"@, "\\|"@)[0] == '\\');
        } else {
            assert(v[0] != '|') by {
                if v[0] == '|' {
                    assert(v.take(1) =~= "|"@);
                }
            }
            assert(replace_all(v, "|"@, "\\|"@)[0] == v[0]);
        }
    }
}

/// Unescaping undoes escaping.
proof fn lemma_unescape_escape(v: Seq<char>)
    ensures
        replace_all(replace_all(v, "|"@, "\\|"@), "\\|"@, "|"@) == v,
    decreases v.len(),
{
    reveal_strlit("|");
    reveal_strlit("\\|");
    let pipe = "|"@;
    let esc = "\\|"@;
    if v.len() == 0 {
    } else if v.take(1) == pipe {
        let r = replace_all(v.skip(1), pipe, esc);
        lemma_unescape_escape(v.skip(1));
        let s = esc + r;
        assert(s.take(2) =~= esc);
        assert(s.skip(2) =~= r);
        assert(pipe + v.skip(1) =~= v);
    } else {
        let r = replace_all(v.drop_first(), pipe, esc);
        lemma_unescape_escape(v.drop_first());
        lemma_escape_head(v.drop_first());
        assert(v.drop_first() =~= v.skip(1));
        let s = seq![v[0]] + r;
        assert(!(esc.len() <= s.len() && s.take(2) == esc)) by {
            if esc.len() <= s.len() && s.take(2) == esc {
                assert(s.take(2)[1] == s[1]);
                assert(s[1] == r[0]);
            }
        }
        assert(s.drop_first() =~= r);
        assert(seq![v[0]] + v.drop_first() =~= v);
    }
}

/// Storage keys hold no `|`.
proof fn lemma_keys_no_pipe(c: BrowserCategory, m: BrowserFilterMode)
    ensures
        forall|j: int| 0 <= j < category_key(c).len() ==> category_key(c)[j] != '|',
        forall|j: int| 0 <= j < filter_mode_key(m).len() ==> filter_mode_key(m)[j] != '|',
{

    reveal_strlit("authors");
    reveal_strlit("tags");
    reveal_strlit("series");
    reveal_strlit("publishers");
    reveal_strlit("ratings");
    reveal_strlit("languages");
    reveal_strlit("include");
    reveal_strlit("exclude");
    assert forall|j: int| 0 <= j < category_key(c).len() implies category_key(c)[j] != '|' by {
        match c {
            BrowserCategory::Authors => {
                if j == 0 {} else if j == 1 {} else if j == 2 {} else if j == 3 {} else if j == 4 {} else if j == 5 {} else if j == 6 {}
            },
            BrowserCategory::Tags => {
                if j == 0 {} else if j == 1 {} else if j == 2 {} else if j == 3 {}
            },
            BrowserCategory::Series => {
                if j == 0 {} else if j == 1 {} else if j == 2 {} else if j == 3 {} else if j == 4 {} else if j == 5 {}
            },
            BrowserCategory::Publishers => {
                if j == 0 {} else if j == 1 {} else if j == 2 {} else if j == 3 {} else if j == 4 {} else if j == 5 {} else if j == 6 {} else if j == 7 {} else if j == 8 {} else if j == 9 {}
            },
            BrowserCategory::Ratings => {
                if j == 0 {} else if j == 1 {} else if j == 2 {} else if j == 3 {} else if j == 4 {} else if j == 5 {} else if j == 6 {}
            },
            BrowserCategory::Languages => {
                if j == 0 {} else if j == 1 {} else if j == 2 {} else if j == 3 {} else if j == 4 {} else if j == 5 {} else if j == 6 {} else if j == 7 {} else if j == 8 {}
            },
        }
    }
    assert forall|j: int| 0 <= j < filter_mode_key(m).len() implies filter_mode_key(m)[j] != '|' by {
        if j == 0 {} else if j == 1 {} else if j == 2 {} else if j == 3 {} else if j == 4 {} else if j == 5 {} else if j == 6 {}
    }
}

/// Reading a stored filter gives back the filter that was stored.
pub proof fn lemma_filter_roundtrip(f: FilterView)
    ensures
        decode_filter(encode_filter(f)) == Some(f),
{
    reveal_strlit("|");

    reveal_strlit("authors");
    reveal_strlit("tags");
    reveal_strlit("series");
    reveal_strlit("publishers");
    reveal_strlit("ratings");
    reveal_strlit("languages");
    reveal_strlit("include");
    reveal_strlit("exclude");
    assert("authors"@.len() == 7);
    assert("tags"@.len() == 4);
    assert("series"@.len() == 6);
    assert("publishers"@.len() == 10);
    assert("ratings"@.len() == 7);
    assert("languages"@.len() == 9);
    assert("include"@.len() == 7);
    assert("exclude"@.len() == 7);
    assert("authors"@[0] != "ratings"@[0]);
    assert("authors"@[0] != "include"@[0]);
    assert("authors"@[0] != "exclude"@[0]);
    assert("ratings"@[0] != "include"@[0]);
    assert("ratings"@[0] != "exclude"@[0]);
    assert("include"@[0] != "exclude"@[0]);
    lemma_keys_no_pipe(f.category, f.mode);
    let k = category_key(f.category);
    let m = filter_mode_key(f.mode);
    let e = replace_all(f.value, "|"@, "\\|"@);
    let s = encode_filter(f);
    assert(s =~= k + seq!['|'] + (m + seq!['|'] + e));
    assert(s[k.len() as int] == '|');
    assert forall|j: int| 0 <= j < k.len() implies s[j] != '|' by {
        assert(s[j] == k[j]);
    }
    lemma_first_index_unique(s, '|', k.len() as int);
    let rest = s.skip(k.len() + 1int);
    assert(rest =~= m + seq!['|'] + e);
    assert(rest[m.len() as int] == '|');
    assert forall|j: int| 0 <= j < m.len() implies rest[j] != '|' by {
        assert(rest[j] == m[j]);
    }
    lemma_first_index_unique(rest, '|', m.len() as int);
    assert(s.take(k.len() as int) =~= k);
    assert(rest.take(m.len() as int) =~= m);
    assert(rest.skip(m.len() + 1int) =~= e);
    lemma_unescape_escape(f.value);
}

/// Stored filters read back, unreadable entries dropped.
pub open spec fn decode_filters(entries: Seq<Seq<char>>) -> Seq<FilterView>
    decreases entries.len(),
{
    if entries.len() == 0 {
        Seq::<FilterView>::empty()
    } else {
        let rest = decode_filters(entries.drop_last());
        match decode_filter(entries.last()) {
            Some(f) => rest.push(f),
            None => rest,
        }
    }
}

/// Each filter stored.
pub open spec fn encode_filters(fs: Seq<FilterView>) -> Seq<Seq<char>> {
    fs.map_values(|f: FilterView| encode_filter(f))
}

pub fn encode_filter_list(filters: &Vec<BrowserFilter>) -> (r: Vec<String>)
    ensures
        crate::text::string_views(r@) == encode_filters(filter_views(filters@)),
{
    let mut out: Vec<String> = Vec::new();
    let mut i: usize = 0;
    while i < filters.len()
        invariant
            i <= filters.len(),
            crate::text::string_views(out@) == encode_filters(filter_views(filters@).take(i as int)),
        decreases filters.len() - i,
    {
        let e = encode_filter_entry(&filters[i]);
        let ghost before = out@;
        out.push(e);
        assert(crate::text::string_views(out@) =~= crate::text::string_views(before).push(e@));
        assert(crate::text::string_views(out@) =~= encode_filters(filter_views(filters@).take(i + 1)));
        i += 1;
    }
    assert(filter_views(filters@).take(filters.len() as int) =~= filter_views(filters@));
    out
}

pub fn decode_filter_list(entries: &Vec<String>) -> (r: Vec<BrowserFilter>)
    ensures
        filter_views(r@) == decode_filters(crate::text::string_views(entries@)),
{
    let mut out: Vec<BrowserFilter> = Vec::new();
    let mut i: usize = 0;
    while i < entries.len()
        invariant
            i <= entries.len(),
            filter_views(out@) == decode_filters(crate::text::string_views(entries@).take(i as int)),
        decreases entries.len() - i,
    {
        assert(crate::text::string_views(entries@).take(i + 1).drop_last() =~= crate::text::string_views(entries@).take(i as int));
        let d = decode_filter_entry(entries[i].as_str());
        match d {
            Some(f) => {
                out.push(f);
            },
            None => {},
        }
        assert(filter_views(out@) =~= decode_filters(crate::text::string_views(entries@).take(i + 1)));
        i += 1;
    }
    assert(crate::text::string_views(entries@).take(entries.len() as int) =~= crate::text::string_views(entries@));
    out
}

/// Reading back a stored list of filters gives the list that was stored.
pub proof fn lemma_filter_list_roundtrip(fs: Seq<FilterView>)
    ensures
        decode_filters(encode_filters(fs)) == fs,
    decreases fs.len(),
{
    if fs.len() > 0 {
        lemma_filter_list_roundtrip(fs.drop_last());
        lemma_filter_roundtrip(fs.last());
        assert(encode_filters(fs).drop_last() =~= encode_filters(fs.drop_last()));
        assert(fs.drop_last().push(fs.last()) =~= fs);
    } else {
        assert(encode_filters(fs) =~= Seq::<Seq<char>>::empty());
    }
}


/// Index of the first filter on `(c, v)`, or -1.
pub open spec fn find_filter(fs: Seq<FilterView>, c: BrowserCategory, v: Seq<char>) -> int
    decreases fs.len(),
{
    if fs.len() == 0 {
        -1
    } else {
        let r = find_filter(fs.drop_last(), c, v);
        if r >= 0 {
            r
        } else if fs.last().category == c && fs.last().value == v {
            fs.len() - 1
        } else {
            -1
        }
    }
}

pub proof fn lemma_find_filter(fs: Seq<FilterView>, c: BrowserCategory, v: Seq<char>)
    ensures
        -1 <= find_filter(fs, c, v) < fs.len(),
        find_filter(fs, c, v) >= 0 ==> fs[find_filter(fs, c, v)].category == c
            && fs[find_filter(fs, c, v)].value == v,
    decreases fs.len(),
{
    if fs.len() > 0 {
        lemma_find_filter(fs.drop_last(), c, v);
    }
}

pub proof fn lemma_find_filter_unique(fs: Seq<FilterView>, c: BrowserCategory, v: Seq<char>, i: int)
    requires
        0 <= i < fs.len(),
        fs[i].category == c && fs[i].value == v,
        forall|j: int| 0 <= j < i ==> !(fs[j].category == c && fs[j].value == v),
    ensures
        find_filter(fs, c, v) == i,
    decreases fs.len(),
{
    if fs.len() - 1 > i {
        lemma_find_filter_unique(fs.drop_last(), c, v, i);
    } else {
        lemma_find_filter_none(fs.drop_last(), c, v);
    }
}

pub proof fn lemma_find_filter_none(fs: Seq<FilterView>, c: BrowserCategory, v: Seq<char>)
    requires
        forall|j: int| 0 <= j < fs.len() ==> !(fs[j].category == c && fs[j].value == v),
    ensures
        find_filter(fs, c, v) == -1,
    decreases fs.len(),
{
    if fs.len() > 0 {
        lemma_find_filter_none(fs.drop_last(), c, v);
    }
}

/// Position of the first filter on `(category, value)`.
pub fn position_of_filter(filters: &Vec<BrowserFilter>, category: BrowserCategory, value: &str) -> (r: Option<usize>)
    ensures
        match r {
            Some(i) => i < filters.len() && i as int == find_filter(filter_views(filters@), category, value@),
            None => find_filter(filter_views(filters@), category, value@) == -1,
        },
{
    let ghost fs = filter_views(filters@);
    let mut i: usize = 0;
    while i < filters.len()
        invariant
            i <= filters.len(),
            fs == filter_views(filters@),
            forall|j: int| 0 <= j < i ==> !(fs[j].category == category && fs[j].value == value@),
        decreases filters.len() - i,
    {
        if filters[i].category == category && crate::text::str_eq(filters[i].value.as_str(), value) {
            proof {
                lemma_find_filter_unique(fs, category, value@, i as int);
            }
            return Some(i);
        }
        i += 1;
    }
    proof {
        lemma_find_filter_none(fs, category, value@);
    }
    None
}

/// The mode of the filter on `(category, value)`, if there is one.
pub fn browser_filter_mode(filters: &Vec<BrowserFilter>, category: BrowserCategory, value: &str) -> (r: Option<BrowserFilterMode>)
    ensures
        r == (if find_filter(filter_views(filters@), category, value@) >= 0 {
            Some(filter_views(filters@)[find_filter(filter_views(filters@), category, value@)].mode)
        } else {
            None
        }),
{
    match position_of_filter(filters, category, value) {
        Some(i) => Some(filters[i].mode),
        None => None,
    }
}

/// One click on a browser entry: an absent filter is added as included, an
/// included one becomes excluded, an excluded one is removed.
pub open spec fn cycle_filter(fs: Seq<FilterView>, c: BrowserCategory, v: Seq<char>) -> Seq<FilterView> {
    let i = find_filter(fs, c, v);
    if i < 0 {
        fs.push(FilterView { category: c, mode: BrowserFilterMode::Include, value: v })
    } else if fs[i].mode == BrowserFilterMode::Include {
        fs.update(i, FilterView { category: c, mode: BrowserFilterMode::Exclude, value: v })
    } else {
        fs.remove(i)
    }
}

pub fn cycle_browser_filter(filters: &mut Vec<BrowserFilter>, category: BrowserCategory, value: &str)
    ensures
        filter_views(final(filters)@) == cycle_filter(filter_views(old(filters)@), category, value@),
{
    let ghost fs = filter_views(filters@);
    proof {
        lemma_find_filter(fs, category, value@);
    }
    match position_of_filter(filters, category, value) {
        Some(pos) => {
            match filters[pos].mode {
                BrowserFilterMode::Include => {
                    let f = BrowserFilter {
                        category,
                        value: filters[pos].value.clone(),
                        mode: BrowserFilterMode::Exclude,
                    };
                    filters.set(pos, f);
                    assert(filter_views(filters@) =~= cycle_filter(fs, category, value@));
                },
                BrowserFilterMode::Exclude => {
                    filters.remove(pos);
                    assert(filter_views(filters@) =~= cycle_filter(fs, category, value@));
                },
            }
        },
        None => {
            let f = BrowserFilter {
                category,
                value: crate::text::string_of(&chars_of(value)),
                mode: BrowserFilterMode::Include,
            };
            filters.push(f);
            assert(filter_views(filters@) =~= cycle_filter(fs, category, value@));
        },
    }
}

/// Three clicks on an entry that has no filter leave the filters as they were.
pub proof fn lemma_cycle_three_times(fs: Seq<FilterView>, c: BrowserCategory, v: Seq<char>)
    requires
        find_filter(fs, c, v) < 0,
    ensures
        cycle_filter(cycle_filter(cycle_filter(fs, c, v), c, v), c, v) == fs,
{
    let n = fs.len() as int;
    let a = FilterView { category: c, mode: BrowserFilterMode::Include, value: v };
    let b = FilterView { category: c, mode: BrowserFilterMode::Exclude, value: v };
    let f1 = fs.push(a);
    assert(f1.drop_last() =~= fs);
    assert(find_filter(f1, c, v) == n);
    let f2 = f1.update(n, b);
    assert(f2 =~= fs.push(b));
    assert(f2.drop_last() =~= fs);
    assert(find_filter(f2, c, v) == n);
    assert(f2.remove(n) =~= fs);
}

/// The filters without those on `(c, v)`.
pub open spec fn without_filter(fs: Seq<FilterView>, c: BrowserCategory, v: Seq<char>) -> Seq<FilterView>
    decreases fs.len(),
{
    if fs.len() == 0 {
        fs
    } else {
        let rest = without_filter(fs.drop_last(), c, v);
        if fs.last().category == c && fs.last().value == v {
            rest
        } else {
            rest.push(fs.last())
        }
    }
}

/// The filters outside category `c`.
pub open spec fn without_category(fs: Seq<FilterView>, c: BrowserCategory) -> Seq<FilterView>
    decreases fs.len(),
{
    if fs.len() == 0 {
        fs
    } else {
        let rest = without_category(fs.drop_last(), c);
        if fs.last().category == c {
            rest
        } else {
            rest.push(fs.last())
        }
    }
}

/// Drops every filter on the same category and value as `filter`.
pub fn remove_browser_filter(filters: &mut Vec<BrowserFilter>, filter: &BrowserFilter)
    ensures
        filter_views(final(filters)@) == without_filter(filter_views(old(filters)@), filter.category, filter.value@),
{
    let ghost fs = filter_views(filters@);
    let mut out: Vec<BrowserFilter> = Vec::new();
    let mut i: usize = 0;
    while i < filters.len()
        invariant
            i <= filters.len(),
            fs == filter_views(filters@),
            filter_views(out@) == without_filter(fs.take(i as int), filter.category, filter.value@),
        decreases filters.len() - i,
    {
        assert(fs.take(i + 1).drop_last() =~= fs.take(i as int));
        let same = filters[i].category == filter.category && crate::text::str_eq(
            filters[i].value.as_str(),
            filter.value.as_str(),
        );
        if !same {
            out.push(filters[i].duplicate());
        }
        assert(filter_views(out@) =~= without_filter(fs.take(i + 1), filter.category, filter.value@));
        i += 1;
    }
    assert(fs.take(filters.len() as int) =~= fs);
    *filters = out;
}

/// A drill-down from the statistics panel: every filter of the category is
/// replaced by one including `value`.
pub open spec fn drilldown(fs: Seq<FilterView>, c: BrowserCategory, v: Seq<char>) -> Seq<FilterView> {
    without_category(fs, c).push(FilterView { category: c, mode: BrowserFilterMode::Include, value: v })
}

pub fn apply_stats_drilldown(filters: &mut Vec<BrowserFilter>, category: BrowserCategory, value: &str)
    ensures
        filter_views(final(filters)@) == drilldown(filter_views(old(filters)@), category, value@),
{
    let ghost fs = filter_views(filters@);
    let mut out: Vec<BrowserFilter> = Vec::new();
    let mut i: usize = 0;
    while i < filters.len()
        invariant
            i <= filters.len(),
            fs == filter_views(filters@),
            filter_views(out@) == without_category(fs.take(i as int), category),
        decreases filters.len() - i,
    {
        assert(fs.take(i + 1).drop_last() =~= fs.take(i as int));
        if filters[i].category != category {
            out.push(filters[i].duplicate());
        }
        assert(filter_views(out@) =~= without_category(fs.take(i + 1), category));
        i += 1;
    }
    assert(fs.take(filters.len() as int) =~= fs);
    out.push(BrowserFilter {
        category,
        value: crate::text::string_of(&chars_of(value)),
        mode: BrowserFilterMode::Include,
    });
    *filters = out;
}

/// Occurrences of `c` in `s`.
pub open spec fn count_char(s: Seq<char>, c: char) -> nat
    decreases s.len(),
{
    if s.len() == 0 {
        0
    } else {
        count_char(s.drop_last(), c) + if s.last() == c { 1nat } else { 0nat }
    }
}

/// Browser label of a category entry: tags nest at `/` and series at `:`,
/// and a nested entry is indented two spaces per level, six levels at most.
pub open spec fn hierarchical_label(category: BrowserCategory, name: Seq<char>) -> Seq<char> {
    let depth: nat = match category {
        BrowserCategory::Tags => count_char(name, '/'),
        BrowserCategory::Series => count_char(name, ':'),
        _ => 0,
    };
    let levels: nat = if depth < 6 { depth } else { 6 };
    Seq::new(2 * levels, |i: int| ' ') + name
}

pub fn hierarchical_category_label(category: BrowserCategory, name: &str) -> (r: String)
    ensures
        r@ == hierarchical_label(category, name@),
{
    let v = chars_of(name);
    let delim = match category {
        BrowserCategory::Tags => '/',
        BrowserCategory::Series => ':',
        _ => ' ',
    };
    let mut depth: usize = 0;
    if category == BrowserCategory::Tags || category == BrowserCategory::Series {
        let mut i: usize = 0;
        while i < v.len()
            invariant
                i <= v.len(),
                depth == count_char(v@.take(i as int), delim),
                depth <= i,
            decreases v.len() - i,
        {
            assert(v@.take(i + 1).drop_last() =~= v@.take(i as int));
            if v[i] == delim {
                depth += 1;
            }
            i += 1;
        }
        assert(v@.take(v.len() as int) =~= v@);
    }
    let levels = if depth < 6 { depth } else { 6 };
    let mut out: Vec<char> = Vec::new();
    let mut k: usize = 0;
    while k < 2 * levels
        invariant
            levels <= 6,
            k <= 2 * levels,
            out@ == Seq::new(k as nat, |i: int| ' '),
        decreases 2 * levels - k,
    {
        out.push(' ');
        assert(out@ =~= Seq::new((k + 1) as nat, |i: int| ' '));
        k += 1;
    }
    crate::text::append_vec(&mut out, &v);
    crate::text::string_of(&out)
}

/// Copies of some filters.
pub fn copy_filters(fs: &Vec<BrowserFilter>) -> (r: Vec<BrowserFilter>)
    ensures
        filter_views(r@) == filter_views(fs@),
{
    let mut out: Vec<BrowserFilter> = Vec::new();
    let mut i: usize = 0;
    while i < fs.len()
        invariant
            i <= fs@.len(),
            filter_views(out@) == filter_views(fs@).take(i as int),
        decreases fs.len() - i,
    {
        let ghost before = filter_views(out@);
        out.push(fs[i].duplicate());
        assert(filter_views(out@) =~= before.push(fs@[i as int]@));
        assert(filter_views(fs@).take(i + 1) =~= filter_views(fs@).take(i as int).push(fs@[i as int]@));
        i += 1;
    }
    assert(filter_views(fs@).take(fs@.len() as int) =~= filter_views(fs@));
    out
}

/// The position of the first entry named `name`, or -1.
pub open spec fn first_named<V>(entries: Seq<(String, V)>, name: Seq<char>) -> int
    decreases entries.len(),
{
    if entries.len() == 0 {
        -1
    } else if first_named(entries.drop_last(), name) >= 0 {
        first_named(entries.drop_last(), name)
    } else if entries.last().0@ == name {
        entries.len() - 1
    } else {
        -1
    }
}

proof fn lemma_first_named_found<V>(s: Seq<(String, V)>, name: Seq<char>, p: int)
    requires
        0 <= p < s.len(),
        s[p].0@ == name,
        first_named(s.take(p), name) == -1,
    ensures
        first_named(s, name) == p,
    decreases s.len(),
{
    if p < s.len() - 1 {
        assert(s.drop_last().take(p) =~= s.take(p));
        lemma_first_named_found(s.drop_last(), name, p);
    } else {
        assert(s.drop_last() =~= s.take(p));
    }
}

fn find_named<V>(entries: &Vec<(String, V)>, name: &str) -> (r: Option<usize>)
    ensures
        match r {
            Some(i) => i < entries@.len() && first_named(entries@, name@) == i,
            None => first_named(entries@, name@) == -1,
        },
{
    let key = chars_of(name);
    let mut i: usize = 0;
    assert(entries@.take(0) =~= Seq::<(String, V)>::empty());
    while i < entries.len()
        invariant
            i <= entries@.len(),
            key@ == name@,
            first_named(entries@.take(i as int), name@) == -1,
        decreases entries.len() - i,
    {
        if crate::text::vec_eq(&chars_of(entries[i].0.as_str()), &key) {
            proof {
                lemma_first_named_found(entries@, name@, i as int);
            }
            return Some(i);
        }
        assert(entries@.take(i + 1).drop_last() =~= entries@.take(i as int));
        i += 1;
    }
    assert(entries@.take(i as int) =~= entries@);
    None
}

/// Choosing a virtual library: the search of the first saved search of that
/// name, if any, and the filters kept for it (none when nothing is kept or no
/// library is chosen).
pub fn virtual_library_selection(
    selected: &Option<String>,
    saved_searches: &Vec<(String, String)>,
    library_filters: &Vec<(String, Vec<BrowserFilter>)>,
) -> (r: (Option<String>, Vec<BrowserFilter>))
    ensures
        match selected {
            Some(n) => {
                &&& crate::paths::opt_view(r.0) == if first_named(saved_searches@, n@) >= 0 {
                    Some(saved_searches@[first_named(saved_searches@, n@)].1@)
                } else {
                    None
                }
                &&& filter_views(r.1@) == if first_named(library_filters@, n@) >= 0 {
                    filter_views(library_filters@[first_named(library_filters@, n@)].1@)
                } else {
                    Seq::empty()
                }
            },
            None => r.0 is None && r.1@.len() == 0,
        },
{
    match selected {
        Some(n) => {
            let query = match find_named(saved_searches, n.as_str()) {
                Some(i) => Some(saved_searches[i].1.clone()),
                None => None,
            };
            let filters = match find_named(library_filters, n.as_str()) {
                Some(i) => copy_filters(&library_filters[i].1),
                None => {
                    let e: Vec<BrowserFilter> = Vec::new();
                    assert(filter_views(e@) =~= Seq::<FilterView>::empty());
                    e
                },
            };
            (query, filters)
        },
        None => (None, Vec::new()),
    }
}

/// Keeps the browser's filters under the virtual library in use: they replace
/// what the first entry of that name held, or are added under the name; with no
/// library in use nothing changes and `false` is returned.
pub fn persist_active_virtual_filters(
    library_filters: &mut Vec<(String, Vec<BrowserFilter>)>,
    active: &Option<String>,
    filters: &Vec<BrowserFilter>,
) -> (r: bool)
    ensures
        r == (active is Some),
        match active {
            Some(n) => {
                let i = first_named(old(library_filters)@, n@);
                if i >= 0 {
                    &&& final(library_filters)@.len() == old(library_filters)@.len()
                    &&& forall|j: int| 0 <= j < old(library_filters)@.len() && j != i ==> #[trigger] final(library_filters)@[j]
                        == old(library_filters)@[j]
                    &&& final(library_filters)@[i].0@ == n@
                    &&& filter_views(final(library_filters)@[i].1@) == filter_views(filters@)
                } else {
                    &&& final(library_filters)@.len() == old(library_filters)@.len() + 1
                    &&& final(library_filters)@.take(old(library_filters)@.len() as int) == old(library_filters)@
                    &&& final(library_filters)@.last().0@ == n@
                    &&& filter_views(final(library_filters)@.last().1@) == filter_views(filters@)
                }
            },
            None => final(library_filters)@ == old(library_filters)@,
        },
{
    match active {
        Some(n) => {
            let copy = copy_filters(filters);
            match find_named(library_filters, n.as_str()) {
                Some(i) => {
                    library_filters.set(i, (n.clone(), copy));
                },
                None => {
                    let ghost before = library_filters@;
                    library_filters.push((n.clone(), copy));
                    assert(library_filters@.take(before.len() as int) =~= before);
                },
            }
            true
        },
        None => false,
    }
}

} // verus!
