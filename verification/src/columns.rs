use crate::text::{chars_of, str_eq, string_views, vec_eq_str, views};
use vstd::prelude::*;

verus! {

/// Field by which the book list is ordered.
#[derive(Clone, Copy, Debug, PartialEq, Eq, Structural)]
pub enum SortMode {
    Title,
    Authors,
    Series,
    Tags,
    Formats,
    Rating,
    Publisher,
    Languages,
    DateAdded,
    DateModified,
    PubDate,
    Id,
}

/// Direction of the book list order.
#[derive(Clone, Copy, Debug, PartialEq, Eq, Structural)]
pub enum SortDirection {
    Asc,
    Desc,
}

/// A column of the book table.
#[derive(Clone, Copy, Debug, PartialEq, Eq, Structural)]
pub enum ColumnKey {
    Title,
    Cover,
    Authors,
    Series,
    Tags,
    Formats,
    Rating,
    Publisher,
    Languages,
    DateAdded,
    DateModified,
    PubDate,
}

/// How the library is laid out.
#[derive(Clone, Copy, Debug, PartialEq, Eq, Structural)]
pub enum ViewMode {
    Table,
    Grid,
    Shelf,
}

/// Row spacing of the table.
#[derive(Clone, Copy, Debug, PartialEq, Eq, Structural)]
pub enum ViewDensity {
    Compact,
    Comfortable,
}

/// Field by which rows are grouped.
#[derive(Clone, Copy, Debug, PartialEq, Eq, Structural)]
pub enum GroupMode {
    Flat,
    Series,
    Authors,
    Tags,
}

/// Side of the window a pane sits on.
#[derive(Clone, Copy, Debug, PartialEq, Eq, Structural)]
pub enum PaneSide {
    Left,
    Right,
}

/// Configuration key of a sort mode.
pub open spec fn sort_mode_key(m: SortMode) -> Seq<char> {
    match m {
        SortMode::Title => "title"@,
        SortMode::Authors => "authors"@,
        SortMode::Series => "series"@,
        SortMode::Tags => "tags"@,
        SortMode::Formats => "formats"@,
        SortMode::Rating => "rating"@,
        SortMode::Publisher => "publisher"@,
        SortMode::Languages => "languages"@,
        SortMode::DateAdded => "date_added"@,
        SortMode::DateModified => "date_modified"@,
        SortMode::PubDate => "pubdate"@,
        SortMode::Id => "id"@,
    }
}

/// Display label of a sort mode.
pub open spec fn sort_mode_label(m: SortMode) -> Seq<char> {
    match m {
        SortMode::Title => "Title"@,
        SortMode::Authors => "Authors"@,
        SortMode::Series => "Series"@,
        SortMode::Tags => "Tags"@,
        SortMode::Formats => "Formats"@,
        SortMode::Rating => "Rating"@,
        SortMode::Publisher => "Publisher"@,
        SortMode::Languages => "Languages"@,
        SortMode::DateAdded => "Added"@,
        SortMode::DateModified => "Modified"@,
        SortMode::PubDate => "Pubdate"@,
        SortMode::Id => "ID"@,
    }
}

impl SortMode {
    pub fn label(&self) -> (r: &'static str)
        ensures
            r@ == sort_mode_label(*self),
    {
        match self {
            SortMode::Title => "Title",
            SortMode::Authors => "Authors",
            SortMode::Series => "Series",
            SortMode::Tags => "Tags",
            SortMode::Formats => "Formats",
            SortMode::Rating => "Rating",
            SortMode::Publisher => "Publisher",
            SortMode::Languages => "Languages",
            SortMode::DateAdded => "Added",
            SortMode::DateModified => "Modified",
            SortMode::PubDate => "Pubdate",
            SortMode::Id => "ID",
        }
    }

    pub fn key(self) -> (r: &'static str)
        ensures
            r@ == sort_mode_key(self),
    {
        match self {
            SortMode::Title => "title",
            SortMode::Authors => "authors",
            SortMode::Series => "series",
            SortMode::Tags => "tags",
            SortMode::Formats => "formats",
            SortMode::Rating => "rating",
            SortMode::Publisher => "publisher",
            SortMode::Languages => "languages",
            SortMode::DateAdded => "date_added",
            SortMode::DateModified => "date_modified",
            SortMode::PubDate => "pubdate",
            SortMode::Id => "id",
        }
    }
}

/// The sort mode a configuration key names.
pub open spec fn sort_mode_from(s: Seq<char>) -> Option<SortMode> {
    if s == "title"@ {
        Some(SortMode::Title)
    } else if s == "authors"@ {
        Some(SortMode::Authors)
    } else if s == "series"@ {
        Some(SortMode::Series)
    } else if s == "tags"@ {
        Some(SortMode::Tags)
    } else if s == "formats"@ {
        Some(SortMode::Formats)
    } else if s == "rating"@ {
        Some(SortMode::Rating)
    } else if s == "publisher"@ {
        Some(SortMode::Publisher)
    } else if s == "languages"@ {
        Some(SortMode::Languages)
    } else if s == "date_added"@ {
        Some(SortMode::DateAdded)
    } else if s == "date_modified"@ {
        Some(SortMode::DateModified)
    } else if s == "pubdate"@ {
        Some(SortMode::PubDate)
    } else if s == "id"@ {
        Some(SortMode::Id)
    } else {
        None
    }
}

/// Reads a sort mode from its configuration key.
pub fn parse_sort_mode(value: &str) -> (r: Option<SortMode>)
    ensures
        r == sort_mode_from(value@),
{
    let v = chars_of(value);
    if vec_eq_str(&v, "title") {
        return Some(SortMode::Title);
    }
    if vec_eq_str(&v, "authors") {
        return Some(SortMode::Authors);
    }
    if vec_eq_str(&v, "series") {
        return Some(SortMode::Series);
    }
    if vec_eq_str(&v, "tags") {
        return Some(SortMode::Tags);
    }
    if vec_eq_str(&v, "formats") {
        return Some(SortMode::Formats);
    }
    if vec_eq_str(&v, "rating") {
        return Some(SortMode::Rating);
    }
    if vec_eq_str(&v, "publisher") {
        return Some(SortMode::Publisher);
    }
    if vec_eq_str(&v, "languages") {
        return Some(SortMode::Languages);
    }
    if vec_eq_str(&v, "date_added") {
        return Some(SortMode::DateAdded);
    }
    if vec_eq_str(&v, "date_modified") {
        return Some(SortMode::DateModified);
    }
    if vec_eq_str(&v, "pubdate") {
        return Some(SortMode::PubDate);
    }
    if vec_eq_str(&v, "id") {
        return Some(SortMode::Id);
    }
    None
}

/// Reading the key of a sort mode gives the mode back.
pub proof fn lemma_sort_mode_key_roundtrip(m: SortMode)
    ensures
        sort_mode_from(sort_mode_key(m)) == Some(m),
{
    reveal_strlit("title");
    reveal_strlit("authors");
    reveal_strlit("series");
    reveal_strlit("tags");
    reveal_strlit("formats");
    reveal_strlit("rating");
    reveal_strlit("publisher");
    reveal_strlit("languages");
    reveal_strlit("date_added");
    reveal_strlit("date_modified");
    reveal_strlit("pubdate");
    reveal_strlit("id");
    assert("title"@.len() == 5);
    assert("authors"@.len() == 7);
    assert("series"@.len() == 6);
    assert("tags"@.len() == 4);
    assert("formats"@.len() == 7);
    assert("rating"@.len() == 6);
    assert("publisher"@.len() == 9);
    assert("languages"@.len() == 9);
    assert("date_added"@.len() == 10);
    assert("date_modified"@.len() == 13);
    assert("pubdate"@.len() == 7);
    assert("id"@.len() == 2);
    assert("authors"@[0] != "formats"@[0]);
    assert("authors"@[0] != "pubdate"@[0]);
    assert("series"@[0] != "rating"@[0]);
    assert("formats"@[0] != "pubdate"@[0]);
    assert("publisher"@[0] != "languages"@[0]);
}

/// Configuration key of a column.
pub open spec fn column_key_str(k: ColumnKey) -> Seq<char> {
    match k {
        ColumnKey::Title => "title"@,
        ColumnKey::Cover => "cover"@,
        ColumnKey::Authors => "authors"@,
        ColumnKey::Series => "series"@,
        ColumnKey::Tags => "tags"@,
        ColumnKey::Formats => "formats"@,
        ColumnKey::Rating => "rating"@,
        ColumnKey::Publisher => "publisher"@,
        ColumnKey::Languages => "languages"@,
        ColumnKey::DateAdded => "date_added"@,
        ColumnKey::DateModified => "date_modified"@,
        ColumnKey::PubDate => "pubdate"@,
    }
}

/// Display label of a column.
pub open spec fn column_label(k: ColumnKey) -> Seq<char> {
    match k {
        ColumnKey::Title => "Title"@,
        ColumnKey::Cover => "Cover"@,
        ColumnKey::Authors => "Authors"@,
        ColumnKey::Series => "Series"@,
        ColumnKey::Tags => "Tags"@,
        ColumnKey::Formats => "Formats"@,
        ColumnKey::Rating => "Rating"@,
        ColumnKey::Publisher => "Publisher"@,
        ColumnKey::Languages => "Languages"@,
        ColumnKey::DateAdded => "Added"@,
        ColumnKey::DateModified => "Modified"@,
        ColumnKey::PubDate => "Pubdate"@,
    }
}

/// The sort mode a column header applies; the cover column has none.
pub open spec fn column_sort_mode(k: ColumnKey) -> Option<SortMode> {
    match k {
        ColumnKey::Cover => None,
        ColumnKey::Title => Some(SortMode::Title),
        ColumnKey::Authors => Some(SortMode::Authors),
        ColumnKey::Series => Some(SortMode::Series),
        ColumnKey::Tags => Some(SortMode::Tags),
        ColumnKey::Formats => Some(SortMode::Formats),
        ColumnKey::Rating => Some(SortMode::Rating),
        ColumnKey::Publisher => Some(SortMode::Publisher),
        ColumnKey::Languages => Some(SortMode::Languages),
        ColumnKey::DateAdded => Some(SortMode::DateAdded),
        ColumnKey::DateModified => Some(SortMode::DateModified),
        ColumnKey::PubDate => Some(SortMode::PubDate),
    }
}

impl ColumnKey {
    pub fn label(self) -> (r: &'static str)
        ensures
            r@ == column_label(self),
    {
        match self {
            ColumnKey::Title => "Title",
            ColumnKey::Cover => "Cover",
            ColumnKey::Authors => "Authors",
            ColumnKey::Series => "Series",
            ColumnKey::Tags => "Tags",
            ColumnKey::Formats => "Formats",
            ColumnKey::Rating => "Rating",
            ColumnKey::Publisher => "Publisher",
            ColumnKey::Languages => "Languages",
            ColumnKey::DateAdded => "Added",
            ColumnKey::DateModified => "Modified",
            ColumnKey::PubDate => "Pubdate",
        }
    }

    pub fn key(self) -> (r: &'static str)
        ensures
            r@ == column_key_str(self),
    {
        match self {
            ColumnKey::Title => "title",
            ColumnKey::Cover => "cover",
            ColumnKey::Authors => "authors",
            ColumnKey::Series => "series",
            ColumnKey::Tags => "tags",
            ColumnKey::Formats => "formats",
            ColumnKey::Rating => "rating",
            ColumnKey::Publisher => "publisher",
            ColumnKey::Languages => "languages",
            ColumnKey::DateAdded => "date_added",
            ColumnKey::DateModified => "date_modified",
            ColumnKey::PubDate => "pubdate",
        }
    }

    pub fn sort_mode(self) -> (r: Option<SortMode>)
        ensures
            r == column_sort_mode(self),
    {
        match self {
            ColumnKey::Cover => None,
            ColumnKey::Title => Some(SortMode::Title),
            ColumnKey::Authors => Some(SortMode::Authors),
            ColumnKey::Series => Some(SortMode::Series),
            ColumnKey::Tags => Some(SortMode::Tags),
            ColumnKey::Formats => Some(SortMode::Formats),
            ColumnKey::Rating => Some(SortMode::Rating),
            ColumnKey::Publisher => Some(SortMode::Publisher),
            ColumnKey::Languages => Some(SortMode::Languages),
            ColumnKey::DateAdded => Some(SortMode::DateAdded),
            ColumnKey::DateModified => Some(SortMode::DateModified),
            ColumnKey::PubDate => Some(SortMode::PubDate),
        }
    }
}

/// The column a configuration key names.
pub open spec fn column_key_from(s: Seq<char>) -> Option<ColumnKey> {
    if s == "title"@ {
        Some(ColumnKey::Title)
    } else if s == "cover"@ {
        Some(ColumnKey::Cover)
    } else if s == "authors"@ {
        Some(ColumnKey::Authors)
    } else if s == "series"@ {
        Some(ColumnKey::Series)
    } else if s == "tags"@ {
        Some(ColumnKey::Tags)
    } else if s == "formats"@ {
        Some(ColumnKey::Formats)
    } else if s == "rating"@ {
        Some(ColumnKey::Rating)
    } else if s == "publisher"@ {
        Some(ColumnKey::Publisher)
    } else if s == "languages"@ {
        Some(ColumnKey::Languages)
    } else if s == "date_added"@ {
        Some(ColumnKey::DateAdded)
    } else if s == "date_modified"@ {
        Some(ColumnKey::DateModified)
    } else if s == "pubdate"@ {
        Some(ColumnKey::PubDate)
    } else {
        None
    }
}

/// Reads a column from its configuration key.
pub fn parse_column_key_vec(v: &Vec<char>) -> (r: Option<ColumnKey>)
    ensures
        r == column_key_from(v@),
{
    if vec_eq_str(v, "title") {
        return Some(ColumnKey::Title);
    }
    if vec_eq_str(v, "cover") {
        return Some(ColumnKey::Cover);
    }
    if vec_eq_str(v, "authors") {
        return Some(ColumnKey::Authors);
    }
    if vec_eq_str(v, "series") {
        return Some(ColumnKey::Series);
    }
    if vec_eq_str(v, "tags") {
        return Some(ColumnKey::Tags);
    }
    if vec_eq_str(v, "formats") {
        return Some(ColumnKey::Formats);
    }
    if vec_eq_str(v, "rating") {
        return Some(ColumnKey::Rating);
    }
    if vec_eq_str(v, "publisher") {
        return Some(ColumnKey::Publisher);
    }
    if vec_eq_str(v, "languages") {
        return Some(ColumnKey::Languages);
    }
    if vec_eq_str(v, "date_added") {
        return Some(ColumnKey::DateAdded);
    }
    if vec_eq_str(v, "date_modified") {
        return Some(ColumnKey::DateModified);
    }
    if vec_eq_str(v, "pubdate") {
        return Some(ColumnKey::PubDate);
    }
    None
}

/// Reads a column from its configuration key.
pub fn parse_column_key(value: &str) -> (r: Option<ColumnKey>)
    ensures
        r == column_key_from(value@),
{
    let v = chars_of(value);
    parse_column_key_vec(&v)
}

/// Reading the key of a column gives the column back.
pub proof fn lemma_column_key_roundtrip(k: ColumnKey)
    ensures
        column_key_from(column_key_str(k)) == Some(k),
{
    reveal_strlit("title");
    reveal_strlit("cover");
    reveal_strlit("authors");
    reveal_strlit("series");
    reveal_strlit("tags");
    reveal_strlit("formats");
    reveal_strlit("rating");
    reveal_strlit("publisher");
    reveal_strlit("languages");
    reveal_strlit("date_added");
    reveal_strlit("date_modified");
    reveal_strlit("pubdate");
    assert("title"@.len() == 5);
    assert("cover"@.len() == 5);
    assert("authors"@.len() == 7);
    assert("series"@.len() == 6);
    assert("tags"@.len() == 4);
    assert("formats"@.len() == 7);
    assert("rating"@.len() == 6);
    assert("publisher"@.len() == 9);
    assert("languages"@.len() == 9);
    assert("date_added"@.len() == 10);
    assert("date_modified"@.len() == 13);
    assert("pubdate"@.len() == 7);
    assert("title"@[0] != "cover"@[0]);
    assert("authors"@[0] != "formats"@[0]);
    assert("authors"@[0] != "pubdate"@[0]);
    assert("series"@[0] != "rating"@[0]);
    assert("formats"@[0] != "pubdate"@[0]);
    assert("publisher"@[0] != "languages"@[0]);
}

/// The table's columns in their default order.
pub open spec fn default_columns() -> Seq<ColumnKey> {
    seq![
        ColumnKey::Title,
        ColumnKey::Cover,
        ColumnKey::Authors,
        ColumnKey::Series,
        ColumnKey::Tags,
        ColumnKey::Formats,
        ColumnKey::Rating,
        ColumnKey::Publisher,
        ColumnKey::Languages,
        ColumnKey::DateAdded,
        ColumnKey::DateModified,
        ColumnKey::PubDate,
    ]
}

/// The table's columns in their default order.
pub fn default_column_order() -> (r: Vec<ColumnKey>)
    ensures
        r@ == default_columns(),
{
    let mut v: Vec<ColumnKey> = Vec::new();
    v.push(ColumnKey::Title);
    v.push(ColumnKey::Cover);
    v.push(ColumnKey::Authors);
    v.push(ColumnKey::Series);
    v.push(ColumnKey::Tags);
    v.push(ColumnKey::Formats);
    v.push(ColumnKey::Rating);
    v.push(ColumnKey::Publisher);
    v.push(ColumnKey::Languages);
    v.push(ColumnKey::DateAdded);
    v.push(ColumnKey::DateModified);
    v.push(ColumnKey::PubDate);
    assert(v@ =~= default_columns());
    v
}

/// Every column occurs in the default order.
pub proof fn lemma_default_columns_complete(k: ColumnKey)
    ensures
        default_columns().contains(k),
{
    match k {
        ColumnKey::Title => assert(default_columns()[0] == k),
        ColumnKey::Cover => assert(default_columns()[1] == k),
        ColumnKey::Authors => assert(default_columns()[2] == k),
        ColumnKey::Series => assert(default_columns()[3] == k),
        ColumnKey::Tags => assert(default_columns()[4] == k),
        ColumnKey::Formats => assert(default_columns()[5] == k),
        ColumnKey::Rating => assert(default_columns()[6] == k),
        ColumnKey::Publisher => assert(default_columns()[7] == k),
        ColumnKey::Languages => assert(default_columns()[8] == k),
        ColumnKey::DateAdded => assert(default_columns()[9] == k),
        ColumnKey::DateModified => assert(default_columns()[10] == k),
        ColumnKey::PubDate => assert(default_columns()[11] == k),
    }
}

/// Keys parsed in order, the unknown ones dropped.
pub open spec fn parsed_columns(values: Seq<Seq<char>>) -> Seq<ColumnKey>
    decreases values.len(),
{
    if values.len() == 0 {
        Seq::<ColumnKey>::empty()
    } else {
        let rest = parsed_columns(values.drop_last());
        match column_key_from(values.last()) {
            Some(k) => rest.push(k),
            None => rest,
        }
    }
}

/// `order` followed by each default column it lacks, in default order.
pub open spec fn with_missing_defaults(order: Seq<ColumnKey>, n: int) -> Seq<ColumnKey>
    decreases n,
{
    if n <= 0 {
        order
    } else {
        let prev = with_missing_defaults(order, n - 1);
        let k = default_columns()[n - 1];
        if prev.contains(k) {
            prev
        } else {
            prev.push(k)
        }
    }
}

/// A stored column order: the known keys in their stored order, then every
/// column they leave out, in default order.
pub open spec fn column_order_from(values: Seq<Seq<char>>) -> Seq<ColumnKey> {
    with_missing_defaults(parsed_columns(values), 12)
}

/// Known column keys of `values`, in order.
pub fn parse_column_keys(values: &Vec<Vec<char>>) -> (r: Vec<ColumnKey>)
    ensures
        r@ == parsed_columns(views(values@)),
{
    let mut out: Vec<ColumnKey> = Vec::new();
    let mut i: usize = 0;
    while i < values.len()
        invariant
            i <= values.len(),
            out@ == parsed_columns(views(values@).take(i as int)),
        decreases values.len() - i,
    {
        assert(views(values@).take(i + 1).drop_last() =~= views(values@).take(i as int));
        if let Some(k) = parse_column_key_vec(&values[i]) {
            out.push(k);
        }
        i += 1;
    }
    assert(views(values@).take(values.len() as int) =~= views(values@));
    out
}

/// Appends each default column that `out` lacks.
pub fn add_missing_defaults(out: &mut Vec<ColumnKey>)
    ensures
        final(out)@ == with_missing_defaults(old(out)@, 12),
{
    let defaults = default_column_order();
    let ghost start = out@;
    let mut i: usize = 0;
    while i < defaults.len()
        invariant
            defaults@ == default_columns(),
            i <= defaults.len(),
            out@ == with_missing_defaults(start, i as int),
        decreases defaults.len() - i,
    {
        let k = defaults[i];
        let mut found = false;
        let mut j: usize = 0;
        while j < out.len()
            invariant
                j <= out.len(),
                found == exists|x: int| 0 <= x < j && out@[x] == k,
            decreases out.len() - j,
        {
            if out[j] == k {
                found = true;
            }
            j += 1;
        }
        if !found {
            out.push(k);
        }
        i += 1;
    }
}

/// Decodes a stored column order.
pub fn decode_column_order(values: &Vec<String>) -> (r: Vec<ColumnKey>)
    ensures
        r@ == column_order_from(string_views(values@)),
{
    let mut vs: Vec<Vec<char>> = Vec::new();
    let mut i: usize = 0;
    while i < values.len()
        invariant
            i <= values.len(),
            views(vs@) == string_views(values@).take(i as int),
        decreases values.len() - i,
    {
        let c = chars_of(values[i].as_str());
        assert(c@ == string_views(values@)[i as int]);
        let ghost before = vs@;
        vs.push(c);
        assert(views(vs@) =~= views(before).push(c@));
        assert(views(vs@) =~= string_views(values@).take(i + 1));
        i += 1;
    }
    assert(string_views(values@).take(values.len() as int) =~= string_views(values@));
    let mut out = parse_column_keys(&vs);
    add_missing_defaults(&mut out);
    out
}

pub proof fn lemma_missing_defaults_keeps(order: Seq<ColumnKey>, n: int, k: ColumnKey)
    requires
        order.contains(k),
    ensures
        with_missing_defaults(order, n).contains(k),
    decreases n,
{
    if n > 0 {
        lemma_missing_defaults_keeps(order, n - 1, k);
        let prev = with_missing_defaults(order, n - 1);
        let x = choose|x: int| 0 <= x < prev.len() && prev[x] == k;
        if !prev.contains(default_columns()[n - 1]) {
            assert(prev.push(default_columns()[n - 1])[x] == k);
        }
    }
}

pub proof fn lemma_missing_defaults_adds(order: Seq<ColumnKey>, n: int, i: int)
    requires
        0 <= i < n <= 12,
    ensures
        with_missing_defaults(order, n).contains(default_columns()[i]),
    decreases n,
{
    if i == n - 1 {
        let prev = with_missing_defaults(order, n - 1);
        if !prev.contains(default_columns()[i]) {
            assert(prev.push(default_columns()[i])[prev.len() as int] == default_columns()[i]);
        }
    } else {
        lemma_missing_defaults_adds(order, n - 1, i);
        lemma_missing_defaults_keeps(with_missing_defaults(order, n - 1), 1, default_columns()[i]);
        let prev = with_missing_defaults(order, n - 1);
        let k = default_columns()[i];
        let x = choose|x: int| 0 <= x < prev.len() && prev[x] == k;
        if !prev.contains(default_columns()[n - 1]) {
            assert(prev.push(default_columns()[n - 1])[x] == k);
        }
    }
}

/// A decoded column order shows every column, whatever was stored.
pub proof fn lemma_column_order_complete(values: Seq<Seq<char>>, k: ColumnKey)
    ensures
        column_order_from(values).contains(k),
{
    lemma_default_columns_complete(k);
    let i = choose|i: int| 0 <= i < 12 && default_columns()[i] == k;
    lemma_missing_defaults_adds(parsed_columns(values), 12, i);
}

/// Configuration word of a pane side.
pub open spec fn pane_side_str(s: PaneSide) -> Seq<char> {
    match s {
        PaneSide::Left => "left"@,
        PaneSide::Right => "right"@,
    }
}

impl PaneSide {
    pub fn as_config(self) -> (r: &'static str)
        ensures
            r@ == pane_side_str(self),
    {
        match self {
            Self::Left => "left",
            Self::Right => "right",
        }
    }
}

/// `"right"` is the right side; anything else the left.
pub fn parse_pane_side(value: &str) -> (r: PaneSide)
    ensures
        r == (if value@ == "right"@ { PaneSide::Right } else { PaneSide::Left }),
{
    if str_eq(value, "right") {
        PaneSide::Right
    } else {
        PaneSide::Left
    }
}

/// Reading a pane side's configuration word gives it back.
pub proof fn lemma_pane_side_roundtrip(s: PaneSide)
    ensures
        (if pane_side_str(s) == "right"@ { PaneSide::Right } else { PaneSide::Left }) == s,
{
    reveal_strlit("left");
    reveal_strlit("right");
    assert("left"@.len() == 4);
    assert("right"@.len() == 5);
}

/// The sort direction a configuration word names.
pub fn parse_sort_direction(value: &str) -> (r: Option<SortDirection>)
    ensures
        r == (if value@ == "asc"@ {
            Some(SortDirection::Asc)
        } else if value@ == "desc"@ {
            Some(SortDirection::Desc)
        } else {
            None
        }),
{
    let v = chars_of(value);
    if vec_eq_str(&v, "asc") {
        Some(SortDirection::Asc)
    } else if vec_eq_str(&v, "desc") {
        Some(SortDirection::Desc)
    } else {
        None
    }
}

/// `"grid"` and `"shelf"` name their modes; anything else is the table.
pub fn parse_view_mode(value: &str) -> (r: ViewMode)
    ensures
        r == (if value@ == "grid"@ {
            ViewMode::Grid
        } else if value@ == "shelf"@ {
            ViewMode::Shelf
        } else {
            ViewMode::Table
        }),
{
    let v = chars_of(value);
    if vec_eq_str(&v, "grid") {
        ViewMode::Grid
    } else if vec_eq_str(&v, "shelf") {
        ViewMode::Shelf
    } else {
        ViewMode::Table
    }
}

/// `"compact"` is compact; anything else comfortable.
pub fn parse_view_density(value: &str) -> (r: ViewDensity)
    ensures
        r == (if value@ == "compact"@ { ViewDensity::Compact } else { ViewDensity::Comfortable }),
{
    if str_eq(value, "compact") {
        ViewDensity::Compact
    } else {
        ViewDensity::Comfortable
    }
}

/// `"series"`, `"authors"` and `"tags"` name their grouping; anything else none.
pub fn parse_group_mode(value: &str) -> (r: GroupMode)
    ensures
        r == (if value@ == "series"@ {
            GroupMode::Series
        } else if value@ == "authors"@ {
            GroupMode::Authors
        } else if value@ == "tags"@ {
            GroupMode::Tags
        } else {
            GroupMode::Flat
        }),
{
    let v = chars_of(value);
    if vec_eq_str(&v, "series") {
        GroupMode::Series
    } else if vec_eq_str(&v, "authors") {
        GroupMode::Authors
    } else if vec_eq_str(&v, "tags") {
        GroupMode::Tags
    } else {
        GroupMode::Flat
    }
}

/// Prefix under which column presets of a view are stored.
pub open spec fn view_scope_key(m: ViewMode) -> Seq<char> {
    match m {
        ViewMode::Table => "table"@,
        ViewMode::Grid => "grid"@,
        ViewMode::Shelf => "shelf"@,
    }
}

impl ViewMode {
    pub fn preset_scope_key(self) -> (r: &'static str)
        ensures
            r@ == view_scope_key(self),
    {
        match self {
            ViewMode::Table => "table",
            ViewMode::Grid => "grid",
            ViewMode::Shelf => "shelf",
        }
    }
}

/// Which columns of the table are shown.
#[derive(Clone, Copy, Debug, PartialEq, Eq, Structural)]
pub struct ColumnVisibility {
    pub title: bool,
    pub cover: bool,
    pub authors: bool,
    pub series: bool,
    pub tags: bool,
    pub formats: bool,
    pub rating: bool,
    pub publisher: bool,
    pub languages: bool,
    pub date_added: bool,
    pub date_modified: bool,
    pub pubdate: bool,
}

/// Whether a column is shown.
pub open spec fn column_shown(vis: ColumnVisibility, k: ColumnKey) -> bool {
    match k {
        ColumnKey::Title => vis.title,
        ColumnKey::Cover => vis.cover,
        ColumnKey::Authors => vis.authors,
        ColumnKey::Series => vis.series,
        ColumnKey::Tags => vis.tags,
        ColumnKey::Formats => vis.formats,
        ColumnKey::Rating => vis.rating,
        ColumnKey::Publisher => vis.publisher,
        ColumnKey::Languages => vis.languages,
        ColumnKey::DateAdded => vis.date_added,
        ColumnKey::DateModified => vis.date_modified,
        ColumnKey::PubDate => vis.pubdate,
    }
}

impl ColumnVisibility {
    /// Every column shown.
    pub fn all_visible() -> (r: ColumnVisibility)
        ensures
            forall|k: ColumnKey| column_shown(r, k),
    {
        ColumnVisibility {
            title: true,
            cover: true,
            authors: true,
            series: true,
            tags: true,
            formats: true,
            rating: true,
            publisher: true,
            languages: true,
            date_added: true,
            date_modified: true,
            pubdate: true,
        }
    }

    pub fn column_visible(&self, key: ColumnKey) -> (r: bool)
        ensures
            r == column_shown(*self, key),
    {
        match key {
            ColumnKey::Title => self.title,
            ColumnKey::Cover => self.cover,
            ColumnKey::Authors => self.authors,
            ColumnKey::Series => self.series,
            ColumnKey::Tags => self.tags,
            ColumnKey::Formats => self.formats,
            ColumnKey::Rating => self.rating,
            ColumnKey::Publisher => self.publisher,
            ColumnKey::Languages => self.languages,
            ColumnKey::DateAdded => self.date_added,
            ColumnKey::DateModified => self.date_modified,
            ColumnKey::PubDate => self.pubdate,
        }
    }

    pub fn set_column_visible(&mut self, key: ColumnKey, visible: bool)
        ensures
            column_shown(*final(self), key) == visible,
            forall|k: ColumnKey| k != key ==> column_shown(*final(self), k) == column_shown(*old(self), k),
    {
        match key {
            ColumnKey::Title => self.title = visible,
            ColumnKey::Cover => self.cover = visible,
            ColumnKey::Authors => self.authors = visible,
            ColumnKey::Series => self.series = visible,
            ColumnKey::Tags => self.tags = visible,
            ColumnKey::Formats => self.formats = visible,
            ColumnKey::Rating => self.rating = visible,
            ColumnKey::Publisher => self.publisher = visible,
            ColumnKey::Languages => self.languages = visible,
            ColumnKey::DateAdded => self.date_added = visible,
            ColumnKey::DateModified => self.date_modified = visible,
            ColumnKey::PubDate => self.pubdate = visible,
        }
    }
}

/// The columns of `order` that are shown, in order.
pub open spec fn visible_columns(order: Seq<ColumnKey>, vis: ColumnVisibility) -> Seq<ColumnKey> {
    order.filter(|k: ColumnKey| column_shown(vis, k))
}

/// The shown columns in display order.
pub fn visible_column_order(order: &Vec<ColumnKey>, vis: &ColumnVisibility) -> (r: Vec<ColumnKey>)
    ensures
        r@ == visible_columns(order@, *vis),
{
    let mut out: Vec<ColumnKey> = Vec::new();
    let mut i: usize = 0;
    while i < order.len()
        invariant
            i <= order.len(),
            out@ == order@.take(i as int).filter(|k: ColumnKey| column_shown(*vis, k)),
        decreases order.len() - i,
    {
        proof {
            reveal_with_fuel(Seq::<_>::filter, 1);
        }
        assert(order@.take(i + 1).drop_last() =~= order@.take(i as int));
        if vis.column_visible(order[i]) {
            out.push(order[i]);
        }
        i += 1;
    }
    assert(order@.take(order.len() as int) =~= order@);
    out
}

/// Which fields the global search looks in.
#[derive(Clone, Copy, Debug, PartialEq, Eq, Structural)]
pub enum SearchScope {
    All,
    Title,
    Authors,
    Tags,
    Series,
}

/// The scope a global search request names: `title`, `authors`, `tags` or
/// `series`; anything else searches all fields.
pub fn parse_search_scope(scope: &str) -> (r: SearchScope)
    ensures
        r == (if scope@ == "title"@ {
            SearchScope::Title
        } else if scope@ == "authors"@ {
            SearchScope::Authors
        } else if scope@ == "tags"@ {
            SearchScope::Tags
        } else if scope@ == "series"@ {
            SearchScope::Series
        } else {
            SearchScope::All
        }),
{
    let v = chars_of(scope);
    if vec_eq_str(&v, "title") {
        SearchScope::Title
    } else if vec_eq_str(&v, "authors") {
        SearchScope::Authors
    } else if vec_eq_str(&v, "tags") {
        SearchScope::Tags
    } else if vec_eq_str(&v, "series") {
        SearchScope::Series
    } else {
        SearchScope::All
    }
}

} // verus!
