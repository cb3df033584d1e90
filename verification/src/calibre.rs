//! Read-only access to an attached modern Calibre library: where its files lie,
//! and the SQL that reads its metadata database.
use crate::text::{
    append_str, append_vec, ascii_lower, ascii_lower_vec, chars_of, has_char, join, join_with,
    split, split_vec, string_of, string_views, vec_eq_str, views,
};
use vstd::prelude::*;

verus! {

/// The character Calibre queries name as the escape of `LIKE` patterns.
pub const ESC: char = '\\';

/// Why the attached library cannot be read as asked.
#[derive(Clone, Debug, PartialEq, Eq)]
pub enum CalibreError {
    MissingMetadata,
    UnsafeBookPath,
    UnsafeDataName,
    InvalidRatingFilter,
    MissingTable { table: String },
    MissingColumn { table: String, column: String },
}

/// The words every refusal of an incompatible library starts with.
pub open spec fn incompatible_prefix() -> Seq<char> {
    "incompatible Calibre metadata schema: "@
}

/// The message reported for each refusal.
pub open spec fn calibre_error_message(e: CalibreError) -> Seq<char> {
    match e {
        CalibreError::MissingMetadata => incompatible_prefix() + "missing metadata.db"@,
        CalibreError::UnsafeBookPath => incompatible_prefix() + "unsafe Calibre books.path"@,
        CalibreError::UnsafeDataName => incompatible_prefix() + "unsafe Calibre data.name"@,
        CalibreError::InvalidRatingFilter => incompatible_prefix()
            + "invalid rating filter; expected an integer from 0 through 10"@,
        CalibreError::MissingTable { table } => incompatible_prefix() + "missing required table "@
            + table@,
        CalibreError::MissingColumn { table, column } => incompatible_prefix()
            + "missing required column "@ + table@ + "."@ + column@,
    }
}

impl CalibreError {
    /// The message reported for this refusal.
    pub fn message(&self) -> (r: String)
        ensures
            r@ == calibre_error_message(*self),
    {
        let mut v: Vec<char> = Vec::new();
        append_str(&mut v, "incompatible Calibre metadata schema: ");
        match self {
            CalibreError::MissingMetadata => append_str(&mut v, "missing metadata.db"),
            CalibreError::UnsafeBookPath => append_str(&mut v, "unsafe Calibre books.path"),
            CalibreError::UnsafeDataName => append_str(&mut v, "unsafe Calibre data.name"),
            CalibreError::InvalidRatingFilter => append_str(
                &mut v,
                "invalid rating filter; expected an integer from 0 through 10",
            ),
            CalibreError::MissingTable { table } => {
                append_str(&mut v, "missing required table ");
                append_str(&mut v, table.as_str());
            },
            CalibreError::MissingColumn { table, column } => {
                append_str(&mut v, "missing required column ");
                append_str(&mut v, table.as_str());
                append_str(&mut v, ".");
                append_str(&mut v, column.as_str());
            },
        }
        string_of(&v)
    }
}

/// `base` joined with the relative or absolute path `part`, as `Path::join` does
/// on Unix: an absolute part replaces the base; otherwise a separator is put
/// between them unless the base is empty or already ends with one.
pub open spec fn path_join(base: Seq<char>, part: Seq<char>) -> Seq<char> {
    if part.len() > 0 && part[0] == '/' {
        part
    } else if base.len() == 0 || base.last() == '/' {
        base + part
    } else {
        base + seq!['/'] + part
    }
}

/// `Path::join` on Unix paths held as strings.
pub fn join_path(base: &Vec<char>, part: &Vec<char>) -> (r: Vec<char>)
    ensures
        r@ == path_join(base@, part@),
{
    if part.len() > 0 && part[0] == '/' {
        let mut r: Vec<char> = Vec::new();
        append_vec(&mut r, part);
        assert(r@ =~= part@);
        r
    } else {
        let mut r: Vec<char> = Vec::new();
        append_vec(&mut r, base);
        if !(base.len() == 0 || base[base.len() - 1] == '/') {
            r.push('/');
        }
        append_vec(&mut r, part);
        assert(r@ =~= path_join(base@, part@));
        r
    }
}

/// An attached Calibre library: its root directory and its metadata database.
#[derive(Clone, Debug)]
pub struct CalibreLibraryBackend {
    root: String,
    metadata: String,
}

impl CalibreLibraryBackend {
    /// The library's root directory.
    pub closed spec fn root_path(&self) -> Seq<char> {
        self.root@
    }

    /// The library's metadata database.
    pub closed spec fn metadata_path(&self) -> Seq<char> {
        self.metadata@
    }

    /// The library rooted at `root`, whose metadata database is `metadata.db` there.
    pub fn at_root(root: &str) -> (r: Self)
        ensures
            r.root_path() == root@,
            r.metadata_path() == path_join(root@, "metadata.db"@),
    {
        let rv = chars_of(root);
        let mv = chars_of("metadata.db");
        let metadata = string_of(&join_path(&rv, &mv));
        CalibreLibraryBackend { root: string_of(&rv), metadata }
    }

    /// The library's root directory.
    pub fn library_root(&self) -> (r: &str)
        ensures
            r@ == self.root_path(),
    {
        self.root.as_str()
    }

    /// The library's metadata database.
    pub fn metadata_file(&self) -> (r: &str)
        ensures
            r@ == self.metadata_path(),
    {
        self.metadata.as_str()
    }
}

/// A `books.path` is safe when it is relative and never steps to a parent.
pub open spec fn book_path_is_safe(book: Seq<char>) -> bool {
    &&& !(book.len() > 0 && book[0] == '/')
    &&& !split(book, '/').contains(seq!['.', '.'])
}

/// A `data.name` is safe when it names one file inside the book's directory.
pub open spec fn data_name_is_safe(name: Seq<char>) -> bool {
    &&& name.len() > 0
    &&& name != seq!['.']
    &&& name != seq!['.', '.']
    &&& !name.contains('/')
    &&& !name.contains('\\')
}

/// The file of a book format: `root/book/name.format`, the format in ASCII lower case.
pub open spec fn content_file_path(
    root: Seq<char>,
    book: Seq<char>,
    name: Seq<char>,
    format: Seq<char>,
) -> Seq<char> {
    path_join(path_join(root, book), name + seq!['.'] + ascii_lower(format))
}

/// What `safe_path` answers.
pub open spec fn safe_path_outcome(
    root: Seq<char>,
    book: Seq<char>,
    name: Seq<char>,
    format: Seq<char>,
) -> Result<Seq<char>, CalibreError> {
    if !book_path_is_safe(book) {
        Err(CalibreError::UnsafeBookPath)
    } else if !data_name_is_safe(name) {
        Err(CalibreError::UnsafeDataName)
    } else {
        Ok(content_file_path(root, book, name, format))
    }
}

/// Whether some piece of a path is `..`.
fn has_parent_piece(book: &Vec<char>) -> (r: bool)
    ensures
        r == split(book@, '/').contains(seq!['.', '.']),
{
    proof {
        reveal_strlit("..");
    }
    let pieces = split_vec(book, '/');
    let mut i: usize = 0;
    while i < pieces.len()
        invariant
            i <= pieces.len(),
            views(pieces@) == split(book@, '/'),
            forall|j: int| 0 <= j < i ==> views(pieces@)[j] != seq!['.', '.'],
        decreases pieces.len() - i,
    {
        proof {
            reveal_strlit("..");
        }
        assert(".."@ =~= seq!['.', '.']);
        assert(views(pieces@)[i as int] == pieces@[i as int]@);
        if vec_eq_str(&pieces[i], "..") {
            assert(".."@ =~= seq!['.', '.']);
            assert(views(pieces@)[i as int] == seq!['.', '.']);
            return true;
        }
        i += 1;
    }
    false
}

/// The file of a book format inside the library, refusing a book path that is
/// absolute or climbs out, and a file name that is not a single plain name. A path
/// built from a safe book path and name always lies under the root.
pub fn safe_path(root: &str, book: &str, name: &str, format: &str) -> (r: Result<String, CalibreError>)
    ensures
        match r {
            Ok(p) => safe_path_outcome(root@, book@, name@, format@) == Ok::<
                Seq<char>,
                CalibreError,
            >(p@),
            Err(e) => safe_path_outcome(root@, book@, name@, format@) == Err::<
                Seq<char>,
                CalibreError,
            >(e),
        },
{
    let bv = chars_of(book);
    if (bv.len() > 0 && bv[0] == '/') || has_parent_piece(&bv) {
        return Err(CalibreError::UnsafeBookPath);
    }
    let nv = chars_of(name);
    proof {
        reveal_strlit(".");
        reveal_strlit("..");
        assert("."@ =~= seq!['.']);
        assert(".."@ =~= seq!['.', '.']);
    }
    if nv.len() == 0 || vec_eq_str(&nv, ".") || vec_eq_str(&nv, "..") || has_char(&nv, '/')
        || has_char(&nv, '\\') {
        return Err(CalibreError::UnsafeDataName);
    }
    let rv = chars_of(root);
    let dir = join_path(&rv, &bv);
    let mut file: Vec<char> = Vec::new();
    append_vec(&mut file, &nv);
    file.push('.');
    let fv = chars_of(format);
    let lower = ascii_lower_vec(&fv);
    append_vec(&mut file, &lower);
    assert(file@ =~= name@ + seq!['.'] + ascii_lower(format@));
    let out = join_path(&dir, &file);
    Ok(string_of(&out))
}

/// The path listed for a book's first format: empty when the book has no file,
/// else the checked file path.
pub fn listed_path(root: &str, book: &str, name: &str, format: &str) -> (r: Result<String, CalibreError>)
    ensures
        name@.len() == 0 ==> (r matches Ok(p) && p@.len() == 0),
        name@.len() > 0 ==> match r {
            Ok(p) => safe_path_outcome(root@, book@, name@, format@) == Ok::<
                Seq<char>,
                CalibreError,
            >(p@),
            Err(e) => safe_path_outcome(root@, book@, name@, format@) == Err::<
                Seq<char>,
                CalibreError,
            >(e),
        },
{
    if name.is_empty() {
        Ok(String::new())
    } else {
        safe_path(root, book, name, format)
    }
}

/// How one character is written inside a `LIKE` pattern escaped with `\`.
pub open spec fn like_escape_char(c: char) -> Seq<char> {
    if c == '\\' || c == '%' || c == '_' {
        seq!['\\', c]
    } else {
        seq![c]
    }
}

/// A text escaped so that a `LIKE ... ESCAPE '\'` pattern matches it literally.
pub open spec fn like_escaped(s: Seq<char>) -> Seq<char>
    decreases s.len(),
{
    if s.len() == 0 {
        Seq::empty()
    } else {
        like_escape_char(s[0]) + like_escaped(s.drop_first())
    }
}

/// The literal text an escaped `LIKE` pattern stands for: a `\` takes the next
/// character as it is.
pub open spec fn like_unescaped(s: Seq<char>) -> Seq<char>
    decreases s.len(),
{
    if s.len() == 0 {
        Seq::empty()
    } else if s[0] == '\\' && s.len() >= 2 {
        seq![s[1]] + like_unescaped(s.subrange(2, s.len() as int))
    } else {
        seq![s[0]] + like_unescaped(s.drop_first())
    }
}

/// Escaping distributes over concatenation.
pub proof fn lemma_like_escaped_append(a: Seq<char>, b: Seq<char>)
    ensures
        like_escaped(a + b) == like_escaped(a) + like_escaped(b),
    decreases a.len(),
{
    if a.len() == 0 {
        assert(a + b =~= b);
    } else {
        assert((a + b).drop_first() =~= a.drop_first() + b);
        lemma_like_escaped_append(a.drop_first(), b);
        assert(like_escaped(a + b) =~= like_escaped(a) + like_escaped(b));
    }
}

/// Reading an escaped text back gives the text: a pattern built by escaping a
/// search text matches that text literally, wildcards and backslashes included.
pub proof fn lemma_like_escape_roundtrip(s: Seq<char>)
    ensures
        like_unescaped(like_escaped(s)) == s,
    decreases s.len(),
{
    if s.len() > 0 {
        let rest = like_escaped(s.drop_first());
        lemma_like_escape_roundtrip(s.drop_first());
        let e = like_escaped(s);
        if s[0] == '\\' || s[0] == '%' || s[0] == '_' {
            assert(e =~= seq!['\\', s[0]] + rest);
            assert(e.subrange(2, e.len() as int) =~= rest);
        } else {
            assert(e =~= seq![s[0]] + rest);
            assert(e.drop_first() =~= rest);
        }
        assert(like_unescaped(e) =~= s);
    }
}

/// Escapes `\`, `%` and `_` with a backslash.
pub fn like_escape(s: &str) -> (r: String)
    ensures
        r@ == like_escaped(s@),
{
    let v = chars_of(s);
    let mut out: Vec<char> = Vec::new();
    let mut i: usize = 0;
    while i < v.len()
        invariant
            i <= v.len(),
            v@ == s@,
            out@ == like_escaped(v@.take(i as int)),
        decreases v.len() - i,
    {
        let c = v[i];
        proof {
            lemma_like_escaped_append(v@.take(i as int), seq![c]);
            assert(v@.take(i + 1) =~= v@.take(i as int) + seq![c]);
            assert(seq![c].drop_first() =~= Seq::<char>::empty());
            assert(like_escaped(seq![c]) =~= like_escape_char(c) + like_escaped(Seq::<char>::empty()));
            assert(like_escaped(seq![c]) =~= like_escape_char(c));
        }
        if c == '\\' || c == '%' || c == '_' {
            out.push('\\');
        }
        out.push(c);
        assert(out@ =~= like_escaped(v@.take(i as int)) + like_escape_char(c));
        i += 1;
    }
    assert(v@.take(v.len() as int) =~= v@);
    string_of(&out)
}

/// The pattern that finds a text anywhere in a column: `%`, the escaped text, `%`.
pub open spec fn contains_pattern(s: Seq<char>) -> Seq<char> {
    seq!['%'] + like_escaped(s) + seq!['%']
}

/// Builds the `LIKE` pattern that finds `s` anywhere in a column.
pub fn contains_pattern_of(s: &str) -> (r: String)
    ensures
        r@ == contains_pattern(s@),
{
    let e = like_escape(s);
    let mut v: Vec<char> = Vec::new();
    v.push('%');
    append_str(&mut v, e.as_str());
    v.push('%');
    assert(v@ =~= contains_pattern(s@));
    string_of(&v)
}

/// A column a book query can order by.
#[derive(Clone, Copy, Debug, PartialEq, Eq, Structural)]
pub enum LibrarySortField {
    Id,
    Title,
    Authors,
    Tags,
    Series,
    Format,
    Rating,
    Publisher,
    Languages,
    DateAdded,
    DateModified,
    PubDate,
}

/// The SQL expression a query orders by.
pub open spec fn sort_sql(s: LibrarySortField) -> Seq<char> {
    match s {
        LibrarySortField::Id => "b.id"@,
        LibrarySortField::Title => "b.title COLLATE NOCASE"@,
        LibrarySortField::Authors => "COALESCE((SELECT a.name FROM books_authors_link x JOIN authors a ON a.id=x.author WHERE x.book=b.id ORDER BY a.name COLLATE NOCASE,a.id LIMIT 1),'')"@,
        LibrarySortField::Tags => "COALESCE((SELECT z.name FROM books_tags_link x JOIN tags z ON z.id=x.tag WHERE x.book=b.id ORDER BY z.name COLLATE NOCASE,z.id LIMIT 1),'')"@,
        LibrarySortField::Series => "COALESCE((SELECT z.name FROM books_series_link x JOIN series z ON z.id=x.series WHERE x.book=b.id ORDER BY z.name COLLATE NOCASE,z.id LIMIT 1),'')"@,
        LibrarySortField::Format => "COALESCE((SELECT LOWER(d.format) FROM data d WHERE d.book=b.id ORDER BY d.id LIMIT 1),'')"@,
        LibrarySortField::Rating => "COALESCE((SELECT z.rating FROM books_ratings_link x JOIN ratings z ON z.id=x.rating WHERE x.book=b.id ORDER BY x.id LIMIT 1),0)"@,
        LibrarySortField::Publisher => "COALESCE((SELECT z.name FROM books_publishers_link x JOIN publishers z ON z.id=x.publisher WHERE x.book=b.id ORDER BY x.id LIMIT 1),'')"@,
        LibrarySortField::Languages => "COALESCE((SELECT z.lang_code FROM books_languages_link x JOIN languages z ON z.id=x.lang_code WHERE x.book=b.id ORDER BY x.item_order,x.id LIMIT 1),'')"@,
        LibrarySortField::DateAdded => "COALESCE(b.timestamp,'')"@,
        LibrarySortField::DateModified => "COALESCE(b.last_modified,'')"@,
        LibrarySortField::PubDate => "COALESCE(b.pubdate,'')"@,
    }
}

/// Each sort field orders by its own expression, so no two fields sort alike;
/// the date fields read Calibre's column for that date, a missing date sorting as
/// blank: the date a book was added is `books.timestamp`, the date it was last
/// changed `books.last_modified`, and its publication date `books.pubdate`.
pub proof fn lemma_sort_fields_order_by_their_columns()
    ensures
        forall|a: LibrarySortField, b: LibrarySortField| #[trigger] sort_sql(a) == #[trigger] sort_sql(b) ==> a == b,
        sort_sql(LibrarySortField::DateAdded) == "COALESCE(b."@ + "timestamp"@ + ",'')"@,
        sort_sql(LibrarySortField::DateModified) == "COALESCE(b."@ + "last_modified"@ + ",'')"@,
        sort_sql(LibrarySortField::PubDate) == "COALESCE(b."@ + "pubdate"@ + ",'')"@,
{
    reveal_strlit("b.id");
    reveal_strlit("b.title COLLATE NOCASE");
    reveal_strlit("COALESCE((SELECT a.name FROM books_authors_link x JOIN authors a ON a.id=x.author WHERE x.book=b.id ORDER BY a.name COLLATE NOCASE,a.id LIMIT 1),'')");
    reveal_strlit("COALESCE((SELECT z.name FROM books_tags_link x JOIN tags z ON z.id=x.tag WHERE x.book=b.id ORDER BY z.name COLLATE NOCASE,z.id LIMIT 1),'')");
    reveal_strlit("COALESCE((SELECT z.name FROM books_series_link x JOIN series z ON z.id=x.series WHERE x.book=b.id ORDER BY z.name COLLATE NOCASE,z.id LIMIT 1),'')");
    reveal_strlit("COALESCE((SELECT LOWER(d.format) FROM data d WHERE d.book=b.id ORDER BY d.id LIMIT 1),'')");
    reveal_strlit("COALESCE((SELECT z.rating FROM books_ratings_link x JOIN ratings z ON z.id=x.rating WHERE x.book=b.id ORDER BY x.id LIMIT 1),0)");
    reveal_strlit("COALESCE((SELECT z.name FROM books_publishers_link x JOIN publishers z ON z.id=x.publisher WHERE x.book=b.id ORDER BY x.id LIMIT 1),'')");
    reveal_strlit("COALESCE((SELECT z.lang_code FROM books_languages_link x JOIN languages z ON z.id=x.lang_code WHERE x.book=b.id ORDER BY x.item_order,x.id LIMIT 1),'')");
    reveal_strlit("COALESCE(b.timestamp,'')");
    reveal_strlit("COALESCE(b.last_modified,'')");
    reveal_strlit("COALESCE(b.pubdate,'')");
    reveal_strlit("COALESCE(b.");
    reveal_strlit("timestamp");
    reveal_strlit("last_modified");
    reveal_strlit("pubdate");
    reveal_strlit(",'')");
    assert("COALESCE(b."@ + "timestamp"@ + ",'')"@ =~= sort_sql(LibrarySortField::DateAdded));
    assert("COALESCE(b."@ + "last_modified"@ + ",'')"@ =~= sort_sql(LibrarySortField::DateModified));
    assert("COALESCE(b."@ + "pubdate"@ + ",'')"@ =~= sort_sql(LibrarySortField::PubDate));
    assert(sort_sql(LibrarySortField::Title)[0] != sort_sql(LibrarySortField::PubDate)[0]);
    assert forall|a: LibrarySortField, b: LibrarySortField| #[trigger] sort_sql(a) == #[trigger] sort_sql(b) implies a
        == b by {
        if a != b {
            if sort_sql(a).len() == sort_sql(b).len() {
                assert(sort_sql(a)[0] != sort_sql(b)[0]);
            }
        }
    }
}

/// The SQL expression a query orders by.
pub fn sort_expr(s: LibrarySortField) -> (r: &'static str)
    ensures
        r@ == sort_sql(s),
{
    match s {
        LibrarySortField::Id => "b.id",
        LibrarySortField::Title => "b.title COLLATE NOCASE",
        LibrarySortField::Authors => "COALESCE((SELECT a.name FROM books_authors_link x JOIN authors a ON a.id=x.author WHERE x.book=b.id ORDER BY a.name COLLATE NOCASE,a.id LIMIT 1),'')",
        LibrarySortField::Tags => "COALESCE((SELECT z.name FROM books_tags_link x JOIN tags z ON z.id=x.tag WHERE x.book=b.id ORDER BY z.name COLLATE NOCASE,z.id LIMIT 1),'')",
        LibrarySortField::Series => "COALESCE((SELECT z.name FROM books_series_link x JOIN series z ON z.id=x.series WHERE x.book=b.id ORDER BY z.name COLLATE NOCASE,z.id LIMIT 1),'')",
        LibrarySortField::Format => "COALESCE((SELECT LOWER(d.format) FROM data d WHERE d.book=b.id ORDER BY d.id LIMIT 1),'')",
        LibrarySortField::Rating => "COALESCE((SELECT z.rating FROM books_ratings_link x JOIN ratings z ON z.id=x.rating WHERE x.book=b.id ORDER BY x.id LIMIT 1),0)",
        LibrarySortField::Publisher => "COALESCE((SELECT z.name FROM books_publishers_link x JOIN publishers z ON z.id=x.publisher WHERE x.book=b.id ORDER BY x.id LIMIT 1),'')",
        LibrarySortField::Languages => "COALESCE((SELECT z.lang_code FROM books_languages_link x JOIN languages z ON z.id=x.lang_code WHERE x.book=b.id ORDER BY x.item_order,x.id LIMIT 1),'')",
        LibrarySortField::DateAdded => "COALESCE(b.timestamp,'')",
        LibrarySortField::DateModified => "COALESCE(b.last_modified,'')",
        LibrarySortField::PubDate => "COALESCE(b.pubdate,'')",
    }
}

/// A kind of value books can be grouped by in the browser.
#[derive(Clone, Copy, Debug, PartialEq, Eq, Structural)]
pub enum LibraryFacetKind {
    Authors,
    Tags,
    Series,
    Publishers,
    Ratings,
    Languages,
}

/// The SQL listing the values of a facet with their book counts.
pub open spec fn facet_sql(k: LibraryFacetKind) -> Seq<char> {
    match k {
        LibraryFacetKind::Authors => "SELECT a.id,a.name,COUNT(DISTINCT x.book) FROM authors a LEFT JOIN books_authors_link x ON x.author=a.id GROUP BY a.id ORDER BY a.name COLLATE NOCASE"@,
        LibraryFacetKind::Tags => "SELECT a.id,a.name,COUNT(DISTINCT x.book) FROM tags a LEFT JOIN books_tags_link x ON x.tag=a.id GROUP BY a.id ORDER BY a.name COLLATE NOCASE"@,
        LibraryFacetKind::Series => "SELECT a.id,a.name,COUNT(DISTINCT x.book) FROM series a LEFT JOIN books_series_link x ON x.series=a.id GROUP BY a.id ORDER BY a.name COLLATE NOCASE"@,
        LibraryFacetKind::Publishers => "SELECT a.id,a.name,COUNT(DISTINCT x.book) FROM publishers a LEFT JOIN books_publishers_link x ON x.publisher=a.id GROUP BY a.id ORDER BY a.name COLLATE NOCASE"@,
        LibraryFacetKind::Ratings => "SELECT a.id,CAST(a.rating AS TEXT),COUNT(DISTINCT x.book) FROM ratings a LEFT JOIN books_ratings_link x ON x.rating=a.id GROUP BY a.id ORDER BY a.rating"@,
        LibraryFacetKind::Languages => "SELECT a.id,a.lang_code,COUNT(DISTINCT x.book) FROM languages a LEFT JOIN books_languages_link x ON x.lang_code=a.id GROUP BY a.id ORDER BY a.lang_code COLLATE NOCASE"@,
    }
}

/// The SQL listing the values of a facet with their book counts.
pub fn facet(k: LibraryFacetKind) -> (r: &'static str)
    ensures
        r@ == facet_sql(k),
{
    match k {
        LibraryFacetKind::Authors => "SELECT a.id,a.name,COUNT(DISTINCT x.book) FROM authors a LEFT JOIN books_authors_link x ON x.author=a.id GROUP BY a.id ORDER BY a.name COLLATE NOCASE",
        LibraryFacetKind::Tags => "SELECT a.id,a.name,COUNT(DISTINCT x.book) FROM tags a LEFT JOIN books_tags_link x ON x.tag=a.id GROUP BY a.id ORDER BY a.name COLLATE NOCASE",
        LibraryFacetKind::Series => "SELECT a.id,a.name,COUNT(DISTINCT x.book) FROM series a LEFT JOIN books_series_link x ON x.series=a.id GROUP BY a.id ORDER BY a.name COLLATE NOCASE",
        LibraryFacetKind::Publishers => "SELECT a.id,a.name,COUNT(DISTINCT x.book) FROM publishers a LEFT JOIN books_publishers_link x ON x.publisher=a.id GROUP BY a.id ORDER BY a.name COLLATE NOCASE",
        LibraryFacetKind::Ratings => "SELECT a.id,CAST(a.rating AS TEXT),COUNT(DISTINCT x.book) FROM ratings a LEFT JOIN books_ratings_link x ON x.rating=a.id GROUP BY a.id ORDER BY a.rating",
        LibraryFacetKind::Languages => "SELECT a.id,a.lang_code,COUNT(DISTINCT x.book) FROM languages a LEFT JOIN books_languages_link x ON x.lang_code=a.id GROUP BY a.id ORDER BY a.lang_code COLLATE NOCASE",
    }
}

/// A metadata field a query can filter on.
#[derive(Clone, Copy, Debug, PartialEq, Eq, Structural)]
pub enum LibraryMetadataFilterField {
    Authors,
    Tags,
    Series,
    Publishers,
    Languages,
    Ratings,
}

/// The table holding the field's values.
pub open spec fn filter_table(f: LibraryMetadataFilterField) -> Seq<char> {
    match f {
        LibraryMetadataFilterField::Authors => "authors"@,
        LibraryMetadataFilterField::Tags => "tags"@,
        LibraryMetadataFilterField::Series => "series"@,
        LibraryMetadataFilterField::Publishers => "publishers"@,
        LibraryMetadataFilterField::Languages => "languages"@,
        LibraryMetadataFilterField::Ratings => "ratings"@,
    }
}

/// The table linking books to the field's values.
pub open spec fn filter_link(f: LibraryMetadataFilterField) -> Seq<char> {
    match f {
        LibraryMetadataFilterField::Authors => "books_authors_link"@,
        LibraryMetadataFilterField::Tags => "books_tags_link"@,
        LibraryMetadataFilterField::Series => "books_series_link"@,
        LibraryMetadataFilterField::Publishers => "books_publishers_link"@,
        LibraryMetadataFilterField::Languages => "books_languages_link"@,
        LibraryMetadataFilterField::Ratings => "books_ratings_link"@,
    }
}

/// The link table's column naming the value.
pub open spec fn filter_column(f: LibraryMetadataFilterField) -> Seq<char> {
    match f {
        LibraryMetadataFilterField::Authors => "author"@,
        LibraryMetadataFilterField::Tags => "tag"@,
        LibraryMetadataFilterField::Series => "series"@,
        LibraryMetadataFilterField::Publishers => "publisher"@,
        LibraryMetadataFilterField::Languages => "lang_code"@,
        LibraryMetadataFilterField::Ratings => "rating"@,
    }
}

/// The value table's column compared with the filter.
pub open spec fn filter_name(f: LibraryMetadataFilterField) -> Seq<char> {
    match f {
        LibraryMetadataFilterField::Authors => "name"@,
        LibraryMetadataFilterField::Tags => "name"@,
        LibraryMetadataFilterField::Series => "name"@,
        LibraryMetadataFilterField::Publishers => "name"@,
        LibraryMetadataFilterField::Languages => "lang_code"@,
        LibraryMetadataFilterField::Ratings => "rating"@,
    }
}

/// The tables and columns a metadata filter reads: value table, link table, link
/// column and compared column.
pub fn filter_sql_names(f: LibraryMetadataFilterField) -> (r: (&'static str, &'static str, &'static str, &'static str))
    ensures
        r.0@ == filter_table(f),
        r.1@ == filter_link(f),
        r.2@ == filter_column(f),
        r.3@ == filter_name(f),
{
    match f {
        LibraryMetadataFilterField::Authors => ("authors", "books_authors_link", "author", "name"),
        LibraryMetadataFilterField::Tags => ("tags", "books_tags_link", "tag", "name"),
        LibraryMetadataFilterField::Series => ("series", "books_series_link", "series", "name"),
        LibraryMetadataFilterField::Publishers => ("publishers", "books_publishers_link", "publisher", "name"),
        LibraryMetadataFilterField::Languages => ("languages", "books_languages_link", "lang_code", "lang_code"),
        LibraryMetadataFilterField::Ratings => ("ratings", "books_ratings_link", "rating", "rating"),
    }
}


/// Whether a metadata filter keeps or drops the books it matches.
#[derive(Clone, Copy, Debug, PartialEq, Eq, Structural)]
pub enum LibraryMetadataFilterMode {
    Include,
    Exclude,
}

/// One metadata filter of a query.
#[derive(Clone, Debug)]
pub struct LibraryMetadataFilter {
    pub field: LibraryMetadataFilterField,
    pub mode: LibraryMetadataFilterMode,
    pub value: String,
}

/// A query over the books of a library.
#[derive(Clone, Debug)]
pub struct LibraryQuery {
    pub title: Option<String>,
    pub author: Option<String>,
    pub tag: Option<String>,
    pub series: Option<String>,
    pub publisher: Option<String>,
    pub language: Option<String>,
    pub identifier: Option<String>,
    pub format: Option<String>,
    pub metadata_filters: Vec<LibraryMetadataFilter>,
    pub sort: LibrarySortField,
    pub descending: bool,
    pub limit: Option<usize>,
    pub offset: Option<usize>,
}

impl Default for LibraryQuery {
    /// All books, by id, with no filter and no paging.
    fn default() -> (r: Self)
        ensures
            r.title is None && r.author is None && r.tag is None && r.series is None,
            r.publisher is None && r.language is None && r.identifier is None && r.format is None,
            r.metadata_filters@.len() == 0,
            r.sort == LibrarySortField::Id,
            !r.descending,
            r.limit is None && r.offset is None,
    {
        LibraryQuery {
            title: None,
            author: None,
            tag: None,
            series: None,
            publisher: None,
            language: None,
            identifier: None,
            format: None,
            metadata_filters: Vec::new(),
            sort: LibrarySortField::Id,
            descending: false,
            limit: None,
            offset: None,
        }
    }
}

impl LibraryQuery {
    /// The query with one more metadata filter at the end.
    pub fn with_metadata_filter(
        self,
        field: LibraryMetadataFilterField,
        mode: LibraryMetadataFilterMode,
        value: &str,
    ) -> (r: Self)
        ensures
            r.metadata_filters@.len() == self.metadata_filters@.len() + 1,
            r.metadata_filters@.drop_last() == self.metadata_filters@,
            r.metadata_filters@.last().field == field,
            r.metadata_filters@.last().mode == mode,
            r.metadata_filters@.last().value@ == value@,
            r.title == self.title && r.author == self.author && r.tag == self.tag,
            r.series == self.series && r.publisher == self.publisher,
            r.language == self.language && r.identifier == self.identifier,
            r.format == self.format && r.sort == self.sort && r.descending == self.descending,
            r.limit == self.limit && r.offset == self.offset,
    {
        let mut q = self;
        let ghost before = q.metadata_filters@;
        q.metadata_filters.push(
            LibraryMetadataFilter { field, mode, value: string_of(&chars_of(value)) },
        );
        assert(q.metadata_filters@.drop_last() =~= before);
        q
    }
}

/// A parameter bound to a `?` of a query.
#[derive(Clone, Debug)]
pub enum SqlParam {
    Integer(i64),
    Text(String),
}

/// The plain value of a query parameter.
pub enum ParamView {
    Integer(i64),
    Text(Seq<char>),
}

impl View for SqlParam {
    type V = ParamView;

    open spec fn view(&self) -> ParamView {
        match self {
            SqlParam::Integer(n) => ParamView::Integer(*n),
            SqlParam::Text(t) => ParamView::Text(t@),
        }
    }
}

/// Views of a list of parameters.
pub open spec fn param_views(ps: Seq<SqlParam>) -> Seq<ParamView> {
    ps.map_values(|p: SqlParam| p@)
}

/// A condition of a query's `WHERE` with the one parameter it binds.
pub type Clause = (Seq<char>, ParamView);

/// The conditions of a list of clauses.
pub open spec fn clause_sqls(cs: Seq<Clause>) -> Seq<Seq<char>> {
    cs.map_values(|c: Clause| c.0)
}

/// The parameters of a list of clauses.
pub open spec fn clause_params(cs: Seq<Clause>) -> Seq<ParamView> {
    cs.map_values(|c: Clause| c.1)
}

/// The condition matching the title.
pub open spec fn title_sql() -> Seq<char> {
    "b.title LIKE ? ESCAPE '\\'"@
}

/// The condition matching an author.
pub open spec fn author_sql() -> Seq<char> {
    "EXISTS(SELECT 1 FROM books_authors_link x JOIN authors z ON z.id=x.author WHERE x.book=b.id AND z.name LIKE ? ESCAPE '\\')"@
}

/// The condition matching a tag.
pub open spec fn tag_sql() -> Seq<char> {
    "EXISTS(SELECT 1 FROM books_tags_link x JOIN tags z ON z.id=x.tag WHERE x.book=b.id AND z.name LIKE ? ESCAPE '\\')"@
}

/// The condition matching a series.
pub open spec fn series_sql() -> Seq<char> {
    "EXISTS(SELECT 1 FROM books_series_link x JOIN series z ON z.id=x.series WHERE x.book=b.id AND z.name LIKE ? ESCAPE '\\')"@
}

/// The condition matching a publisher.
pub open spec fn publisher_sql() -> Seq<char> {
    "EXISTS(SELECT 1 FROM books_publishers_link x JOIN publishers z ON z.id=x.publisher WHERE x.book=b.id AND z.name LIKE ? ESCAPE '\\')"@
}

/// The condition matching a language code.
pub open spec fn language_sql() -> Seq<char> {
    "EXISTS(SELECT 1 FROM books_languages_link x JOIN languages z ON z.id=x.lang_code WHERE x.book=b.id AND z.lang_code LIKE ? ESCAPE '\\')"@
}

/// The condition matching an identifier value.
pub open spec fn identifier_sql() -> Seq<char> {
    "EXISTS(SELECT 1 FROM identifiers z WHERE z.book=b.id AND z.val LIKE ? ESCAPE '\\')"@
}

/// The condition matching the first format, ignoring case.
pub open spec fn format_sql() -> Seq<char> {
    "LOWER(COALESCE((SELECT d.format FROM data d WHERE d.book=b.id ORDER BY d.id LIMIT 1),'')) LIKE LOWER(?) ESCAPE '\\'"@
}

/// The clause of an optional text filter: none when it is absent.
pub open spec fn optional_clause(v: Option<String>, sql: Seq<char>) -> Seq<Clause> {
    match v {
        Some(x) => seq![(sql, ParamView::Text(contains_pattern(x@)))],
        None => Seq::empty(),
    }
}

/// The clauses of a query's text filters, in order.
pub open spec fn text_clauses(q: LibraryQuery) -> Seq<Clause> {
    optional_clause(q.title, title_sql()) + optional_clause(q.author, author_sql()) + optional_clause(
        q.tag,
        tag_sql(),
    ) + optional_clause(q.series, series_sql()) + optional_clause(q.publisher, publisher_sql())
        + optional_clause(q.language, language_sql()) + optional_clause(
        q.identifier,
        identifier_sql(),
    ) + optional_clause(q.format, format_sql())
}

/// `NOT ` before an excluding filter's condition.
pub open spec fn mode_prefix(mode: LibraryMetadataFilterMode) -> Seq<char> {
    if mode == LibraryMetadataFilterMode::Exclude {
        "NOT "@
    } else {
        Seq::empty()
    }
}

/// The start of a metadata filter's condition, up to the compared column.
pub open spec fn metadata_head(f: LibraryMetadataFilter) -> Seq<char> {
    mode_prefix(f.mode) + "EXISTS(SELECT 1 FROM "@ + filter_link(f.field) + " x JOIN "@
        + filter_table(f.field) + " z ON z.id=x."@ + filter_column(f.field)
        + " WHERE x.book=b.id AND z."@
}

/// The clause of one metadata filter; `None` for a rating filter whose value is not
/// a whole number from 0 through 10.
pub open spec fn metadata_clause(f: LibraryMetadataFilter) -> Option<Clause> {
    if f.field == LibraryMetadataFilterField::Ratings {
        match crate::text::parse_i64(f.value@) {
            Some(n) => if 0 <= n <= 10 {
                Some((metadata_head(f) + "rating=?)"@, ParamView::Integer(n)))
            } else {
                None
            },
            None => None,
        }
    } else {
        Some(
            (
                metadata_head(f) + filter_name(f.field) + " LIKE ? ESCAPE '\\')"@,
                ParamView::Text(contains_pattern(f.value@)),
            ),
        )
    }
}

/// The clauses of a list of metadata filters, in order; `None` if one is invalid.
pub open spec fn metadata_clauses(fs: Seq<LibraryMetadataFilter>) -> Option<Seq<Clause>>
    decreases fs.len(),
{
    if fs.len() == 0 {
        Some(Seq::empty())
    } else {
        match (metadata_clauses(fs.drop_last()), metadata_clause(fs.last())) {
            (Some(cs), Some(c)) => Some(cs.push(c)),
            _ => None,
        }
    }
}

/// All clauses of a query, in order; `None` if a rating filter is invalid.
pub open spec fn query_clauses(q: LibraryQuery) -> Option<Seq<Clause>> {
    match metadata_clauses(q.metadata_filters@) {
        Some(ms) => Some(text_clauses(q) + ms),
        None => None,
    }
}

/// The `WHERE` condition of a list of clauses: all of them, or `1=1` for none.
pub open spec fn where_sql(cs: Seq<Clause>) -> Seq<char> {
    if cs.len() == 0 {
        "1=1"@
    } else {
        join(clause_sqls(cs), " AND "@)
    }
}

/// Appends one clause.
fn push_clause(
    sqls: &mut Vec<Vec<char>>,
    params: &mut Vec<SqlParam>,
    Ghost(cs): Ghost<Seq<Clause>>,
    sql: Vec<char>,
    param: SqlParam,
) -> (r: Ghost<Seq<Clause>>)
    requires
        views(old(sqls)@) == clause_sqls(cs),
        param_views(old(params)@) == clause_params(cs),
    ensures
        r@ == cs.push((sql@, param@)),
        views(final(sqls)@) == clause_sqls(r@),
        param_views(final(params)@) == clause_params(r@),
{
    let ghost c: Clause = (sql@, param@);
    let ghost s0 = sqls@;
    let ghost p0 = params@;
    sqls.push(sql);
    params.push(param);
    assert(views(sqls@) =~= views(s0).push(c.0));
    assert(clause_sqls(cs.push(c)) =~= clause_sqls(cs).push(c.0));
    assert(param_views(params@) =~= param_views(p0).push(c.1));
    assert(clause_params(cs.push(c)) =~= clause_params(cs).push(c.1));
    Ghost(cs.push(c))
}

/// Appends the clause of an optional text filter.
fn push_optional(
    sqls: &mut Vec<Vec<char>>,
    params: &mut Vec<SqlParam>,
    Ghost(cs): Ghost<Seq<Clause>>,
    value: &Option<String>,
    sql: &str,
) -> (r: Ghost<Seq<Clause>>)
    requires
        views(old(sqls)@) == clause_sqls(cs),
        param_views(old(params)@) == clause_params(cs),
    ensures
        r@ == cs + optional_clause(*value, sql@),
        views(final(sqls)@) == clause_sqls(r@),
        param_views(final(params)@) == clause_params(r@),
{
    match value {
        Some(v) => {
            let p = contains_pattern_of(v.as_str());
            let r = push_clause(sqls, params, Ghost(cs), chars_of(sql), SqlParam::Text(p));
            assert(r@ =~= cs + optional_clause(*value, sql@));
            r
        },
        None => {
            assert(cs + optional_clause(*value, sql@) =~= cs);
            Ghost(cs)
        },
    }
}

/// The clause of one metadata filter, or the refusal of an invalid rating.
pub fn metadata_filter_clause(f: &LibraryMetadataFilter) -> (r: Result<(Vec<char>, SqlParam), CalibreError>)
    ensures
        match r {
            Ok((sql, p)) => metadata_clause(*f) == Some::<Clause>((sql@, p@)),
            Err(e) => metadata_clause(*f) is None && e == CalibreError::InvalidRatingFilter,
        },
{
    let (table, link, column, name) = filter_sql_names(f.field);
    let mut head: Vec<char> = Vec::new();
    if f.mode == LibraryMetadataFilterMode::Exclude {
        append_str(&mut head, "NOT ");
    }
    append_str(&mut head, "EXISTS(SELECT 1 FROM ");
    append_str(&mut head, link);
    append_str(&mut head, " x JOIN ");
    append_str(&mut head, table);
    append_str(&mut head, " z ON z.id=x.");
    append_str(&mut head, column);
    append_str(&mut head, " WHERE x.book=b.id AND z.");
    assert(head@ =~= metadata_head(*f));
    if f.field == LibraryMetadataFilterField::Ratings {
        let parsed = crate::text::parse_i64_vec(&chars_of(f.value.as_str()));
        match parsed {
            Some(n) => {
                if 0 <= n && n <= 10 {
                    append_str(&mut head, "rating=?)");
                    Ok((head, SqlParam::Integer(n)))
                } else {
                    Err(CalibreError::InvalidRatingFilter)
                }
            },
            None => Err(CalibreError::InvalidRatingFilter),
        }
    } else {
        append_str(&mut head, name);
        append_str(&mut head, " LIKE ? ESCAPE '\\')");
        let p = contains_pattern_of(f.value.as_str());
        Ok((head, SqlParam::Text(p)))
    }
}

/// The `WHERE` condition of a query and the parameters it binds, one per clause;
/// refused when a rating filter is not a whole number from 0 through 10.
pub fn filters(q: &LibraryQuery) -> (r: Result<(String, Vec<SqlParam>), CalibreError>)
    ensures
        match r {
            Ok((w, ps)) => query_clauses(*q) matches Some(cs) && w@ == where_sql(cs) && param_views(
                ps@,
            ) == clause_params(cs),
            Err(e) => query_clauses(*q) is None && e == CalibreError::InvalidRatingFilter,
        },
{
    let mut sqls: Vec<Vec<char>> = Vec::new();
    let mut params: Vec<SqlParam> = Vec::new();
    let ghost cs0 = Seq::<Clause>::empty();
    assert(views(sqls@) =~= clause_sqls(cs0));
    assert(param_views(params@) =~= clause_params(cs0));
    let Ghost(cs1) = push_optional(&mut sqls, &mut params, Ghost(cs0), &q.title, "b.title LIKE ? ESCAPE '\\'");
    let Ghost(cs2) = push_optional(&mut sqls, &mut params, Ghost(cs1), &q.author, "EXISTS(SELECT 1 FROM books_authors_link x JOIN authors z ON z.id=x.author WHERE x.book=b.id AND z.name LIKE ? ESCAPE '\\')");
    let Ghost(cs3) = push_optional(&mut sqls, &mut params, Ghost(cs2), &q.tag, "EXISTS(SELECT 1 FROM books_tags_link x JOIN tags z ON z.id=x.tag WHERE x.book=b.id AND z.name LIKE ? ESCAPE '\\')");
    let Ghost(cs4) = push_optional(&mut sqls, &mut params, Ghost(cs3), &q.series, "EXISTS(SELECT 1 FROM books_series_link x JOIN series z ON z.id=x.series WHERE x.book=b.id AND z.name LIKE ? ESCAPE '\\')");
    let Ghost(cs5) = push_optional(&mut sqls, &mut params, Ghost(cs4), &q.publisher, "EXISTS(SELECT 1 FROM books_publishers_link x JOIN publishers z ON z.id=x.publisher WHERE x.book=b.id AND z.name LIKE ? ESCAPE '\\')");
    let Ghost(cs6) = push_optional(&mut sqls, &mut params, Ghost(cs5), &q.language, "EXISTS(SELECT 1 FROM books_languages_link x JOIN languages z ON z.id=x.lang_code WHERE x.book=b.id AND z.lang_code LIKE ? ESCAPE '\\')");
    let Ghost(cs7) = push_optional(&mut sqls, &mut params, Ghost(cs6), &q.identifier, "EXISTS(SELECT 1 FROM identifiers z WHERE z.book=b.id AND z.val LIKE ? ESCAPE '\\')");
    let Ghost(cs8) = push_optional(&mut sqls, &mut params, Ghost(cs7), &q.format, "LOWER(COALESCE((SELECT d.format FROM data d WHERE d.book=b.id ORDER BY d.id LIMIT 1),'')) LIKE LOWER(?) ESCAPE '\\'");
    assert(cs8 =~= text_clauses(*q));
    let ghost mut cs = cs8;
    let mut i: usize = 0;
    while i < q.metadata_filters.len()
        invariant
            i <= q.metadata_filters.len(),
            metadata_clauses(q.metadata_filters@.take(i as int)) matches Some(ms) && cs == text_clauses(*q) + ms,
            views(sqls@) == clause_sqls(cs),
            param_views(params@) == clause_params(cs),
        decreases q.metadata_filters.len() - i,
    {
        assert(q.metadata_filters@.take(i + 1).drop_last() =~= q.metadata_filters@.take(i as int));
        match metadata_filter_clause(&q.metadata_filters[i]) {
            Ok((sql, p)) => {
                let Ghost(next) = push_clause(&mut sqls, &mut params, Ghost(cs), sql, p);
                proof {
                    let ms = metadata_clauses(q.metadata_filters@.take(i as int))->0;
                    assert(next =~= text_clauses(*q) + ms.push(metadata_clause(q.metadata_filters@[i as int])->0));
                    cs = next;
                }
            },
            Err(e) => {
                proof {
                    lemma_metadata_clauses_none(q.metadata_filters@, (i + 1) as int);
                    assert(q.metadata_filters@.take(q.metadata_filters@.len() as int) =~= q.metadata_filters@);
                }
                return Err(e);
            },
        }
        i += 1;
    }
    assert(q.metadata_filters@.take(q.metadata_filters.len() as int) =~= q.metadata_filters@);
    let w = if sqls.len() == 0 {
        chars_of("1=1")
    } else {
        join_with(&sqls, " AND ")
    };
    Ok((string_of(&w), params))
}

/// Once a prefix of the filters has an invalid one, so has the whole list.
pub proof fn lemma_metadata_clauses_none(fs: Seq<LibraryMetadataFilter>, k: int)
    requires
        0 <= k <= fs.len(),
        metadata_clauses(fs.take(k)) is None,
    ensures
        metadata_clauses(fs) is None,
    decreases fs.len() - k,
{
    if k < fs.len() {
        assert(fs.take(k + 1).drop_last() =~= fs.take(k));
        lemma_metadata_clauses_none(fs, k + 1);
    } else {
        assert(fs.take(k) =~= fs);
    }
}

/// The columns every book listing reads: id, title, first format in lower case,
/// that format's file name, and the book's directory.
pub open spec fn book_select_sql() -> Seq<char> {
    "SELECT b.id,b.title,COALESCE((SELECT LOWER(d.format) FROM data d WHERE d.book=b.id ORDER BY d.id LIMIT 1),''),COALESCE((SELECT d.name FROM data d WHERE d.book=b.id ORDER BY d.id LIMIT 1),''),b.path FROM books b WHERE "@
}

/// `ASC` or `DESC`.
pub open spec fn direction_sql(descending: bool) -> Seq<char> {
    if descending {
        "DESC"@
    } else {
        "ASC"@
    }
}

/// The `ORDER BY` list of a query: the sort column in the query's direction, the
/// series index after a series, and the book id last unless it is the sort column.
pub open spec fn order_sql(sort: LibrarySortField, descending: bool) -> Seq<char> {
    sort_sql(sort) + " "@ + direction_sql(descending) + (if sort == LibrarySortField::Series {
        ",b.series_index "@ + direction_sql(descending)
    } else {
        Seq::empty()
    }) + (if sort != LibrarySortField::Id {
        ",b.id ASC"@
    } else {
        Seq::empty()
    })
}

/// The paging tail of a query: a limit with an optional offset, or an offset alone
/// after an unbounded limit.
pub open spec fn paging_sql(limit: Option<usize>, offset: Option<usize>) -> Seq<char> {
    match limit {
        Some(_) => " LIMIT ?"@ + if offset is Some {
            " OFFSET ?"@
        } else {
            Seq::empty()
        },
        None => if offset is Some {
            " LIMIT -1 OFFSET ?"@
        } else {
            Seq::empty()
        },
    }
}

/// The parameters of the paging tail.
pub open spec fn paging_params(limit: Option<usize>, offset: Option<usize>) -> Seq<ParamView> {
    let off = match offset {
        Some(m) => seq![ParamView::Integer(m as i64)],
        None => Seq::empty(),
    };
    match limit {
        Some(n) => seq![ParamView::Integer(n as i64)] + off,
        None => off,
    }
}

/// Appends the paging tail of a query and its parameters.
pub fn paging(s: &mut Vec<char>, limit: Option<usize>, offset: Option<usize>, p: &mut Vec<SqlParam>)
    ensures
        final(s)@ == old(s)@ + paging_sql(limit, offset),
        param_views(final(p)@) == param_views(old(p)@) + paging_params(limit, offset),
{
    let ghost p0 = p@;
    match limit {
        Some(n) => {
            append_str(s, " LIMIT ?");
            p.push(SqlParam::Integer(n as i64));
            match offset {
                Some(m) => {
                    append_str(s, " OFFSET ?");
                    p.push(SqlParam::Integer(m as i64));
                },
                None => {},
            }
        },
        None => match offset {
            Some(m) => {
                append_str(s, " LIMIT -1 OFFSET ?");
                p.push(SqlParam::Integer(m as i64));
            },
            None => {},
        },
    }
    assert(s@ =~= old(s)@ + paging_sql(limit, offset));
    assert(param_views(p@) =~= param_views(p0) + paging_params(limit, offset));
}

/// The query listing the books a query selects, in its order, with paging when
/// `page` is set, and its parameters.
pub fn book_query(q: &LibraryQuery, page: bool) -> (r: Result<(String, Vec<SqlParam>), CalibreError>)
    ensures
        match r {
            Ok((sql, ps)) => query_clauses(*q) matches Some(cs) && sql@ == book_select_sql()
                + where_sql(cs) + " ORDER BY "@ + order_sql(q.sort, q.descending) + (if page {
                paging_sql(q.limit, q.offset)
            } else {
                Seq::empty()
            }) && param_views(ps@) == clause_params(cs) + (if page {
                paging_params(q.limit, q.offset)
            } else {
                Seq::empty()
            }),
            Err(e) => query_clauses(*q) is None && e == CalibreError::InvalidRatingFilter,
        },
{
    let (w, mut p) = match filters(q) {
        Ok(x) => x,
        Err(e) => return Err(e),
    };
    let ghost cs = query_clauses(*q)->0;
    let mut s: Vec<char> = Vec::new();
    append_str(&mut s, "SELECT b.id,b.title,COALESCE((SELECT LOWER(d.format) FROM data d WHERE d.book=b.id ORDER BY d.id LIMIT 1),''),COALESCE((SELECT d.name FROM data d WHERE d.book=b.id ORDER BY d.id LIMIT 1),''),b.path FROM books b WHERE ");
    append_str(&mut s, w.as_str());
    append_str(&mut s, " ORDER BY ");
    append_str(&mut s, sort_expr(q.sort));
    append_str(&mut s, " ");
    let dir = if q.descending {
        "DESC"
    } else {
        "ASC"
    };
    append_str(&mut s, dir);
    if q.sort == LibrarySortField::Series {
        append_str(&mut s, ",b.series_index ");
        append_str(&mut s, dir);
    }
    if q.sort != LibrarySortField::Id {
        append_str(&mut s, ",b.id ASC");
    }
    assert(s@ =~= book_select_sql() + where_sql(cs) + " ORDER BY "@ + order_sql(q.sort, q.descending));
    if page {
        paging(&mut s, q.limit, q.offset, &mut p);
    } else {
        assert(s@ =~= s@ + Seq::<char>::empty());
        assert(param_views(p@) =~= param_views(p@) + Seq::<ParamView>::empty());
    }
    Ok((string_of(&s), p))
}

/// The query counting the books a query selects, and its parameters.
pub fn count_query(q: &LibraryQuery) -> (r: Result<(String, Vec<SqlParam>), CalibreError>)
    ensures
        match r {
            Ok((sql, ps)) => query_clauses(*q) matches Some(cs) && sql@ == "SELECT COUNT(*) FROM books b WHERE "@
                + where_sql(cs) && param_views(ps@) == clause_params(cs),
            Err(e) => query_clauses(*q) is None && e == CalibreError::InvalidRatingFilter,
        },
{
    let (w, p) = match filters(q) {
        Ok(x) => x,
        Err(e) => return Err(e),
    };
    let mut s: Vec<char> = Vec::new();
    append_str(&mut s, "SELECT COUNT(*) FROM books b WHERE ");
    append_str(&mut s, w.as_str());
    Ok((string_of(&s), p))
}

/// The query finding a text in titles, authors, tags or series names.
pub open spec fn search_sql() -> Seq<char> {
    "SELECT b.id,b.title,COALESCE((SELECT LOWER(d.format) FROM data d WHERE d.book=b.id ORDER BY d.id LIMIT 1),''),COALESCE((SELECT d.name FROM data d WHERE d.book=b.id ORDER BY d.id LIMIT 1),''),b.path FROM books b WHERE b.title LIKE ? ESCAPE '\\' OR EXISTS(SELECT 1 FROM books_authors_link x JOIN authors a ON a.id=x.author WHERE x.book=b.id AND a.name LIKE ? ESCAPE '\\') OR EXISTS(SELECT 1 FROM books_tags_link x JOIN tags t ON t.id=x.tag WHERE x.book=b.id AND t.name LIKE ? ESCAPE '\\') OR EXISTS(SELECT 1 FROM books_series_link x JOIN series s ON s.id=x.series WHERE x.book=b.id AND s.name LIKE ? ESCAPE '\\') ORDER BY b.id"@
}

/// The search query for `text`, with the text's pattern bound to each of its four
/// conditions.
pub fn search_query(text: &str) -> (r: (String, Vec<SqlParam>))
    ensures
        r.0@ == search_sql(),
        param_views(r.1@) == seq![
            ParamView::Text(contains_pattern(text@)),
            ParamView::Text(contains_pattern(text@)),
            ParamView::Text(contains_pattern(text@)),
            ParamView::Text(contains_pattern(text@)),
        ],
{
    let sql = string_of(&chars_of("SELECT b.id,b.title,COALESCE((SELECT LOWER(d.format) FROM data d WHERE d.book=b.id ORDER BY d.id LIMIT 1),''),COALESCE((SELECT d.name FROM data d WHERE d.book=b.id ORDER BY d.id LIMIT 1),''),b.path FROM books b WHERE b.title LIKE ? ESCAPE '\\' OR EXISTS(SELECT 1 FROM books_authors_link x JOIN authors a ON a.id=x.author WHERE x.book=b.id AND a.name LIKE ? ESCAPE '\\') OR EXISTS(SELECT 1 FROM books_tags_link x JOIN tags t ON t.id=x.tag WHERE x.book=b.id AND t.name LIKE ? ESCAPE '\\') OR EXISTS(SELECT 1 FROM books_series_link x JOIN series s ON s.id=x.series WHERE x.book=b.id AND s.name LIKE ? ESCAPE '\\') ORDER BY b.id"));
    let mut ps: Vec<SqlParam> = Vec::new();
    let mut k: usize = 0;
    while k < 4
        invariant
            k <= 4,
            param_views(ps@) == Seq::new(k as nat, |i: int| ParamView::Text(contains_pattern(text@))),
        decreases 4 - k,
    {
        let ghost before = ps@;
        let t = contains_pattern_of(text);
        ps.push(SqlParam::Text(t));
        assert(param_views(ps@) =~= param_views(before).push(ParamView::Text(contains_pattern(text@))));
        assert(param_views(ps@) =~= Seq::new((k + 1) as nat, |i: int| ParamView::Text(contains_pattern(text@))));
        k += 1;
    }
    assert(param_views(ps@) =~= seq![
        ParamView::Text(contains_pattern(text@)),
        ParamView::Text(contains_pattern(text@)),
        ParamView::Text(contains_pattern(text@)),
        ParamView::Text(contains_pattern(text@)),
    ]);
    (sql, ps)
}

/// A book as a library lists it.
#[derive(Clone, Debug)]
pub struct LibraryBook {
    pub id: i64,
    pub title: String,
    pub format: String,
    pub path: String,
}

/// The listed book of a query row: the file path is empty for a book without a
/// file, else the checked path of its first format.
pub fn book_from_row(
    root: &str,
    id: i64,
    title: String,
    format: String,
    name: &str,
    book_path: &str,
) -> (r: Result<LibraryBook, CalibreError>)
    ensures
        match r {
            Ok(b) => b.id == id && b.title@ == title@ && b.format@ == format@ && if name@.len() == 0 {
                b.path@.len() == 0
            } else {
                safe_path_outcome(root@, book_path@, name@, format@) == Ok::<Seq<char>, CalibreError>(
                    b.path@,
                )
            },
            Err(e) => name@.len() > 0 && safe_path_outcome(root@, book_path@, name@, format@)
                == Err::<Seq<char>, CalibreError>(e),
        },
{
    match listed_path(root, book_path, name, format.as_str()) {
        Ok(path) => Ok(LibraryBook { id, title, format, path }),
        Err(e) => Err(e),
    }
}

/// A query row of the books table: id, title, first format, its file name, and
/// the book's directory.
pub type BookQueryRow = (i64, String, String, String, String);

/// The row's book is listed: no file, or a checked path.
pub open spec fn row_lists(root: Seq<char>, row: BookQueryRow) -> bool {
    row.3@.len() == 0 || safe_path_outcome(root, row.4@, row.3@, row.2@) is Ok
}

/// The listed book matches its row: same id, title and format; no path without a
/// file, else the book's checked file path, which lies under the library root
/// and ends in `.` and the lower-cased format.
pub open spec fn lists_row(root: Seq<char>, row: BookQueryRow, b: LibraryBook) -> bool {
    &&& b.id == row.0
    &&& b.title@ == row.1@
    &&& b.format@ == row.2@
    &&& if row.3@.len() == 0 {
        b.path@.len() == 0
    } else {
        &&& b.path@ == content_file_path(root, row.4@, row.3@, row.2@)
        &&& crate::text::is_prefix(root, b.path@)
        &&& b.path@.len() > ascii_lower(row.2@).len()
        &&& b.path@.subrange(b.path@.len() - ascii_lower(row.2@).len() - 1, b.path@.len() as int)
            == seq!['.'] + ascii_lower(row.2@)
    }
}

proof fn lemma_listed_path_ends(root: Seq<char>, book: Seq<char>, name: Seq<char>, format: Seq<char>)
    requires
        book_path_is_safe(book),
        data_name_is_safe(name),
    ensures
        ({
            let p = content_file_path(root, book, name, format);
            let tail = seq!['.'] + ascii_lower(format);
            p.len() > ascii_lower(format).len() && p.subrange(p.len() - tail.len(), p.len() as int) == tail
        }),
{
    lemma_content_path_under_root(root, book, name, format);
    let file = name + seq!['.'] + ascii_lower(format);
    let tail = seq!['.'] + ascii_lower(format);
    let p = content_file_path(root, book, name, format);
    let dir = path_join(root, book);
    assert(file =~= name + tail);
    assert(p == path_join(dir, file));
    let pre = if file.len() > 0 && file[0] == '/' {
        Seq::<char>::empty()
    } else if dir.len() == 0 || dir.last() == '/' {
        dir
    } else {
        dir + seq!['/']
    };
    assert(p =~= pre + name + tail);
    assert(p.subrange(p.len() - tail.len(), p.len() as int) =~= tail);
}

/// Row `i` is the first whose file path is refused, with `e`.
pub open spec fn refused_at(root: Seq<char>, rows: Seq<BookQueryRow>, i: int, e: CalibreError) -> bool {
    &&& 0 <= i < rows.len()
    &&& forall|j: int| 0 <= j < i ==> row_lists(root, #[trigger] rows[j])
    &&& rows[i].3@.len() > 0
    &&& safe_path_outcome(root, rows[i].4@, rows[i].3@, rows[i].2@) == Err::<Seq<char>, CalibreError>(e)
}

/// The listed books of a query's rows, in order; the first row whose file path
/// is refused refuses the whole listing.
pub fn books_from_rows(root: &str, rows: &Vec<BookQueryRow>) -> (r: Result<Vec<LibraryBook>, CalibreError>)
    ensures
        match r {
            Ok(bs) => bs@.len() == rows@.len() && forall|i: int| 0 <= i < rows@.len() ==> lists_row(root@, rows@[i], #[trigger] bs@[i]),
            Err(e) => exists|i: int| #[trigger] refused_at(root@, rows@, i, e),
        },
{
    let mut out: Vec<LibraryBook> = Vec::new();
    let mut k: usize = 0;
    while k < rows.len()
        invariant
            k <= rows@.len(),
            out@.len() == k,
            forall|i: int| 0 <= i < k ==> lists_row(root@, rows@[i], #[trigger] out@[i]),
            forall|j: int| 0 <= j < k ==> row_lists(root@, #[trigger] rows@[j]),
        decreases rows.len() - k,
    {
        let row = &rows[k];
        let ghost fmt = row.2@;
        match book_from_row(root, row.0, row.1.clone(), row.2.clone(), row.3.as_str(), row.4.as_str()) {
            Ok(b) => {
                proof {
                    if row.3@.len() > 0 {
                        lemma_content_path_under_root(root@, row.4@, row.3@, fmt);
                        lemma_listed_path_ends(root@, row.4@, row.3@, fmt);
                    }
                }
                out.push(b);
            },
            Err(e) => {
                assert(refused_at(root@, rows@, k as int, e));
                return Err(e);
            },
        }
        assert(row_lists(root@, rows@[k as int]));
        k += 1;
    }
    Ok(out)
}

/// The file a book's content is read from.
#[derive(Clone, Debug)]
pub struct LibraryContent {
    pub book_id: i64,
    pub format: String,
    pub path: String,
    pub storage_mode: Option<String>,
}

/// The content of a book from its primary format: none when the book has no file
/// or no format, else the checked path, the format in lower case, and the
/// `reference` storage mode.
pub fn content_from_primary(root: &str, id: i64, book_path: &str, name: &str, format: &str) -> (r: Result<
    Option<LibraryContent>,
    CalibreError,
>)
    ensures
        (name@.len() == 0 || format@.len() == 0) ==> r matches Ok(None),
        (name@.len() > 0 && format@.len() > 0) ==> match r {
            Ok(Some(c)) => {
                &&& safe_path_outcome(root@, book_path@, name@, format@) == Ok::<
                    Seq<char>,
                    CalibreError,
                >(c.path@)
                &&& c.book_id == id
                &&& c.format@ == ascii_lower(format@)
                &&& c.storage_mode matches Some(m) && m@ == "reference"@
            },
            Ok(None) => false,
            Err(e) => safe_path_outcome(root@, book_path@, name@, format@) == Err::<
                Seq<char>,
                CalibreError,
            >(e),
        },
{
    if name.is_empty() || format.is_empty() {
        return Ok(None);
    }
    match safe_path(root, book_path, name, format) {
        Ok(path) => {
            let fv = chars_of(format);
            Ok(
                Some(
                    LibraryContent {
                        book_id: id,
                        format: string_of(&ascii_lower_vec(&fv)),
                        path,
                        storage_mode: Some(string_of(&chars_of("reference"))),
                    },
                ),
            )
        },
        Err(e) => Err(e),
    }
}

/// A page of books with the number of books the query selects in all.
#[derive(Clone, Debug)]
pub struct LibraryQueryPage {
    pub books: Vec<LibraryBook>,
    pub total: usize,
    pub offset: usize,
    pub limit: Option<usize>,
}

/// The page answering a query: its books, the total, and the query's offset (none
/// meaning 0) and limit.
pub fn query_page_of(books: Vec<LibraryBook>, total: usize, q: &LibraryQuery) -> (r: LibraryQueryPage)
    ensures
        r.books@ == books@,
        r.total == total,
        r.offset == match q.offset {
            Some(o) => o,
            None => 0,
        },
        r.limit == q.limit,
{
    let offset = match q.offset {
        Some(o) => o,
        None => 0,
    };
    LibraryQueryPage { books, total, offset, limit: q.limit }
}

/// Number of tables a Calibre library must have.
pub const REQUIRED_TABLE_COUNT: usize = 15;

/// The name of the `t`-th required table.
pub open spec fn required_table(t: int) -> Seq<char> {
    if t == 0 {
        "books"@
    } else if t == 1 {
        "data"@
    } else if t == 2 {
        "authors"@
    } else if t == 3 {
        "books_authors_link"@
    } else if t == 4 {
        "tags"@
    } else if t == 5 {
        "books_tags_link"@
    } else if t == 6 {
        "series"@
    } else if t == 7 {
        "books_series_link"@
    } else if t == 8 {
        "publishers"@
    } else if t == 9 {
        "books_publishers_link"@
    } else if t == 10 {
        "ratings"@
    } else if t == 11 {
        "books_ratings_link"@
    } else if t == 12 {
        "languages"@
    } else if t == 13 {
        "books_languages_link"@
    } else {
        "identifiers"@
    }
}

/// The columns the `t`-th required table must have.
pub open spec fn required_columns(t: int) -> Seq<Seq<char>> {
    if t == 0 {
        seq!["id"@, "title"@, "timestamp"@, "pubdate"@, "series_index"@, "author_sort"@, "path"@, "uuid"@, "has_cover"@, "last_modified"@]
    } else if t == 1 {
        seq!["id"@, "book"@, "format"@, "uncompressed_size"@, "name"@]
    } else if t == 2 {
        seq!["id"@, "name"@]
    } else if t == 3 {
        seq!["id"@, "book"@, "author"@]
    } else if t == 4 {
        seq!["id"@, "name"@]
    } else if t == 5 {
        seq!["id"@, "book"@, "tag"@]
    } else if t == 6 {
        seq!["id"@, "name"@]
    } else if t == 7 {
        seq!["id"@, "book"@, "series"@]
    } else if t == 8 {
        seq!["id"@, "name"@]
    } else if t == 9 {
        seq!["id"@, "book"@, "publisher"@]
    } else if t == 10 {
        seq!["id"@, "rating"@]
    } else if t == 11 {
        seq!["id"@, "book"@, "rating"@]
    } else if t == 12 {
        seq!["id"@, "lang_code"@]
    } else if t == 13 {
        seq!["id"@, "book"@, "lang_code"@, "item_order"@]
    } else {
        seq!["id"@, "book"@, "type"@, "val"@]
    }
}

/// The name of the `t`-th required table.
pub fn required_table_name(t: usize) -> (r: &'static str)
    requires
        t < REQUIRED_TABLE_COUNT,
    ensures
        r@ == required_table(t as int),
{
    if t == 0 {
        "books"
    } else if t == 1 {
        "data"
    } else if t == 2 {
        "authors"
    } else if t == 3 {
        "books_authors_link"
    } else if t == 4 {
        "tags"
    } else if t == 5 {
        "books_tags_link"
    } else if t == 6 {
        "series"
    } else if t == 7 {
        "books_series_link"
    } else if t == 8 {
        "publishers"
    } else if t == 9 {
        "books_publishers_link"
    } else if t == 10 {
        "ratings"
    } else if t == 11 {
        "books_ratings_link"
    } else if t == 12 {
        "languages"
    } else if t == 13 {
        "books_languages_link"
    } else {
        "identifiers"
    }
}

/// The columns the `t`-th required table must have.
fn required_column_names(t: usize) -> (r: Vec<&'static str>)
    requires
        t < REQUIRED_TABLE_COUNT,
    ensures
        r@.map_values(|c: &'static str| c@) == required_columns(t as int),
{
    let v = if t == 0 {
            let mut v: Vec<&'static str> = Vec::new();
            v.push("id");
            v.push("title");
            v.push("timestamp");
            v.push("pubdate");
            v.push("series_index");
            v.push("author_sort");
            v.push("path");
            v.push("uuid");
            v.push("has_cover");
            v.push("last_modified");
            v
        } else if t == 1 {
            let mut v: Vec<&'static str> = Vec::new();
            v.push("id");
            v.push("book");
            v.push("format");
            v.push("uncompressed_size");
            v.push("name");
            v
        } else if t == 2 {
            let mut v: Vec<&'static str> = Vec::new();
            v.push("id");
            v.push("name");
            v
        } else if t == 3 {
            let mut v: Vec<&'static str> = Vec::new();
            v.push("id");
            v.push("book");
            v.push("author");
            v
        } else if t == 4 {
            let mut v: Vec<&'static str> = Vec::new();
            v.push("id");
            v.push("name");
            v
        } else if t == 5 {
            let mut v: Vec<&'static str> = Vec::new();
            v.push("id");
            v.push("book");
            v.push("tag");
            v
        } else if t == 6 {
            let mut v: Vec<&'static str> = Vec::new();
            v.push("id");
            v.push("name");
            v
        } else if t == 7 {
            let mut v: Vec<&'static str> = Vec::new();
            v.push("id");
            v.push("book");
            v.push("series");
            v
        } else if t == 8 {
            let mut v: Vec<&'static str> = Vec::new();
            v.push("id");
            v.push("name");
            v
        } else if t == 9 {
            let mut v: Vec<&'static str> = Vec::new();
            v.push("id");
            v.push("book");
            v.push("publisher");
            v
        } else if t == 10 {
            let mut v: Vec<&'static str> = Vec::new();
            v.push("id");
            v.push("rating");
            v
        } else if t == 11 {
            let mut v: Vec<&'static str> = Vec::new();
            v.push("id");
            v.push("book");
            v.push("rating");
            v
        } else if t == 12 {
            let mut v: Vec<&'static str> = Vec::new();
            v.push("id");
            v.push("lang_code");
            v
        } else if t == 13 {
            let mut v: Vec<&'static str> = Vec::new();
            v.push("id");
            v.push("book");
            v.push("lang_code");
            v.push("item_order");
            v
        } else {
            let mut v: Vec<&'static str> = Vec::new();
            v.push("id");
            v.push("book");
            v.push("type");
            v.push("val");
            v
        };
    assert(v@.map_values(|c: &'static str| c@) =~= required_columns(t as int));
    v
}


/// `k` is the first required column of `required` missing from `found`.
pub open spec fn is_first_missing(required: Seq<Seq<char>>, found: Seq<Seq<char>>, k: int) -> bool {
    &&& 0 <= k < required.len()
    &&& !found.contains(required[k])
    &&& forall|j: int| 0 <= j < k ==> found.contains(#[trigger] required[j])
}

/// Whether the list holds the given name.
fn holds_name(found: &Vec<String>, name: &str) -> (r: bool)
    ensures
        r == string_views(found@).contains(name@),
{
    let mut i: usize = 0;
    while i < found.len()
        invariant
            i <= found.len(),
            forall|j: int| 0 <= j < i ==> string_views(found@)[j] != name@,
        decreases found.len() - i,
    {
        assert(string_views(found@)[i as int] == found@[i as int]@);
        if crate::text::str_eq(found[i].as_str(), name) {
            return true;
        }
        i += 1;
    }
    false
}

/// Checks the columns found for the `t`-th required table: no columns at all means
/// the table is missing; otherwise the first required column not found is reported.
pub fn check_table_columns(t: usize, found: &Vec<String>) -> (r: Result<(), CalibreError>)
    requires
        t < REQUIRED_TABLE_COUNT,
    ensures
        found@.len() == 0 ==> (r matches Err(CalibreError::MissingTable { table }) && table@
            == required_table(t as int)),
        found@.len() > 0 ==> match r {
            Ok(()) => forall|k: int|
                0 <= k < required_columns(t as int).len() ==> string_views(found@).contains(
                    #[trigger] required_columns(t as int)[k],
                ),
            Err(CalibreError::MissingColumn { table, column }) => table@ == required_table(t as int)
                && exists|k: int|
                is_first_missing(required_columns(t as int), string_views(found@), k)
                    && column@ == #[trigger] required_columns(t as int)[k],
            Err(_) => false,
        },
{
    let name = required_table_name(t);
    if found.len() == 0 {
        return Err(CalibreError::MissingTable { table: string_of(&chars_of(name)) });
    }
    let cols = required_column_names(t);
    let ghost req = required_columns(t as int);
    let mut k: usize = 0;
    while k < cols.len()
        invariant
            k <= cols.len(),
            cols@.map_values(|c: &'static str| c@) == req,
            req == required_columns(t as int),
            found@.len() > 0,
            name@ == required_table(t as int),
            forall|j: int| 0 <= j < k ==> string_views(found@).contains(#[trigger] req[j]),
        decreases cols.len() - k,
    {
        assert(req[k as int] == cols@[k as int]@);
        if !holds_name(found, cols[k]) {
            let column = string_of(&chars_of(cols[k]));
            assert(is_first_missing(req, string_views(found@), k as int));
            assert(column@ == required_columns(t as int)[k as int]);
            return Err(CalibreError::MissingColumn { table: string_of(&chars_of(name)), column });
        }
        k += 1;
    }
    assert forall|j: int| 0 <= j < required_columns(t as int).len() implies string_views(found@).contains(
        #[trigger] required_columns(t as int)[j],
    ) by {
        assert(req[j] == required_columns(t as int)[j]);
    }
    Ok(())
}


/// A checked content path lies under the library root: it starts with the root,
/// followed by a separator unless the root is empty or already ends with one.
pub proof fn lemma_content_path_under_root(root: Seq<char>, book: Seq<char>, name: Seq<char>, format: Seq<char>)
    requires
        book_path_is_safe(book),
        data_name_is_safe(name),
    ensures
        crate::text::is_prefix(root, content_file_path(root, book, name, format)),
        root.len() == 0 || root.last() == '/' || content_file_path(root, book, name, format)[root.len() as int] == '/',
{
    let dir = path_join(root, book);
    let file = name + seq!['.'] + ascii_lower(format);
    assert(file[0] == name[0]);
    assert(name[0] != '/') by {
        if name[0] == '/' {
            assert(name.contains('/'));
        }
    }
    let p = path_join(dir, file);
    assert(p == if dir.len() == 0 || dir.last() == '/' { dir + file } else { dir + seq!['/'] + file });
    assert(crate::text::is_prefix(root, dir)) by {
        assert(dir.take(root.len() as int) =~= root);
    }
    assert(crate::text::is_prefix(dir, p)) by {
        assert(p.take(dir.len() as int) =~= dir);
    }
    assert(p.take(root.len() as int) =~= root) by {
        assert(p.take(root.len() as int) =~= dir.take(root.len() as int));
    }
    if !(root.len() == 0 || root.last() == '/') {
        assert(dir[root.len() as int] == '/');
        assert(p[root.len() as int] == dir[root.len() as int]);
    }
}


/// Metadata of a listed book gathered from the link tables, apart from its series.
#[derive(Clone, Debug)]
pub struct BookMeta {
    pub authors: Vec<String>,
    pub tags: Vec<String>,
    pub rating: Option<i64>,
    pub publisher: Option<String>,
    pub languages: Vec<String>,
    pub cover: bool,
    pub added: Option<String>,
    pub modified: Option<String>,
    pub pubdate: Option<String>,
}

/// The values of the rows of a book, in row order.
pub open spec fn values_for(rows: Seq<(i64, String)>, id: i64) -> Seq<Seq<char>>
    decreases rows.len(),
{
    if rows.len() == 0 {
        Seq::empty()
    } else if rows.last().0 == id {
        values_for(rows.drop_last(), id).push(rows.last().1@)
    } else {
        values_for(rows.drop_last(), id)
    }
}

/// Index of the first row of a book, or -1.
pub open spec fn first_row_for<T>(rows: Seq<(i64, T)>, id: i64) -> int
    decreases rows.len(),
{
    if rows.len() == 0 {
        -1
    } else {
        let r = first_row_for(rows.drop_last(), id);
        if r >= 0 {
            r
        } else if rows.last().0 == id {
            rows.len() - 1
        } else {
            -1
        }
    }
}

/// Index of the last row of a book, or -1.
pub open spec fn last_row_for<T>(rows: Seq<(i64, T)>, id: i64) -> int
    decreases rows.len(),
{
    if rows.len() == 0 {
        -1
    } else if rows.last().0 == id {
        rows.len() - 1
    } else {
        last_row_for(rows.drop_last(), id)
    }
}

proof fn lemma_first_row_found<T>(rows: Seq<(i64, T)>, id: i64, i: int)
    requires
        0 <= i < rows.len(),
        rows[i].0 == id,
        forall|j: int| 0 <= j < i ==> (#[trigger] rows[j]).0 != id,
    ensures
        first_row_for(rows, id) == i,
    decreases rows.len(),
{
    if i < rows.len() - 1 {
        lemma_first_row_found(rows.drop_last(), id, i);
    } else {
        lemma_first_row_none(rows.drop_last(), id);
    }
}

proof fn lemma_first_row_none<T>(rows: Seq<(i64, T)>, id: i64)
    requires
        forall|j: int| 0 <= j < rows.len() ==> (#[trigger] rows[j]).0 != id,
    ensures
        first_row_for(rows, id) == -1,
    decreases rows.len(),
{
    if rows.len() > 0 {
        lemma_first_row_none(rows.drop_last(), id);
    }
}

proof fn lemma_last_row_found<T>(rows: Seq<(i64, T)>, id: i64, i: int)
    requires
        0 <= i < rows.len(),
        rows[i].0 == id,
        forall|j: int| i < j < rows.len() ==> (#[trigger] rows[j]).0 != id,
    ensures
        last_row_for(rows, id) == i,
    decreases rows.len(),
{
    if i < rows.len() - 1 {
        lemma_last_row_found(rows.drop_last(), id, i);
    }
}

proof fn lemma_last_row_none<T>(rows: Seq<(i64, T)>, id: i64)
    requires
        forall|j: int| 0 <= j < rows.len() ==> (#[trigger] rows[j]).0 != id,
    ensures
        last_row_for(rows, id) == -1,
    decreases rows.len(),
{
    if rows.len() > 0 {
        lemma_last_row_none(rows.drop_last(), id);
    }
}

/// The values of the rows of a book, in row order.
fn collect_values(rows: &Vec<(i64, String)>, id: i64) -> (r: Vec<String>)
    ensures
        string_views(r@) == values_for(rows@, id),
{
    let mut out: Vec<String> = Vec::new();
    let mut i: usize = 0;
    while i < rows.len()
        invariant
            i <= rows@.len(),
            string_views(out@) == values_for(rows@.take(i as int), id),
        decreases rows.len() - i,
    {
        assert(rows@.take(i + 1).drop_last() =~= rows@.take(i as int));
        if rows[i].0 == id {
            let ghost before = string_views(out@);
            out.push(rows[i].1.clone());
            assert(string_views(out@) =~= before.push(rows@[i as int].1@));
        }
        i += 1;
    }
    assert(rows@.take(rows@.len() as int) =~= rows@);
    out
}

/// The value of the first row of a book.
fn first_value<T: Copy>(rows: &Vec<(i64, T)>, id: i64) -> (r: Option<T>)
    ensures
        match r {
            Some(v) => first_row_for(rows@, id) >= 0 && v == rows@[first_row_for(rows@, id)].1,
            None => first_row_for(rows@, id) == -1,
        },
{
    let mut i: usize = 0;
    while i < rows.len()
        invariant
            i <= rows@.len(),
            forall|j: int| 0 <= j < i ==> (#[trigger] rows@[j]).0 != id,
        decreases rows.len() - i,
    {
        if rows[i].0 == id {
            proof {
                lemma_first_row_found(rows@, id, i as int);
            }
            return Some(rows[i].1);
        }
        i += 1;
    }
    proof {
        lemma_first_row_none(rows@, id);
    }
    None
}

/// The text of the first row of a book.
fn first_text(rows: &Vec<(i64, String)>, id: i64) -> (r: Option<String>)
    ensures
        match r {
            Some(v) => first_row_for(rows@, id) >= 0 && v@ == rows@[first_row_for(rows@, id)].1@,
            None => first_row_for(rows@, id) == -1,
        },
{
    let mut i: usize = 0;
    while i < rows.len()
        invariant
            i <= rows@.len(),
            forall|j: int| 0 <= j < i ==> (#[trigger] rows@[j]).0 != id,
        decreases rows.len() - i,
    {
        if rows[i].0 == id {
            proof {
                lemma_first_row_found(rows@, id, i as int);
            }
            return Some(rows[i].1.clone());
        }
        i += 1;
    }
    proof {
        lemma_first_row_none(rows@, id);
    }
    None
}

/// A book's dates and cover flag as the books table holds them.
pub type BookDates = (Option<String>, Option<String>, Option<String>, bool);

/// The metadata of book `id` from the rows read for a page of books: its authors,
/// tags and languages in row order; its first rating and first publisher; its
/// dates and cover flag from its last books row, none and `false` without one.
pub fn book_meta_for(
    id: i64,
    books: &Vec<(i64, BookDates)>,
    authors: &Vec<(i64, String)>,
    tags: &Vec<(i64, String)>,
    ratings: &Vec<(i64, i64)>,
    publishers: &Vec<(i64, String)>,
    languages: &Vec<(i64, String)>,
) -> (r: BookMeta)
    ensures
        string_views(r.authors@) == values_for(authors@, id),
        string_views(r.tags@) == values_for(tags@, id),
        string_views(r.languages@) == values_for(languages@, id),
        r.rating == if first_row_for(ratings@, id) >= 0 {
            Some(ratings@[first_row_for(ratings@, id)].1)
        } else {
            None::<i64>
        },
        crate::paths::opt_view(r.publisher) == if first_row_for(publishers@, id) >= 0 {
            Some(publishers@[first_row_for(publishers@, id)].1@)
        } else {
            None::<Seq<char>>
        },
        last_row_for(books@, id) >= 0 ==> {
            let b = books@[last_row_for(books@, id)].1;
            &&& crate::paths::opt_view(r.added) == crate::paths::opt_view(b.0)
            &&& crate::paths::opt_view(r.modified) == crate::paths::opt_view(b.1)
            &&& crate::paths::opt_view(r.pubdate) == crate::paths::opt_view(b.2)
            &&& r.cover == b.3
        },
        last_row_for(books@, id) < 0 ==> r.added is None && r.modified is None && r.pubdate is None
            && !r.cover,
{
    let mut added: Option<String> = None;
    let mut modified: Option<String> = None;
    let mut pubdate: Option<String> = None;
    let mut cover = false;
    let mut i: usize = books.len();
    while i > 0
        invariant
            i <= books@.len(),
            forall|j: int| i <= j < books@.len() ==> (#[trigger] books@[j]).0 != id,
            added is None && modified is None && pubdate is None && !cover,
        decreases i,
    {
        if books[i - 1].0 == id {
            proof {
                lemma_last_row_found(books@, id, i - 1);
            }
            let b = &books[i - 1].1;
            added = match &b.0 {
                Some(s) => Some(s.clone()),
                None => None,
            };
            modified = match &b.1 {
                Some(s) => Some(s.clone()),
                None => None,
            };
            pubdate = match &b.2 {
                Some(s) => Some(s.clone()),
                None => None,
            };
            cover = b.3;
            return BookMeta {
                authors: collect_values(authors, id),
                tags: collect_values(tags, id),
                rating: first_value(ratings, id),
                publisher: first_text(publishers, id),
                languages: collect_values(languages, id),
                cover,
                added,
                modified,
                pubdate,
            };
        }
        i -= 1;
    }
    proof {
        lemma_last_row_none(books@, id);
    }
    BookMeta {
        authors: collect_values(authors, id),
        tags: collect_values(tags, id),
        rating: first_value(ratings, id),
        publisher: first_text(publishers, id),
        languages: collect_values(languages, id),
        cover,
        added,
        modified,
        pubdate,
    }
}

/// The `?` placeholders of an `IN` list of `n` values: `?,?,...`.
pub open spec fn placeholders_of(n: nat) -> Seq<char>
    decreases n,
{
    if n == 0 {
        Seq::empty()
    } else if n == 1 {
        seq!['?']
    } else {
        placeholders_of((n - 1) as nat) + seq![',', '?']
    }
}

/// Writes the placeholders of an `IN` list.
pub fn placeholders(n: usize) -> (r: String)
    ensures
        r@ == placeholders_of(n as nat),
{
    let mut v: Vec<char> = Vec::new();
    let mut i: usize = 0;
    while i < n
        invariant
            i <= n,
            v@ == placeholders_of(i as nat),
        decreases n - i,
    {
        if i > 0 {
            v.push(',');
        }
        v.push('?');
        assert(v@ =~= placeholders_of((i + 1) as nat));
        i += 1;
    }
    string_of(&v)
}

} // verus!
