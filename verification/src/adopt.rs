//! Adoption of one logical format of a book from an external reference into
//! managed storage: the choices the adoption makes over the book's asset rows.
use crate::text::{ascii_lower, ascii_lower_vec, chars_of, nat_digits, str_eq, string_of, trim, trim_vec, u64_digits};
use vstd::prelude::*;

verus! {

/// A request to adopt one logical format of a book.
#[derive(Clone, Debug)]
pub struct AdoptFormatRequest {
    pub book_id: i64,
    pub format: String,
    pub reference_asset_id: Option<i64>,
}

/// What an adoption produced, or found already in place.
#[derive(Clone, Debug)]
pub struct AdoptFormatResult {
    pub book_id: i64,
    pub format: String,
    pub source_asset_id: i64,
    pub managed_asset_id: i64,
    pub stored_path: String,
    pub logical_size_bytes: u64,
    pub stored_size_bytes: u64,
    pub checksum_sha256: String,
    pub is_compressed: bool,
    pub reused_existing_object: bool,
    pub already_adopted: bool,
}

/// One asset row of a book: where a copy of one of its formats lives.
#[derive(Clone, Debug)]
pub struct AssetRow {
    pub id: i64,
    pub book_format_id: Option<i64>,
    pub storage_mode: String,
    pub stored_path: String,
    pub size_bytes: u64,
    pub stored_size_bytes: u64,
    pub checksum: Option<String>,
    pub is_compressed: bool,
}

/// An object written into the managed store for an adoption.
#[derive(Clone, Debug)]
pub struct ManagedObject {
    pub stored_path: String,
    pub logical_size_bytes: u64,
    pub stored_size_bytes: u64,
    pub checksum_sha256: String,
    pub is_compressed: bool,
    pub reused_existing: bool,
}

/// What is known of the reference's source file on disk.
#[derive(Clone, Copy, Debug, PartialEq, Eq, Structural)]
pub enum SourceFileStatus {
    Unavailable,
    NotRegularFile,
    RegularFile,
}

/// What was measured of an existing managed file.
#[derive(Clone, Debug)]
pub struct ManagedFileFacts {
    pub is_file: bool,
    pub stored_size: u64,
    pub logical_size: u64,
    pub checksum: Option<String>,
}

/// Why an adoption was refused.
#[derive(Clone, Copy, Debug, PartialEq, Eq, Structural)]
pub enum AdoptError {
    BookMissing,
    LogicalFormatMissing,
    ReferenceNotInFormat,
    NoReferenceAsset,
    SourceUnavailable,
    SourceNotRegularFile,
    ManagedUnavailable,
    ManagedStoredSizeMismatch,
    ManagedLogicalSizeMismatch,
    ManagedChecksumMismatch,
}

/// The message reported for each refusal.
pub open spec fn adopt_error_message(e: AdoptError) -> Seq<char> {
    match e {
        AdoptError::BookMissing => "book does not exist"@,
        AdoptError::LogicalFormatMissing => "logical format does not exist"@,
        AdoptError::ReferenceNotInFormat => "reference asset does not belong to the requested logical format"@,
        AdoptError::NoReferenceAsset => "logical format has no reference asset"@,
        AdoptError::SourceUnavailable => "reference source file is unavailable"@,
        AdoptError::SourceNotRegularFile => "reference source must be a regular file"@,
        AdoptError::ManagedUnavailable => "existing managed asset file is unavailable"@,
        AdoptError::ManagedStoredSizeMismatch => "existing managed asset stored size does not match"@,
        AdoptError::ManagedLogicalSizeMismatch => "existing managed asset logical size does not match"@,
        AdoptError::ManagedChecksumMismatch => "existing managed asset checksum does not match"@,
    }
}

impl AdoptError {
    /// The message reported for this refusal.
    pub fn message(self) -> (r: &'static str)
        ensures
            r@ == adopt_error_message(self),
    {
        match self {
            AdoptError::BookMissing => "book does not exist",
            AdoptError::LogicalFormatMissing => "logical format does not exist",
            AdoptError::ReferenceNotInFormat => "reference asset does not belong to the requested logical format",
            AdoptError::NoReferenceAsset => "logical format has no reference asset",
            AdoptError::SourceUnavailable => "reference source file is unavailable",
            AdoptError::SourceNotRegularFile => "reference source must be a regular file",
            AdoptError::ManagedUnavailable => "existing managed asset file is unavailable",
            AdoptError::ManagedStoredSizeMismatch => "existing managed asset stored size does not match",
            AdoptError::ManagedLogicalSizeMismatch => "existing managed asset logical size does not match",
            AdoptError::ManagedChecksumMismatch => "existing managed asset checksum does not match",
        }
    }
}

/// The storage mode of an asset that points at a file outside managed storage.
pub open spec fn reference_mode() -> Seq<char> {
    "reference"@
}

/// The storage mode of an asset held in managed storage.
pub open spec fn copy_mode() -> Seq<char> {
    "copy"@
}

/// The asset belongs to logical format `format_id` and is stored in `mode`.
pub open spec fn is_asset_of(a: AssetRow, format_id: i64, mode: Seq<char>) -> bool {
    a.book_format_id == Some(format_id) && a.storage_mode@ == mode
}

/// `i` is the first asset of the format and mode whose id is smallest among them.
pub open spec fn is_first_min(assets: Seq<AssetRow>, format_id: i64, mode: Seq<char>, i: int) -> bool {
    &&& 0 <= i < assets.len()
    &&& is_asset_of(assets[i], format_id, mode)
    &&& forall|j: int|
        0 <= j < assets.len() && is_asset_of(#[trigger] assets[j], format_id, mode) ==> assets[i].id
            <= assets[j].id
    &&& forall|j: int|
        0 <= j < i && is_asset_of(#[trigger] assets[j], format_id, mode) ==> assets[i].id
            < assets[j].id
}

/// `i` is the first asset of the format and mode that has id `id`.
pub open spec fn is_first_with_id(
    assets: Seq<AssetRow>,
    format_id: i64,
    mode: Seq<char>,
    id: i64,
    i: int,
) -> bool {
    &&& 0 <= i < assets.len()
    &&& is_asset_of(assets[i], format_id, mode)
    &&& assets[i].id == id
    &&& forall|j: int|
        0 <= j < i && is_asset_of(#[trigger] assets[j], format_id, mode) ==> assets[j].id != id
}

/// Some asset has the format and mode.
pub open spec fn has_asset_of(assets: Seq<AssetRow>, format_id: i64, mode: Seq<char>) -> bool {
    exists|j: int| 0 <= j < assets.len() && is_asset_of(#[trigger] assets[j], format_id, mode)
}

/// Some asset has the format, the mode and id `id`.
pub open spec fn has_asset_with_id(
    assets: Seq<AssetRow>,
    format_id: i64,
    mode: Seq<char>,
    id: i64,
) -> bool {
    exists|j: int|
        0 <= j < assets.len() && is_asset_of(#[trigger] assets[j], format_id, mode) && assets[j].id
            == id
}

/// Whether the asset is of the given format and mode.
fn asset_is_of(a: &AssetRow, format_id: i64, mode: &str) -> (r: bool)
    ensures
        r == is_asset_of(*a, format_id, mode@),
{
    match a.book_format_id {
        Some(f) => f == format_id && str_eq(a.storage_mode.as_str(), mode),
        None => false,
    }
}

/// Index of the first asset of the format and mode with the smallest id, if any.
pub fn first_min_asset(assets: &Vec<AssetRow>, format_id: i64, mode: &str) -> (r: Option<usize>)
    ensures
        match r {
            Some(i) => is_first_min(assets@, format_id, mode@, i as int),
            None => !has_asset_of(assets@, format_id, mode@),
        },
{
    let mut best: Option<usize> = None;
    let mut k: usize = 0;
    while k < assets.len()
        invariant
            k <= assets.len(),
            match best {
                Some(i) => {
                    &&& i < k
                    &&& is_asset_of(assets@[i as int], format_id, mode@)
                    &&& forall|j: int|
                        0 <= j < k && is_asset_of(#[trigger] assets@[j], format_id, mode@)
                            ==> assets@[i as int].id <= assets@[j].id
                    &&& forall|j: int|
                        0 <= j < i && is_asset_of(#[trigger] assets@[j], format_id, mode@)
                            ==> assets@[i as int].id < assets@[j].id
                },
                None => forall|j: int| 0 <= j < k ==> !is_asset_of(#[trigger] assets@[j], format_id, mode@),
            },
        decreases assets.len() - k,
    {
        if asset_is_of(&assets[k], format_id, mode) {
            match best {
                Some(i) => {
                    if assets[k].id < assets[i].id {
                        best = Some(k);
                    }
                },
                None => {
                    best = Some(k);
                },
            }
        }
        k += 1;
    }
    best
}

/// Index of the first asset of the format and mode with id `id`, if any.
pub fn first_asset_with_id(assets: &Vec<AssetRow>, format_id: i64, mode: &str, id: i64) -> (r: Option<usize>)
    ensures
        match r {
            Some(i) => is_first_with_id(assets@, format_id, mode@, id, i as int),
            None => !has_asset_with_id(assets@, format_id, mode@, id),
        },
{
    let mut k: usize = 0;
    while k < assets.len()
        invariant
            k <= assets.len(),
            forall|j: int|
                0 <= j < k && is_asset_of(#[trigger] assets@[j], format_id, mode@) ==> assets@[j].id
                    != id,
        decreases assets.len() - k,
    {
        if asset_is_of(&assets[k], format_id, mode) && assets[k].id == id {
            return Some(k);
        }
        k += 1;
    }
    None
}

/// The format name an adoption works on: trimmed and in ASCII lower case.
pub open spec fn normalized_format(format: Seq<char>) -> Seq<char> {
    ascii_lower(trim(format))
}

/// Trims a requested format name and lowers its ASCII letters.
pub fn normalize_format(format: &str) -> (r: String)
    ensures
        r@ == normalized_format(format@),
{
    let v = chars_of(format);
    string_of(&ascii_lower_vec(&trim_vec(&v)))
}

/// The reference asset an adoption starts from: the requested one, which must be a
/// reference of the logical format, or else the reference of the format with the
/// smallest id.
pub open spec fn is_chosen_reference(
    assets: Seq<AssetRow>,
    format_id: i64,
    requested: Option<i64>,
    i: int,
) -> bool {
    match requested {
        Some(id) => is_first_with_id(assets, format_id, reference_mode(), id, i),
        None => is_first_min(assets, format_id, reference_mode(), i),
    }
}

/// A reference can be chosen.
pub open spec fn has_chosen_reference(
    assets: Seq<AssetRow>,
    format_id: i64,
    requested: Option<i64>,
) -> bool {
    match requested {
        Some(id) => has_asset_with_id(assets, format_id, reference_mode(), id),
        None => has_asset_of(assets, format_id, reference_mode()),
    }
}

/// Chooses the reference asset of the logical format `format_id`.
pub fn select_reference(assets: &Vec<AssetRow>, format_id: i64, requested: Option<i64>) -> (r: Result<
    usize,
    AdoptError,
>)
    ensures
        match r {
            Ok(i) => is_chosen_reference(assets@, format_id, requested, i as int),
            Err(e) => !has_chosen_reference(assets@, format_id, requested) && e == (
            if requested is Some {
                AdoptError::ReferenceNotInFormat
            } else {
                AdoptError::NoReferenceAsset
            }),
        },
{
    proof {
        reveal_strlit("reference");
    }
    match requested {
        Some(id) => match first_asset_with_id(assets, format_id, "reference", id) {
            Some(i) => Ok(i),
            None => Err(AdoptError::ReferenceNotInFormat),
        },
        None => match first_min_asset(assets, format_id, "reference") {
            Some(i) => Ok(i),
            None => Err(AdoptError::NoReferenceAsset),
        },
    }
}

/// Chooses the existing managed copy of the logical format: the copy with the
/// smallest id.
pub fn select_managed(assets: &Vec<AssetRow>, format_id: i64) -> (r: Option<usize>)
    ensures
        match r {
            Some(i) => is_first_min(assets@, format_id, copy_mode(), i as int),
            None => !has_asset_of(assets@, format_id, copy_mode()),
        },
{
    proof {
        reveal_strlit("copy");
    }
    first_min_asset(assets, format_id, "copy")
}

/// The refusal, if any, before the reference's file is inspected.
pub open spec fn start_outcome(
    book_exists: bool,
    logical_format_id: Option<i64>,
    assets: Seq<AssetRow>,
    requested: Option<i64>,
) -> Option<AdoptError> {
    if !book_exists {
        Some(AdoptError::BookMissing)
    } else if logical_format_id is None {
        Some(AdoptError::LogicalFormatMissing)
    } else if !has_chosen_reference(assets, logical_format_id->0, requested) {
        Some(
            if requested is Some {
                AdoptError::ReferenceNotInFormat
            } else {
                AdoptError::NoReferenceAsset
            },
        )
    } else {
        None
    }
}

/// First stage of an adoption: the book must exist, its logical format must exist,
/// and a reference asset of that format must be chosen. Returns the chosen
/// reference's index.
pub fn begin_adoption(
    book_exists: bool,
    logical_format_id: Option<i64>,
    assets: &Vec<AssetRow>,
    requested: Option<i64>,
) -> (r: Result<usize, AdoptError>)
    ensures
        match r {
            Ok(i) => start_outcome(book_exists, logical_format_id, assets@, requested) is None
                && is_chosen_reference(assets@, logical_format_id->0, requested, i as int),
            Err(e) => start_outcome(book_exists, logical_format_id, assets@, requested) == Some(e),
        },
{
    if !book_exists {
        return Err(AdoptError::BookMissing);
    }
    match logical_format_id {
        None => Err(AdoptError::LogicalFormatMissing),
        Some(id) => select_reference(assets, id, requested),
    }
}

/// What the second stage decides.
#[derive(Clone, Copy, Debug, PartialEq, Eq, Structural)]
pub enum AdoptDecision {
    /// The format already has a managed copy: the asset at this index.
    ReuseManaged(usize),
    /// The reference's file is to be written into managed storage.
    AdoptNew,
}

/// Second stage of an adoption: the reference's file must be a regular file; an
/// existing managed copy of the format is reused, else the file is adopted anew.
pub fn decide_adoption(assets: &Vec<AssetRow>, format_id: i64, source: SourceFileStatus) -> (r: Result<
    AdoptDecision,
    AdoptError,
>)
    ensures
        source == SourceFileStatus::Unavailable ==> r == Err::<AdoptDecision, AdoptError>(
            AdoptError::SourceUnavailable,
        ),
        source == SourceFileStatus::NotRegularFile ==> r == Err::<AdoptDecision, AdoptError>(
            AdoptError::SourceNotRegularFile,
        ),
        source == SourceFileStatus::RegularFile ==> match r {
            Ok(AdoptDecision::ReuseManaged(i)) => is_first_min(
                assets@,
                format_id,
                copy_mode(),
                i as int,
            ),
            Ok(AdoptDecision::AdoptNew) => !has_asset_of(assets@, format_id, copy_mode()),
            Err(_) => false,
        },
{
    match source {
        SourceFileStatus::Unavailable => Err(AdoptError::SourceUnavailable),
        SourceFileStatus::NotRegularFile => Err(AdoptError::SourceNotRegularFile),
        SourceFileStatus::RegularFile => match select_managed(assets, format_id) {
            Some(i) => Ok(AdoptDecision::ReuseManaged(i)),
            None => Ok(AdoptDecision::AdoptNew),
        },
    }
}

/// The verdict on an existing managed copy, from what was measured of its file.
pub open spec fn existing_asset_outcome(asset: AssetRow, facts: ManagedFileFacts) -> Option<AdoptError> {
    if !facts.is_file {
        Some(AdoptError::ManagedUnavailable)
    } else if facts.stored_size != asset.stored_size_bytes {
        Some(AdoptError::ManagedStoredSizeMismatch)
    } else if facts.logical_size != asset.size_bytes {
        Some(AdoptError::ManagedLogicalSizeMismatch)
    } else {
        match asset.checksum {
            Some(expected) => if facts.checksum is Some && facts.checksum->0@ == expected@ {
                None
            } else {
                Some(AdoptError::ManagedChecksumMismatch)
            },
            None => None,
        }
    }
}

/// Checks an existing managed copy against its row: the file must exist, its stored
/// and logical sizes must match, and so must its checksum where the row records one.
pub fn verify_existing_asset(asset: &AssetRow, facts: &ManagedFileFacts) -> (r: Result<(), AdoptError>)
    ensures
        match r {
            Ok(()) => existing_asset_outcome(*asset, *facts) is None,
            Err(e) => existing_asset_outcome(*asset, *facts) == Some(e),
        },
{
    if !facts.is_file {
        return Err(AdoptError::ManagedUnavailable);
    }
    if facts.stored_size != asset.stored_size_bytes {
        return Err(AdoptError::ManagedStoredSizeMismatch);
    }
    if facts.logical_size != asset.size_bytes {
        return Err(AdoptError::ManagedLogicalSizeMismatch);
    }
    match &asset.checksum {
        Some(expected) => match &facts.checksum {
            Some(actual) => {
                if str_eq(actual.as_str(), expected.as_str()) {
                    Ok(())
                } else {
                    Err(AdoptError::ManagedChecksumMismatch)
                }
            },
            None => Err(AdoptError::ManagedChecksumMismatch),
        },
        None => Ok(()),
    }
}

/// The characters of an optional string, empty when absent.
pub open spec fn text_or_empty(s: Option<String>) -> Seq<char> {
    match s {
        Some(t) => t@,
        None => Seq::empty(),
    }
}

/// The result reported for a format whose managed copy is the row `asset`.
pub fn result_from_asset(
    book_id: i64,
    format: String,
    source_asset_id: i64,
    managed_asset_id: i64,
    asset: &AssetRow,
    already_adopted: bool,
) -> (r: AdoptFormatResult)
    ensures
        r.book_id == book_id,
        r.format@ == format@,
        r.source_asset_id == source_asset_id,
        r.managed_asset_id == managed_asset_id,
        r.stored_path@ == asset.stored_path@,
        r.logical_size_bytes == asset.size_bytes,
        r.stored_size_bytes == asset.stored_size_bytes,
        r.checksum_sha256@ == text_or_empty(asset.checksum),
        r.is_compressed == asset.is_compressed,
        r.reused_existing_object,
        r.already_adopted == already_adopted,
{
    let checksum = match &asset.checksum {
        Some(c) => c.clone(),
        None => String::new(),
    };
    AdoptFormatResult {
        book_id,
        format,
        source_asset_id,
        managed_asset_id,
        stored_path: asset.stored_path.clone(),
        logical_size_bytes: asset.size_bytes,
        stored_size_bytes: asset.stored_size_bytes,
        checksum_sha256: checksum,
        is_compressed: asset.is_compressed,
        reused_existing_object: true,
        already_adopted,
    }
}

/// The result reported for a format just adopted into the managed object `object`,
/// recorded as asset `managed_asset_id`.
pub fn new_adoption_result(
    book_id: i64,
    format: String,
    source_asset_id: i64,
    managed_asset_id: i64,
    object: ManagedObject,
) -> (r: AdoptFormatResult)
    ensures
        r.book_id == book_id,
        r.format@ == format@,
        r.source_asset_id == source_asset_id,
        r.managed_asset_id == managed_asset_id,
        r.stored_path@ == object.stored_path@,
        r.logical_size_bytes == object.logical_size_bytes,
        r.stored_size_bytes == object.stored_size_bytes,
        r.checksum_sha256@ == object.checksum_sha256@,
        r.is_compressed == object.is_compressed,
        r.reused_existing_object == object.reused_existing,
        !r.already_adopted,
{
    AdoptFormatResult {
        book_id,
        format,
        source_asset_id,
        managed_asset_id,
        stored_path: object.stored_path,
        logical_size_bytes: object.logical_size_bytes,
        stored_size_bytes: object.stored_size_bytes,
        checksum_sha256: object.checksum_sha256,
        is_compressed: object.is_compressed,
        reused_existing_object: object.reused_existing,
        already_adopted: false,
    }
}

/// Whether a stored object must be deleted again when recording its asset row
/// failed: only an object this adoption wrote, not one it found in the store.
pub fn discard_after_failed_record(object: &ManagedObject) -> (r: bool)
    ensures
        r == !object.reused_existing,
{
    !object.reused_existing
}

/// Whole seconds since the Unix epoch by the system clock, `None` where the clock
/// reads earlier than the epoch (`SystemTime::now` and `duration_since`).
/// The reading depends on the clock and is not stated.
#[verifier::external_body]
fn seconds_since_epoch() -> (r: Option<u64>)
{
    std::time::SystemTime::now().duration_since(std::time::UNIX_EPOCH).ok().map(|d| d.as_secs())
}

/// The creation stamp written for a clock reading: its seconds in decimal, or "0"
/// where the clock read before the epoch.
pub fn timestamp_text(seconds: Option<u64>) -> (r: String)
    ensures
        r@ == match seconds {
            Some(s) => nat_digits(s as nat),
            None => seq!['0'],
        },
{
    match seconds {
        Some(s) => string_of(&u64_digits(s)),
        None => {
            let mut v: Vec<char> = Vec::new();
            v.push('0');
            string_of(&v)
        },
    }
}

/// The creation stamp of a new managed asset row: decimal seconds since the epoch.
pub fn adoption_timestamp() -> (r: String)
    ensures
        r@ == seq!['0'] || exists|n: u64| r@ == #[trigger] nat_digits(n as nat),
{
    let s = seconds_since_epoch();
    timestamp_text(s)
}


/// Only one index can be the first asset with the smallest id.
pub proof fn lemma_first_min_unique(assets: Seq<AssetRow>, format_id: i64, mode: Seq<char>, i: int, k: int)
    requires
        is_first_min(assets, format_id, mode, i),
        is_first_min(assets, format_id, mode, k),
    ensures
        i == k,
{
    if i < k {
        assert(is_asset_of(assets[i], format_id, mode));
    } else if k < i {
        assert(is_asset_of(assets[k], format_id, mode));
    }
}

/// Only one index can be the first asset with a given id.
pub proof fn lemma_first_with_id_unique(
    assets: Seq<AssetRow>,
    format_id: i64,
    mode: Seq<char>,
    id: i64,
    i: int,
    k: int,
)
    requires
        is_first_with_id(assets, format_id, mode, id, i),
        is_first_with_id(assets, format_id, mode, id, k),
    ensures
        i == k,
{
    if i < k {
        assert(is_asset_of(assets[i], format_id, mode));
    } else if k < i {
        assert(is_asset_of(assets[k], format_id, mode));
    }
}

/// Appending a row that is not of the format and mode changes none of the choices
/// made among the assets of that format and mode.
pub proof fn lemma_unrelated_row_keeps_choice(
    assets: Seq<AssetRow>,
    row: AssetRow,
    format_id: i64,
    mode: Seq<char>,
)
    requires
        !is_asset_of(row, format_id, mode),
    ensures
        has_asset_of(assets.push(row), format_id, mode) == has_asset_of(assets, format_id, mode),
        forall|id: i64|
            has_asset_with_id(assets.push(row), format_id, mode, id) == has_asset_with_id(
                assets,
                format_id,
                mode,
                id,
            ),
        forall|i: int|
            is_first_min(assets.push(row), format_id, mode, i) == is_first_min(
                assets,
                format_id,
                mode,
                i,
            ),
        forall|id: i64, i: int|
            is_first_with_id(assets.push(row), format_id, mode, id, i) == is_first_with_id(
                assets,
                format_id,
                mode,
                id,
                i,
            ),
{
    let s2 = assets.push(row);
    assert forall|j: int| 0 <= j < s2.len() && is_asset_of(#[trigger] s2[j], format_id, mode) implies 0
        <= j < assets.len() && s2[j] == assets[j] by {}
    assert forall|j: int| 0 <= j < assets.len() implies #[trigger] s2[j] == assets[j] by {}
    if has_asset_of(s2, format_id, mode) {
        let j = choose|j: int| 0 <= j < s2.len() && is_asset_of(#[trigger] s2[j], format_id, mode);
        assert(is_asset_of(assets[j], format_id, mode));
    }
    if has_asset_of(assets, format_id, mode) {
        let j = choose|j: int| 0 <= j < assets.len() && is_asset_of(#[trigger] assets[j], format_id, mode);
        assert(is_asset_of(s2[j], format_id, mode));
    }
    assert forall|i: int|
        is_first_min(s2, format_id, mode, i) == is_first_min(assets, format_id, mode, i) by {
        if is_first_min(s2, format_id, mode, i) {
            assert(s2[i] == assets[i]);
            assert forall|j: int|
                0 <= j < assets.len() && is_asset_of(#[trigger] assets[j], format_id, mode) implies assets[i].id
                    <= assets[j].id by {
                assert(s2[j] == assets[j]);
            }
            assert forall|j: int|
                0 <= j < i && is_asset_of(#[trigger] assets[j], format_id, mode) implies assets[i].id
                    < assets[j].id by {
                assert(s2[j] == assets[j]);
            }
        }
        if is_first_min(assets, format_id, mode, i) {
            assert(s2[i] == assets[i]);
            assert forall|j: int|
                0 <= j < s2.len() && is_asset_of(#[trigger] s2[j], format_id, mode) implies s2[i].id
                    <= s2[j].id by {
                assert(s2[j] == assets[j]);
            }
            assert forall|j: int|
                0 <= j < i && is_asset_of(#[trigger] s2[j], format_id, mode) implies s2[i].id < s2[j].id by {
                assert(s2[j] == assets[j]);
            }
        }
    }
    assert forall|id: i64, i: int|
        is_first_with_id(s2, format_id, mode, id, i) == is_first_with_id(assets, format_id, mode, id, i) by {
        if is_first_with_id(s2, format_id, mode, id, i) {
            assert(s2[i] == assets[i]);
            assert forall|j: int|
                0 <= j < i && is_asset_of(#[trigger] assets[j], format_id, mode) implies assets[j].id != id by {
                assert(s2[j] == assets[j]);
            }
        }
        if is_first_with_id(assets, format_id, mode, id, i) {
            assert(s2[i] == assets[i]);
            assert forall|j: int|
                0 <= j < i && is_asset_of(#[trigger] s2[j], format_id, mode) implies s2[j].id != id by {
                assert(s2[j] == assets[j]);
            }
        }
    }
    assert forall|id: i64|
        has_asset_with_id(s2, format_id, mode, id) == has_asset_with_id(assets, format_id, mode, id) by {
        if has_asset_with_id(s2, format_id, mode, id) {
            let j = choose|j: int|
                0 <= j < s2.len() && is_asset_of(#[trigger] s2[j], format_id, mode) && s2[j].id == id;
            assert(is_asset_of(assets[j], format_id, mode) && assets[j].id == id);
        }
        if has_asset_with_id(assets, format_id, mode, id) {
            let j = choose|j: int|
                0 <= j < assets.len() && is_asset_of(#[trigger] assets[j], format_id, mode)
                    && assets[j].id == id;
            assert(is_asset_of(s2[j], format_id, mode) && s2[j].id == id);
        }
    }
}

/// After an adoption records the first managed copy of a format, repeating the same
/// request chooses the same reference and reuses that copy: the repeat reports the
/// format as already adopted, with the new copy as its managed asset, and writes
/// nothing more.
pub proof fn lemma_repeat_reuses_new_copy(
    book_exists: bool,
    format_id: i64,
    assets: Seq<AssetRow>,
    requested: Option<i64>,
    copy: AssetRow,
)
    requires
        !has_asset_of(assets, format_id, copy_mode()),
        is_asset_of(copy, format_id, copy_mode()),
    ensures
        start_outcome(book_exists, Some(format_id), assets.push(copy), requested) == start_outcome(
            book_exists,
            Some(format_id),
            assets,
            requested,
        ),
        forall|i: int|
            is_chosen_reference(assets.push(copy), format_id, requested, i) == is_chosen_reference(
                assets,
                format_id,
                requested,
                i,
            ),
        is_first_min(assets.push(copy), format_id, copy_mode(), assets.len() as int),
        assets.push(copy)[assets.len() as int] == copy,
{
    reveal_strlit("reference");
    reveal_strlit("copy");
    assert(reference_mode()[0] != copy_mode()[0]);
    assert(!is_asset_of(copy, format_id, reference_mode()));
    lemma_unrelated_row_keeps_choice(assets, copy, format_id, reference_mode());
    let s2 = assets.push(copy);
    assert forall|j: int| 0 <= j < s2.len() && is_asset_of(#[trigger] s2[j], format_id, copy_mode()) implies j
        == assets.len() by {
        if j < assets.len() {
            assert(s2[j] == assets[j]);
            assert(is_asset_of(assets[j], format_id, copy_mode()));
        }
    }
}

/// Rows of other logical formats play no part in an adoption of this format: adding
/// one changes neither the reference chosen nor the managed copy reused.
pub proof fn lemma_other_formats_ignored(
    book_exists: bool,
    format_id: i64,
    assets: Seq<AssetRow>,
    requested: Option<i64>,
    row: AssetRow,
)
    requires
        row.book_format_id != Some(format_id),
    ensures
        start_outcome(book_exists, Some(format_id), assets.push(row), requested) == start_outcome(
            book_exists,
            Some(format_id),
            assets,
            requested,
        ),
        forall|i: int|
            is_chosen_reference(assets.push(row), format_id, requested, i) == is_chosen_reference(
                assets,
                format_id,
                requested,
                i,
            ),
        has_asset_of(assets.push(row), format_id, copy_mode()) == has_asset_of(
            assets,
            format_id,
            copy_mode(),
        ),
        forall|i: int|
            is_first_min(assets.push(row), format_id, copy_mode(), i) == is_first_min(
                assets,
                format_id,
                copy_mode(),
                i,
            ),
{
    lemma_unrelated_row_keeps_choice(assets, row, format_id, reference_mode());
    lemma_unrelated_row_keeps_choice(assets, row, format_id, copy_mode());
}

/// What the outside world has answered so far in an adoption.
#[derive(Clone, Debug)]
pub struct AdoptionAnswers {
    /// What the chosen reference's file is.
    pub source: Option<SourceFileStatus>,
    /// What the existing managed copy's file measures.
    pub managed: Option<ManagedFileFacts>,
    /// The object written for the reference and the id of its recorded asset row.
    pub written: Option<(ManagedObject, i64)>,
}

/// The next thing an adoption needs, or its end.
#[derive(Debug)]
pub enum AdoptionStep {
    /// Whether the reference asset at this row is a regular file.
    InspectSource(usize),
    /// What the managed copy at this row measures.
    MeasureManaged(usize),
    /// The reference asset at this row is to be written into managed storage and
    /// its copy recorded.
    WriteNew(usize),
    /// The adoption's result.
    Done(Result<AdoptFormatResult, AdoptError>),
}

/// The adoption of a request over a book's rows succeeded with `r`: the book and
/// normalized format are the request's, the source is the chosen reference (the
/// requested one, or the reference with the smallest id), and a format already
/// adopted reuses the copy with the smallest id, as found.
pub open spec fn adoption_law(
    req_book_id: i64,
    req_format: Seq<char>,
    requested: Option<i64>,
    format_id: i64,
    assets: Seq<AssetRow>,
    r: AdoptFormatResult,
) -> bool {
    &&& r.book_id == req_book_id
    &&& r.format@ == normalized_format(req_format)
    &&& exists|i: int| #[trigger] is_chosen_reference(assets, format_id, requested, i) && r.source_asset_id == assets[i].id
    &&& r.already_adopted ==> r.reused_existing_object && exists|k: int|
        #[trigger] is_first_min(assets, format_id, copy_mode(), k) && r.managed_asset_id == assets[k].id
            && r.stored_path@ == assets[k].stored_path@ && r.logical_size_bytes == assets[k].size_bytes
            && r.stored_size_bytes == assets[k].stored_size_bytes
            && r.checksum_sha256@ == text_or_empty(assets[k].checksum) && r.is_compressed == assets[k].is_compressed
    &&& !r.already_adopted ==> !has_asset_of(assets, format_id, copy_mode())
}

/// The result reports the written object and its recorded asset row.
pub open spec fn reports_written(res: AdoptFormatResult, written: Option<(ManagedObject, i64)>) -> bool {
    match written {
        Some((o, id)) => {
            &&& res.managed_asset_id == id
            &&& res.stored_path@ == o.stored_path@
            &&& res.logical_size_bytes == o.logical_size_bytes
            &&& res.stored_size_bytes == o.stored_size_bytes
            &&& res.checksum_sha256@ == o.checksum_sha256@
            &&& res.is_compressed == o.is_compressed
            &&& res.reused_existing_object == o.reused_existing
        },
        None => false,
    }
}

/// The next step of adopting `req` for a book: refusals first (no book, no
/// logical format, no reference), then the reference's file must be regular; a
/// format with a managed copy is checked against that copy and reported as
/// already adopted, else the reference is written anew and reported with the
/// recorded copy.
pub fn adoption_step(
    req: &AdoptFormatRequest,
    book_exists: bool,
    logical_format_id: Option<i64>,
    assets: &Vec<AssetRow>,
    answers: AdoptionAnswers,
) -> (r: AdoptionStep)
    ensures
        match r {
            AdoptionStep::InspectSource(i) => start_outcome(book_exists, logical_format_id, assets@, req.reference_asset_id)
                is None && is_chosen_reference(assets@, logical_format_id->0, req.reference_asset_id, i as int)
                && answers.source is None,
            AdoptionStep::MeasureManaged(i) => start_outcome(book_exists, logical_format_id, assets@, req.reference_asset_id)
                is None && answers.source == Some(SourceFileStatus::RegularFile) && is_first_min(
                assets@,
                logical_format_id->0,
                copy_mode(),
                i as int,
            ) && answers.managed is None,
            AdoptionStep::WriteNew(i) => start_outcome(book_exists, logical_format_id, assets@, req.reference_asset_id)
                is None && answers.source == Some(SourceFileStatus::RegularFile) && !has_asset_of(
                assets@,
                logical_format_id->0,
                copy_mode(),
            ) && is_chosen_reference(assets@, logical_format_id->0, req.reference_asset_id, i as int)
                && answers.written is None,
            AdoptionStep::Done(Err(e)) => start_outcome(book_exists, logical_format_id, assets@, req.reference_asset_id)
                == Some(e) || (start_outcome(book_exists, logical_format_id, assets@, req.reference_asset_id) is None
                && ((answers.source == Some(SourceFileStatus::Unavailable) && e == AdoptError::SourceUnavailable)
                || (answers.source == Some(SourceFileStatus::NotRegularFile) && e == AdoptError::SourceNotRegularFile)
                || (answers.source == Some(SourceFileStatus::RegularFile) && answers.managed is Some && exists|k: int|
                #[trigger] is_first_min(assets@, logical_format_id->0, copy_mode(), k) && existing_asset_outcome(
                    assets@[k],
                    answers.managed->0,
                ) == Some(e)))),
            AdoptionStep::Done(Ok(res)) => start_outcome(book_exists, logical_format_id, assets@, req.reference_asset_id)
                is None && answers.source == Some(SourceFileStatus::RegularFile) && adoption_law(
                req.book_id,
                req.format@,
                req.reference_asset_id,
                logical_format_id->0,
                assets@,
                res,
            ) && (res.already_adopted ==> answers.managed is Some && existing_asset_outcome(
                assets@[choose|k: int| is_first_min(assets@, logical_format_id->0, copy_mode(), k)],
                answers.managed->0,
            ) is None) && (!res.already_adopted ==> reports_written(res, answers.written)),
        },
{
    let reference = match begin_adoption(book_exists, logical_format_id, assets, req.reference_asset_id) {
        Err(e) => {
            return AdoptionStep::Done(Err(e));
        },
        Ok(i) => i,
    };
    let format_id = match logical_format_id {
        Some(f) => f,
        None => {
            return AdoptionStep::Done(Err(AdoptError::LogicalFormatMissing));
        },
    };
    let source = match answers.source {
        None => {
            return AdoptionStep::InspectSource(reference);
        },
        Some(s) => s,
    };
    match decide_adoption(assets, format_id, source) {
        Err(e) => AdoptionStep::Done(Err(e)),
        Ok(AdoptDecision::ReuseManaged(i)) => match answers.managed {
            None => AdoptionStep::MeasureManaged(i),
            Some(facts) => match verify_existing_asset(&assets[i], &facts) {
                Err(e) => {
                    assert(is_first_min(assets@, format_id, copy_mode(), i as int));
                    AdoptionStep::Done(Err(e))
                },
                Ok(()) => {
                    let res = result_from_asset(
                        req.book_id,
                        normalize_format(req.format.as_str()),
                        assets[reference].id,
                        assets[i].id,
                        &assets[i],
                        true,
                    );
                    proof {
                        assert(is_chosen_reference(assets@, format_id, req.reference_asset_id, reference as int));
                        assert(is_first_min(assets@, format_id, copy_mode(), i as int));
                        let k = choose|k: int| is_first_min(assets@, format_id, copy_mode(), k);
                        lemma_first_min_unique(assets@, format_id, copy_mode(), i as int, k);
                    }
                    AdoptionStep::Done(Ok(res))
                },
            },
        },
        Ok(AdoptDecision::AdoptNew) => match answers.written {
            None => AdoptionStep::WriteNew(reference),
            Some((object, id)) => {
                let res = new_adoption_result(
                    req.book_id,
                    normalize_format(req.format.as_str()),
                    assets[reference].id,
                    id,
                    object,
                );
                assert(is_chosen_reference(assets@, format_id, req.reference_asset_id, reference as int));
                AdoptionStep::Done(Ok(res))
            },
        },
    }
}

} // verus!
