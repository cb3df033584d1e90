//! Named presets as the configuration stores them: sort presets, virtual
//! libraries, column layouts and save-to-disk presets.
use crate::browser::{
    decode_filter_list, encode_filter_list, filter_views, lemma_filter_list_roundtrip, BrowserFilter,
    FilterView,
};
use crate::columns::{
    column_key_from, column_key_str, column_shown, default_column_order, default_columns,
    lemma_column_key_roundtrip, lemma_sort_mode_key_roundtrip, parse_column_key_vec,
    parse_sort_direction, parse_sort_mode, sort_mode_from, sort_mode_key, ColumnKey, ColumnVisibility,
    SortDirection, SortMode,
};
use crate::text::{
    append_str, chars_of, find_char, first_index, lemma_first_index_unique,
    slice_vec, split, split_vec, string_of, string_views, vec_eq_str, views,
};
use vstd::prelude::*;

verus! {

/// A saved ordering of the book list.
#[derive(Clone, Copy, Debug, PartialEq, Eq, Structural)]
pub struct SortPreset {
    pub primary: SortMode,
    pub secondary: Option<SortMode>,
    pub direction: SortDirection,
}

/// The stored word of a direction.
pub open spec fn direction_key(d: SortDirection) -> Seq<char> {
    match d {
        SortDirection::Asc => "asc"@,
        SortDirection::Desc => "desc"@,
    }
}

/// The direction a stored word names.
pub open spec fn direction_from(s: Seq<char>) -> Option<SortDirection> {
    if s == "asc"@ {
        Some(SortDirection::Asc)
    } else if s == "desc"@ {
        Some(SortDirection::Desc)
    } else {
        None
    }
}

/// The stored word of a secondary sort: its key, or `none`.
pub open spec fn secondary_key(s: Option<SortMode>) -> Seq<char> {
    match s {
        Some(m) => sort_mode_key(m),
        None => "none"@,
    }
}

/// The secondary sort a stored word names: `none` for no secondary sort.
pub open spec fn secondary_from(s: Seq<char>) -> Option<Option<SortMode>> {
    if s == "none"@ {
        Some(None)
    } else {
        match sort_mode_from(s) {
            Some(m) => Some(Some(m)),
            None => None,
        }
    }
}

/// A sort preset as stored: `primary|secondary|direction`.
pub open spec fn encoded_sort_preset(p: SortPreset) -> Seq<char> {
    sort_mode_key(p.primary) + seq!['|'] + secondary_key(p.secondary) + seq!['|'] + direction_key(
        p.direction,
    )
}

/// A stored sort preset read back: the text up to the first `|` names the primary
/// sort, the text up to the next `|` the secondary one, and the rest the direction.
pub open spec fn sort_preset_from(v: Seq<char>) -> Option<SortPreset> {
    let i = first_index(v, '|');
    if i < 0 {
        None
    } else {
        let rest = v.subrange(i + 1, v.len() as int);
        let j = first_index(rest, '|');
        if j < 0 {
            None
        } else {
            match (
                sort_mode_from(v.subrange(0, i)),
                secondary_from(rest.subrange(0, j)),
                direction_from(rest.subrange(j + 1, rest.len() as int)),
            ) {
                (Some(p), Some(s), Some(d)) => Some(SortPreset { primary: p, secondary: s, direction: d }),
                _ => None,
            }
        }
    }
}

/// Writes a sort preset as stored.
pub fn encode_sort_preset(p: &SortPreset) -> (r: String)
    ensures
        r@ == encoded_sort_preset(*p),
{
    let mut v: Vec<char> = Vec::new();
    append_str(&mut v, p.primary.key());
    v.push('|');
    match p.secondary {
        Some(m) => append_str(&mut v, m.key()),
        None => append_str(&mut v, "none"),
    }
    v.push('|');
    match p.direction {
        SortDirection::Asc => append_str(&mut v, "asc"),
        SortDirection::Desc => append_str(&mut v, "desc"),
    }
    assert(v@ =~= encoded_sort_preset(*p));
    string_of(&v)
}

/// Reads a stored sort preset; `None` when a part is missing or unknown.
pub fn decode_sort_preset(value: &str) -> (r: Option<SortPreset>)
    ensures
        r == sort_preset_from(value@),
{
    let v = chars_of(value);
    let i = match find_char(&v, '|') {
        Some(i) => i,
        None => return None,
    };
    let rest = slice_vec(&v, i + 1, v.len());
    let j = match find_char(&rest, '|') {
        Some(j) => j,
        None => return None,
    };
    let a = string_of(&slice_vec(&v, 0, i));
    let b = string_of(&slice_vec(&rest, 0, j));
    let c = string_of(&slice_vec(&rest, j + 1, rest.len()));
    let primary = parse_sort_mode(a.as_str());
    proof {
        reveal_strlit("none");
    }
    let secondary = if vec_eq_str(&chars_of(b.as_str()), "none") {
        Some(None)
    } else {
        match parse_sort_mode(b.as_str()) {
            Some(m) => Some(Some(m)),
            None => None,
        }
    };
    let direction = parse_sort_direction(c.as_str());
    match (primary, secondary, direction) {
        (Some(p), Some(s), Some(d)) => Some(SortPreset { primary: p, secondary: s, direction: d }),
        _ => None,
    }
}

/// No stored sort word holds a `|`.
proof fn lemma_sort_words_plain(m: SortMode)
    ensures
        !sort_mode_key(m).contains('|'),
        sort_mode_key(m) != "none"@,
{
    reveal_strlit("title");
    reveal_strlit("authors");
    reveal_strlit("series");
    reveal_strlit("tags");
    reveal_strlit("formats");
    reveal_strlit("rating");
    reveal_strlit("publisher");
    reveal_strlit("languages");
    reveal_strlit("date_added");
    reveal_strlit("date_modified");
    reveal_strlit("pubdate");
    reveal_strlit("id");
    reveal_strlit("none");
    assert("none"@.len() == 4);
    assert("tags"@.len() == 4);
    assert("tags"@[0] != "none"@[0]);
}

/// `a|b` split at its first `|` gives `a` and `b` back.
proof fn lemma_split_at_bar(a: Seq<char>, b: Seq<char>)
    requires
        !a.contains('|'),
    ensures
        first_index(a + seq!['|'] + b, '|') == a.len(),
        (a + seq!['|'] + b).subrange(0, a.len() as int) == a,
        (a + seq!['|'] + b).subrange(a.len() as int + 1, (a + seq!['|'] + b).len() as int) == b,
{
    let s = a + seq!['|'] + b;
    assert forall|j: int| 0 <= j < a.len() implies s[j] != '|' by {
        assert(s[j] == a[j]);
    }
    lemma_first_index_unique(s, '|', a.len() as int);
    assert(s.subrange(0, a.len() as int) =~= a);
    assert(s.subrange(a.len() as int + 1, s.len() as int) =~= b);
}

/// Reading a stored sort preset gives the preset back.
pub proof fn lemma_sort_preset_roundtrip(p: SortPreset)
    ensures
        sort_preset_from(encoded_sort_preset(p)) == Some(p),
{
    reveal_strlit("none");
    reveal_strlit("asc");
    reveal_strlit("desc");
    lemma_sort_words_plain(p.primary);
    lemma_sort_mode_key_roundtrip(p.primary);
    let sec = secondary_key(p.secondary);
    let dir = direction_key(p.direction);
    match p.secondary {
        Some(m) => {
            lemma_sort_words_plain(m);
            lemma_sort_mode_key_roundtrip(m);
        },
        None => {
            assert(!"none"@.contains('|')) by {
                assert("none"@ =~= seq!['n', 'o', 'n', 'e']);
            }
        },
    }
    assert("asc"@.len() == 3);
    assert("desc"@.len() == 4);
    let tail = sec + seq!['|'] + dir;
    let whole = sort_mode_key(p.primary) + seq!['|'] + tail;
    assert(encoded_sort_preset(p) =~= whole);
    lemma_split_at_bar(sort_mode_key(p.primary), tail);
    lemma_split_at_bar(sec, dir);
}

/// A stored sort preset reads back exactly when it is the stored form of that
/// preset: `primary|secondary|direction` with known words and nothing else.
pub proof fn lemma_sort_preset_exact(v: Seq<char>, p: SortPreset)
    ensures
        sort_preset_from(v) == Some(p) <==> v == encoded_sort_preset(p),
{
    lemma_sort_preset_roundtrip(p);
    if sort_preset_from(v) == Some(p) {
        let i = first_index(v, '|');
        crate::text::lemma_first_index(v, '|');
        let rest = v.subrange(i + 1, v.len() as int);
        let j = first_index(rest, '|');
        crate::text::lemma_first_index(rest, '|');
        let a = v.subrange(0, i);
        let b = rest.subrange(0, j);
        let c = rest.subrange(j + 1, rest.len() as int);
        assert(a == sort_mode_key(p.primary));
        assert(b == secondary_key(p.secondary));
        assert(c == direction_key(p.direction));
        assert(rest =~= b + seq!['|'] + c);
        assert(v =~= a + seq!['|'] + rest);
        assert(v =~= encoded_sort_preset(p));
    }
}

/// Sort presets by name, each stored in its text form, in the same order.
pub fn encode_sort_presets(source: &Vec<(String, SortPreset)>) -> (r: Vec<(String, String)>)
    ensures
        r@.len() == source@.len(),
        forall|i: int|
            0 <= i < r@.len() ==> (#[trigger] r@[i]).0@ == source@[i].0@ && r@[i].1@
                == encoded_sort_preset(source@[i].1),
{
    let mut out: Vec<(String, String)> = Vec::new();
    let mut i: usize = 0;
    while i < source.len()
        invariant
            i <= source.len(),
            out@.len() == i,
            forall|k: int|
                0 <= k < i ==> (#[trigger] out@[k]).0@ == source@[k].0@ && out@[k].1@
                    == encoded_sort_preset(source@[k].1),
        decreases source.len() - i,
    {
        let name = source[i].0.clone();
        let enc = encode_sort_preset(&source[i].1);
        out.push((name, enc));
        i += 1;
    }
    out
}

/// The stored presets that read back, in order, each with what it reads as.
pub open spec fn decoded_sort_presets(source: Seq<(Seq<char>, Seq<char>)>) -> Seq<(Seq<char>, SortPreset)>
    decreases source.len(),
{
    if source.len() == 0 {
        Seq::empty()
    } else {
        let rest = decoded_sort_presets(source.drop_last());
        match sort_preset_from(source.last().1) {
            Some(p) => rest.push((source.last().0, p)),
            None => rest,
        }
    }
}

/// Views of stored name and text pairs.
pub open spec fn text_pairs(v: Seq<(String, String)>) -> Seq<(Seq<char>, Seq<char>)> {
    v.map_values(|p: (String, String)| (p.0@, p.1@))
}

/// Views of named sort presets.
pub open spec fn named_sort_presets(v: Seq<(String, SortPreset)>) -> Seq<(Seq<char>, SortPreset)> {
    v.map_values(|p: (String, SortPreset)| (p.0@, p.1))
}

/// Reads stored sort presets, dropping those that do not read back.
pub fn decode_sort_presets(source: &Vec<(String, String)>) -> (r: Vec<(String, SortPreset)>)
    ensures
        named_sort_presets(r@) == decoded_sort_presets(text_pairs(source@)),
{
    let mut out: Vec<(String, SortPreset)> = Vec::new();
    let mut i: usize = 0;
    while i < source.len()
        invariant
            i <= source.len(),
            named_sort_presets(out@) == decoded_sort_presets(text_pairs(source@).take(i as int)),
        decreases source.len() - i,
    {
        assert(text_pairs(source@).take(i + 1).drop_last() =~= text_pairs(source@).take(i as int));
        assert(text_pairs(source@)[i as int] == (source@[i as int].0@, source@[i as int].1@));
        match decode_sort_preset(source[i].1.as_str()) {
            Some(p) => {
                let ghost before = out@;
                out.push((source[i].0.clone(), p));
                assert(named_sort_presets(out@) =~= named_sort_presets(before).push(
                    (source@[i as int].0@, p),
                ));
            },
            None => {},
        }
        i += 1;
    }
    assert(text_pairs(source@).take(source.len() as int) =~= text_pairs(source@));
    out
}

/// Storing sort presets and reading them back gives every preset back under its
/// name, in order.
pub proof fn lemma_sort_presets_roundtrip(source: Seq<(Seq<char>, SortPreset)>)
    ensures
        decoded_sort_presets(
            source.map_values(|p: (Seq<char>, SortPreset)| (p.0, encoded_sort_preset(p.1))),
        ) == source,
    decreases source.len(),
{
    let enc = source.map_values(|p: (Seq<char>, SortPreset)| (p.0, encoded_sort_preset(p.1)));
    if source.len() > 0 {
        let front = source.drop_last();
        assert(enc.drop_last() =~= front.map_values(
            |p: (Seq<char>, SortPreset)| (p.0, encoded_sort_preset(p.1)),
        ));
        lemma_sort_presets_roundtrip(front);
        lemma_sort_preset_roundtrip(source.last().1);
        assert(decoded_sort_presets(enc) =~= front.push(source.last()));
    } else {
        assert(decoded_sort_presets(enc) =~= source);
    }
}


/// Named filter lists, each stored as its entries, in the same order.
pub fn encode_virtual_library_filters(source: &Vec<(String, Vec<BrowserFilter>)>) -> (r: Vec<(String, Vec<String>)>)
    ensures
        r@.len() == source@.len(),
        forall|i: int|
            0 <= i < r@.len() ==> (#[trigger] r@[i]).0@ == source@[i].0@ && string_views(r@[i].1@)
                == crate::browser::encode_filters(filter_views(source@[i].1@)),
{
    let mut out: Vec<(String, Vec<String>)> = Vec::new();
    let mut i: usize = 0;
    while i < source.len()
        invariant
            i <= source.len(),
            out@.len() == i,
            forall|k: int|
                0 <= k < i ==> (#[trigger] out@[k]).0@ == source@[k].0@ && string_views(out@[k].1@)
                    == crate::browser::encode_filters(filter_views(source@[k].1@)),
        decreases source.len() - i,
    {
        let name = source[i].0.clone();
        let entries = encode_filter_list(&source[i].1);
        out.push((name, entries));
        i += 1;
    }
    out
}

/// Named stored filter lists read back, unreadable entries dropped.
pub fn decode_virtual_library_filters(source: &Vec<(String, Vec<String>)>) -> (r: Vec<(String, Vec<BrowserFilter>)>)
    ensures
        r@.len() == source@.len(),
        forall|i: int|
            0 <= i < r@.len() ==> (#[trigger] r@[i]).0@ == source@[i].0@ && filter_views(r@[i].1@)
                == crate::browser::decode_filters(string_views(source@[i].1@)),
{
    let mut out: Vec<(String, Vec<BrowserFilter>)> = Vec::new();
    let mut i: usize = 0;
    while i < source.len()
        invariant
            i <= source.len(),
            out@.len() == i,
            forall|k: int|
                0 <= k < i ==> (#[trigger] out@[k]).0@ == source@[k].0@ && filter_views(out@[k].1@)
                    == crate::browser::decode_filters(string_views(source@[k].1@)),
        decreases source.len() - i,
    {
        let name = source[i].0.clone();
        let filters = decode_filter_list(&source[i].1);
        out.push((name, filters));
        i += 1;
    }
    out
}

/// Storing a virtual library's filters and reading them back gives the filters back.
pub proof fn lemma_virtual_library_roundtrip(filters: Seq<FilterView>)
    ensures
        crate::browser::decode_filters(crate::browser::encode_filters(filters)) == filters,
{
    lemma_filter_list_roundtrip(filters);
}

/// The map a list of named entries stands for: a later entry for a name replaces
/// an earlier one.
pub open spec fn pairs_map<V>(s: Seq<(Seq<char>, V)>) -> Map<Seq<char>, V>
    decreases s.len(),
{
    if s.len() == 0 {
        Map::empty()
    } else {
        pairs_map(s.drop_last()).insert(s.last().0, s.last().1)
    }
}

/// No name occurs twice in the list.
pub open spec fn names_unique<V>(s: Seq<(Seq<char>, V)>) -> bool {
    forall|i: int, j: int| 0 <= i < j < s.len() ==> s[i].0 != s[j].0
}

/// The entry at `i` is what the map holds for its name.
pub proof fn lemma_pairs_map_entry<V>(s: Seq<(Seq<char>, V)>, i: int)
    requires
        names_unique(s),
        0 <= i < s.len(),
    ensures
        pairs_map(s).contains_key(s[i].0),
        pairs_map(s)[s[i].0] == s[i].1,
    decreases s.len(),
{
    if i < s.len() - 1 {
        lemma_pairs_map_entry(s.drop_last(), i);
    }
}

/// A name no entry has is not in the map.
pub proof fn lemma_pairs_map_absent<V>(s: Seq<(Seq<char>, V)>, k: Seq<char>)
    requires
        forall|i: int| 0 <= i < s.len() ==> s[i].0 != k,
    ensures
        !pairs_map(s).contains_key(k),
    decreases s.len(),
{
    if s.len() > 0 {
        lemma_pairs_map_absent(s.drop_last(), k);
    }
}

/// Replacing the entry of a name updates the map at that name only.
pub proof fn lemma_pairs_map_update<V>(s: Seq<(Seq<char>, V)>, i: int, v: V)
    requires
        names_unique(s),
        0 <= i < s.len(),
    ensures
        pairs_map(s.update(i, (s[i].0, v))) == pairs_map(s).insert(s[i].0, v),
        names_unique(s.update(i, (s[i].0, v))),
    decreases s.len(),
{
    let k = s[i].0;
    let t = s.update(i, (k, v));
    if i == s.len() - 1 {
        assert(t.drop_last() =~= s.drop_last());
        assert(pairs_map(t) =~= pairs_map(s).insert(k, v));
    } else {
        assert(t.drop_last() =~= s.drop_last().update(i, (k, v)));
        lemma_pairs_map_update(s.drop_last(), i, v);
        assert(s.last().0 != k);
        assert(pairs_map(t) =~= pairs_map(s).insert(k, v));
    }
}

/// The plain contents of a save-to-disk preset.
pub struct PresetView {
    pub template: Seq<char>,
    pub conflict_policy: Seq<char>,
    pub export_all_formats: bool,
}

/// A saved save-to-disk setup.
#[derive(Clone, Debug)]
pub struct SaveToDiskPreset {
    pub template: String,
    pub conflict_policy: String,
    pub export_all_formats: bool,
}

impl View for SaveToDiskPreset {
    type V = PresetView;

    open spec fn view(&self) -> PresetView {
        PresetView {
            template: self.template@,
            conflict_policy: self.conflict_policy@,
            export_all_formats: self.export_all_formats,
        }
    }
}

/// Views of named presets.
pub open spec fn preset_entries(v: Seq<(String, SaveToDiskPreset)>) -> Seq<(Seq<char>, PresetView)> {
    v.map_values(|p: (String, SaveToDiskPreset)| (p.0@, p.1@))
}

/// The state of the save-to-disk dialog.
#[derive(Clone, Debug)]
pub struct SaveToDiskDialogState {
    pub open: bool,
    pub output_dir: String,
    pub export_all_formats: bool,
    pub path_template: String,
    pub conflict_policy: String,
    pub preset_name: String,
    pub presets: Vec<(String, SaveToDiskPreset)>,
}

impl Default for SaveToDiskDialogState {
    /// Closed, exporting all formats under `{title}-{id}.{format}`, renaming on
    /// conflict, with no presets.
    fn default() -> (r: Self)
        ensures
            !r.open,
            r.output_dir@.len() == 0,
            r.export_all_formats,
            r.path_template@ == "{title}-{id}.{format}"@,
            r.conflict_policy@ == "rename"@,
            r.preset_name@.len() == 0,
            r.preset_map() == Map::<Seq<char>, PresetView>::empty(),
            r.wf(),
    {
        let r = SaveToDiskDialogState {
            open: false,
            output_dir: String::new(),
            export_all_formats: true,
            path_template: string_of(&chars_of("{title}-{id}.{format}")),
            conflict_policy: string_of(&chars_of("rename")),
            preset_name: String::new(),
            presets: Vec::new(),
        };
        assert(preset_entries(r.presets@) =~= Seq::<(Seq<char>, PresetView)>::empty());
        r
    }
}

impl SaveToDiskDialogState {
    /// The presets by name.
    pub open spec fn preset_map(&self) -> Map<Seq<char>, PresetView> {
        pairs_map(preset_entries(self.presets@))
    }

    /// Each preset name occurs once.
    pub open spec fn wf(&self) -> bool {
        names_unique(preset_entries(self.presets@))
    }

    /// The setup the dialog shows, as a preset would hold it.
    pub open spec fn current_setup(&self) -> PresetView {
        PresetView {
            template: self.path_template@,
            conflict_policy: self.conflict_policy@,
            export_all_formats: self.export_all_formats,
        }
    }

    /// Index of the preset named `name`.
    fn preset_index(&self, name: &Vec<char>) -> (r: Option<usize>)
        requires
            self.wf(),
        ensures
            match r {
                Some(i) => i < self.presets@.len() && preset_entries(self.presets@)[i as int].0 == name@,
                None => forall|i: int|
                    0 <= i < self.presets@.len() ==> preset_entries(self.presets@)[i].0 != name@,
            },
    {
        let mut i: usize = 0;
        while i < self.presets.len()
            invariant
                i <= self.presets@.len(),
                forall|j: int| 0 <= j < i ==> preset_entries(self.presets@)[j].0 != name@,
            decreases self.presets.len() - i,
        {
            assert(preset_entries(self.presets@)[i as int].0 == self.presets@[i as int].0@);
            if crate::text::vec_eq(&chars_of(self.presets[i].0.as_str()), name) {
                return Some(i);
            }
            i += 1;
        }
        None
    }

    /// Saves the dialog's setup under the trimmed name; a blank name saves nothing.
    pub fn save_preset(&mut self, name: &str)
        requires
            old(self).wf(),
        ensures
            final(self).wf(),
            crate::text::trim(name@).len() == 0 ==> final(self).preset_map() == old(self).preset_map(),
            crate::text::trim(name@).len() > 0 ==> final(self).preset_map() == old(self).preset_map().insert(
                crate::text::trim(name@),
                old(self).current_setup(),
            ),
            final(self).current_setup() == old(self).current_setup(),
            final(self).open == old(self).open,
            final(self).output_dir@ == old(self).output_dir@,
            final(self).preset_name@ == old(self).preset_name@,
    {
        let trimmed = crate::text::trim_vec(&chars_of(name));
        if trimmed.len() == 0 {
            return;
        }
        let preset = SaveToDiskPreset {
            template: self.path_template.clone(),
            conflict_policy: self.conflict_policy.clone(),
            export_all_formats: self.export_all_formats,
        };
        let ghost s0 = preset_entries(self.presets@);
        let ghost pv = preset@;
        match self.preset_index(&trimmed) {
            Some(i) => {
                let key = string_of(&trimmed);
                self.presets.set(i, (key, preset));
                proof {
                    lemma_pairs_map_update(s0, i as int, pv);
                    assert(preset_entries(self.presets@) =~= s0.update(i as int, (s0[i as int].0, pv)));
                }
            },
            None => {
                let key = string_of(&trimmed);
                self.presets.push((key, preset));
                assert(preset_entries(self.presets@) =~= s0.push((trimmed@, pv)));
                assert(s0.push((trimmed@, pv)).drop_last() =~= s0);
                assert(pairs_map(s0.push((trimmed@, pv))) == pairs_map(s0).insert(trimmed@, pv));
            },
        }
    }

    /// Loads the preset named exactly `name` into the dialog; `false`, changing
    /// nothing, when there is none.
    pub fn load_preset(&mut self, name: &str) -> (r: bool)
        requires
            old(self).wf(),
        ensures
            final(self).wf(),
            r == old(self).preset_map().contains_key(name@),
            r ==> final(self).current_setup() == old(self).preset_map()[name@],
            !r ==> final(self).current_setup() == old(self).current_setup(),
            final(self).preset_map() == old(self).preset_map(),
            final(self).open == old(self).open,
            final(self).output_dir@ == old(self).output_dir@,
            final(self).preset_name@ == old(self).preset_name@,
    {
        let key = chars_of(name);
        match self.preset_index(&key) {
            Some(i) => {
                proof {
                    lemma_pairs_map_entry(preset_entries(self.presets@), i as int);
                }
                let template = self.presets[i].1.template.clone();
                let policy = self.presets[i].1.conflict_policy.clone();
                let all = self.presets[i].1.export_all_formats;
                self.path_template = template;
                self.conflict_policy = policy;
                self.export_all_formats = all;
                true
            },
            None => {
                proof {
                    lemma_pairs_map_absent(preset_entries(self.presets@), name@);
                }
                false
            },
        }
    }
}

/// Loading a preset right after saving it under a name restores the setup that was
/// saved, whatever presets existed before.
pub proof fn lemma_save_then_load(
    before: Map<Seq<char>, PresetView>,
    name: Seq<char>,
    setup: PresetView,
)
    requires
        crate::text::trim(name).len() > 0,
    ensures
        before.insert(crate::text::trim(name), setup).contains_key(crate::text::trim(name)),
        before.insert(crate::text::trim(name), setup)[crate::text::trim(name)] == setup,
{
}


/// Configuration keys of columns joined with commas.
pub open spec fn column_keys_text(order: Seq<ColumnKey>) -> Seq<char> {
    crate::text::join(order.map_values(|k: ColumnKey| column_key_str(k)), ","@)
}

/// Keys of the shown columns among `cols`, in order.
pub open spec fn shown_keys(vis: ColumnVisibility, cols: Seq<ColumnKey>) -> Seq<Seq<char>>
    decreases cols.len(),
{
    if cols.len() == 0 {
        Seq::empty()
    } else {
        let r = shown_keys(vis, cols.drop_last());
        if column_shown(vis, cols.last()) {
            r.push(column_key_str(cols.last()))
        } else {
            r
        }
    }
}

/// The stored entries of a column layout: `order=` with the column keys, then
/// `visible=` with the keys of the shown columns in default order.
pub open spec fn encoded_layout(order: Seq<ColumnKey>, vis: ColumnVisibility) -> Seq<Seq<char>> {
    seq![
        "order="@ + column_keys_text(order),
        "visible="@ + crate::text::join(shown_keys(vis, default_columns()), ","@),
    ]
}

/// Writes the order and visibility entries of a column preset.
pub fn encode_column_layout(order: &Vec<ColumnKey>, vis: &ColumnVisibility) -> (r: Vec<String>)
    ensures
        string_views(r@) == encoded_layout(order@, *vis),
{
    let mut keys: Vec<Vec<char>> = Vec::new();
    let mut i: usize = 0;
    while i < order.len()
        invariant
            i <= order.len(),
            views(keys@) == order@.take(i as int).map_values(|k: ColumnKey| column_key_str(k)),
        decreases order.len() - i,
    {
        let ghost before = keys@;
        keys.push(chars_of(order[i].key()));
        assert(views(keys@) =~= views(before).push(column_key_str(order@[i as int])));
        assert(order@.take(i + 1).map_values(|k: ColumnKey| column_key_str(k)) =~= order@.take(
            i as int,
        ).map_values(|k: ColumnKey| column_key_str(k)).push(column_key_str(order@[i as int])));
        i += 1;
    }
    assert(order@.take(order.len() as int) =~= order@);
    let mut first: Vec<char> = Vec::new();
    append_str(&mut first, "order=");
    let joined = crate::text::join_with(&keys, ",");
    crate::text::append_vec(&mut first, &joined);
    let defaults = default_column_order();
    let mut shown: Vec<Vec<char>> = Vec::new();
    let mut j: usize = 0;
    while j < defaults.len()
        invariant
            j <= defaults.len(),
            defaults@ == default_columns(),
            views(shown@) == shown_keys(*vis, defaults@.take(j as int)),
        decreases defaults.len() - j,
    {
        assert(defaults@.take(j + 1).drop_last() =~= defaults@.take(j as int));
        if vis.column_visible(defaults[j]) {
            let ghost before = shown@;
            shown.push(chars_of(defaults[j].key()));
            assert(views(shown@) =~= views(before).push(column_key_str(defaults@[j as int])));
        }
        j += 1;
    }
    assert(defaults@.take(defaults.len() as int) =~= defaults@);
    let mut second: Vec<char> = Vec::new();
    append_str(&mut second, "visible=");
    let joined2 = crate::text::join_with(&shown, ",");
    crate::text::append_vec(&mut second, &joined2);
    let mut out: Vec<String> = Vec::new();
    out.push(string_of(&first));
    out.push(string_of(&second));
    assert(string_views(out@) =~= encoded_layout(order@, *vis));
    out
}

/// Some piece, trimmed, is `key`.
pub open spec fn piece_named(pieces: Seq<Seq<char>>, key: Seq<char>) -> bool {
    exists|i: int| 0 <= i < pieces.len() && crate::text::trim(#[trigger] pieces[i]) == key
}

/// The columns a `visible=` list shows: those named by one of its pieces.
pub open spec fn visibility_from(pieces: Seq<Seq<char>>) -> ColumnVisibility {
    ColumnVisibility {
        title: piece_named(pieces, column_key_str(ColumnKey::Title)),
        cover: piece_named(pieces, column_key_str(ColumnKey::Cover)),
        authors: piece_named(pieces, column_key_str(ColumnKey::Authors)),
        series: piece_named(pieces, column_key_str(ColumnKey::Series)),
        tags: piece_named(pieces, column_key_str(ColumnKey::Tags)),
        formats: piece_named(pieces, column_key_str(ColumnKey::Formats)),
        rating: piece_named(pieces, column_key_str(ColumnKey::Rating)),
        publisher: piece_named(pieces, column_key_str(ColumnKey::Publisher)),
        languages: piece_named(pieces, column_key_str(ColumnKey::Languages)),
        date_added: piece_named(pieces, column_key_str(ColumnKey::DateAdded)),
        date_modified: piece_named(pieces, column_key_str(ColumnKey::DateModified)),
        pubdate: piece_named(pieces, column_key_str(ColumnKey::PubDate)),
    }
}

/// Every column shown.
pub open spec fn all_shown() -> ColumnVisibility {
    ColumnVisibility {
        title: true,
        cover: true,
        authors: true,
        series: true,
        tags: true,
        formats: true,
        rating: true,
        publisher: true,
        languages: true,
        date_added: true,
        date_modified: true,
        pubdate: true,
    }
}

/// The layout after one stored entry: `order=` replaces the order when it names a
/// known column, `visible=` replaces the visibility, anything else changes nothing.
pub open spec fn apply_layout_entry(
    st: (Seq<ColumnKey>, ColumnVisibility),
    e: Seq<char>,
) -> (Seq<ColumnKey>, ColumnVisibility) {
    if crate::text::is_prefix("order="@, e) {
        let parsed = crate::columns::parsed_columns(split(e.skip(6), ','));
        if parsed.len() > 0 {
            (parsed, st.1)
        } else {
            st
        }
    } else if crate::text::is_prefix("visible="@, e) {
        (st.0, visibility_from(split(e.skip(8), ',')))
    } else {
        st
    }
}

/// The layout stored entries describe, from the default order with every column
/// shown.
pub open spec fn layout_from(entries: Seq<Seq<char>>) -> (Seq<ColumnKey>, ColumnVisibility)
    decreases entries.len(),
{
    if entries.len() == 0 {
        (default_columns(), all_shown())
    } else {
        apply_layout_entry(layout_from(entries.drop_last()), entries.last())
    }
}

/// A configuration key read back names the column it is the key of.
pub proof fn lemma_column_key_from_is_key(t: Seq<char>, k: ColumnKey)
    ensures
        (column_key_from(t) == Some(k)) == (t == column_key_str(k)),
{
    lemma_column_key_roundtrip(k);
}

/// The visibility a `visible=` list of pieces describes.
pub fn visibility_of_pieces(pieces: &Vec<Vec<char>>) -> (r: ColumnVisibility)
    ensures
        r == visibility_from(views(pieces@)),
{
    let mut vis = ColumnVisibility {
        title: false,
        cover: false,
        authors: false,
        series: false,
        tags: false,
        formats: false,
        rating: false,
        publisher: false,
        languages: false,
        date_added: false,
        date_modified: false,
        pubdate: false,
    };
    let mut i: usize = 0;
    while i < pieces.len()
        invariant
            i <= pieces.len(),
            forall|k: ColumnKey|
                column_shown(vis, k) == piece_named(views(pieces@).take(i as int), column_key_str(k)),
        decreases pieces.len() - i,
    {
        let t = crate::text::trim_vec(&pieces[i]);
        let parsed = parse_column_key_vec(&t);
        let ghost old_vis = vis;
        let ghost pv = views(pieces@);
        assert(pv[i as int] == pieces@[i as int]@);
        match parsed {
            Some(k) => {
                vis.set_column_visible(k, true);
            },
            None => {},
        }
        assert forall|k: ColumnKey|
            column_shown(vis, k) == piece_named(pv.take(i + 1), column_key_str(k)) by {
            lemma_column_key_from_is_key(t@, k);
            if piece_named(pv.take(i + 1), column_key_str(k)) {
                let j = choose|j: int|
                    0 <= j < pv.take(i + 1).len() && crate::text::trim(#[trigger] pv.take(i + 1)[j])
                        == column_key_str(k);
                if j < i {
                    assert(pv.take(i as int)[j] == pv.take(i + 1)[j]);
                }
            }
            if piece_named(pv.take(i as int), column_key_str(k)) {
                let j = choose|j: int|
                    0 <= j < pv.take(i as int).len() && crate::text::trim(#[trigger] pv.take(i as int)[j])
                        == column_key_str(k);
                assert(pv.take(i + 1)[j] == pv.take(i as int)[j]);
            }
            if t@ == column_key_str(k) {
                assert(crate::text::trim(pv.take(i + 1)[i as int]) == column_key_str(k));
            }
        }
        i += 1;
    }
    assert(views(pieces@).take(pieces.len() as int) =~= views(pieces@));
    let r = vis;
    assert(r == visibility_from(views(pieces@))) by {
        assert(column_shown(r, ColumnKey::Title) == piece_named(views(pieces@), column_key_str(ColumnKey::Title)));
        assert(column_shown(r, ColumnKey::Cover) == piece_named(views(pieces@), column_key_str(ColumnKey::Cover)));
        assert(column_shown(r, ColumnKey::Authors) == piece_named(views(pieces@), column_key_str(ColumnKey::Authors)));
        assert(column_shown(r, ColumnKey::Series) == piece_named(views(pieces@), column_key_str(ColumnKey::Series)));
        assert(column_shown(r, ColumnKey::Tags) == piece_named(views(pieces@), column_key_str(ColumnKey::Tags)));
        assert(column_shown(r, ColumnKey::Formats) == piece_named(views(pieces@), column_key_str(ColumnKey::Formats)));
        assert(column_shown(r, ColumnKey::Rating) == piece_named(views(pieces@), column_key_str(ColumnKey::Rating)));
        assert(column_shown(r, ColumnKey::Publisher) == piece_named(views(pieces@), column_key_str(ColumnKey::Publisher)));
        assert(column_shown(r, ColumnKey::Languages) == piece_named(views(pieces@), column_key_str(ColumnKey::Languages)));
        assert(column_shown(r, ColumnKey::DateAdded) == piece_named(views(pieces@), column_key_str(ColumnKey::DateAdded)));
        assert(column_shown(r, ColumnKey::DateModified) == piece_named(views(pieces@), column_key_str(ColumnKey::DateModified)));
        assert(column_shown(r, ColumnKey::PubDate) == piece_named(views(pieces@), column_key_str(ColumnKey::PubDate)));
    }
    r
}

/// The order and visibility of a stored column preset.
#[derive(Clone, Debug)]
pub struct ColumnLayout {
    pub order: Vec<ColumnKey>,
    pub visibility: ColumnVisibility,
}

/// Reads the order and visibility entries of a stored column preset; entries are
/// applied in turn, and the `widths=` entry is left to the caller.
pub fn decode_column_layout(entries: &Vec<String>) -> (r: ColumnLayout)
    ensures
        (r.order@, r.visibility) == layout_from(string_views(entries@)),
{
    let mut order = default_column_order();
    let mut visibility = ColumnVisibility::all_visible();
    assert(visibility == all_shown()) by {
        assert(column_shown(visibility, ColumnKey::Title));
        assert(column_shown(visibility, ColumnKey::Cover));
        assert(column_shown(visibility, ColumnKey::Authors));
        assert(column_shown(visibility, ColumnKey::Series));
        assert(column_shown(visibility, ColumnKey::Tags));
        assert(column_shown(visibility, ColumnKey::Formats));
        assert(column_shown(visibility, ColumnKey::Rating));
        assert(column_shown(visibility, ColumnKey::Publisher));
        assert(column_shown(visibility, ColumnKey::Languages));
        assert(column_shown(visibility, ColumnKey::DateAdded));
        assert(column_shown(visibility, ColumnKey::DateModified));
        assert(column_shown(visibility, ColumnKey::PubDate));
    }
    let mut i: usize = 0;
    while i < entries.len()
        invariant
            i <= entries.len(),
            (order@, visibility) == layout_from(string_views(entries@).take(i as int)),
        decreases entries.len() - i,
    {
        let ghost sv = string_views(entries@);
        assert(sv.take(i + 1).drop_last() =~= sv.take(i as int));
        assert(sv[i as int] == entries@[i as int]@);
        let e = chars_of(entries[i].as_str());
        if crate::text::starts_with_str(&e, "order=") {
            proof {
                reveal_strlit("order=");
            }
            let raw = slice_vec(&e, 6, e.len());
            assert(raw@ =~= e@.skip(6));
            let pieces = split_vec(&raw, ',');
            let parsed = crate::columns::parse_column_keys(&pieces);
            if parsed.len() > 0 {
                order = parsed;
            }
        } else if crate::text::starts_with_str(&e, "visible=") {
            proof {
                reveal_strlit("visible=");
            }
            let raw = slice_vec(&e, 8, e.len());
            assert(raw@ =~= e@.skip(8));
            let pieces = split_vec(&raw, ',');
            visibility = visibility_of_pieces(&pieces);
        }
        i += 1;
    }
    assert(string_views(entries@).take(entries.len() as int) =~= string_views(entries@));
    ColumnLayout { order, visibility }
}

/// Whether column presets are saved for the current view or for every view.
#[derive(Clone, Copy, Debug, PartialEq, Eq, Structural)]
pub enum ColumnPresetScope {
    CurrentView,
    Global,
}

/// The stored name of a column preset: the trimmed name under the view's scope, or
/// under `all` for every view.
pub open spec fn scoped_preset_name(
    scope: ColumnPresetScope,
    view: crate::columns::ViewMode,
    name: Seq<char>,
) -> Seq<char> {
    match scope {
        ColumnPresetScope::CurrentView => crate::columns::view_scope_key(view) + seq!['/']
            + crate::text::trim(name),
        ColumnPresetScope::Global => "all/"@ + crate::text::trim(name),
    }
}

/// Names a column preset for saving.
pub fn scoped_column_preset_name(
    scope: ColumnPresetScope,
    view: crate::columns::ViewMode,
    name: &str,
) -> (r: String)
    ensures
        r@ == scoped_preset_name(scope, view, name@),
{
    let t = crate::text::trim_vec(&chars_of(name));
    let mut v: Vec<char> = Vec::new();
    match scope {
        ColumnPresetScope::CurrentView => {
            append_str(&mut v, view.preset_scope_key());
            v.push('/');
        },
        ColumnPresetScope::Global => append_str(&mut v, "all/"),
    }
    crate::text::append_vec(&mut v, &t);
    assert(v@ =~= scoped_preset_name(scope, view, name@));
    string_of(&v)
}

/// A stored preset name is offered in a view when it is global, belongs to the
/// view, or has no scope at all.
pub open spec fn preset_offered(view: crate::columns::ViewMode, name: Seq<char>) -> bool {
    crate::text::is_prefix("all/"@, name) || crate::text::is_prefix(
        crate::columns::view_scope_key(view) + seq!['/'],
        name,
    ) || !name.contains('/')
}

/// The preset names offered in a view, sorted.
pub fn visible_column_preset_names(names: &Vec<String>, view: crate::columns::ViewMode) -> (r: Vec<String>)
    ensures
        crate::order::strictly_sorted(string_views(r@)),
        string_views(r@).to_set() == string_views(names@).filter(
            |n: Seq<char>| preset_offered(view, n),
        ).to_set(),
{
    let mut scope: Vec<char> = Vec::new();
    append_str(&mut scope, view.preset_scope_key());
    scope.push('/');
    let mut sorted: Vec<Vec<char>> = Vec::new();
    let ghost sv = string_views(names@);
    let mut i: usize = 0;
    while i < names.len()
        invariant
            i <= names.len(),
            sv == string_views(names@),
            scope@ == crate::columns::view_scope_key(view) + seq!['/'],
            crate::order::strictly_sorted(views(sorted@)),
            views(sorted@).to_set() == sv.take(i as int).filter(|n: Seq<char>| preset_offered(view, n)).to_set(),
        decreases names.len() - i,
    {
        let n = chars_of(names[i].as_str());
        assert(sv[i as int] == n@);
        assert(sv.take(i + 1).drop_last() =~= sv.take(i as int));
        proof {
            reveal_with_fuel(Seq::<_>::filter, 1);
        }
        let offered = crate::text::starts_with_str(&n, "all/") || crate::text::starts_with_vec(&n, &scope)
            || !crate::text::has_char(&n, '/');
        if offered {
            let ghost before = views(sorted@).to_set();
            crate::order::insert_sorted_unique(&mut sorted, n);
            assert(sv.take(i + 1).filter(|n: Seq<char>| preset_offered(view, n)) =~= sv.take(i as int).filter(
                |n: Seq<char>| preset_offered(view, n),
            ).push(sv[i as int]));
            proof {
                sv.take(i as int).filter(|n: Seq<char>| preset_offered(view, n)).lemma_push_to_set_commute(sv[i as int]);
            }
            assert(sv.take(i + 1).filter(|n: Seq<char>| preset_offered(view, n)).to_set() =~= before.insert(sv[i as int]));
        } else {
            assert(sv.take(i + 1).filter(|n: Seq<char>| preset_offered(view, n)) =~= sv.take(i as int).filter(
                |n: Seq<char>| preset_offered(view, n),
            ));
        }
        i += 1;
    }
    assert(sv.take(names.len() as int) =~= sv);
    crate::text::strings_of(&sorted)
}


/// A column key is a non-empty plain word: no comma, no surrounding whitespace.
proof fn lemma_column_key_plain(k: ColumnKey)
    ensures
        column_key_str(k).len() > 0,
        !column_key_str(k).contains(','),
        crate::text::trim(column_key_str(k)) == column_key_str(k),
{
    reveal_strlit("title");
    reveal_strlit("cover");
    reveal_strlit("authors");
    reveal_strlit("series");
    reveal_strlit("tags");
    reveal_strlit("formats");
    reveal_strlit("rating");
    reveal_strlit("publisher");
    reveal_strlit("languages");
    reveal_strlit("date_added");
    reveal_strlit("date_modified");
    reveal_strlit("pubdate");
    let s = column_key_str(k);
    assert(s.len() > 0);
    assert forall|i: int| 0 <= i < s.len() implies #[trigger] s[i] != ',' && !crate::text::is_ws(s[i]) by {
        assert('a' <= s[i] <= 'z' || s[i] == '_');
    }
    assert(crate::text::trim_start(s) == s);
    assert(crate::text::trim_end(s) == s) by {
        assert(s.last() == s[s.len() - 1]);
    }
}

/// Two columns with the same key are the same column.
proof fn lemma_column_key_injective(a: ColumnKey, b: ColumnKey)
    ensures
        (column_key_str(a) == column_key_str(b)) == (a == b),
{
    lemma_column_key_roundtrip(a);
    lemma_column_key_roundtrip(b);
}

/// Reading the keys of columns gives the columns back.
proof fn lemma_parsed_keys(order: Seq<ColumnKey>)
    ensures
        crate::columns::parsed_columns(order.map_values(|k: ColumnKey| column_key_str(k))) == order,
    decreases order.len(),
{
    let keys = order.map_values(|k: ColumnKey| column_key_str(k));
    if order.len() > 0 {
        assert(keys.drop_last() =~= order.drop_last().map_values(|k: ColumnKey| column_key_str(k)));
        lemma_parsed_keys(order.drop_last());
        lemma_column_key_roundtrip(order.last());
        assert(keys.last() == column_key_str(order.last()));
        assert(order.drop_last().push(order.last()) =~= order);
    } else {
        assert(keys.len() == 0);
    }
}

/// The shown keys among `cols` are plain words, and a column's key is among them
/// exactly when the column is in `cols` and shown.
proof fn lemma_shown_keys(vis: ColumnVisibility, cols: Seq<ColumnKey>)
    ensures
        forall|i: int|
            0 <= i < shown_keys(vis, cols).len() ==> !(#[trigger] shown_keys(vis, cols)[i]).contains(',')
                && crate::text::trim(shown_keys(vis, cols)[i]) == shown_keys(vis, cols)[i],
        forall|k: ColumnKey|
            shown_keys(vis, cols).contains(#[trigger] column_key_str(k)) == (cols.contains(k)
                && column_shown(vis, k)),
    decreases cols.len(),
{
    if cols.len() > 0 {
        let front = cols.drop_last();
        let c = cols.last();
        lemma_shown_keys(vis, front);
        lemma_column_key_plain(c);
        let r = shown_keys(vis, front);
        assert forall|k: ColumnKey|
            shown_keys(vis, cols).contains(#[trigger] column_key_str(k)) == (cols.contains(k)
                && column_shown(vis, k)) by {
            lemma_column_key_injective(k, c);
            assert(cols =~= front.push(c));
            if front.contains(k) {
                let j = choose|j: int| 0 <= j < front.len() && front[j] == k;
                assert(cols[j] == k);
            }
            if cols.contains(k) && k != c {
                let j = choose|j: int| 0 <= j < cols.len() && cols[j] == k;
                assert(front[j] == k);
            }
            if column_shown(vis, c) {
                if r.push(column_key_str(c)).contains(column_key_str(k)) && column_key_str(k) != column_key_str(c) {
                    let j = choose|j: int| 0 <= j < r.push(column_key_str(c)).len() && r.push(column_key_str(c))[j] == column_key_str(k);
                    assert(r[j] == column_key_str(k));
                }
                if r.contains(column_key_str(k)) {
                    let j = choose|j: int| 0 <= j < r.len() && r[j] == column_key_str(k);
                    assert(r.push(column_key_str(c))[j] == column_key_str(k));
                }
                assert(r.push(column_key_str(c))[r.len() as int] == column_key_str(c));
            }
        }
    }
}

/// The visibility of a stored `visible=` list is the visibility that was stored.
proof fn lemma_visibility_roundtrip(vis: ColumnVisibility)
    ensures
        visibility_from(split(crate::text::join(shown_keys(vis, default_columns()), ","@), ',')) == vis,
{
    reveal_strlit(",");
    assert(","@ =~= seq![',']);
    let shown = shown_keys(vis, default_columns());
    lemma_shown_keys(vis, default_columns());
    let pieces = split(crate::text::join(shown, ","@), ',');
    assert forall|k: ColumnKey| piece_named(pieces, column_key_str(k)) == column_shown(vis, k) by {
        crate::columns::lemma_default_columns_complete(k);
        lemma_column_key_plain(k);
        if shown.len() > 0 {
            crate::text::lemma_split_join(shown, ',');
            if piece_named(pieces, column_key_str(k)) {
                let i = choose|i: int| 0 <= i < pieces.len() && crate::text::trim(#[trigger] pieces[i]) == column_key_str(k);
                assert(shown[i] == column_key_str(k));
                assert(shown.contains(column_key_str(k)));
            }
            if column_shown(vis, k) {
                assert(shown.contains(column_key_str(k)));
                let i = choose|i: int| 0 <= i < shown.len() && shown[i] == column_key_str(k);
                assert(crate::text::trim(pieces[i]) == column_key_str(k));
            }
        } else {
            assert(crate::text::join(shown, ","@) =~= Seq::<char>::empty());
            assert(pieces == seq![Seq::<char>::empty()]);
            if piece_named(pieces, column_key_str(k)) {
                let i = choose|i: int| 0 <= i < pieces.len() && crate::text::trim(#[trigger] pieces[i]) == column_key_str(k);
                assert(pieces[i] == Seq::<char>::empty());
                assert(crate::text::trim(Seq::<char>::empty()) =~= Seq::<char>::empty());
            }
            assert(!shown.contains(column_key_str(k)));
        }
    }
    let r = visibility_from(pieces);
    assert(column_shown(r, ColumnKey::Title) == column_shown(vis, ColumnKey::Title));
    assert(column_shown(r, ColumnKey::Cover) == column_shown(vis, ColumnKey::Cover));
    assert(column_shown(r, ColumnKey::Authors) == column_shown(vis, ColumnKey::Authors));
    assert(column_shown(r, ColumnKey::Series) == column_shown(vis, ColumnKey::Series));
    assert(column_shown(r, ColumnKey::Tags) == column_shown(vis, ColumnKey::Tags));
    assert(column_shown(r, ColumnKey::Formats) == column_shown(vis, ColumnKey::Formats));
    assert(column_shown(r, ColumnKey::Rating) == column_shown(vis, ColumnKey::Rating));
    assert(column_shown(r, ColumnKey::Publisher) == column_shown(vis, ColumnKey::Publisher));
    assert(column_shown(r, ColumnKey::Languages) == column_shown(vis, ColumnKey::Languages));
    assert(column_shown(r, ColumnKey::DateAdded) == column_shown(vis, ColumnKey::DateAdded));
    assert(column_shown(r, ColumnKey::DateModified) == column_shown(vis, ColumnKey::DateModified));
    assert(column_shown(r, ColumnKey::PubDate) == column_shown(vis, ColumnKey::PubDate));
}

/// Reading back a stored column layout gives the stored order and visibility,
/// provided the order names at least one column (an empty stored order reads back
/// as the default order).
pub proof fn lemma_column_layout_roundtrip(order: Seq<ColumnKey>, vis: ColumnVisibility)
    requires
        order.len() > 0,
    ensures
        layout_from(encoded_layout(order, vis)) == (order, vis),
{
    reveal_strlit("order=");
    reveal_strlit("visible=");
    reveal_strlit(",");
    assert(","@ =~= seq![',']);
    let e = encoded_layout(order, vis);
    let e1 = e[0];
    let e2 = e[1];
    let keys = order.map_values(|k: ColumnKey| column_key_str(k));
    assert(e.drop_last() =~= seq![e1]);
    assert(seq![e1].drop_last() =~= Seq::<Seq<char>>::empty());
    assert(crate::text::is_prefix("order="@, e1)) by {
        assert(e1.take(6) =~= "order="@);
    }
    assert(e1.skip(6) =~= column_keys_text(order));
    assert forall|i: int| 0 <= i < keys.len() implies !(#[trigger] keys[i]).contains(',') by {
        lemma_column_key_plain(order[i]);
    }
    crate::text::lemma_split_join(keys, ',');
    lemma_parsed_keys(order);
    assert(!crate::text::is_prefix("order="@, e2)) by {
        assert(e2.take(6)[0] == 'v');
        assert("order="@[0] == 'o');
    }
    assert(crate::text::is_prefix("visible="@, e2)) by {
        assert(e2.take(8) =~= "visible="@);
    }
    assert(e2.skip(8) =~= crate::text::join(shown_keys(vis, default_columns()), ","@));
    lemma_visibility_roundtrip(vis);
    let st0 = (default_columns(), all_shown());
    assert(layout_from(Seq::<Seq<char>>::empty()) == st0);
    assert(seq![e1].last() == e1);
    assert(layout_from(seq![e1]) == apply_layout_entry(st0, e1));
    let st1 = apply_layout_entry(st0, e1);
    assert(st1 == (order, all_shown()));
    assert(e.last() == e2);
    assert(layout_from(e) == apply_layout_entry(layout_from(seq![e1]), e2));
    assert(apply_layout_entry(st1, e2) == (order, vis));
}

/// Named sort presets as the library window keeps them, with the one in use.
#[derive(Debug)]
pub struct SortPresetStore {
    presets: Vec<(String, SortPreset)>,
    active: Option<String>,
}

/// The plain entries of named sort presets.
pub open spec fn sort_entries(v: Seq<(String, SortPreset)>) -> Seq<(Seq<char>, SortPreset)> {
    v.map_values(|p: (String, SortPreset)| (p.0@, p.1))
}

impl SortPresetStore {
    /// The presets by name.
    pub closed spec fn preset_map(&self) -> Map<Seq<char>, SortPreset> {
        pairs_map(sort_entries(self.presets@))
    }

    /// The name of the preset in use, if any.
    pub closed spec fn active_name(&self) -> Option<Seq<char>> {
        crate::paths::opt_view(self.active)
    }

    /// Each preset name occurs once.
    #[verifier::type_invariant]
    spec fn names_once(&self) -> bool {
        names_unique(sort_entries(self.presets@))
    }

    /// No presets and none in use.
    pub fn new() -> (r: Self)
        ensures
            r.preset_map() == Map::<Seq<char>, SortPreset>::empty(),
            r.active_name() is None,
    {
        let r = SortPresetStore { presets: Vec::new(), active: None };
        assert(sort_entries(r.presets@) =~= Seq::<(Seq<char>, SortPreset)>::empty());
        r
    }

    fn index_of(&self, name: &Vec<char>) -> (r: Option<usize>)
        ensures
            match r {
                Some(i) => i < self.presets@.len() && sort_entries(self.presets@)[i as int].0 == name@,
                None => forall|i: int| 0 <= i < self.presets@.len() ==> sort_entries(self.presets@)[i].0 != name@,
            },
    {
        let mut i: usize = 0;
        while i < self.presets.len()
            invariant
                i <= self.presets@.len(),
                forall|j: int| 0 <= j < i ==> sort_entries(self.presets@)[j].0 != name@,
            decreases self.presets.len() - i,
        {
            assert(sort_entries(self.presets@)[i as int].0 == self.presets@[i as int].0@);
            if crate::text::vec_eq(&chars_of(self.presets[i].0.as_str()), name) {
                return Some(i);
            }
            i += 1;
        }
        None
    }

    /// Saves the current ordering under the trimmed name and makes it the one in
    /// use; a blank name saves nothing and returns `false`.
    pub fn save(&mut self, name: &str, preset: SortPreset) -> (r: bool)
        ensures
            r == (crate::text::trim(name@).len() > 0),
            !r ==> final(self).preset_map() == old(self).preset_map() && final(self).active_name() == old(
                self,
            ).active_name(),
            r ==> final(self).preset_map() == old(self).preset_map().insert(crate::text::trim(name@), preset),
            r ==> final(self).active_name() == Some(crate::text::trim(name@)),
    {
        proof {
            use_type_invariant(&*self);
        }
        let trimmed = crate::text::trim_vec(&chars_of(name));
        if trimmed.len() == 0 {
            return false;
        }
        let ghost s0 = sort_entries(self.presets@);
        let found = self.index_of(&trimmed);
        let mut presets: Vec<(String, SortPreset)> = Vec::new();
        std::mem::swap(&mut presets, &mut self.presets);
        match found {
            Some(i) => {
                presets.set(i, (string_of(&trimmed), preset));
                proof {
                    lemma_pairs_map_update(s0, i as int, preset);
                    assert(sort_entries(presets@) =~= s0.update(i as int, (s0[i as int].0, preset)));
                }
            },
            None => {
                presets.push((string_of(&trimmed), preset));
                assert(sort_entries(presets@) =~= s0.push((trimmed@, preset)));
                assert(s0.push((trimmed@, preset)).drop_last() =~= s0);
            },
        }
        self.presets = presets;
        self.active = Some(string_of(&trimmed));
        true
    }

    /// How many presets are saved.
    pub fn preset_count(&self) -> (r: usize)
        ensures
            r == self.preset_map().dom().len(),
    {
        proof {
            use_type_invariant(self);
            lemma_pairs_map_len(sort_entries(self.presets@));
        }
        self.presets.len()
    }

    /// The name of the preset in use.
    pub fn active(&self) -> (r: Option<String>)
        ensures
            crate::paths::opt_view(r) == self.active_name(),
    {
        match &self.active {
            Some(n) => Some(n.clone()),
            None => None,
        }
    }

    /// The preset named exactly `name`.
    pub fn get(&self, name: &str) -> (r: Option<SortPreset>)
        ensures
            r == if self.preset_map().contains_key(name@) {
                Some(self.preset_map()[name@])
            } else {
                None
            },
    {
        proof {
            use_type_invariant(self);
        }
        match self.index_of(&chars_of(name)) {
            Some(i) => {
                proof {
                    lemma_pairs_map_entry(sort_entries(self.presets@), i as int);
                }
                Some(self.presets[i].1)
            },
            None => {
                proof {
                    lemma_pairs_map_absent(sort_entries(self.presets@), name@);
                }
                None
            },
        }
    }

    /// Deletes the preset in use, which is then none; returns its name, or
    /// nothing and no change when none is in use.
    pub fn delete_active(&mut self) -> (r: Option<String>)
        ensures
            final(self).active_name() is None,
            crate::paths::opt_view(r) == old(self).active_name(),
            final(self).preset_map() == match old(self).active_name() {
                Some(n) => old(self).preset_map().remove(n),
                None => old(self).preset_map(),
            },
    {
        proof {
            use_type_invariant(&*self);
        }
        let name = match &self.active {
            Some(n) => n.clone(),
            None => {
                return None;
            },
        };
        let key = chars_of(name.as_str());
        let ghost s0 = sort_entries(self.presets@);
        match self.index_of(&key) {
            Some(i) => {
                let mut presets: Vec<(String, SortPreset)> = Vec::new();
                std::mem::swap(&mut presets, &mut self.presets);
                presets.remove(i);
                proof {
                    assert(sort_entries(presets@) =~= s0.remove(i as int));
                    lemma_pairs_map_remove(s0, i as int);
                }
                self.presets = presets;
            },
            None => {
                proof {
                    lemma_pairs_map_absent(s0, key@);
                    assert(pairs_map(s0).remove(key@) =~= pairs_map(s0));
                }
            },
        }
        self.active = None;
        Some(name)
    }
}

/// A list of distinct names maps as many names as it holds.
pub proof fn lemma_pairs_map_len<V>(s: Seq<(Seq<char>, V)>)
    requires
        names_unique(s),
    ensures
        pairs_map(s).dom().finite(),
        pairs_map(s).dom().len() == s.len(),
    decreases s.len(),
{
    if s.len() > 0 {
        let t = s.drop_last();
        assert(names_unique(t));
        lemma_pairs_map_len(t);
        assert forall|j: int| 0 <= j < t.len() implies t[j].0 != s.last().0 by {
            assert(t[j] == s[j]);
        }
        lemma_pairs_map_absent(t, s.last().0);
    }
}

/// Dropping the entry of a name removes that name from the map.
pub proof fn lemma_pairs_map_remove<V>(s: Seq<(Seq<char>, V)>, i: int)
    requires
        names_unique(s),
        0 <= i < s.len(),
    ensures
        pairs_map(s.remove(i)) == pairs_map(s).remove(s[i].0),
        names_unique(s.remove(i)),
    decreases s.len(),
{
    let k = s[i].0;
    let t = s.remove(i);
    if i == s.len() - 1 {
        assert(t =~= s.drop_last());
        assert forall|j: int| 0 <= j < t.len() implies t[j].0 != k by {
            assert(t[j] == s[j]);
        }
        lemma_pairs_map_absent(t, k);
        assert(pairs_map(t) =~= pairs_map(s).remove(k));
    } else {
        assert(t.drop_last() =~= s.drop_last().remove(i));
        lemma_pairs_map_remove(s.drop_last(), i);
        assert(t.last() == s.last());
        assert(s.last().0 != k);
        assert(pairs_map(t) =~= pairs_map(s).remove(k));
    }
}

/// Looking a preset up right after saving it under a name gives the preset back,
/// and after deleting the preset in use it is gone.
pub proof fn lemma_sort_preset_save_get_delete(
    before: Map<Seq<char>, SortPreset>,
    name: Seq<char>,
    preset: SortPreset,
)
    ensures
        before.insert(name, preset).contains_key(name) && before.insert(name, preset)[name] == preset,
        !before.insert(name, preset).remove(name).contains_key(name),
{
}

} // verus!
