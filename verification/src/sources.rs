//! Which metadata download sources are used.
use crate::text::{chars_of, string_views, vec_eq_str};
use vstd::prelude::*;

verus! {

/// A configured provider is enabled when it is Open Library or Google Books and
/// switched on.
pub open spec fn provider_enabled(p: Seq<char>, openlibrary_enabled: bool, googlebooks_enabled: bool) -> bool {
    (p == "openlibrary"@ && openlibrary_enabled) || (p == "googlebooks"@ && googlebooks_enabled)
}

/// The sources ticked in the download dialog.
#[derive(Clone, Copy, Debug, PartialEq, Eq, Structural)]
pub struct SourceChoices {
    pub openlibrary: bool,
    pub google: bool,
    pub amazon: bool,
    pub isbndb: bool,
}

/// Whether the dialog has ticked a provider.
pub open spec fn provider_chosen(p: Seq<char>, c: SourceChoices) -> bool {
    if p == "openlibrary"@ {
        c.openlibrary
    } else if p == "googlebooks"@ {
        c.google
    } else if p == "amazon"@ {
        c.amazon
    } else if p == "isbndb"@ {
        c.isbndb
    } else {
        false
    }
}

/// The enabled providers, in configured order.
pub open spec fn enabled_of(providers: Seq<Seq<char>>, ol: bool, gb: bool) -> Seq<Seq<char>>
    decreases providers.len(),
{
    if providers.len() == 0 {
        Seq::empty()
    } else if provider_enabled(providers.last(), ol, gb) {
        enabled_of(providers.drop_last(), ol, gb).push(providers.last())
    } else {
        enabled_of(providers.drop_last(), ol, gb)
    }
}

/// The providers of a list that the dialog has ticked, in order.
pub open spec fn chosen_of(providers: Seq<Seq<char>>, c: SourceChoices) -> Seq<Seq<char>>
    decreases providers.len(),
{
    if providers.len() == 0 {
        Seq::empty()
    } else if provider_chosen(providers.last(), c) {
        chosen_of(providers.drop_last(), c).push(providers.last())
    } else {
        chosen_of(providers.drop_last(), c)
    }
}

/// The enabled metadata sources.
pub fn enabled_sources(providers: &Vec<String>, openlibrary_enabled: bool, googlebooks_enabled: bool) -> (r: Vec<String>)
    ensures
        string_views(r@) == enabled_of(string_views(providers@), openlibrary_enabled, googlebooks_enabled),
{
    let mut out: Vec<String> = Vec::new();
    let mut i: usize = 0;
    while i < providers.len()
        invariant
            i <= providers@.len(),
            string_views(out@) == enabled_of(string_views(providers@).take(i as int), openlibrary_enabled, googlebooks_enabled),
        decreases providers.len() - i,
    {
        let ghost ps = string_views(providers@);
        assert(ps.take(i + 1).drop_last() =~= ps.take(i as int));
        assert(ps[i as int] == providers@[i as int]@);
        let p = chars_of(providers[i].as_str());
        if (vec_eq_str(&p, "openlibrary") && openlibrary_enabled) || (vec_eq_str(&p, "googlebooks") && googlebooks_enabled) {
            let ghost before = string_views(out@);
            out.push(providers[i].clone());
            assert(string_views(out@) =~= before.push(ps[i as int]));
        }
        i += 1;
    }
    assert(string_views(providers@).take(providers@.len() as int) =~= string_views(providers@));
    out
}

/// The first enabled metadata source, if any.
pub fn first_enabled_source(providers: &Vec<String>, openlibrary_enabled: bool, googlebooks_enabled: bool) -> (r: Option<String>)
    ensures
        match r {
            Some(s) => enabled_of(string_views(providers@), openlibrary_enabled, googlebooks_enabled).len() > 0
                && s@ == enabled_of(string_views(providers@), openlibrary_enabled, googlebooks_enabled)[0],
            None => enabled_of(string_views(providers@), openlibrary_enabled, googlebooks_enabled).len() == 0,
        },
{
    let e = enabled_sources(providers, openlibrary_enabled, googlebooks_enabled);
    if e.len() > 0 {
        assert(string_views(e@)[0] == e@[0]@);
        Some(e[0].clone())
    } else {
        None
    }
}

/// The enabled sources the download dialog has ticked, in configured order.
pub fn active_sources_for_dialog(
    providers: &Vec<String>,
    openlibrary_enabled: bool,
    googlebooks_enabled: bool,
    choices: SourceChoices,
) -> (r: Vec<String>)
    ensures
        string_views(r@) == chosen_of(enabled_of(string_views(providers@), openlibrary_enabled, googlebooks_enabled), choices),
{
    let enabled = enabled_sources(providers, openlibrary_enabled, googlebooks_enabled);
    let mut out: Vec<String> = Vec::new();
    let mut i: usize = 0;
    while i < enabled.len()
        invariant
            i <= enabled@.len(),
            string_views(out@) == chosen_of(string_views(enabled@).take(i as int), choices),
        decreases enabled.len() - i,
    {
        let ghost es = string_views(enabled@);
        assert(es.take(i + 1).drop_last() =~= es.take(i as int));
        assert(es[i as int] == enabled@[i as int]@);
        let p = chars_of(enabled[i].as_str());
        let chosen = if vec_eq_str(&p, "openlibrary") {
            choices.openlibrary
        } else if vec_eq_str(&p, "googlebooks") {
            choices.google
        } else if vec_eq_str(&p, "amazon") {
            choices.amazon
        } else if vec_eq_str(&p, "isbndb") {
            choices.isbndb
        } else {
            false
        };
        if chosen {
            let ghost before = string_views(out@);
            out.push(enabled[i].clone());
            assert(string_views(out@) =~= before.push(es[i as int]));
        }
        i += 1;
    }
    assert(string_views(enabled@).take(enabled@.len() as int) =~= string_views(enabled@));
    out
}

} // verus!
