//! The plugin manager's list: checking for updates, installing an entry from the
//! form, and removing one by id.
use crate::order::{compare_chars, lex_lt, Order};
use crate::paths::opt_view;
use crate::text::{append_str, chars_of, string_of, string_views, trim, trim_vec};
use vstd::prelude::*;

verus! {

/// A plugin as the manager lists it.
#[derive(Clone, Debug)]
pub struct PluginEntry {
    pub id: String,
    pub name: String,
    pub version: String,
    pub latest_version: String,
    pub author: String,
    pub description: String,
    pub enabled: bool,
    pub dependencies: Vec<String>,
    pub status: String,
    pub error: Option<String>,
    pub setting_key: String,
    pub setting_value: String,
    pub logs: Vec<String>,
}

/// The plugin manager: its form fields, its last message and its plugins.
#[derive(Clone, Debug)]
pub struct PluginManagerState {
    pub open: bool,
    pub search: String,
    pub selected: Option<String>,
    pub install_id: String,
    pub install_name: String,
    pub install_version: String,
    pub install_author: String,
    pub install_description: String,
    pub remove_id: String,
    pub status_message: String,
    pub plugins: Vec<PluginEntry>,
}

/// What an update check makes of a plugin: a newer latest version (by string
/// order) marks an update with a log line naming both versions; otherwise it is
/// up to date. Everything else stays.
pub open spec fn checked_plugin(before: PluginEntry, after: PluginEntry) -> bool {
    let newer = lex_lt(before.version@, before.latest_version@);
    &&& after.status@ == if newer {
        "update available"@
    } else {
        "up to date"@
    }
    &&& string_views(after.logs@) == string_views(before.logs@).push(
        if newer {
            "update available: "@ + before.version@ + " -> "@ + before.latest_version@
        } else {
            "already up to date"@
        },
    )
    &&& after.id == before.id
    &&& after.name == before.name
    &&& after.version == before.version
    &&& after.latest_version == before.latest_version
    &&& after.author == before.author
    &&& after.description == before.description
    &&& after.enabled == before.enabled
    &&& after.dependencies == before.dependencies
    &&& after.error == before.error
    &&& after.setting_key == before.setting_key
    &&& after.setting_value == before.setting_value
}

/// The entry installed from the form: trimmed fields, the version as both the
/// installed and the latest one, enabled, no dependencies, and one log line.
pub open spec fn installed_from(e: PluginEntry, s: PluginManagerState) -> bool {
    &&& e.id@ == trim(s.install_id@)
    &&& e.name@ == trim(s.install_name@)
    &&& e.version@ == trim(s.install_version@)
    &&& e.latest_version@ == trim(s.install_version@)
    &&& e.author@ == trim(s.install_author@)
    &&& e.description@ == trim(s.install_description@)
    &&& e.enabled
    &&& e.dependencies@.len() == 0
    &&& e.status@ == "installed"@
    &&& e.error is None
    &&& e.setting_key@ == "enabled"@
    &&& e.setting_value@ == "true"@
    &&& string_views(e.logs@) == seq!["plugin installed"@]
}

/// The plugins whose id is not `id`, in order.
pub open spec fn without_id(ps: Seq<PluginEntry>, id: Seq<char>) -> Seq<PluginEntry>
    decreases ps.len(),
{
    if ps.len() == 0 {
        Seq::empty()
    } else {
        let r = without_id(ps.drop_last(), id);
        if ps.last().id@ == id {
            r
        } else {
            r.push(ps.last())
        }
    }
}

/// A message's text.
fn text(s: &str) -> (r: String)
    ensures
        r@ == s@,
{
    string_of(&chars_of(s))
}

impl PluginManagerState {
    /// Checks every plugin for an update and reports that the check is done.
    pub fn check_updates(&mut self)
        ensures
            final(self).plugins@.len() == old(self).plugins@.len(),
            forall|i: int|
                0 <= i < old(self).plugins@.len() ==> checked_plugin(
                    old(self).plugins@[i],
                    #[trigger] final(self).plugins@[i],
                ),
            final(self).status_message@ == "Update check completed"@,
            final(self).selected == old(self).selected,
            final(self).remove_id == old(self).remove_id,
    {
        let mut rest: Vec<PluginEntry> = Vec::new();
        std::mem::swap(&mut rest, &mut self.plugins);
        let ghost orig = rest@;
        let mut done: Vec<PluginEntry> = Vec::new();
        while rest.len() > 0
            invariant
                rest@ == orig.skip(done@.len() as int),
                done@.len() <= orig.len(),
                forall|i: int| 0 <= i < done@.len() ==> checked_plugin(orig[i], #[trigger] done@[i]),
            decreases rest@.len(),
        {
            let ghost k = done@.len() as int;
            let mut p = rest.remove(0);
            assert(p == orig[k]);
            let v = chars_of(p.version.as_str());
            let l = chars_of(p.latest_version.as_str());
            let newer = match compare_chars(&v, &l) {
                Order::Less => true,
                _ => false,
            };
            let ghost logs_before = p.logs@;
            if newer {
                p.status = text("update available");
                let mut line = chars_of("update available: ");
                crate::text::append_vec(&mut line, &v);
                append_str(&mut line, " -> ");
                crate::text::append_vec(&mut line, &l);
                p.logs.push(string_of(&line));
            } else {
                p.status = text("up to date");
                p.logs.push(text("already up to date"));
            }
            assert(string_views(p.logs@) =~= string_views(logs_before).push(p.logs@.last()@));
            done.push(p);
            assert(rest@ =~= orig.skip(done@.len() as int));
        }
        self.plugins = done;
        self.status_message = text("Update check completed");
    }

    /// Installs a plugin from the form when its id and name are not blank, selects
    /// it and fills the removal field with its id; a blank id or name changes
    /// nothing.
    pub fn install(&mut self)
        ensures
            if trim(old(self).install_id@).len() > 0 && trim(old(self).install_name@).len() > 0 {
                &&& final(self).plugins@.len() == old(self).plugins@.len() + 1
                &&& final(self).plugins@.drop_last() == old(self).plugins@
                &&& installed_from(final(self).plugins@.last(), *old(self))
                &&& opt_view(final(self).selected) == Some(trim(old(self).install_id@))
                &&& final(self).remove_id@ == trim(old(self).install_id@)
                &&& final(self).status_message@ == "Plugin installed"@
            } else {
                *final(self) == *old(self)
            },
    {
        let id = trim_vec(&chars_of(self.install_id.as_str()));
        let name = trim_vec(&chars_of(self.install_name.as_str()));
        if id.len() == 0 || name.len() == 0 {
            return;
        }
        let version = trim_vec(&chars_of(self.install_version.as_str()));
        let mut logs: Vec<String> = Vec::new();
        logs.push(text("plugin installed"));
        assert(string_views(logs@) =~= seq!["plugin installed"@]);
        let entry = PluginEntry {
            id: string_of(&id),
            name: string_of(&name),
            version: string_of(&version),
            latest_version: string_of(&version),
            author: string_of(&trim_vec(&chars_of(self.install_author.as_str()))),
            description: string_of(&trim_vec(&chars_of(self.install_description.as_str()))),
            enabled: true,
            dependencies: Vec::new(),
            status: text("installed"),
            error: None,
            setting_key: text("enabled"),
            setting_value: text("true"),
            logs,
        };
        let ghost before = *self;
        self.plugins.push(entry);
        assert(self.plugins@.drop_last() =~= before.plugins@);
        self.selected = Some(string_of(&id));
        self.remove_id = string_of(&id);
        self.status_message = text("Plugin installed");
    }

    /// Removes the plugins whose id is the trimmed removal field; when one went,
    /// selects the first plugin left (none when the list is empty), else reports
    /// that the id was not found.
    pub fn remove(&mut self)
        ensures
            final(self).plugins@ == without_id(old(self).plugins@, trim(old(self).remove_id@)),
            if final(self).plugins@.len() != old(self).plugins@.len() {
                &&& final(self).status_message@ == "Plugin removed"@
                &&& opt_view(final(self).selected) == if final(self).plugins@.len() == 0 {
                    None::<Seq<char>>
                } else {
                    Some(final(self).plugins@[0].id@)
                }
            } else {
                &&& final(self).status_message@ == "Plugin id not found"@
                &&& final(self).selected == old(self).selected
            },
            final(self).remove_id == old(self).remove_id,
    {
        let rid = trim_vec(&chars_of(self.remove_id.as_str()));
        let mut rest: Vec<PluginEntry> = Vec::new();
        std::mem::swap(&mut rest, &mut self.plugins);
        let ghost orig = rest@;
        let before_len = rest.len();
        let mut kept: Vec<PluginEntry> = Vec::new();
        let mut taken: usize = 0;
        while rest.len() > 0
            invariant
                taken <= orig.len(),
                rest@ == orig.skip(taken as int),
                kept@ == without_id(orig.take(taken as int), rid@),
                before_len == orig.len(),
            decreases rest@.len(),
        {
            let p = rest.remove(0);
            assert(p == orig[taken as int]);
            assert(orig.take(taken + 1).drop_last() =~= orig.take(taken as int));
            let pid = chars_of(p.id.as_str());
            let same = match compare_chars(&pid, &rid) {
                Order::Equal => true,
                _ => false,
            };
            proof {
                crate::order::lemma_lex_trichotomy(pid@, rid@);
            }
            if !same {
                kept.push(p);
            }
            taken = taken + 1;
            assert(rest@ =~= orig.skip(taken as int));
        }
        assert(orig.take(taken as int) =~= orig);
        self.plugins = kept;
        if self.plugins.len() != before_len {
            self.status_message = text("Plugin removed");
            self.selected = if self.plugins.len() == 0 {
                None
            } else {
                Some(self.plugins[0].id.clone())
            };
        } else {
            self.status_message = text("Plugin id not found");
        }
    }
}

} // verus!
