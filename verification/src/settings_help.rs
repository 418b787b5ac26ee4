//! Contextual help text for the settings screen. Loading the entries from
//! embedded assets or user files is the caller's business; the store keeps
//! them and answers lookups, later entries for a key overriding earlier
//! ones through replacement.

use vstd::prelude::*;

verus! {

/// Help text for one settings item.
#[derive(Debug, Clone, PartialEq, Eq)]
pub struct SettingsHelpEntry {
    /// Title for the help panel.
    pub title: String,
    /// Description text.
    pub description: String,
}

/// Store of help entries, keyed by the settings item.
#[derive(Debug, Clone)]
pub struct SettingsHelpStore {
    entries: Vec<(String, SettingsHelpEntry)>,
}

/// The first entry stored under `key`.
pub open spec fn spec_help_lookup(entries: Seq<(String, SettingsHelpEntry)>, key: Seq<char>) -> Option<
    SettingsHelpEntry,
>
    decreases entries.len(),
{
    if entries.len() == 0 {
        None
    } else if entries[0].0@ == key {
        Some(entries[0].1)
    } else {
        spec_help_lookup(entries.drop_first(), key)
    }
}

impl Default for SettingsHelpStore {
    /// An empty store.
    fn default() -> (r: SettingsHelpStore)
        ensures
            r@ =~= Seq::<(String, SettingsHelpEntry)>::empty(),
    {
        SettingsHelpStore { entries: Vec::new() }
    }
}

impl View for SettingsHelpStore {
    type V = Seq<(String, SettingsHelpEntry)>;

    closed spec fn view(&self) -> Seq<(String, SettingsHelpEntry)> {
        self.entries@
    }
}

impl SettingsHelpStore {
    /// A store over the given entries, in order.
    pub fn from_entries(entries: Vec<(String, SettingsHelpEntry)>) -> (r: SettingsHelpStore)
        ensures
            r@ == entries@,
    {
        SettingsHelpStore { entries }
    }

    /// Help text for a settings item, by key.
    pub fn get(&self, key: &str) -> (r: Option<&SettingsHelpEntry>)
        ensures
            match r {
                Some(e) => spec_help_lookup(self@, key@) == Some(*e),
                None => spec_help_lookup(self@, key@) is None,
            },
    {
        let mut t: usize = 0;
        proof {
            assert(self@.skip(0) =~= self@);
        }
        while t < self.entries.len()
            invariant
                0 <= t <= self@.len(),
                spec_help_lookup(self@, key@) == spec_help_lookup(self@.skip(t as int), key@),
            decreases self@.len() - t,
        {
            proof {
                assert(self@.skip(t as int)[0] == self@[t as int]);
                assert(self@.skip(t as int).drop_first() =~= self@.skip(t as int + 1));
            }
            if crate::text::str_eq(self.entries[t].0.as_str(), key) {
                return Some(&self.entries[t].1);
            }
            t += 1;
        }
        None
    }

    /// Help text for a settings item, or the stored default entry, or the
    /// built-in fallback.
    pub fn get_or_default(&self, key: &str) -> (r: (&str, &str))
        ensures
            match spec_help_lookup(self@, key@) {
                Some(e) => r.0@ == e.title@ && r.1@ == e.description@,
                None => match spec_help_lookup(self@, "default"@) {
                    Some(d) => r.0@ == d.title@ && r.1@ == d.description@,
                    None => r.0@ == "Settings"@ && r.1@
                        == "Select a setting to see its description."@,
                },
            },
    {
        match self.get(key) {
            Some(e) => (e.title.as_str(), e.description.as_str()),
            None => match self.get("default") {
                Some(d) => (d.title.as_str(), d.description.as_str()),
                None => ("Settings", "Select a setting to see its description."),
            },
        }
    }
}

} // verus!
