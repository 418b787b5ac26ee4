//! ASCII art for the machines, keyed by identifier. Loading user art from
//! disk is the caller's business; the embedded art, lookups, family
//! fallbacks and merging live here. A later entry for a key replaces the
//! earlier one, as a map insert would.

use vstd::prelude::*;

use crate::text::contains_sub;
use crate::text::spec_contains;
use crate::text::spec_lower_seq;
use crate::text::lower_string;

verus! {

broadcast use vstd::string::group_string_axioms;

/// ASCII art storage: association entries in insertion order, where the
/// first entry for a key is the effective one.
#[derive(Debug, Clone, Default)]
pub struct AsciiArtStore {
    pub art: Vec<(String, String)>,
}

/// The first art stored under `id`.
pub open spec fn spec_art_lookup(art: Seq<(String, String)>, id: Seq<char>) -> Option<Seq<char>>
    decreases art.len(),
{
    if art.len() == 0 {
        None
    } else if art[0].0@ == id {
        Some(art[0].1@)
    } else {
        spec_art_lookup(art.drop_first(), id)
    }
}

/// `art` with `(k, v)` inserted: the first entry for `k` is replaced, or
/// the pair is appended when the key is new.
pub open spec fn spec_art_insert(art: Seq<(String, String)>, k: String, v: String) -> Seq<
    (String, String),
>
    decreases art.len(),
{
    if art.len() == 0 {
        seq![(k, v)]
    } else if art[0].0@ == k@ {
        seq![(k, v)] + art.drop_first()
    } else {
        seq![art[0]] + spec_art_insert(art.drop_first(), k, v)
    }
}

/// All of `ov` inserted into `art`, in order.
pub open spec fn spec_art_merge(art: Seq<(String, String)>, ov: Seq<(String, String)>) -> Seq<
    (String, String),
>
    decreases ov.len(),
{
    if ov.len() == 0 {
        art
    } else {
        spec_art_merge(spec_art_insert(art, ov[0].0, ov[0].1), ov.drop_first())
    }
}

/// The windows generic fallback art.
pub open spec fn spec_windows_generic() -> Seq<char> {
    "\n __        ___           _\n \\ \\      / (_)_ __   __| | _____      _____\n  \\ \\ /\\ / /| | '_ \\ / _` |/ _ \\ \\ /\\ / / __|\n   \\ V  V / | | | | | (_| | (_) \\ V  V /\\__ \\\n    \\_/\\_/  |_|_| |_|\\__,_|\\___/ \\_/\\_/ |___/\n"@
}

fn windows_generic_art() -> (r: &'static str)
    ensures
        r@ == spec_windows_generic(),
{
    "\n __        ___           _\n \\ \\      / (_)_ __   __| | _____      _____\n  \\ \\ /\\ / /| | '_ \\ / _` |/ _ \\ \\ /\\ / / __|\n   \\ V  V / | | | | | (_| | (_) \\ V  V /\\__ \\\n    \\_/\\_/  |_|_| |_|\\__,_|\\___/ \\_/\\_/ |___/\n"
}

/// The mac generic fallback art.
pub open spec fn spec_mac_generic() -> Seq<char> {
    "\n      _____\n     /     \\\n    |       |\n    |   @   |\n    |_______|\n   Macintosh\n"@
}

fn mac_generic_art() -> (r: &'static str)
    ensures
        r@ == spec_mac_generic(),
{
    "\n      _____\n     /     \\\n    |       |\n    |   @   |\n    |_______|\n   Macintosh\n"
}

/// The tux fallback art.
pub open spec fn spec_tux() -> Seq<char> {
    "\n       .--.\n      |o_o |\n      |:_/ |\n     //   \\ \\\n    (|     | )\n   /'\\_   _/`\\\n   \\___)=(___/\n"@
}

fn tux_art() -> (r: &'static str)
    ensures
        r@ == spec_tux(),
{
    "\n       .--.\n      |o_o |\n      |:_/ |\n     //   \\ \\\n    (|     | )\n   /'\\_   _/`\\\n   \\___)=(___/\n"
}

/// The dos art fallback art.
pub open spec fn spec_dos_art() -> Seq<char> {
    "\n  __  __ ____        ____   ___  ____\n |  \\/  / ___|      |  _ \\ / _ \\/ ___|\n | |\\/| \\___ \\ _____| | | | | | \\___ \\\n | |  | |___) |_____| |_| | |_| |___) |\n |_|  |_|____/      |____/ \\___/|____/\n"@
}

fn dos_art_art() -> (r: &'static str)
    ensures
        r@ == spec_dos_art(),
{
    "\n  __  __ ____        ____   ___  ____\n |  \\/  / ___|      |  _ \\ / _ \\/ ___|\n | |\\/| \\___ \\ _____| | | | | | \\___ \\\n | |  | |___) |_____| |_| | |_| |___) |\n |_|  |_|____/      |____/ \\___/|____/\n"
}

/// The generic vm fallback art.
pub open spec fn spec_generic_vm() -> Seq<char> {
    "\n   +----------+\n   |  ______  |\n   | |      | |\n   | | QEMU | |\n   | |______| |\n   |__________|\n     Virtual\n"@
}

fn generic_vm_art() -> (r: &'static str)
    ensures
        r@ == spec_generic_vm(),
{
    "\n   +----------+\n   |  ______  |\n   | |      | |\n   | | QEMU | |\n   | |______| |\n   |__________|\n     Virtual\n"
}

/// The fallback art an identifier's lower-cased form selects.
pub open spec fn spec_art_fallback(l: Seq<char>) -> Seq<char> {
    if spec_contains(l, "windows"@) {
        spec_windows_generic()
    } else if spec_contains(l, "mac"@) || spec_contains(l, "osx"@) {
        spec_mac_generic()
    } else if spec_contains(l, "linux"@) || spec_contains(l, "fedora"@) || spec_contains(
        l,
        "ubuntu"@,
    ) {
        spec_tux()
    } else if spec_contains(l, "dos"@) {
        spec_dos_art()
    } else {
        spec_generic_vm()
    }
}

impl AsciiArtStore {

    /// The embedded art, one entry per known identifier.
    pub fn load_embedded() -> (r: AsciiArtStore)
        ensures
            r.art@.len() == 17,
            r.art@[0].0@ == "windows-95"@,
            r.art@[1].0@ == "windows-98"@,
            r.art@[2].0@ == "windows-me"@,
            r.art@[3].0@ == "windows-2000"@,
            r.art@[4].0@ == "windows-xp"@,
            r.art@[5].0@ == "windows-vista"@,
            r.art@[6].0@ == "windows-7"@,
            r.art@[7].0@ == "windows-10"@,
            r.art@[8].0@ == "windows-11"@,
            r.art@[9].0@ == "dos"@,
            r.art@[10].0@ == "ms-dos"@,
            r.art@[11].0@ == "mac-system7"@,
            r.art@[12].0@ == "mac-os9"@,
            r.art@[13].0@ == "mac-osx-tiger"@,
            r.art@[14].0@ == "mac-osx-leopard"@,
            r.art@[15].0@ == "linux-fedora"@,
            r.art@[16].0@ == "linux"@,
    {
        let mut store = AsciiArtStore { art: Vec::new() };
        store.art.push((String::from_str("windows-95"), String::from_str("\n __        ___           _                     ___  ____\n \\ \\      / (_)_ __   __| | _____      _____  / _ \\| ___|\n  \\ \\ /\\ / /| | '_ \\ / _` |/ _ \\ \\ /\\ / / __|| (_) |___ \\\n   \\ V  V / | | | | | (_| | (_) \\ V  V /\\__ \\ \\__, |___) |\n    \\_/\\_/  |_|_| |_|\\__,_|\\___/ \\_/\\_/ |___/   /_/|____/\n")));
        store.art.push((String::from_str("windows-98"), String::from_str("\n __        ___           _                     ___   ___\n \\ \\      / (_)_ __   __| | _____      _____  / _ \\ ( _ )\n  \\ \\ /\\ / /| | '_ \\ / _` |/ _ \\ \\ /\\ / / __|| (_) |/ _ \\\n   \\ V  V / | | | | | (_| | (_) \\ V  V /\\__ \\ \\__, | (_) |\n    \\_/\\_/  |_|_| |_|\\__,_|\\___/ \\_/\\_/ |___/   /_/ \\___/\n")));
        store.art.push((String::from_str("windows-me"), String::from_str("\n __        ___           _                     __  __ _____\n \\ \\      / (_)_ __   __| | _____      _____  |  \\/  | ____|\n  \\ \\ /\\ / /| | '_ \\ / _` |/ _ \\ \\ /\\ / / __| | |\\/| |  _|\n   \\ V  V / | | | | | (_| | (_) \\ V  V /\\__ \\ | |  | | |___\n    \\_/\\_/  |_|_| |_|\\__,_|\\___/ \\_/\\_/ |___/ |_|  |_|_____|\n")));
        store.art.push((String::from_str("windows-2000"), String::from_str("\n __        ___           _                     ____   ___   ___   ___\n \\ \\      / (_)_ __   __| | _____      _____  |___ \\ / _ \\ / _ \\ / _ \\\n  \\ \\ /\\ / /| | '_ \\ / _` |/ _ \\ \\ /\\ / / __|   __) | | | | | | | | | |\n   \\ V  V / | | | | | (_| | (_) \\ V  V /\\__ \\  / __/| |_| | |_| | |_| |\n    \\_/\\_/  |_|_| |_|\\__,_|\\___/ \\_/\\_/ |___/ |_____|\\___/ \\___/ \\___/\n")));
        store.art.push((String::from_str("windows-xp"), String::from_str("\n __        ___           _                    __  ______\n \\ \\      / (_)_ __   __| | _____      _____  \\ \\/ /  _ \\\n  \\ \\ /\\ / /| | '_ \\ / _` |/ _ \\ \\ /\\ / / __|  \\  /| |_) |\n   \\ V  V / | | | | | (_| | (_) \\ V  V /\\__ \\  /  \\|  __/\n    \\_/\\_/  |_|_| |_|\\__,_|\\___/ \\_/\\_/ |___/ /_/\\_\\_|\n")));
        store.art.push((String::from_str("windows-vista"), String::from_str("\n __        ___           _                    __     ___     _\n \\ \\      / (_)_ __   __| | _____      _____  \\ \\   / (_)___| |_ __ _\n  \\ \\ /\\ / /| | '_ \\ / _` |/ _ \\ \\ /\\ / / __|  \\ \\ / /| / __| __/ _` |\n   \\ V  V / | | | | | (_| | (_) \\ V  V /\\__ \\   \\ V / | \\__ \\ || (_| |\n    \\_/\\_/  |_|_| |_|\\__,_|\\___/ \\_/\\_/ |___/    \\_/  |_|___/\\__\\__,_|\n")));
        store.art.push((String::from_str("windows-7"), String::from_str("\n __        ___           _                    _____\n \\ \\      / (_)_ __   __| | _____      _____  |___  |\n  \\ \\ /\\ / /| | '_ \\ / _` |/ _ \\ \\ /\\ / / __|    / /\n   \\ V  V / | | | | | (_| | (_) \\ V  V /\\__ \\   / /\n    \\_/\\_/  |_|_| |_|\\__,_|\\___/ \\_/\\_/ |___/  /_/\n")));
        store.art.push((String::from_str("windows-10"), String::from_str("\n __        ___           _                    _  ___\n \\ \\      / (_)_ __   __| | _____      _____  / |/ _ \\\n  \\ \\ /\\ / /| | '_ \\ / _` |/ _ \\ \\ /\\ / / __| | | | | |\n   \\ V  V / | | | | | (_| | (_) \\ V  V /\\__ \\ | | |_| |\n    \\_/\\_/  |_|_| |_|\\__,_|\\___/ \\_/\\_/ |___/ |_|\\___/\n")));
        store.art.push((String::from_str("windows-11"), String::from_str("\n __        ___           _                    _ _\n \\ \\      / (_)_ __   __| | _____      _____  / / |\n  \\ \\ /\\ / /| | '_ \\ / _` |/ _ \\ \\ /\\ / / __| | | |\n   \\ V  V / | | | | | (_| | (_) \\ V  V /\\__ \\ | | |\n    \\_/\\_/  |_|_| |_|\\__,_|\\___/ \\_/\\_/ |___/ |_|_|\n")));
        store.art.push((String::from_str("dos"), String::from_str("\n  __  __ ____        ____   ___  ____\n |  \\/  / ___|      |  _ \\ / _ \\/ ___|\n | |\\/| \\___ \\ _____| | | | | | \\___ \\\n | |  | |___) |_____| |_| | |_| |___) |\n |_|  |_|____/      |____/ \\___/|____/\n")));
        store.art.push((String::from_str("ms-dos"), String::from_str("\n  __  __ ____        ____   ___  ____\n |  \\/  / ___|      |  _ \\ / _ \\/ ___|\n | |\\/| \\___ \\ _____| | | | | | \\___ \\\n | |  | |___) |_____| |_| | |_| |___) |\n |_|  |_|____/      |____/ \\___/|____/\n")));
        store.art.push((String::from_str("mac-system7"), String::from_str("\n      _____\n     /     \\\n    | () () |\n    |   ^   |\n    |  ___  |\n    |_______|\n   Macintosh\n")));
        store.art.push((String::from_str("mac-os9"), String::from_str("\n    ___  ____    ___\n   / _ \\/ ___|  / _ \\\n  | | | \\___ \\ | (_) |\n  | |_| |___) | \\__, |\n   \\___/|____/    /_/\n     Mac OS 9\n")));
        store.art.push((String::from_str("mac-osx-tiger"), String::from_str("\n        .:'\n    __ :'__\n .'`  `-'  ``.\n:          .-'\n:         :\n :         `-;\n  `.__.-.__.'\n   Mac OS X\n")));
        store.art.push((String::from_str("mac-osx-leopard"), String::from_str("\n        .:'\n    __ :'__\n .'`  `-'  ``.\n:          .-'\n:         :\n :         `-;\n  `.__.-.__.'\n   Mac OS X\n")));
        store.art.push((String::from_str("linux-fedora"), String::from_str("\n        _____\n       /     \\\n      |  f    |\n      |   e   |\n      |    d  |\n      |     o |\n      |      r|\n       \\_____a|\n")));
        store.art.push((String::from_str("linux"), String::from_str("\n       .--.\n      |o_o |\n      |:_/ |\n     //   \\ \\\n    (|     | )\n   /'\\_   _/`\\\n   \\___)=(___/\n")));
        store
    }

    /// Art for a machine identifier, when any is stored.
    pub fn get(&self, id: &str) -> (r: Option<&str>)
        ensures
            match r {
                Some(a) => spec_art_lookup(self.art@, id@) == Some(a@),
                None => spec_art_lookup(self.art@, id@) is None,
            },
    {
        let mut t: usize = 0;
        proof {
            assert(self.art@.skip(0) =~= self.art@);
        }
        while t < self.art.len()
            invariant
                0 <= t <= self.art@.len(),
                spec_art_lookup(self.art@, id@) == spec_art_lookup(
                    self.art@.skip(t as int),
                    id@,
                ),
            decreases self.art@.len() - t,
        {
            proof {
                assert(self.art@.skip(t as int)[0] == self.art@[t as int]);
                assert(self.art@.skip(t as int).drop_first() =~= self.art@.skip(t as int + 1));
            }
            if crate::text::str_eq(self.art[t].0.as_str(), id) {
                return Some(self.art[t].1.as_str());
            }
            t += 1;
        }
        None
    }

    /// Art for a machine identifier, or a fallback for its family.
    pub fn get_or_fallback(&self, id: &str) -> (r: &str)
        ensures
            match spec_art_lookup(self.art@, id@) {
                Some(a) => r@ == a,
                None => r@ == spec_art_fallback(spec_lower_seq(id@)),
            },
    {
        if let Some(a) = self.get(id) {
            return a;
        }
        let l = lower_string(id);
        if contains_sub(l.as_str(), "windows") {
            windows_generic_art()
        } else if contains_sub(l.as_str(), "mac") || contains_sub(l.as_str(), "osx") {
            mac_generic_art()
        } else if contains_sub(l.as_str(), "linux") || contains_sub(l.as_str(), "fedora")
            || contains_sub(l.as_str(), "ubuntu") {
            tux_art()
        } else if contains_sub(l.as_str(), "dos") {
            dos_art_art()
        } else {
            generic_vm_art()
        }
    }

    /// Merge user overrides: each override entry replaces the stored entry
    /// for its key, or is appended when the key is new.
    pub fn merge(&mut self, overrides: AsciiArtStore)
        ensures
            final(self).art@ == spec_art_merge(old(self).art@, overrides.art@),
    {
        let mut ov = overrides.art;
        let ghost ov0 = ov@;
        let ghost start = self.art@;
        proof {
            assert(ov@.skip(0) =~= ov@);
        }
        while ov.len() > 0
            invariant
                spec_art_merge(start, ov0) == spec_art_merge(self.art@, ov@),
            decreases ov.len(),
        {
            let ghost ov_pre = ov@;
            let ghost art_pre = self.art@;
            let (k, v) = ov.remove(0);
            self.insert(k, v);
            proof {
                assert(ov@ =~= ov_pre.drop_first());
                assert(ov_pre[0] == (k, v));
                assert(spec_art_merge(art_pre, ov_pre) == spec_art_merge(
                    spec_art_insert(art_pre, k, v),
                    ov_pre.drop_first(),
                ));
            }
        }
        proof {
            assert(spec_art_merge(self.art@, ov@) == self.art@);
        }
    }

    /// Insert one entry, replacing the first entry for its key.
    fn insert(&mut self, k: String, v: String)
        ensures
            final(self).art@ == spec_art_insert(old(self).art@, k, v),
    {
        let ghost art0 = self.art@;
        let mut t: usize = 0;
        proof {
            assert(art0.skip(0) =~= art0);
        }
        while t < self.art.len()
            invariant
                0 <= t <= self.art@.len(),
                self.art@ == art0,
                art0 == old(self).art@,
                forall|j: int| 0 <= j < t ==> #[trigger] art0[j].0@ != k@,
            decreases self.art@.len() - t,
        {
            if crate::text::str_eq(self.art[t].0.as_str(), k.as_str()) {
                let _old = self.art.remove(t);
                self.art.insert(t, (k, v));
                proof {
                    lemma_art_insert_at(art0, k, v, t as int);
                    assert(self.art@ =~= art0.remove(t as int).insert(t as int, (k, v)));
                    assert(art0.update(t as int, (k, v)) =~= art0.remove(t as int).insert(
                        t as int,
                        (k, v),
                    ));
                }
                return ;
            }
            t += 1;
        }
        self.art.push((k, v));
        proof {
            lemma_art_insert_none(art0, k, v);
        }
    }
}

/// Inserting at the first matching index is an update in place.
proof fn lemma_art_insert_at(art: Seq<(String, String)>, k: String, v: String, j: int)
    requires
        0 <= j < art.len(),
        art[j].0@ == k@,
        forall|i: int| 0 <= i < j ==> #[trigger] art[i].0@ != k@,
    ensures
        spec_art_insert(art, k, v) == art.update(j, (k, v)),
    decreases j,
{
    if j == 0 {
        assert(seq![(k, v)] + art.drop_first() =~= art.update(0, (k, v)));
    } else {
        assert(art.drop_first()[j - 1].0@ == k@);
        assert forall|i: int| 0 <= i < j - 1 implies #[trigger] art.drop_first()[i].0@ != k@ by {
            assert(art.drop_first()[i] == art[i + 1]);
        }
        lemma_art_insert_at(art.drop_first(), k, v, j - 1);
        assert(seq![art[0]] + art.drop_first().update(j - 1, (k, v)) =~= art.update(j, (k, v)));
    }
}

/// Inserting a new key appends.
proof fn lemma_art_insert_none(art: Seq<(String, String)>, k: String, v: String)
    requires
        forall|i: int| 0 <= i < art.len() ==> #[trigger] art[i].0@ != k@,
    ensures
        spec_art_insert(art, k, v) == art.push((k, v)),
    decreases art.len(),
{
    if art.len() == 0 {
        assert(seq![(k, v)] =~= art.push((k, v)));
    } else {
        assert forall|i: int| 0 <= i < art.drop_first().len() implies #[trigger] art.drop_first()[i].0@
            != k@ by {
            assert(art.drop_first()[i] == art[i + 1]);
        }
        lemma_art_insert_none(art.drop_first(), k, v);
        assert(seq![art[0]] + art.drop_first().push((k, v)) =~= art.push((k, v)));
    }
}

} // verus!
