//! Discovered machines: one per library subdirectory that holds a launch
//! script. Walking the file system is the caller's business; building the
//! records, naming, ordering and grouping them happens here, and one
//! machine's extraction failure never hides the others.

use vstd::prelude::*;

use crate::launch_parser::parse_launch_script;
use crate::qemu_config::QemuConfig;
use crate::text::lower_string;
use crate::text::match_at;
use crate::text::push_char;
use crate::text::spec_contains;
use crate::text::contains_sub;
use crate::text::lemma_join_words_concat;
use crate::text::lemma_spec_word_end;
use crate::text::spec_join_words;
use crate::text::spec_lower_seq;
use crate::text::spec_words;
use crate::text::split_words;
use crate::text::starts_with_str;
use crate::text::to_upper;
use crate::text::upper_char;

verus! {

broadcast use vstd::string::group_string_axioms, vstd::seq_lib::group_to_multiset_ensures;

/// One machine found in the library.
#[derive(Debug, Clone)]
pub struct DiscoveredVm {
    /// Directory name, the machine's identifier.
    pub id: String,
    /// Path of the machine's directory.
    pub path: String,
    /// Path of the launch script inside it.
    pub launch_script: String,
    /// Extracted configuration, or the default on structural failure.
    pub config: QemuConfig,
    /// False only when the script itself could not be read.
    pub parse_success: bool,
    /// The reason extraction could not run, when it could not.
    pub parse_error: Option<String>,
}

/// A dash read as a word separator.
pub open spec fn dash_space(c: char) -> char {
    if c == '-' {
        ' '
    } else {
        c
    }
}

/// A word with its first character upper-cased.
pub open spec fn spec_capitalize(w: Seq<char>) -> Seq<char> {
    if w.len() == 0 {
        w
    } else {
        seq![upper_char(w[0])] + w.skip(1)
    }
}

/// The display name an identifier yields: separators become spaces and
/// each word is capitalized.
pub open spec fn spec_display_name(id: Seq<char>) -> Seq<char> {
    spec_join_words(
        spec_words(id.map_values(|c: char| dash_space(c))).map_values(
            |w: Seq<char>| spec_capitalize(w),
        ),
    )
}

/// Every word of a split is non-empty.
proof fn lemma_spec_words_nonempty(s: Seq<char>)
    ensures
        forall|k: int| 0 <= k < spec_words(s).len() ==> #[trigger] spec_words(s)[k].len() > 0,
    decreases s.len(),
{
    crate::text::lemma_spec_skip_spaces(s, 0);
    let t0 = crate::text::spec_skip_spaces(s, 0);
    if t0 < s.len() {
        lemma_spec_word_end(s, t0);
        let e = crate::text::spec_word_end(s, t0);
        lemma_spec_words_nonempty(s.skip(e));
        let ws = spec_words(s);
        let rest = spec_words(s.skip(e));
        assert forall|k: int| 0 <= k < ws.len() implies #[trigger] ws[k].len() > 0 by {
            if k > 0 {
                assert(ws[k] == rest[k - 1]);
            }
        }
    }
}

impl DiscoveredVm {
    /// The name shown for this machine: the identifier with separators
    /// replaced by spaces and each word capitalized.
    pub fn display_name(&self) -> (r: String)
        ensures
            r@ == spec_display_name(self.id@),
    {
        let n = self.id.as_str().unicode_len();
        let mut replaced = String::new();
        let mut i: usize = 0;
        let ghost d = self.id@.map_values(|c: char| dash_space(c));
        proof {
            assert(replaced@ =~= d.take(0));
        }
        while i < n
            invariant
                0 <= i <= n,
                n == self.id@.len(),
                d == self.id@.map_values(|c: char| dash_space(c)),
                replaced@ == d.take(i as int),
            decreases n - i,
        {
            let c = self.id.as_str().get_char(i);
            if c == '-' {
                push_char(&mut replaced, ' ');
            } else {
                push_char(&mut replaced, c);
            }
            proof {
                assert(d.take(i as int + 1) =~= d.take(i as int).push(d[i as int]));
            }
            i += 1;
        }
        proof {
            assert(d.take(n as int) =~= d);
        }
        let words = split_words(replaced.as_str());
        let ghost cw = spec_words(d).map_values(|w: Seq<char>| spec_capitalize(w));
        let mut out = String::new();
        let mut t: usize = 0;
        proof {
            lemma_spec_words_nonempty(d);
            reveal_strlit(" ");
        }
        while t < words.len()
            invariant
                0 <= t <= words@.len(),
                words@.len() == cw.len(),
                cw == spec_words(d).map_values(|w: Seq<char>| spec_capitalize(w)),
                forall|k: int| 0 <= k < words@.len() ==> #[trigger] words@[k]@ == spec_words(d)[k],
                forall|k: int|
                    0 <= k < spec_words(d).len() ==> #[trigger] spec_words(d)[k].len() > 0,
                t == 0 ==> out@ == Seq::<char>::empty(),
                t >= 1 ==> out@ == spec_join_words(cw.take(t as int)),
                "\u{20}"@ == seq![' '],
            decreases words@.len() - t,
        {
            if t > 0 {
                out.append(" ");
            }
            let w = &words[t];
            let wlen = w.as_str().unicode_len();
            push_char(&mut out, to_upper(w.as_str().get_char(0)));
            let tail = w.as_str().substring_char(1, wlen);
            out.append(tail);
            proof {
                assert(cw[t as int] == spec_capitalize(words@[t as int]@));
                assert(seq![upper_char(words@[t as int]@[0])] + words@[t as int]@.skip(1)
                    =~= spec_capitalize(words@[t as int]@));
                if t == 0 {
                    assert(cw.take(1) =~= seq![cw[0]]);
                    assert(spec_join_words(seq![cw[0]]) == cw[0]);
                } else {
                    assert(cw.take(t as int + 1) =~= cw.take(t as int) + seq![cw[t as int]]);
                    lemma_join_words_concat(cw.take(t as int), seq![cw[t as int]]);
                    assert(spec_join_words(seq![cw[t as int]]) == cw[t as int]);
                }
            }
            t += 1;
        }
        proof {
            if words.len() == 0 {
                assert(cw.len() == 0);
            }
            assert(cw.take(cw.len() as int) =~= cw);
        }
        out
    }
}

/// One machine's record: extraction runs when the script could be read and
/// never fails past this point; an unreadable script yields the default
/// configuration, an unset success flag and the stored reason.
pub fn build_vm_record(id: String, path: String, launch_script: String, script: Result<
    &str,
    String,
>) -> (r: DiscoveredVm)
    ensures
        r.id@ == id@,
        r.path@ == path@,
        r.launch_script@ == launch_script@,
        script matches Ok(content) ==> r.parse_success && r.parse_error is None
            && r.config.raw_script@ == content@,
        script matches Err(e) ==> !r.parse_success && (r.parse_error matches Some(m) && m@ == e@)
            && crate::qemu_config::spec_config_is_default(r.config),
{
    match script {
        Ok(content) => {
            let config = parse_launch_script(launch_script.as_str(), content);
            DiscoveredVm { id, path, launch_script, config, parse_success: true, parse_error: None }
        },
        Err(e) => {
            let config = QemuConfig::default();
            DiscoveredVm {
                id,
                path,
                launch_script,
                config,
                parse_success: false,
                parse_error: Some(e),
            }
        },
    }
}

/// Lexicographic order on character sequences, from position `i`.
pub open spec fn spec_lex_le(a: Seq<char>, b: Seq<char>, i: int) -> bool
    decreases a.len() - i,
{
    if i < 0 || i >= a.len() {
        true
    } else if i >= b.len() {
        false
    } else if a[i] != b[i] {
        a[i] < b[i]
    } else {
        spec_lex_le(a, b, i + 1)
    }
}

/// Lexicographic order on character sequences.
pub open spec fn spec_str_le(a: Seq<char>, b: Seq<char>) -> bool {
    spec_lex_le(a, b, 0)
}

/// The order is total.
pub proof fn lemma_lex_total(a: Seq<char>, b: Seq<char>, i: int)
    requires
        0 <= i,
    ensures
        spec_lex_le(a, b, i) || spec_lex_le(b, a, i),
    decreases a.len() - i,
{
    if i < a.len() && i < b.len() && a[i] == b[i] {
        lemma_lex_total(a, b, i + 1);
    }
}

/// The order is transitive.
pub proof fn lemma_lex_trans(a: Seq<char>, b: Seq<char>, c: Seq<char>, i: int)
    requires
        0 <= i,
        spec_lex_le(a, b, i),
        spec_lex_le(b, c, i),
    ensures
        spec_lex_le(a, c, i),
    decreases a.len() - i,
{
    if i >= a.len() {
    } else if i >= b.len() {
    } else if i >= c.len() {
    } else {
        if a[i] == b[i] && b[i] == c[i] {
            lemma_lex_trans(a, b, c, i + 1);
        }
    }
}

/// The order is reflexive.
pub proof fn lemma_lex_refl(a: Seq<char>, i: int)
    requires
        0 <= i,
    ensures
        spec_lex_le(a, a, i),
    decreases a.len() - i,
{
    if i < a.len() {
        lemma_lex_refl(a, i + 1);
    }
}

/// Whether `a` sorts at or before `b`.
fn str_le(a: &str, b: &str) -> (r: bool)
    ensures
        r == spec_str_le(a@, b@),
{
    let alen = a.unicode_len();
    let blen = b.unicode_len();
    let mut i: usize = 0;
    loop
        invariant
            0 <= i <= alen,
            alen == a@.len(),
            blen == b@.len(),
            spec_lex_le(a@, b@, 0) == spec_lex_le(a@, b@, i as int),
        decreases alen - i,
    {
        if i >= alen {
            return true;
        }
        if i >= blen {
            return false;
        }
        let ca = a.get_char(i);
        let cb = b.get_char(i);
        if ca != cb {
            return ca < cb;
        }
        i += 1;
    }
}

/// The machines sorted by display name: same records, in order.
pub fn sort_vms_by_display_name(vms: Vec<DiscoveredVm>) -> (r: Vec<DiscoveredVm>)
    ensures
        r@.to_multiset() == vms@.to_multiset(),
        forall|a: int, b: int|
            0 <= a < b < r@.len() ==> spec_str_le(
                spec_display_name(#[trigger] r@[a].id@),
                spec_display_name(#[trigger] r@[b].id@),
            ),
{
    let mut rest = vms;
    let mut out: Vec<DiscoveredVm> = Vec::new();
    while rest.len() > 0
        invariant
            out@.to_multiset().add(rest@.to_multiset()) == vms@.to_multiset(),
            forall|a: int, b: int|
                0 <= a < b < out@.len() ==> spec_str_le(
                    spec_display_name(#[trigger] out@[a].id@),
                    spec_display_name(#[trigger] out@[b].id@),
                ),
            forall|a: int, b: int|
                0 <= a < out@.len() && 0 <= b < rest@.len() ==> spec_str_le(
                    spec_display_name(#[trigger] out@[a].id@),
                    spec_display_name(#[trigger] rest@[b].id@),
                ),
        decreases rest.len(),
    {
        let mut m: usize = 0;
        let mut t: usize = 1;
        let mut mname = rest[0].display_name();
        proof {
            lemma_lex_refl(mname@, 0);
        }
        while t < rest.len()
            invariant
                rest@.len() > 0,
                0 <= m < rest@.len(),
                1 <= t <= rest@.len(),
                mname@ == spec_display_name(rest@[m as int].id@),
                forall|j: int|
                    0 <= j < t ==> spec_str_le(
                        spec_display_name(rest@[m as int].id@),
                        spec_display_name(#[trigger] rest@[j].id@),
                    ),
            decreases rest@.len() - t,
        {
            let tname = rest[t].display_name();
            proof {
                lemma_lex_refl(tname@, 0);
            }
            if !str_le(mname.as_str(), tname.as_str()) {
                proof {
                    lemma_lex_total(mname@, tname@, 0);
                    assert forall|j: int| 0 <= j < t implies spec_str_le(
                        spec_display_name(rest@[t as int].id@),
                        spec_display_name(#[trigger] rest@[j].id@),
                    ) by {
                        lemma_lex_trans(
                            spec_display_name(rest@[t as int].id@),
                            spec_display_name(rest@[m as int].id@),
                            spec_display_name(rest@[j].id@),
                            0,
                        );
                    }
                }
                m = t;
                mname = tname;
            }
            t += 1;
        }
        let ghost old_rest = rest@;
        let ghost old_out = out@;
        let x = rest.remove(m);
        proof {
            assert(old_rest.contains(old_rest[m as int]));
            assert forall|b: int| 0 <= b < rest@.len() implies spec_str_le(
                spec_display_name(x.id@),
                spec_display_name(#[trigger] rest@[b].id@),
            ) by {
                if b < m {
                    assert(rest@[b] == old_rest[b]);
                } else {
                    assert(rest@[b] == old_rest[b + 1]);
                }
            }
        }
        out.push(x);
        proof {
            assert(old_rest.to_multiset().count(x) > 0);
            assert(rest@.to_multiset() =~= old_rest.to_multiset().remove(x));
            assert(out@.to_multiset() =~= old_out.to_multiset().insert(x));
            assert(out@.to_multiset().add(rest@.to_multiset()) =~= vms@.to_multiset());
            assert forall|a: int, b: int|
                0 <= a < b < out@.len() implies spec_str_le(
                spec_display_name(#[trigger] out@[a].id@),
                spec_display_name(#[trigger] out@[b].id@),
            ) by {
                if b < out@.len() - 1 {
                    assert(out@[a] == old_out[a] && out@[b] == old_out[b]);
                } else {
                    assert(out@[b] == x);
                    if a < out@.len() - 1 {
                        assert(out@[a] == old_out[a]);
                    }
                }
            }
            assert forall|a: int, b: int|
                0 <= a < out@.len() && 0 <= b < rest@.len() implies spec_str_le(
                spec_display_name(#[trigger] out@[a].id@),
                spec_display_name(#[trigger] rest@[b].id@),
            ) by {
                if a < out@.len() - 1 {
                    assert(out@[a] == old_out[a]);
                    if b < m {
                        assert(rest@[b] == old_rest[b]);
                    } else {
                        assert(rest@[b] == old_rest[b + 1]);
                    }
                } else {
                    assert(out@[a] == x);
                }
            }
        }
    }
    proof {
        assert(out@.to_multiset().add(rest@.to_multiset()) =~= out@.to_multiset());
    }
    out
}

/// The label of each category group.
pub open spec fn spec_cat_label(c: int) -> Seq<char> {
    if c == 0 {
        "Windows / DOS"@
    } else if c == 1 {
        "Macintosh"@
    } else if c == 2 {
        "Linux"@
    } else {
        "Other"@
    }
}

/// The category an identifier's lower-cased form falls in.
pub open spec fn spec_vm_category(l: Seq<char>) -> int {
    if match_at(l, "windows"@, 0) || spec_contains(l, "dos"@) || match_at(l, "my-first"@, 0) {
        0
    } else if match_at(l, "mac"@, 0) {
        1
    } else if match_at(l, "linux"@, 0) || spec_contains(l, "fedora"@) || spec_contains(
        l,
        "ubuntu"@,
    ) || spec_contains(l, "debian"@) || spec_contains(l, "arch"@) {
        2
    } else {
        3
    }
}

/// The machines of one category, in input order.
pub open spec fn spec_filter_cat(vms: Seq<DiscoveredVm>, c: int) -> Seq<DiscoveredVm>
    decreases vms.len(),
{
    if vms.len() == 0 {
        Seq::empty()
    } else {
        (if spec_vm_category(spec_lower_seq(vms[0].id@)) == c {
            seq![vms[0]]
        } else {
            Seq::empty()
        }) + spec_filter_cat(vms.drop_first(), c)
    }
}

/// The category of this machine's identifier.
fn vm_category(vm: &DiscoveredVm) -> (r: i32)
    ensures
        r == spec_vm_category(spec_lower_seq(vm.id@)),
        0 <= r <= 3,
{
    let l = lower_string(vm.id.as_str());
    if starts_with_str(l.as_str(), "windows") || contains_sub(l.as_str(), "dos")
        || starts_with_str(l.as_str(), "my-first") {
        0
    } else if starts_with_str(l.as_str(), "mac") {
        1
    } else if starts_with_str(l.as_str(), "linux") || contains_sub(l.as_str(), "fedora")
        || contains_sub(l.as_str(), "ubuntu") || contains_sub(l.as_str(), "debian")
        || contains_sub(l.as_str(), "arch") {
        2
    } else {
        3
    }
}

/// The filter splits at any boundary.
proof fn lemma_filter_cat_split(vms: Seq<DiscoveredVm>, c: int, k: int)
    requires
        0 <= k <= vms.len(),
    ensures
        spec_filter_cat(vms, c) == spec_filter_cat(vms.take(k), c) + spec_filter_cat(
            vms.skip(k),
            c,
        ),
    decreases k,
{
    if k == 0 {
        assert(vms.take(0) =~= Seq::<DiscoveredVm>::empty());
        assert(vms.skip(0) =~= vms);
        assert(spec_filter_cat(vms.take(0), c) + spec_filter_cat(vms, c) =~= spec_filter_cat(
            vms,
            c,
        ));
    } else {
        let tail = vms.drop_first();
        lemma_filter_cat_split(tail, c, k - 1);
        assert(vms.take(k)[0] == vms[0]);
        assert(vms.take(k).drop_first() =~= tail.take(k - 1));
        assert(vms.skip(k) =~= tail.skip(k - 1));
        let h: Seq<DiscoveredVm> = if spec_vm_category(spec_lower_seq(vms[0].id@)) == c {
            seq![vms[0]]
        } else {
            Seq::empty()
        };
        assert(h + (spec_filter_cat(tail.take(k - 1), c) + spec_filter_cat(tail.skip(k - 1), c))
            =~= (h + spec_filter_cat(tail.take(k - 1), c)) + spec_filter_cat(
            tail.skip(k - 1),
            c,
        ));
    }
}

/// The expected groups: one per category with any machines, in fixed
/// category order.
pub open spec fn spec_grouped_want(vms: Seq<DiscoveredVm>) -> Seq<(int, Seq<DiscoveredVm>)> {
    let g0 = spec_filter_cat(vms, 0);
    let g1 = spec_filter_cat(vms, 1);
    let g2 = spec_filter_cat(vms, 2);
    let g3 = spec_filter_cat(vms, 3);
    (if g0.len() > 0 {
        seq![(0int, g0)]
    } else {
        Seq::empty()
    }) + (if g1.len() > 0 {
        seq![(1int, g1)]
    } else {
        Seq::empty()
    }) + (if g2.len() > 0 {
        seq![(2int, g2)]
    } else {
        Seq::empty()
    }) + (if g3.len() > 0 {
        seq![(3int, g3)]
    } else {
        Seq::empty()
    })
}

/// The returned groups carry exactly the expected labels and machines.
pub open spec fn spec_groups_match(r: Seq<(&'static str, Vec<&DiscoveredVm>)>, vms: Seq<DiscoveredVm>) -> bool {
    &&& r.len() == spec_grouped_want(vms).len()
    &&& forall|g: int|
        0 <= g < r.len() ==> {
            &&& (#[trigger] r[g]).0@ == spec_cat_label(spec_grouped_want(vms)[g].0)
            &&& r[g].1@.len() == spec_grouped_want(vms)[g].1.len()
            &&& forall|i: int|
                0 <= i < r[g].1@.len() ==> *r[g].1@[i] == spec_grouped_want(vms)[g].1[i]
        }
}

/// Machines grouped by the naming conventions of their identifiers, in a
/// fixed group order; a category with no machines yields no group.
pub fn group_vms_by_category(vms: &Vec<DiscoveredVm>) -> (r: Vec<(&'static str, Vec<
    &DiscoveredVm,
>)>)
    ensures
        spec_groups_match(r@, vms@),
{
    let windows = filter_cat_refs(vms, 0);
    let mac = filter_cat_refs(vms, 1);
    let linux = filter_cat_refs(vms, 2);
    let other = filter_cat_refs(vms, 3);
    let ghost g0 = spec_filter_cat(vms@, 0);
    let ghost g1 = spec_filter_cat(vms@, 1);
    let ghost g2 = spec_filter_cat(vms@, 2);
    let ghost g3 = spec_filter_cat(vms@, 3);
    let mut groups: Vec<(&'static str, Vec<&DiscoveredVm>)> = Vec::new();
    if windows.len() > 0 {
        groups.push(("Windows / DOS", windows));
    }
    if mac.len() > 0 {
        groups.push(("Macintosh", mac));
    }
    if linux.len() > 0 {
        groups.push(("Linux", linux));
    }
    if other.len() > 0 {
        groups.push(("Other", other));
    }
    proof {
        reveal_strlit("Windows / DOS");
        reveal_strlit("Macintosh");
        reveal_strlit("Linux");
        reveal_strlit("Other");
    }
    groups
}

/// References to the machines of one category, in input order.
fn filter_cat_refs(vms: &Vec<DiscoveredVm>, c: i32) -> (r: Vec<&DiscoveredVm>)
    requires
        0 <= c <= 3,
    ensures
        r@.len() == spec_filter_cat(vms@, c as int).len(),
        forall|i: int| 0 <= i < r@.len() ==> *r@[i] == spec_filter_cat(vms@, c as int)[i],
{
    let ghost f = spec_filter_cat(vms@, c as int);
    let mut r: Vec<&DiscoveredVm> = Vec::new();
    let mut t: usize = 0;
    proof {
        assert(vms@.take(0) =~= Seq::<DiscoveredVm>::empty());
    }
    while t < vms.len()
        invariant
            0 <= t <= vms@.len(),
            f == spec_filter_cat(vms@, c as int),
            r@.len() == spec_filter_cat(vms@.take(t as int), c as int).len(),
            forall|i: int|
                0 <= i < r@.len() ==> *r@[i] == spec_filter_cat(vms@.take(t as int), c as int)[i],
        decreases vms@.len() - t,
    {
        let cat = vm_category(&vms[t]);
        proof {
            lemma_filter_cat_split(vms@.take(t as int + 1), c as int, t as int);
            assert(vms@.take(t as int + 1).take(t as int) =~= vms@.take(t as int));
            assert(vms@.take(t as int + 1).skip(t as int) =~= seq![vms@[t as int]]);
            reveal_with_fuel(spec_filter_cat, 2);
            assert(seq![vms@[t as int]].drop_first() =~= Seq::<DiscoveredVm>::empty());
            assert(seq![vms@[t as int]][0] == vms@[t as int]);
        }
        if cat == c {
            r.push(&vms[t]);
            proof {
                assert(spec_filter_cat(seq![vms@[t as int]], c as int) =~= seq![vms@[t as int]]);
            }
        } else {
            proof {
                assert(spec_filter_cat(seq![vms@[t as int]], c as int) =~= Seq::<
                    DiscoveredVm,
                >::empty());
            }
        }
        t += 1;
    }
    proof {
        assert(vms@.take(vms@.len() as int) =~= vms@);
    }
    r
}

} // verus!
