//! Parsers for the textual reports of the external disk-image utility:
//! the snapshot table and the disk-information listing. Running the utility
//! itself is the caller's business; only the text is interpreted here.

use vstd::prelude::*;

use crate::text::match_at;
use crate::text::rtrim_end;
use crate::text::skip_spaces;
use crate::text::spec_rtrim;
use crate::text::spec_skip_spaces;
use crate::text::spec_split_lines;
use crate::text::spec_words;
use crate::text::split_lines;
use crate::text::split_words;
use crate::text::starts_with_str;

verus! {

broadcast use vstd::string::group_string_axioms;

/// One snapshot of a disk image, as the utility reports it.
#[derive(Debug, Clone, PartialEq, Eq)]
pub struct Snapshot {
    pub id: String,
    pub name: String,
    pub size: String,
    pub date: String,
    pub vm_clock: String,
}

/// Information about one disk image, as the utility reports it.
#[derive(Debug, Clone, PartialEq, Eq)]
pub struct DiskInfo {
    pub format: String,
    pub virtual_size: String,
    pub disk_size: String,
    pub cluster_size: Option<String>,
    pub backing_file: Option<String>,
}

/// The line, trimmed at both ends.
pub open spec fn spec_trimmed(l: Seq<char>) -> Seq<char> {
    let t0 = spec_skip_spaces(l, 0);
    let t1 = spec_rtrim(l);
    if t0 <= t1 {
        l.subrange(t0, t1)
    } else {
        Seq::empty()
    }
}

/// A table header or separator line of the snapshot listing.
pub open spec fn spec_snap_header(t: Seq<char>) -> bool {
    match_at(t, "Snapshot"@, 0) || match_at(t, "ID"@, 0) || match_at(t, "--"@, 0)
}

/// One snapshot row: identifier, tag, size, two-word date, and the final
/// machine-clock column.
pub open spec fn spec_snap_row(t: Seq<char>) -> (Seq<char>, Seq<char>, Seq<char>, Seq<char>, Seq<
    char,
>) {
    let ps = spec_words(t);
    (ps[0], ps[1], ps[2], ps[3] + seq![' '] + ps[4], ps.last())
}

/// The table state and rows accumulated after one line: header lines turn
/// the table on; afterwards every non-blank line with at least five columns
/// is one snapshot row.
pub open spec fn spec_snap_step(
    st: (bool, Seq<(Seq<char>, Seq<char>, Seq<char>, Seq<char>, Seq<char>)>),
    l: Seq<char>,
) -> (bool, Seq<(Seq<char>, Seq<char>, Seq<char>, Seq<char>, Seq<char>)>) {
    let t = spec_trimmed(l);
    if spec_snap_header(t) {
        (true, st.1)
    } else if !st.0 || t.len() == 0 {
        st
    } else if spec_words(t).len() >= 5 {
        (st.0, st.1.push(spec_snap_row(t)))
    } else {
        st
    }
}

pub open spec fn spec_snap_lines(ls: Seq<Seq<char>>) -> (
    bool,
    Seq<(Seq<char>, Seq<char>, Seq<char>, Seq<char>, Seq<char>)>,
)
    decreases ls.len(),
{
    if ls.len() == 0 {
        (false, Seq::empty())
    } else {
        spec_snap_step(spec_snap_lines(ls.drop_last()), ls.last())
    }
}

/// The snapshot rows of the whole report.
pub open spec fn spec_parse_snapshot_list(s: Seq<char>) -> Seq<
    (Seq<char>, Seq<char>, Seq<char>, Seq<char>, Seq<char>),
> {
    spec_snap_lines(spec_split_lines(s)).1
}

/// The parsed snapshot carries exactly the described columns.
pub open spec fn spec_snapshot_matches(
    v: Snapshot,
    t: (Seq<char>, Seq<char>, Seq<char>, Seq<char>, Seq<char>),
) -> bool {
    &&& v.id@ == t.0
    &&& v.name@ == t.1
    &&& v.size@ == t.2
    &&& v.date@ == t.3
    &&& v.vm_clock@ == t.4
}

/// Parse the snapshot table the disk utility prints. Never fails: lines
/// outside the table are ignored.
pub fn parse_snapshot_list(output: &str) -> (r: Result<Vec<Snapshot>, String>)
    ensures
        r matches Ok(v) && v@.len() == spec_parse_snapshot_list(output@).len(),
        r matches Ok(v) ==> forall|i: int|
            0 <= i < v@.len() ==> spec_snapshot_matches(
                v@[i],
                spec_parse_snapshot_list(output@)[i],
            ),
{
    let ghost ls = spec_split_lines(output@);
    let lines = split_lines(output);
    let mut in_table: bool = false;
    let mut snaps: Vec<Snapshot> = Vec::new();
    let mut k: usize = 0;
    proof {
        assert(ls.take(0) =~= Seq::<Seq<char>>::empty());
    }
    while k < lines.len()
        invariant
            0 <= k <= lines.len(),
            lines@.len() == ls.len(),
            ls == spec_split_lines(output@),
            forall|j: int|
                0 <= j < lines@.len() ==> {
                    &&& 0 <= #[trigger] lines@[j].0 <= lines@[j].1 <= output@.len()
                    &&& output@.subrange(lines@[j].0 as int, lines@[j].1 as int) == ls[j]
                },
            in_table == spec_snap_lines(ls.take(k as int)).0,
            snaps@.len() == spec_snap_lines(ls.take(k as int)).1.len(),
            forall|i: int|
                0 <= i < snaps@.len() ==> spec_snapshot_matches(
                    snaps@[i],
                    spec_snap_lines(ls.take(k as int)).1[i],
                ),
        decreases lines.len() - k,
    {
        let (a, b) = lines[k];
        let raw = output.substring_char(a, b);
        let t0 = skip_spaces(raw, 0);
        let t1 = rtrim_end(raw);
        proof {
            assert(ls.take(k as int + 1).last() == ls[k as int]);
            assert(ls.take(k as int + 1).drop_last() =~= ls.take(k as int));
        }
        let line = if t0 <= t1 {
            raw.substring_char(t0, t1)
        } else {
            raw.substring_char(0, 0)
        };
        proof {
            assert(line@ =~= spec_trimmed(raw@));
        }
        if starts_with_str(line, "Snapshot") || starts_with_str(line, "ID") || starts_with_str(
            line,
            "--",
        ) {
            in_table = true;
        } else if !in_table || line.unicode_len() == 0 {
        } else {
            let parts = split_words(line);
            if parts.len() >= 5 {
                let id = parts[0].clone();
                let name = parts[1].clone();
                let size = parts[2].clone();
                let mut date = parts[3].clone();
                date.append(" ");
                date.append(parts[4].as_str());
                let vm_clock = parts[parts.len() - 1].clone();
                proof {
                    reveal_strlit(" ");
                    assert(parts@[3]@ + " "@ + parts@[4]@ =~= parts@[3]@ + seq![' ']
                        + parts@[4]@);
                    assert(parts@[parts@.len() - 1]@ == spec_words(line@).last());
                }
                snaps.push(Snapshot { id, name, size, date, vm_clock });
            }
        }
        k += 1;
    }
    proof {
        assert(ls.take(ls.len() as int) =~= ls);
    }
    Ok(snaps)
}

/// The disk-information fields accumulated after one line: each recognized
/// prefix names a field, whose value is the trimmed remainder.
pub open spec fn spec_info_step(
    st: (Seq<char>, Seq<char>, Seq<char>, Option<Seq<char>>, Option<Seq<char>>),
    l: Seq<char>,
) -> (Seq<char>, Seq<char>, Seq<char>, Option<Seq<char>>, Option<Seq<char>>) {
    if match_at(l, "file format:"@, 0) {
        (spec_trimmed(l.skip(12)), st.1, st.2, st.3, st.4)
    } else if match_at(l, "virtual size:"@, 0) {
        (st.0, spec_trimmed(l.skip(13)), st.2, st.3, st.4)
    } else if match_at(l, "disk size:"@, 0) {
        (st.0, st.1, spec_trimmed(l.skip(10)), st.3, st.4)
    } else if match_at(l, "cluster_size:"@, 0) {
        (st.0, st.1, st.2, Some(spec_trimmed(l.skip(13))), st.4)
    } else if match_at(l, "backing file:"@, 0) {
        (st.0, st.1, st.2, st.3, Some(spec_trimmed(l.skip(13))))
    } else {
        st
    }
}

pub open spec fn spec_info_lines(ls: Seq<Seq<char>>) -> (
    Seq<char>,
    Seq<char>,
    Seq<char>,
    Option<Seq<char>>,
    Option<Seq<char>>,
)
    decreases ls.len(),
{
    if ls.len() == 0 {
        (Seq::empty(), Seq::empty(), Seq::empty(), None, None)
    } else {
        spec_info_step(spec_info_lines(ls.drop_last()), ls.last())
    }
}

pub open spec fn spec_parse_disk_info(s: Seq<char>) -> (
    Seq<char>,
    Seq<char>,
    Seq<char>,
    Option<Seq<char>>,
    Option<Seq<char>>,
) {
    spec_info_lines(spec_split_lines(s))
}

/// View of an optional owned string.
pub open spec fn opt_view(o: Option<String>) -> Option<Seq<char>> {
    match o {
        Some(s) => Some(s@),
        None => None,
    }
}

/// The parsed disk information carries exactly the described fields.
pub open spec fn spec_disk_info_matches(
    v: DiskInfo,
    t: (Seq<char>, Seq<char>, Seq<char>, Option<Seq<char>>, Option<Seq<char>>),
) -> bool {
    &&& v.format@ == t.0
    &&& v.virtual_size@ == t.1
    &&& v.disk_size@ == t.2
    &&& opt_view(v.cluster_size) == t.3
    &&& opt_view(v.backing_file) == t.4
}

/// Parse the disk-information report the utility prints. Never fails:
/// unrecognized lines are ignored, missing fields stay empty.
pub fn parse_disk_info(output: &str) -> (r: Result<DiskInfo, String>)
    ensures
        r matches Ok(v) ==> spec_disk_info_matches(v, spec_parse_disk_info(output@)),
        r is Ok,
{
    let ghost ls = spec_split_lines(output@);
    let lines = split_lines(output);
    let mut format = String::new();
    let mut virtual_size = String::new();
    let mut disk_size = String::new();
    let mut cluster_size: Option<String> = None;
    let mut backing_file: Option<String> = None;
    let mut k: usize = 0;
    proof {
        assert(ls.take(0) =~= Seq::<Seq<char>>::empty());
    }
    while k < lines.len()
        invariant
            0 <= k <= lines.len(),
            lines@.len() == ls.len(),
            ls == spec_split_lines(output@),
            forall|j: int|
                0 <= j < lines@.len() ==> {
                    &&& 0 <= #[trigger] lines@[j].0 <= lines@[j].1 <= output@.len()
                    &&& output@.subrange(lines@[j].0 as int, lines@[j].1 as int) == ls[j]
                },
            format@ == spec_info_lines(ls.take(k as int)).0,
            virtual_size@ == spec_info_lines(ls.take(k as int)).1,
            disk_size@ == spec_info_lines(ls.take(k as int)).2,
            opt_view(cluster_size) == spec_info_lines(ls.take(k as int)).3,
            opt_view(backing_file) == spec_info_lines(ls.take(k as int)).4,
        decreases lines.len() - k,
    {
        let (a, b) = lines[k];
        let line = output.substring_char(a, b);
        let n = line.unicode_len();
        proof {
            assert(ls.take(k as int + 1).last() == ls[k as int]);
            assert(ls.take(k as int + 1).drop_last() =~= ls.take(k as int));
            reveal_strlit("file format:");
            reveal_strlit("virtual size:");
            reveal_strlit("disk size:");
            reveal_strlit("cluster_size:");
            reveal_strlit("backing file:");
        }
        if starts_with_str(line, "file format:") {
            format = trim_owned(line, 12, n);
        } else if starts_with_str(line, "virtual size:") {
            virtual_size = trim_owned(line, 13, n);
        } else if starts_with_str(line, "disk size:") {
            disk_size = trim_owned(line, 10, n);
        } else if starts_with_str(line, "cluster_size:") {
            cluster_size = Some(trim_owned(line, 13, n));
        } else if starts_with_str(line, "backing file:") {
            backing_file = Some(trim_owned(line, 13, n));
        }
        k += 1;
    }
    proof {
        assert(ls.take(ls.len() as int) =~= ls);
    }
    Ok(DiskInfo { format, virtual_size, disk_size, cluster_size, backing_file })
}

/// The trimmed tail of `line` after a recognized prefix of `from` characters.
fn trim_owned(line: &str, from: usize, n: usize) -> (r: String)
    requires
        from <= line@.len(),
        n == line@.len(),
    ensures
        r@ == spec_trimmed(line@.skip(from as int)),
{
    let rest = line.substring_char(from, n);
    proof {
        assert(rest@ =~= line@.skip(from as int));
    }
    let t0 = skip_spaces(rest, 0);
    let t1 = rtrim_end(rest);
    if t0 <= t1 {
        let t = rest.substring_char(t0, t1);
        proof {
            assert(t@ =~= spec_trimmed(rest@));
        }
        String::from_str(t)
    } else {
        proof {
            assert(spec_trimmed(rest@) =~= Seq::<char>::empty());
        }
        String::new()
    }
}

} // verus!
