//! The synthesizer: applies one targeted field change back into a launch
//! script, leaving every unrelated line byte-identical. Fields are located
//! by exactly the token rules of the extractor, stated in `launch_parser`,
//! so the two sides share one canonical vocabulary. When the targeted flag
//! does not exist, a new clause is inserted immediately before the line
//! that invokes the emulator, so that it is honored at launch; when neither
//! anchor exists the change fails explicitly and nothing is produced.

use vstd::prelude::*;

use crate::launch_parser::opt_string_view;
use crate::launch_parser::spec_line_vga;
use crate::qemu_config::PortForward;
use crate::qemu_config::PortProtocol;
use crate::qemu_config::VgaType;
use crate::qemu_config::protocol_token;
use crate::qemu_config::vga_token;
use crate::text::contains_sub;
use crate::text::digits_end;
use crate::text::find_from;
use crate::text::is_comment_line;
use crate::text::lemma_join_concat;
use crate::text::lemma_spec_find_first;
use crate::text::lemma_spec_first_hit;
use crate::text::lemma_spec_last_hit;
use crate::text::push_char;
use crate::text::spec_contains;
use crate::text::spec_digits_end;
use crate::text::spec_drop_hits;
use crate::text::spec_find;
use crate::text::lemma_spec_rfind;
use crate::text::lemma_spec_rfind_is;
use crate::text::rfind_sub;
use crate::text::spec_find_char;
use crate::text::spec_rfind;
use crate::text::spec_first_hit;
use crate::text::spec_is_comment_line;
use crate::text::spec_join_lines;
use crate::text::spec_last_hit;
use crate::text::spec_split_lines;
use crate::text::spec_token_end;
use crate::text::split_lines;
use crate::text::token_end;

verus! {

broadcast use vstd::string::group_string_axioms;

/// Why a rewrite could not be applied.
#[derive(Debug, Clone, Copy, PartialEq, Eq, Structural)]
pub enum RewriteError {
    /// Neither the targeted flag nor the emulator invocation line could be
    /// located: the change has no anchor, and the input is left as it was.
    RewriteTargetNotFound,
}

/// The network backend a rewrite selects.
#[derive(Debug, Clone, Copy, PartialEq, Eq, Structural)]
pub enum NetBackend {
    /// User-mode (SLIRP) networking with address translation.
    UserNat,
    /// A host bridge, named or defaulted.
    Bridge,
    /// The passthrough transport.
    Passt,
    /// No networking: the clause is removed.
    Disabled,
}

/// Decimal digit character of `d`.
pub open spec fn digit_char(d: int) -> char {
    ((48 + d) as u8) as char
}

/// Decimal representation of a non-negative number, most significant first.
pub open spec fn spec_dec(n: int) -> Seq<char>
    decreases n,
{
    if n < 0 {
        Seq::empty()
    } else if n < 10 {
        seq![digit_char(n)]
    } else {
        spec_dec(n / 10).push(digit_char(n % 10))
    }
}

/// Decimal representation of `n`.
pub fn dec_u32(n: u32) -> (r: String)
    ensures
        r@ == spec_dec(n as int),
    decreases n,
{
    if n < 10 {
        let mut s = String::new();
        push_char(&mut s, ((48 + n % 10) as u8) as char);
        proof {
            assert(Seq::<char>::empty().push(digit_char(n as int)) =~= seq![
                digit_char(n as int),
            ]);
        }
        s
    } else {
        let mut s = dec_u32(n / 10);
        push_char(&mut s, ((48 + n % 10) as u8) as char);
        s
    }
}

/// A line the extractor reads the memory flag from.
pub open spec fn spec_mem_hit() -> spec_fn(Seq<char>) -> bool {
    |l: Seq<char>| !spec_is_comment_line(l) && spec_find(l, "-m "@, 0) is Some
}

/// A line the extractor reads the core-count flag from.
pub open spec fn spec_smp_hit() -> spec_fn(Seq<char>) -> bool {
    |l: Seq<char>| !spec_is_comment_line(l) && spec_find(l, "-smp "@, 0) is Some
}

/// A line the extractor reads the graphics flag from.
pub open spec fn spec_vga_hit() -> spec_fn(Seq<char>) -> bool {
    |l: Seq<char>| !spec_is_comment_line(l) && spec_rfind(l, "-vga "@) is Some
}

/// The line that invokes the emulator: the insertion anchor.
pub open spec fn spec_emulator_hit() -> spec_fn(Seq<char>) -> bool {
    |l: Seq<char>|
        !spec_is_comment_line(l) && (spec_contains(l, "qemu-system-x86_64"@) || spec_contains(
            l,
            "qemu-system-i386"@,
        ) || spec_contains(l, "qemu-system-ppc"@) || spec_contains(l, "qemu-system-m68k"@)
            || spec_contains(l, "qemu-system-arm"@) || spec_contains(l, "qemu-system-aarch64"@))
}

/// A line that contributes to the network configuration.
pub open spec fn spec_net_hit() -> spec_fn(Seq<char>) -> bool {
    |l: Seq<char>|
        !spec_is_comment_line(l) && (spec_contains(l, "-net"@) || spec_contains(l, "-nic"@))
}

/// Whether this line is the emulator invocation line.
fn is_emulator_line(l: &str) -> (r: bool)
    ensures
        r == spec_emulator_hit()(l@),
{
    !is_comment_line(l) && (contains_sub(l, "qemu-system-x86_64") || contains_sub(
        l,
        "qemu-system-i386",
    ) || contains_sub(l, "qemu-system-ppc") || contains_sub(l, "qemu-system-m68k") || contains_sub(
        l,
        "qemu-system-arm",
    ) || contains_sub(l, "qemu-system-aarch64"))
}

/// Whether this line contributes to the network configuration.
fn is_net_line(l: &str) -> (r: bool)
    ensures
        r == spec_net_hit()(l@),
{
    !is_comment_line(l) && (contains_sub(l, "-net") || contains_sub(l, "-nic"))
}

/// The well-formedness every splicing caller establishes: the ranges in
/// `lines` are exactly the lines of `content`.
pub open spec fn lines_wf(content: Seq<char>, lines: Seq<(usize, usize)>) -> bool {
    &&& lines.len() == spec_split_lines(content).len()
    &&& forall|j: int|
        0 <= j < lines.len() ==> {
            &&& 0 <= #[trigger] lines[j].0 <= lines[j].1 <= content.len()
            &&& content.subrange(lines[j].0 as int, lines[j].1 as int) == spec_split_lines(
                content,
            )[j]
        }
}

/// The text whose lines are those of `content` with line `k` replaced.
fn splice_replace(content: &str, lines: &Vec<(usize, usize)>, k: usize, repl: &str) -> (out: String)
    requires
        lines_wf(content@, lines@),
        k < lines@.len(),
    ensures
        out@ == spec_join_lines(spec_split_lines(content@).update(k as int, repl@)),
{
    let ghost ls = spec_split_lines(content@);
    let ghost nls = ls.update(k as int, repl@);
    let m = lines.len();
    let mut out = String::new();
    let mut t: usize = 0;
    proof {
        reveal_strlit("\n");
    }
    while t < m
        invariant
            0 <= t <= m,
            m == ls.len(),
            ls == spec_split_lines(content@),
            nls == ls.update(k as int, repl@),
            k < m,
            lines_wf(content@, lines@),
            lines@.len() == m,
            t == 0 ==> out@ == Seq::<char>::empty(),
            t >= 1 ==> out@ == spec_join_lines(nls.take(t as int)),
            "\n"@ == seq!['\n'],
        decreases m - t,
    {
        if t > 0 {
            out.append("\n");
        }
        let ghost before = out@;
        if t == k {
            out.append(repl);
        } else {
            let (a, b) = lines[t];
            out.append(content.substring_char(a, b));
        }
        proof {
            assert(nls[t as int] == if t == k {
                repl@
            } else {
                ls[t as int]
            });
            if t == 0 {
                assert(nls.take(1) =~= seq![nls[0]]);
                assert(spec_join_lines(seq![nls[0]]) == nls[0]);
            } else {
                assert(nls.take(t as int + 1) =~= nls.take(t as int) + seq![nls[t as int]]);
                lemma_join_concat(nls.take(t as int), seq![nls[t as int]]);
                assert(spec_join_lines(seq![nls[t as int]]) == nls[t as int]);
            }
        }
        t += 1;
    }
    proof {
        assert(nls.take(m as int) =~= nls);
    }
    out
}

/// The text whose lines are those of `content` with `repl` inserted as a
/// new line in position `k`.
fn splice_insert(content: &str, lines: &Vec<(usize, usize)>, k: usize, repl: &str) -> (out: String)
    requires
        lines_wf(content@, lines@),
        lines@.len() >= 1,
        k <= lines@.len(),
    ensures
        out@ == spec_join_lines(
            spec_split_lines(content@).take(k as int) + seq![repl@] + spec_split_lines(
                content@,
            ).skip(k as int),
        ),
{
    let ghost ls = spec_split_lines(content@);
    let ghost nls = ls.take(k as int) + seq![repl@] + ls.skip(k as int);
    let m = lines.len();
    let mut out = String::new();
    let mut t: usize = 0;
    proof {
        reveal_strlit("\n");
        assert(nls.len() == m + 1);
    }
    while t < m
        invariant
            0 <= t <= m,
            m == ls.len(),
            m >= 1,
            ls == spec_split_lines(content@),
            nls == ls.take(k as int) + seq![repl@] + ls.skip(k as int),
            nls.len() == m + 1,
            k <= m,
            lines_wf(content@, lines@),
            lines@.len() == m,
            t <= k && t == 0 ==> out@ == Seq::<char>::empty(),
            t <= k && t >= 1 ==> out@ == spec_join_lines(nls.take(t as int)),
            t > k ==> out@ == spec_join_lines(nls.take(t as int + 1)),
            "\n"@ == seq!['\n'],
        decreases m - t,
    {
        if t > 0 {
            out.append("\n");
        }
        if t == k {
            out.append(repl);
            out.append("\n");
        }
        let (a, b) = lines[t];
        out.append(content.substring_char(a, b));
        proof {
            if t < k {
                assert(nls[t as int] == ls[t as int]);
                if t == 0 {
                    assert(nls.take(1) =~= seq![nls[0]]);
                    assert(spec_join_lines(seq![nls[0]]) == nls[0]);
                } else {
                    assert(nls.take(t as int + 1) =~= nls.take(t as int) + seq![nls[t as int]]);
                    lemma_join_concat(nls.take(t as int), seq![nls[t as int]]);
                    assert(spec_join_lines(seq![nls[t as int]]) == nls[t as int]);
                }
            } else if t == k {
                assert(nls[k as int] == repl@);
                assert(nls[k as int + 1] == ls.skip(k as int)[0]);
                assert(ls.skip(k as int)[0] == ls[k as int]);
                assert(spec_join_lines(seq![nls[k as int], nls[k as int + 1]]) == nls[k as int]
                    + seq!['\n'] + nls[k as int + 1]) by {
                    let two = seq![nls[k as int], nls[k as int + 1]];
                    assert(two.drop_first() =~= seq![nls[k as int + 1]]);
                    assert(spec_join_lines(seq![nls[k as int + 1]]) == nls[k as int + 1]);
                }
                if t == 0 {
                    assert(nls.take(2) =~= seq![nls[0], nls[1]]);
                } else {
                    assert(nls.take(t as int + 2) =~= nls.take(t as int) + seq![
                        nls[t as int],
                        nls[t as int + 1],
                    ]);
                    lemma_join_concat(
                        nls.take(t as int),
                        seq![nls[t as int], nls[t as int + 1]],
                    );
                }
            } else {
                assert(nls[t as int + 1] == ls.skip(k as int)[t - k]);
                assert(ls.skip(k as int)[t - k] == ls[t as int]);
                assert(nls.take(t as int + 2) =~= nls.take(t as int + 1) + seq![
                    nls[t as int + 1],
                ]);
                lemma_join_concat(nls.take(t as int + 1), seq![nls[t as int + 1]]);
                assert(spec_join_lines(seq![nls[t as int + 1]]) == nls[t as int + 1]);
            }
        }
        t += 1;
    }
    if k == m {
        out.append("\n");
        out.append(repl);
        proof {
            assert(nls[m as int] == repl@);
            assert(nls.take(m as int + 1) =~= nls.take(m as int) + seq![nls[m as int]]);
            lemma_join_concat(nls.take(m as int), seq![nls[m as int]]);
            assert(spec_join_lines(seq![nls[m as int]]) == nls[m as int]);
        }
    }
    proof {
        assert(nls.take(m as int + 1) =~= nls);
    }
    out
}

/// Index of the first line that satisfies the memory-flag rule.
fn find_mem_line(content: &str, lines: &Vec<(usize, usize)>) -> (r: Option<usize>)
    requires
        lines_wf(content@, lines@),
    ensures
        match r {
            Some(k) => k < lines@.len() && spec_first_hit(
                spec_split_lines(content@),
                0,
                spec_mem_hit(),
            ) == Some(k as int),
            None => spec_first_hit(spec_split_lines(content@), 0, spec_mem_hit()) is None,
        },
{
    let ghost ls = spec_split_lines(content@);
    let mut t: usize = 0;
    while t < lines.len()
        invariant
            0 <= t <= lines@.len(),
            lines_wf(content@, lines@),
            ls == spec_split_lines(content@),
            lines@.len() == ls.len(),
            spec_first_hit(ls, 0, spec_mem_hit()) == spec_first_hit(ls, t as int, spec_mem_hit()),
        decreases lines@.len() - t,
    {
        let (a, b) = lines[t];
        let line = content.substring_char(a, b);
        let hit = !is_comment_line(line) && find_from(line, 0, "-m ").is_some();
        proof {
            assert(spec_mem_hit()(ls[t as int]) == (!spec_is_comment_line(ls[t as int])
                && spec_find(ls[t as int], "-m "@, 0) is Some));
        }
        if hit {
            return Some(t);
        }
        t += 1;
    }
    None
}

/// Index of the first line that satisfies the core-count rule.
fn find_smp_line(content: &str, lines: &Vec<(usize, usize)>) -> (r: Option<usize>)
    requires
        lines_wf(content@, lines@),
    ensures
        match r {
            Some(k) => k < lines@.len() && spec_first_hit(
                spec_split_lines(content@),
                0,
                spec_smp_hit(),
            ) == Some(k as int),
            None => spec_first_hit(spec_split_lines(content@), 0, spec_smp_hit()) is None,
        },
{
    let ghost ls = spec_split_lines(content@);
    let mut t: usize = 0;
    while t < lines.len()
        invariant
            0 <= t <= lines@.len(),
            lines_wf(content@, lines@),
            ls == spec_split_lines(content@),
            lines@.len() == ls.len(),
            spec_first_hit(ls, 0, spec_smp_hit()) == spec_first_hit(ls, t as int, spec_smp_hit()),
        decreases lines@.len() - t,
    {
        let (a, b) = lines[t];
        let line = content.substring_char(a, b);
        let hit = !is_comment_line(line) && find_from(line, 0, "-smp ").is_some();
        proof {
            assert(spec_smp_hit()(ls[t as int]) == (!spec_is_comment_line(ls[t as int])
                && spec_find(ls[t as int], "-smp "@, 0) is Some));
        }
        if hit {
            return Some(t);
        }
        t += 1;
    }
    None
}

/// Index of the last line that satisfies the graphics rule: later flags
/// override earlier ones, so the last one is the effective setting.
fn find_vga_line(content: &str, lines: &Vec<(usize, usize)>) -> (r: Option<usize>)
    requires
        lines_wf(content@, lines@),
    ensures
        match r {
            Some(k) => k < lines@.len() && spec_last_hit(
                spec_split_lines(content@),
                spec_vga_hit(),
            ) == Some(k as int),
            None => spec_last_hit(spec_split_lines(content@), spec_vga_hit()) is None,
        },
{
    let ghost ls = spec_split_lines(content@);
    let mut r: Option<usize> = None;
    let mut t: usize = 0;
    proof {
        assert(ls.take(0) =~= Seq::<Seq<char>>::empty());
    }
    while t < lines.len()
        invariant
            0 <= t <= lines@.len(),
            lines_wf(content@, lines@),
            ls == spec_split_lines(content@),
            lines@.len() == ls.len(),
            match r {
                Some(k) => k < t && spec_last_hit(ls.take(t as int), spec_vga_hit()) == Some(
                    k as int,
                ),
                None => spec_last_hit(ls.take(t as int), spec_vga_hit()) is None,
            },
        decreases lines@.len() - t,
    {
        let (a, b) = lines[t];
        let line = content.substring_char(a, b);
        let hit = !is_comment_line(line) && rfind_sub(line, "-vga ").is_some();
        proof {
            assert(spec_vga_hit()(ls[t as int]) == (!spec_is_comment_line(ls[t as int])
                && spec_rfind(ls[t as int], "-vga "@) is Some));
            assert(ls.take(t as int + 1).last() == ls[t as int]);
            assert(ls.take(t as int + 1).drop_last() =~= ls.take(t as int));
        }
        if hit {
            r = Some(t);
        }
        t += 1;
    }
    proof {
        assert(ls.take(ls.len() as int) =~= ls);
    }
    r
}

/// Index of the emulator invocation line, the insertion anchor.
fn find_emulator_line(content: &str, lines: &Vec<(usize, usize)>) -> (r: Option<usize>)
    requires
        lines_wf(content@, lines@),
    ensures
        match r {
            Some(k) => k < lines@.len() && spec_first_hit(
                spec_split_lines(content@),
                0,
                spec_emulator_hit(),
            ) == Some(k as int),
            None => spec_first_hit(spec_split_lines(content@), 0, spec_emulator_hit()) is None,
        },
{
    let ghost ls = spec_split_lines(content@);
    let mut t: usize = 0;
    while t < lines.len()
        invariant
            0 <= t <= lines@.len(),
            lines_wf(content@, lines@),
            ls == spec_split_lines(content@),
            lines@.len() == ls.len(),
            spec_first_hit(ls, 0, spec_emulator_hit()) == spec_first_hit(
                ls,
                t as int,
                spec_emulator_hit(),
            ),
        decreases lines@.len() - t,
    {
        let (a, b) = lines[t];
        let line = content.substring_char(a, b);
        let hit = is_emulator_line(line);
        if hit {
            return Some(t);
        }
        t += 1;
    }
    None
}

/// A memory line with its digit span replaced by the new value.
pub open spec fn spec_set_memory_line(l: Seq<char>, v: u32) -> Seq<char> {
    match spec_find(l, "-m "@, 0) {
        None => l,
        Some(i) => l.take(i + 3) + spec_dec(v as int) + l.skip(spec_digits_end(l, i + 3)),
    }
}

/// A core-count line with its digit span replaced by the new value.
pub open spec fn spec_set_smp_line(l: Seq<char>, v: u32) -> Seq<char> {
    match spec_find(l, "-smp "@, 0) {
        None => l,
        Some(i) => l.take(i + 5) + spec_dec(v as int) + l.skip(spec_digits_end(l, i + 5)),
    }
}

/// A graphics line with the token span of its last graphics flag replaced
/// by the new canonical token: the span the extractor reads.
pub open spec fn spec_set_vga_line(l: Seq<char>, v: VgaType) -> Seq<char> {
    match spec_rfind(l, "-vga "@) {
        None => l,
        Some(i) => l.take(i + 5) + vga_token(v) + l.skip(spec_token_end(l, i + 5)),
    }
}

/// The clause inserted for a memory change.
pub open spec fn spec_mem_clause(v: u32) -> Seq<char> {
    "    -m "@ + spec_dec(v as int) + " \\"@
}

/// The clause inserted for a core-count change.
pub open spec fn spec_smp_clause(v: u32) -> Seq<char> {
    "    -smp "@ + spec_dec(v as int) + " \\"@
}

/// The clause inserted for a graphics change.
pub open spec fn spec_vga_clause(v: VgaType) -> Seq<char> {
    "    -vga "@ + vga_token(v) + " \\"@
}

/// The rewritten script a memory change produces, if it has an anchor:
/// either the digit span of the first memory line is replaced, or a new
/// clause is inserted immediately before the emulator invocation line.
pub open spec fn spec_rewrite_memory(s: Seq<char>, v: u32) -> Option<Seq<char>> {
    let ls = spec_split_lines(s);
    match spec_first_hit(ls, 0, spec_mem_hit()) {
        Some(k) => Some(spec_join_lines(ls.update(k, spec_set_memory_line(ls[k], v)))),
        None => match spec_first_hit(ls, 0, spec_emulator_hit()) {
            Some(e) => Some(spec_join_lines(ls.take(e) + seq![spec_mem_clause(v)] + ls.skip(e))),
            None => None,
        },
    }
}

/// Apply a memory-size change (in megabytes) to the script. Only the span
/// carrying the old value changes; when the flag is absent a new clause is
/// inserted immediately before the emulator invocation line; when neither
/// anchor exists the change fails and no text is produced.
pub fn rewrite_memory(script: &str, memory_mb: u32) -> (r: Result<String, RewriteError>)
    ensures
        match r {
            Ok(out) => spec_rewrite_memory(script@, memory_mb) == Some(out@),
            Err(e) => spec_rewrite_memory(script@, memory_mb) is None && e
                == RewriteError::RewriteTargetNotFound,
        },
{
    let lines = split_lines(script);
    match find_mem_line(script, &lines) {
        Some(k) => {
            let (a, b) = lines[k];
            let line = script.substring_char(a, b);
            proof {
                lemma_spec_first_hit(spec_split_lines(script@), 0, spec_mem_hit());
            }
            if let Some(i) = find_from(line, 0, "-m ") {
                proof {
                    reveal_strlit("-m ");
                    lemma_spec_find_first(line@, "-m "@, 0);
                }
                let n = line.unicode_len();
                let end = digits_end(line, i + 3);
                let mut nl = String::from_str(line.substring_char(0, i + 3));
                let dec = dec_u32(memory_mb);
                nl.append(dec.as_str());
                nl.append(line.substring_char(end, n));
                proof {
                    assert(nl@ =~= spec_set_memory_line(line@, memory_mb));
                }
                Ok(splice_replace(script, &lines, k, nl.as_str()))
            } else {
                proof {
                    assert(false);
                }
                Err(RewriteError::RewriteTargetNotFound)
            }
        },
        None => {
            match find_emulator_line(script, &lines) {
                Some(e) => {
                    let mut clause = String::from_str("    -m ");
                    let dec = dec_u32(memory_mb);
                    clause.append(dec.as_str());
                    clause.append(" \\");
                    Ok(splice_insert(script, &lines, e, clause.as_str()))
                },
                None => Err(RewriteError::RewriteTargetNotFound),
            }
        },
    }
}

/// The rewritten script a core-count change produces, if it has an anchor.
pub open spec fn spec_rewrite_cpu_cores(s: Seq<char>, v: u32) -> Option<Seq<char>> {
    let ls = spec_split_lines(s);
    match spec_first_hit(ls, 0, spec_smp_hit()) {
        Some(k) => Some(spec_join_lines(ls.update(k, spec_set_smp_line(ls[k], v)))),
        None => match spec_first_hit(ls, 0, spec_emulator_hit()) {
            Some(e) => Some(spec_join_lines(ls.take(e) + seq![spec_smp_clause(v)] + ls.skip(e))),
            None => None,
        },
    }
}

/// Apply a CPU core-count change to the script; spans, insertion and
/// failure behave as for the memory change.
pub fn rewrite_cpu_cores(script: &str, cores: u32) -> (r: Result<String, RewriteError>)
    ensures
        match r {
            Ok(out) => spec_rewrite_cpu_cores(script@, cores) == Some(out@),
            Err(e) => spec_rewrite_cpu_cores(script@, cores) is None && e
                == RewriteError::RewriteTargetNotFound,
        },
{
    let lines = split_lines(script);
    match find_smp_line(script, &lines) {
        Some(k) => {
            let (a, b) = lines[k];
            let line = script.substring_char(a, b);
            proof {
                lemma_spec_first_hit(spec_split_lines(script@), 0, spec_smp_hit());
            }
            if let Some(i) = find_from(line, 0, "-smp ") {
                proof {
                    reveal_strlit("-smp ");
                    lemma_spec_find_first(line@, "-smp "@, 0);
                }
                let n = line.unicode_len();
                let end = digits_end(line, i + 5);
                let mut nl = String::from_str(line.substring_char(0, i + 5));
                let dec = dec_u32(cores);
                nl.append(dec.as_str());
                nl.append(line.substring_char(end, n));
                proof {
                    assert(nl@ =~= spec_set_smp_line(line@, cores));
                }
                Ok(splice_replace(script, &lines, k, nl.as_str()))
            } else {
                proof {
                    assert(false);
                }
                Err(RewriteError::RewriteTargetNotFound)
            }
        },
        None => {
            match find_emulator_line(script, &lines) {
                Some(e) => {
                    let mut clause = String::from_str("    -smp ");
                    let dec = dec_u32(cores);
                    clause.append(dec.as_str());
                    clause.append(" \\");
                    Ok(splice_insert(script, &lines, e, clause.as_str()))
                },
                None => Err(RewriteError::RewriteTargetNotFound),
            }
        },
    }
}

/// The rewritten script a graphics change produces, if it has an anchor:
/// the token span of the last graphics line is replaced, since that line
/// carries the effective setting.
pub open spec fn spec_rewrite_vga(s: Seq<char>, v: VgaType) -> Option<Seq<char>> {
    let ls = spec_split_lines(s);
    match spec_last_hit(ls, spec_vga_hit()) {
        Some(k) => Some(spec_join_lines(ls.update(k, spec_set_vga_line(ls[k], v)))),
        None => match spec_first_hit(ls, 0, spec_emulator_hit()) {
            Some(e) => Some(spec_join_lines(ls.take(e) + seq![spec_vga_clause(v)] + ls.skip(e))),
            None => None,
        },
    }
}

/// Apply a graphics-adapter change to the script, writing the canonical
/// token of the chosen variant; only variants of the canonical table can be
/// written.
pub fn rewrite_vga(script: &str, vga: VgaType) -> (r: Result<String, RewriteError>)
    requires
        vga != VgaType::Unknown,
    ensures
        match r {
            Ok(out) => spec_rewrite_vga(script@, vga) == Some(out@),
            Err(e) => spec_rewrite_vga(script@, vga) is None && e
                == RewriteError::RewriteTargetNotFound,
        },
{
    let lines = split_lines(script);
    match find_vga_line(script, &lines) {
        Some(k) => {
            let (a, b) = lines[k];
            let line = script.substring_char(a, b);
            proof {
                lemma_spec_last_hit(spec_split_lines(script@), spec_vga_hit());
            }
            if let Some(i) = rfind_sub(line, "-vga ") {
                proof {
                    reveal_strlit("-vga ");
                    lemma_spec_rfind(line@, "-vga "@);
                }
                let n = line.unicode_len();
                let end = token_end(line, i + 5);
                let mut nl = String::from_str(line.substring_char(0, i + 5));
                nl.append(vga.as_str());
                nl.append(line.substring_char(end, n));
                proof {
                    assert(nl@ =~= spec_set_vga_line(line@, vga));
                }
                Ok(splice_replace(script, &lines, k, nl.as_str()))
            } else {
                proof {
                    assert(false);
                }
                Err(RewriteError::RewriteTargetNotFound)
            }
        },
        None => {
            match find_emulator_line(script, &lines) {
                Some(e) => {
                    let mut clause = String::from_str("    -vga ");
                    clause.append(vga.as_str());
                    clause.append(" \\");
                    Ok(splice_insert(script, &lines, e, clause.as_str()))
                },
                None => Err(RewriteError::RewriteTargetNotFound),
            }
        },
    }
}


/// View of an optional borrowed string.
pub open spec fn opt_str_view(o: Option<&str>) -> Option<Seq<char>> {
    match o {
        Some(b) => Some(b@),
        None => None,
    }
}

/// One serialized port-forward rule in user-mode forwarding syntax.
pub open spec fn spec_fwd_item(pf: PortForward) -> Seq<char> {
    ",hostfwd="@ + protocol_token(pf.protocol) + "::"@ + spec_dec(pf.host_port as int) + "-:"@
        + spec_dec(pf.guest_port as int)
}

/// The complete ordered list of forwarding rules, serialized.
pub open spec fn spec_fwds(fwds: Seq<PortForward>) -> Seq<char>
    decreases fwds.len(),
{
    if fwds.len() == 0 {
        Seq::empty()
    } else {
        spec_fwds(fwds.drop_last()) + spec_fwd_item(fwds.last())
    }
}

/// The serialized forwarding rules of `fwds`, in order.
fn fwd_items(fwds: &Vec<PortForward>) -> (r: String)
    ensures
        r@ == spec_fwds(fwds@),
{
    let mut out = String::new();
    let mut t: usize = 0;
    proof {
        assert(fwds@.take(0) =~= Seq::<PortForward>::empty());
    }
    while t < fwds.len()
        invariant
            0 <= t <= fwds@.len(),
            out@ == spec_fwds(fwds@.take(t as int)),
        decreases fwds@.len() - t,
    {
        let pf = fwds[t];
        out.append(",hostfwd=");
        out.append(pf.protocol.token());
        out.append("::");
        let h = dec_u32(pf.host_port as u32);
        out.append(h.as_str());
        out.append("-:");
        let g = dec_u32(pf.guest_port as u32);
        out.append(g.as_str());
        proof {
            assert(fwds@.take(t as int + 1).drop_last() =~= fwds@.take(t as int));
            assert(fwds@.take(t as int + 1).last() == fwds@[t as int]);
        }
        t += 1;
    }
    proof {
        assert(fwds@.take(fwds@.len() as int) =~= fwds@);
    }
    out
}

/// The regenerated network clause for the selected backend: the adapter
/// model token and, for the user-mode and passthrough transports, the
/// serialized forwarding rules; a bridge clause names its bridge.
pub open spec fn spec_net_clause(
    model: Seq<char>,
    backend: NetBackend,
    bridge: Option<Seq<char>>,
    fwds: Seq<PortForward>,
) -> Seq<char> {
    match backend {
        NetBackend::UserNat => "    -nic user,model="@ + model + spec_fwds(fwds) + " \\"@,
        NetBackend::Passt => "    -nic passt,model="@ + model + spec_fwds(fwds) + " \\"@,
        NetBackend::Bridge => "    -nic bridge,br="@ + (match bridge {
            Some(b) => b,
            None => "qemubr0"@,
        }) + ",model="@ + model + " \\"@,
        NetBackend::Disabled => Seq::empty(),
    }
}

/// The regenerated network clause line.
fn net_clause(
    model: &str,
    backend: NetBackend,
    bridge: Option<&str>,
    fwds: &Vec<PortForward>,
) -> (r: String)
    requires
        backend != NetBackend::Disabled,
    ensures
        r@ == spec_net_clause(model@, backend, opt_str_view(bridge), fwds@),
{
    match backend {
        NetBackend::UserNat => {
            let mut c = String::from_str("    -nic user,model=");
            c.append(model);
            let f = fwd_items(fwds);
            c.append(f.as_str());
            c.append(" \\");
            c
        },
        NetBackend::Passt => {
            let mut c = String::from_str("    -nic passt,model=");
            c.append(model);
            let f = fwd_items(fwds);
            c.append(f.as_str());
            c.append(" \\");
            c
        },
        NetBackend::Bridge => {
            let mut c = String::from_str("    -nic bridge,br=");
            match bridge {
                Some(b) => c.append(b),
                None => c.append("qemubr0"),
            }
            c.append(",model=");
            c.append(model);
            c.append(" \\");
            c
        },
        NetBackend::Disabled => {
            proof {
                assert(false);
            }
            String::new()
        },
    }
}

/// Index of the first line that contributes to the network configuration.
fn find_net_line(content: &str, lines: &Vec<(usize, usize)>) -> (r: Option<usize>)
    requires
        lines_wf(content@, lines@),
    ensures
        match r {
            Some(k) => k < lines@.len() && spec_first_hit(
                spec_split_lines(content@),
                0,
                spec_net_hit(),
            ) == Some(k as int),
            None => spec_first_hit(spec_split_lines(content@), 0, spec_net_hit()) is None,
        },
{
    let ghost ls = spec_split_lines(content@);
    let mut t: usize = 0;
    while t < lines.len()
        invariant
            0 <= t <= lines@.len(),
            lines_wf(content@, lines@),
            ls == spec_split_lines(content@),
            lines@.len() == ls.len(),
            spec_first_hit(ls, 0, spec_net_hit()) == spec_first_hit(ls, t as int, spec_net_hit()),
        decreases lines@.len() - t,
    {
        let (a, b) = lines[t];
        let line = content.substring_char(a, b);
        if is_net_line(line) {
            return Some(t);
        }
        t += 1;
    }
    None
}

/// The text whose lines are those of `content` up to line `k`, then `repl`
/// in place of line `k`, then the remaining lines with every network line
/// removed: the backend clause is fully regenerated in one place.
fn splice_net_replace(
    content: &str,
    lines: &Vec<(usize, usize)>,
    k: usize,
    repl: &str,
) -> (out: String)
    requires
        lines_wf(content@, lines@),
        k < lines@.len(),
    ensures
        out@ == spec_join_lines(
            spec_split_lines(content@).take(k as int) + seq![repl@] + spec_drop_hits(
                spec_split_lines(content@).skip(k as int + 1),
                spec_net_hit(),
            ),
        ),
{
    let ghost ls = spec_split_lines(content@);
    let ghost pre = ls.take(k as int) + seq![repl@];
    let m = lines.len();
    let mut out = String::new();
    let mut t: usize = 0;
    proof {
        reveal_strlit("\n");
    }
    while t < k
        invariant
            0 <= t <= k < m,
            m == ls.len(),
            ls == spec_split_lines(content@),
            lines_wf(content@, lines@),
            lines@.len() == m,
            t == 0 ==> out@ == Seq::<char>::empty(),
            t >= 1 ==> out@ == spec_join_lines(ls.take(t as int)),
            "\n"@ == seq!['\n'],
        decreases k - t,
    {
        if t > 0 {
            out.append("\n");
        }
        let (a, b) = lines[t];
        out.append(content.substring_char(a, b));
        proof {
            if t == 0 {
                assert(ls.take(1) =~= seq![ls[0]]);
                assert(spec_join_lines(seq![ls[0]]) == ls[0]);
            } else {
                assert(ls.take(t as int + 1) =~= ls.take(t as int) + seq![ls[t as int]]);
                lemma_join_concat(ls.take(t as int), seq![ls[t as int]]);
                assert(spec_join_lines(seq![ls[t as int]]) == ls[t as int]);
            }
        }
        t += 1;
    }
    if k > 0 {
        out.append("\n");
    }
    out.append(repl);
    proof {
        if k == 0 {
            assert(pre =~= seq![repl@]);
            assert(spec_join_lines(seq![repl@]) == repl@);
        } else {
            assert(pre =~= ls.take(k as int) + seq![repl@]);
            lemma_join_concat(ls.take(k as int), seq![repl@]);
            assert(spec_join_lines(seq![repl@]) == repl@);
        }
        assert(out@ == spec_join_lines(pre));
        assert(ls.subrange(k as int + 1, k as int + 1) =~= Seq::<Seq<char>>::empty());
        assert(pre + spec_drop_hits(ls.subrange(k as int + 1, k as int + 1), spec_net_hit())
            =~= pre);
    }
    let mut t2: usize = k + 1;
    while t2 < m
        invariant
            k + 1 <= t2 <= m,
            k < m,
            m == ls.len(),
            ls == spec_split_lines(content@),
            pre == ls.take(k as int) + seq![repl@],
            lines_wf(content@, lines@),
            lines@.len() == m,
            out@ == spec_join_lines(
                pre + spec_drop_hits(ls.subrange(k as int + 1, t2 as int), spec_net_hit()),
            ),
            "\n"@ == seq!['\n'],
        decreases m - t2,
    {
        let (a, b) = lines[t2];
        let line = content.substring_char(a, b);
        let ghost dpre = spec_drop_hits(ls.subrange(k as int + 1, t2 as int), spec_net_hit());
        proof {
            assert(ls.subrange(k as int + 1, t2 as int + 1) =~= ls.subrange(
                k as int + 1,
                t2 as int,
            ).push(ls[t2 as int]));
            crate::text::lemma_drop_hits_push(
                ls.subrange(k as int + 1, t2 as int),
                ls[t2 as int],
                spec_net_hit(),
            );
        }
        if !is_net_line(line) {
            out.append("\n");
            out.append(line);
            proof {
                assert(pre + (dpre + seq![ls[t2 as int]]) =~= (pre + dpre) + seq![
                    ls[t2 as int],
                ]);
                lemma_join_concat(pre + dpre, seq![ls[t2 as int]]);
                assert(spec_join_lines(seq![ls[t2 as int]]) == ls[t2 as int]);
            }
        } else {
            proof {
                assert(dpre + Seq::<Seq<char>>::empty() =~= dpre);
            }
        }
        t2 += 1;
    }
    proof {
        assert(ls.subrange(k as int + 1, m as int) =~= ls.skip(k as int + 1));
    }
    out
}

/// The text whose lines are those of `content` with every network line
/// removed.
fn splice_drop_net(content: &str, lines: &Vec<(usize, usize)>) -> (out: String)
    requires
        lines_wf(content@, lines@),
    ensures
        out@ == spec_join_lines(spec_drop_hits(spec_split_lines(content@), spec_net_hit())),
{
    let ghost ls = spec_split_lines(content@);
    let m = lines.len();
    let mut out = String::new();
    let mut wrote: bool = false;
    let mut t: usize = 0;
    proof {
        reveal_strlit("\n");
        assert(ls.take(0) =~= Seq::<Seq<char>>::empty());
    }
    while t < m
        invariant
            0 <= t <= m,
            m == ls.len(),
            ls == spec_split_lines(content@),
            lines_wf(content@, lines@),
            lines@.len() == m,
            wrote == (spec_drop_hits(ls.take(t as int), spec_net_hit()).len() > 0),
            out@ == spec_join_lines(spec_drop_hits(ls.take(t as int), spec_net_hit())),
            "\n"@ == seq!['\n'],
        decreases m - t,
    {
        let (a, b) = lines[t];
        let line = content.substring_char(a, b);
        let ghost dpre = spec_drop_hits(ls.take(t as int), spec_net_hit());
        proof {
            assert(ls.take(t as int + 1) =~= ls.take(t as int).push(ls[t as int]));
            crate::text::lemma_drop_hits_push(ls.take(t as int), ls[t as int], spec_net_hit());
        }
        if !is_net_line(line) {
            if wrote {
                out.append("\n");
                out.append(line);
                proof {
                    lemma_join_concat(dpre, seq![ls[t as int]]);
                    assert(spec_join_lines(seq![ls[t as int]]) == ls[t as int]);
                }
            } else {
                out.append(line);
                proof {
                    assert(dpre + seq![ls[t as int]] =~= seq![ls[t as int]]);
                    assert(spec_join_lines(seq![ls[t as int]]) == ls[t as int]);
                }
            }
            wrote = true;
        } else {
            proof {
                assert(dpre + Seq::<Seq<char>>::empty() =~= dpre);
            }
        }
        t += 1;
    }
    proof {
        assert(ls.take(m as int) =~= ls);
    }
    out
}

/// The rewritten script a network change produces. Disabling removes every
/// network line. Otherwise the first network line is replaced by the one
/// regenerated clause and later network lines are removed; with no network
/// line present the clause is inserted immediately before the emulator
/// invocation line, and without that anchor the change fails.
pub open spec fn spec_rewrite_network(
    s: Seq<char>,
    model: Seq<char>,
    backend: NetBackend,
    bridge: Option<Seq<char>>,
    fwds: Seq<PortForward>,
) -> Option<Seq<char>> {
    let ls = spec_split_lines(s);
    if backend == NetBackend::Disabled {
        Some(spec_join_lines(spec_drop_hits(ls, spec_net_hit())))
    } else {
        let clause = spec_net_clause(model, backend, bridge, fwds);
        match spec_first_hit(ls, 0, spec_net_hit()) {
            Some(k) => Some(spec_join_lines(
                ls.take(k) + seq![clause] + spec_drop_hits(ls.skip(k + 1), spec_net_hit()),
            )),
            None => match spec_first_hit(ls, 0, spec_emulator_hit()) {
                Some(e) => Some(spec_join_lines(ls.take(e) + seq![clause] + ls.skip(e))),
                None => None,
            },
        }
    }
}

/// Apply a network change to the script: the backend clause is fully
/// regenerated for the selected backend, the adapter model token rewritten,
/// and the ordered forwarding rules serialized into the clause.
pub fn rewrite_network(
    script: &str,
    model: &str,
    backend: NetBackend,
    bridge: Option<&str>,
    port_forwards: &Vec<PortForward>,
) -> (r: Result<String, RewriteError>)
    ensures
        match r {
            Ok(out) => spec_rewrite_network(
                script@,
                model@,
                backend,
                opt_str_view(bridge),
                port_forwards@,
            ) == Some(out@),
            Err(e) => spec_rewrite_network(
                script@,
                model@,
                backend,
                opt_str_view(bridge),
                port_forwards@,
            ) is None && e == RewriteError::RewriteTargetNotFound,
        },
{
    let lines = split_lines(script);
    if matches!(backend, NetBackend::Disabled) {
        return Ok(splice_drop_net(script, &lines));
    }
    let clause = net_clause(model, backend, bridge, port_forwards);
    match find_net_line(script, &lines) {
        Some(k) => Ok(splice_net_replace(script, &lines, k, clause.as_str())),
        None => match find_emulator_line(script, &lines) {
            Some(e) => {
                proof {
                    crate::text::lemma_split_lines_nonempty(script@);
                }
                Ok(splice_insert(script, &lines, e, clause.as_str()))
            },
            None => Err(RewriteError::RewriteTargetNotFound),
        },
    }
}


/// A well-formed network change: its free-text parts hold no newline, so
/// the regenerated clause is one line.
pub open spec fn spec_net_change_wf(model: Seq<char>, bridge: Option<Seq<char>>) -> bool {
    &&& forall|k: int| 0 <= k < model.len() ==> model[k] != '\n'
    &&& (bridge matches Some(b) ==> forall|k: int| 0 <= k < b.len() ==> b[k] != '\n')
}

/// A decimal rendering is non-empty and all digits.
proof fn lemma_spec_dec_digits(n: int)
    requires
        n >= 0,
    ensures
        spec_dec(n).len() >= 1,
        forall|k: int|
            0 <= k < spec_dec(n).len() ==> crate::text::is_digit_char(#[trigger] spec_dec(n)[k]),
    decreases n,
{
    if n < 10 {
        assert(digit_char(n) as u32 == 48 + n);
        assert(crate::text::is_digit_char(digit_char(n)));
        assert(spec_dec(n)[0] == digit_char(n));
    } else {
        lemma_spec_dec_digits(n / 10);
        assert(digit_char(n % 10) as u32 == 48 + n % 10);
        assert(crate::text::is_digit_char(digit_char(n % 10)));
        let d = spec_dec(n);
        assert forall|k: int| 0 <= k < d.len() implies crate::text::is_digit_char(
            #[trigger] d[k],
        ) by {
            if k < d.len() - 1 {
                assert(d[k] == spec_dec(n / 10)[k]);
            } else {
                assert(d[k] == digit_char(n % 10));
            }
        }
    }
}

/// Serialized forwarding rules hold no newline.
proof fn lemma_fwds_no_newline(fwds: Seq<PortForward>)
    ensures
        forall|k: int| 0 <= k < spec_fwds(fwds).len() ==> #[trigger] spec_fwds(fwds)[k] != '\n',
    decreases fwds.len(),
{
    reveal_strlit(",hostfwd=");
    reveal_strlit("::");
    reveal_strlit("-:");
    reveal_strlit("tcp");
    reveal_strlit("udp");
    if fwds.len() > 0 {
        lemma_fwds_no_newline(fwds.drop_last());
        let pf = fwds.last();
        lemma_spec_dec_digits(pf.host_port as int);
        lemma_spec_dec_digits(pf.guest_port as int);
        assert(spec_find_char(",hostfwd="@, '\n', 0) is None) by {
            reveal_with_fuel(crate::text::spec_find_char, 12);
        }
        crate::text::lemma_spec_find_char_first(",hostfwd="@, '\n', 0);
        assert(spec_find_char("::"@, '\n', 0) is None) by {
            reveal_with_fuel(crate::text::spec_find_char, 5);
        }
        crate::text::lemma_spec_find_char_first("::"@, '\n', 0);
        assert(spec_find_char("-:"@, '\n', 0) is None) by {
            reveal_with_fuel(crate::text::spec_find_char, 5);
        }
        crate::text::lemma_spec_find_char_first("-:"@, '\n', 0);
        assert(spec_find_char("tcp"@, '\n', 0) is None) by {
            reveal_with_fuel(crate::text::spec_find_char, 5);
        }
        crate::text::lemma_spec_find_char_first("tcp"@, '\n', 0);
        assert(spec_find_char("udp"@, '\n', 0) is None) by {
            reveal_with_fuel(crate::text::spec_find_char, 5);
        }
        crate::text::lemma_spec_find_char_first("udp"@, '\n', 0);
        match pf.protocol {
            PortProtocol::Tcp => {},
            PortProtocol::Udp => {},
        }
        let a = ",hostfwd="@;
        let b = protocol_token(pf.protocol);
        let c = "::"@;
        let d = spec_dec(pf.host_port as int);
        let e = "-:"@;
        let f = spec_dec(pf.guest_port as int);
        let item = spec_fwd_item(pf);
        assert(forall|k: int| 0 <= k < b.len() ==> #[trigger] b[k] != '\n');
        assert forall|k: int| 0 <= k < item.len() implies #[trigger] item[k] != '\n' by {
            let n1 = a.len() as int;
            let n2 = n1 + b.len();
            let n3 = n2 + c.len();
            let n4 = n3 + d.len();
            let n5 = n4 + e.len();
            if k < n1 {
                assert(item[k] == a[k]);
            } else if k < n2 {
                assert(item[k] == b[k - n1]);
            } else if k < n3 {
                assert(item[k] == c[k - n2]);
            } else if k < n4 {
                assert(item[k] == d[k - n3]);
                assert(crate::text::is_digit_char(d[k - n3]));
            } else if k < n5 {
                assert(item[k] == e[k - n4]);
            } else {
                assert(item[k] == f[k - n5]);
                assert(crate::text::is_digit_char(f[k - n5]));
            }
        }
        let whole = spec_fwds(fwds);
        assert forall|k: int| 0 <= k < whole.len() implies #[trigger] whole[k] != '\n' by {
            let pre = spec_fwds(fwds.drop_last());
            if k < pre.len() {
                assert(whole[k] == pre[k]);
            } else {
                assert(whole[k] == item[k - pre.len()]);
            }
        }
    }
}

/// The regenerated clause is one newline-free line, and a network line by
/// the shared token rules.
proof fn lemma_net_clause_props(
    model: Seq<char>,
    backend: NetBackend,
    bridge: Option<Seq<char>>,
    fwds: Seq<PortForward>,
)
    requires
        backend != NetBackend::Disabled,
        spec_net_change_wf(model, bridge),
    ensures
        forall|k: int|
            0 <= k < spec_net_clause(model, backend, bridge, fwds).len()
                ==> #[trigger] spec_net_clause(model, backend, bridge, fwds)[k] != '\n',
        spec_net_hit()(spec_net_clause(model, backend, bridge, fwds)),
{
    reveal_strlit("    -nic user,model=");
    reveal_strlit("    -nic passt,model=");
    reveal_strlit("    -nic bridge,br=");
    reveal_strlit(",model=");
    reveal_strlit(" \\");
    reveal_strlit("qemubr0");
    reveal_strlit("-nic");
    reveal_strlit("-net");
    lemma_fwds_no_newline(fwds);
    let clause = spec_net_clause(model, backend, bridge, fwds);
    assert(spec_find_char("    -nic user,model="@, '\n', 0) is None) by {
        reveal_with_fuel(crate::text::spec_find_char, 23);
    }
    crate::text::lemma_spec_find_char_first("    -nic user,model="@, '\n', 0);
    assert(spec_find_char("    -nic passt,model="@, '\n', 0) is None) by {
        reveal_with_fuel(crate::text::spec_find_char, 24);
    }
    crate::text::lemma_spec_find_char_first("    -nic passt,model="@, '\n', 0);
    assert(spec_find_char("    -nic bridge,br="@, '\n', 0) is None) by {
        reveal_with_fuel(crate::text::spec_find_char, 22);
    }
    crate::text::lemma_spec_find_char_first("    -nic bridge,br="@, '\n', 0);
    assert(spec_find_char(",model="@, '\n', 0) is None) by {
        reveal_with_fuel(crate::text::spec_find_char, 10);
    }
    crate::text::lemma_spec_find_char_first(",model="@, '\n', 0);
    assert(spec_find_char(" \\"@, '\n', 0) is None) by {
        reveal_with_fuel(crate::text::spec_find_char, 5);
    }
    crate::text::lemma_spec_find_char_first(" \\"@, '\n', 0);
    assert(spec_find_char("qemubr0"@, '\n', 0) is None) by {
        reveal_with_fuel(crate::text::spec_find_char, 10);
    }
    crate::text::lemma_spec_find_char_first("qemubr0"@, '\n', 0);
    match backend {
        NetBackend::UserNat => {},
        NetBackend::Passt => {},
        NetBackend::Bridge => {
            match bridge {
                Some(_) => {},
                None => {},
            }
        },
        NetBackend::Disabled => {},
    }
    assert(crate::text::match_at(clause, "-nic"@, 4)) by {
        assert(clause.subrange(4, 8) =~= "-nic"@);
    }
    crate::text::lemma_spec_find_exists(clause, "-nic"@, 0, 4);
    assert(!spec_is_comment_line(clause)) by {
        crate::text::lemma_spec_skip_spaces_is(clause, 0, 4);
    }
}

/// When a script has no network line, the network rewrite inserts the one
/// regenerated clause as a new line immediately before the emulator
/// invocation line, and every other line is byte-identical.
pub proof fn lemma_rewrite_network_inserts(
    s: Seq<char>,
    model: Seq<char>,
    backend: NetBackend,
    bridge: Option<Seq<char>>,
    fwds: Seq<PortForward>,
)
    requires
        backend != NetBackend::Disabled,
        spec_net_change_wf(model, bridge),
        spec_first_hit(spec_split_lines(s), 0, spec_net_hit()) is None,
        spec_first_hit(spec_split_lines(s), 0, spec_emulator_hit()) is Some,
    ensures
        spec_rewrite_network(s, model, backend, bridge, fwds) matches Some(out) && spec_split_lines(
            out,
        ) == {
            let ls = spec_split_lines(s);
            let e = spec_first_hit(ls, 0, spec_emulator_hit())->Some_0;
            ls.take(e) + seq![spec_net_clause(model, backend, bridge, fwds)] + ls.skip(e)
        },
{
    let ls = spec_split_lines(s);
    let e = spec_first_hit(ls, 0, spec_emulator_hit())->Some_0;
    let clause = spec_net_clause(model, backend, bridge, fwds);
    let nls = ls.take(e) + seq![clause] + ls.skip(e);
    lemma_spec_first_hit(ls, 0, spec_emulator_hit());
    lemma_net_clause_props(model, backend, bridge, fwds);
    crate::text::lemma_split_lines_no_newline(s);
    assert forall|k: int, j: int|
        0 <= k < nls.len() && 0 <= j < nls[k].len() implies #[trigger] nls[k][j] != '\n' by {
        if k < e {
            assert(nls[k] == ls[k]);
        } else if k == e {
            assert(nls[k] == clause);
        } else {
            assert(nls[k] == ls[k - 1]);
        }
    }
    crate::text::lemma_split_join(nls);
}

/// Applying the same network change twice produces identical output both
/// times: the second application finds exactly the clause the first one
/// wrote and writes it again.
pub proof fn lemma_rewrite_network_idempotent(
    s: Seq<char>,
    model: Seq<char>,
    backend: NetBackend,
    bridge: Option<Seq<char>>,
    fwds: Seq<PortForward>,
)
    requires
        spec_net_change_wf(model, bridge),
    ensures
        spec_rewrite_network(s, model, backend, bridge, fwds) matches Some(out)
            ==> spec_rewrite_network(out, model, backend, bridge, fwds) == Some(out),
{
    let ls = spec_split_lines(s);
    crate::text::lemma_split_lines_no_newline(s);
    if backend == NetBackend::Disabled {
        let kept = spec_drop_hits(ls, spec_net_hit());
        let out = spec_join_lines(kept);
        crate::text::lemma_drop_hits_members(ls, spec_net_hit());
        if kept.len() == 0 {
            assert(out =~= Seq::<char>::empty());
            let ls2 = spec_split_lines(out);
            crate::text::lemma_spec_find_char_first(out, '\n', 0);
            assert(ls2 =~= seq![out]);
            assert(!spec_net_hit()(out)) by {
                crate::text::lemma_spec_find_first(out, "-net"@, 0);
                crate::text::lemma_spec_find_first(out, "-nic"@, 0);
                reveal_strlit("-net");
                reveal_strlit("-nic");
            }
            assert(spec_drop_hits(ls2, spec_net_hit()) =~= seq![out]) by {
                reveal_with_fuel(spec_drop_hits, 2);
                assert(ls2.drop_first() =~= Seq::<Seq<char>>::empty());
            }
            assert(spec_join_lines(seq![out]) == out);
        } else {
            assert forall|k: int, j: int|
                0 <= k < kept.len() && 0 <= j < kept[k].len() implies #[trigger] kept[k][j]
                != '\n' by {
                assert(ls.contains(kept[k]));
                let w = choose|w: int| 0 <= w < ls.len() && #[trigger] ls[w] == kept[k];
            }
            crate::text::lemma_split_join(kept);
            crate::text::lemma_drop_hits_id(kept, spec_net_hit());
        }
    } else {
        let clause = spec_net_clause(model, backend, bridge, fwds);
        lemma_net_clause_props(model, backend, bridge, fwds);
        match spec_first_hit(ls, 0, spec_net_hit()) {
            Some(k) => {
                lemma_spec_first_hit(ls, 0, spec_net_hit());
                let rest = spec_drop_hits(ls.skip(k + 1), spec_net_hit());
                let nls = ls.take(k) + seq![clause] + rest;
                let out = spec_join_lines(nls);
                crate::text::lemma_drop_hits_members(ls.skip(k + 1), spec_net_hit());
                assert forall|a: int, j: int|
                    0 <= a < nls.len() && 0 <= j < nls[a].len() implies #[trigger] nls[a][j]
                    != '\n' by {
                    if a < k {
                        assert(nls[a] == ls[a]);
                    } else if a == k {
                        assert(nls[a] == clause);
                    } else {
                        assert(nls[a] == rest[a - k - 1]);
                        assert(ls.skip(k + 1).contains(rest[a - k - 1]));
                        let w = choose|w: int|
                            0 <= w < ls.skip(k + 1).len() && #[trigger] ls.skip(k + 1)[w] == rest[
                            a - k - 1];
                        assert(ls.skip(k + 1)[w] == ls[k + 1 + w]);
                    }
                }
                crate::text::lemma_split_join(nls);
                assert(spec_split_lines(out) == nls);
                assert forall|j: int| 0 <= j < k implies !spec_net_hit()(#[trigger] nls[j]) by {
                    assert(nls[j] == ls[j]);
                }
                assert(nls[k] == clause);
                crate::text::lemma_spec_first_hit_is(nls, 0, k, spec_net_hit());
                let rest2 = spec_drop_hits(nls.skip(k + 1), spec_net_hit());
                assert(nls.skip(k + 1) =~= rest);
                crate::text::lemma_drop_hits_id(rest, spec_net_hit());
                assert(nls.take(k) =~= ls.take(k));
                assert(nls.take(k) + seq![clause] + rest2 =~= nls);
            },
            None => {
                match spec_first_hit(ls, 0, spec_emulator_hit()) {
                    Some(e) => {
                        lemma_spec_first_hit(ls, 0, spec_net_hit());
                        lemma_spec_first_hit(ls, 0, spec_emulator_hit());
                        let nls = ls.take(e) + seq![clause] + ls.skip(e);
                        let out = spec_join_lines(nls);
                        assert forall|a: int, j: int|
                            0 <= a < nls.len() && 0 <= j < nls[a].len() implies #[trigger] nls[a][
                            j] != '\n' by {
                            if a < e {
                                assert(nls[a] == ls[a]);
                            } else if a == e {
                                assert(nls[a] == clause);
                            } else {
                                assert(nls[a] == ls[a - 1]);
                            }
                        }
                        crate::text::lemma_split_join(nls);
                        assert(spec_split_lines(out) == nls);
                        assert forall|j: int| 0 <= j < e implies !spec_net_hit()(
                            #[trigger] nls[j],
                        ) by {
                            assert(nls[j] == ls[j]);
                        }
                        assert(nls[e] == clause);
                        crate::text::lemma_spec_first_hit_is(nls, 0, e, spec_net_hit());
                        let rest2 = spec_drop_hits(nls.skip(e + 1), spec_net_hit());
                        assert(nls.skip(e + 1) =~= ls.skip(e));
                        assert forall|j: int| 0 <= j < ls.skip(e).len() implies !spec_net_hit()(
                            #[trigger] ls.skip(e)[j],
                        ) by {
                            assert(ls.skip(e)[j] == ls[e + j]);
                        }
                        crate::text::lemma_drop_hits_id(ls.skip(e), spec_net_hit());
                        assert(nls.take(e) =~= ls.take(e));
                        assert(nls.take(e) + seq![clause] + rest2 =~= nls);
                    },
                    None => {},
                }
            },
        }
    }
}

/// The canonical graphics tokens are non-empty bare tokens without
/// newlines.
proof fn lemma_vga_token_props(v: VgaType)
    requires
        v != VgaType::Unknown,
    ensures
        vga_token(v).len() > 0,
        forall|k: int|
            0 <= k < vga_token(v).len() ==> crate::text::is_token_char(#[trigger] vga_token(v)[k]),
        forall|k: int| 0 <= k < vga_token(v).len() ==> #[trigger] vga_token(v)[k] != '\n',
        forall|k: int| 0 <= k < vga_token(v).len() ==> #[trigger] vga_token(v)[k] != '-',
{
    reveal_strlit("std");
    reveal_strlit("cirrus");
    reveal_strlit("vmware");
    reveal_strlit("qxl");
    reveal_strlit("virtio");
    reveal_strlit("none");
    let t = vga_token(v);
    match v {
        VgaType::Standard => {
            assert forall|k: int| 0 <= k < t.len() implies crate::text::is_token_char(
                #[trigger] t[k],
            ) && t[k] != '\n' && t[k] != '-' by {
                if k == 0 {
                } else if k == 1 {
                } else {
                }
            }
        },
        VgaType::Cirrus => {
            assert forall|k: int| 0 <= k < t.len() implies crate::text::is_token_char(
                #[trigger] t[k],
            ) && t[k] != '\n' && t[k] != '-' by {
                if k == 0 {
                } else if k == 1 {
                } else if k == 2 {
                } else if k == 3 {
                } else if k == 4 {
                } else {
                }
            }
        },
        VgaType::Vmware => {
            assert forall|k: int| 0 <= k < t.len() implies crate::text::is_token_char(
                #[trigger] t[k],
            ) && t[k] != '\n' && t[k] != '-' by {
                if k == 0 {
                } else if k == 1 {
                } else if k == 2 {
                } else if k == 3 {
                } else if k == 4 {
                } else {
                }
            }
        },
        VgaType::Qxl => {
            assert forall|k: int| 0 <= k < t.len() implies crate::text::is_token_char(
                #[trigger] t[k],
            ) && t[k] != '\n' && t[k] != '-' by {
                if k == 0 {
                } else if k == 1 {
                } else {
                }
            }
        },
        VgaType::Virtio => {
            assert forall|k: int| 0 <= k < t.len() implies crate::text::is_token_char(
                #[trigger] t[k],
            ) && t[k] != '\n' && t[k] != '-' by {
                if k == 0 {
                } else if k == 1 {
                } else if k == 2 {
                } else if k == 3 {
                } else if k == 4 {
                } else {
                }
            }
        },
        VgaType::Disabled => {
            assert forall|k: int| 0 <= k < t.len() implies crate::text::is_token_char(
                #[trigger] t[k],
            ) && t[k] != '\n' && t[k] != '-' by {
                if k == 0 {
                } else if k == 1 {
                } else if k == 2 {
                } else {
                }
            }
        },
        VgaType::Unknown => {},
    }
}

/// Rewriting the digit span after a flag keeps the flag where it was,
/// keeps the line a non-comment line, and is idempotent. Stated for any
/// flag pattern that starts with a dash and has no further dash or digit,
/// instantiated below for the memory and core-count flags.
proof fn lemma_set_digit_span(l: Seq<char>, pat: Seq<char>, v: u32)
    requires
        !spec_is_comment_line(l),
        spec_find(l, pat, 0) is Some,
        pat.len() > 0,
        pat[0] == '-',
    ensures
        ({
            let i = spec_find(l, pat, 0)->Some_0;
            let start = i + pat.len() as int;
            let end = spec_digits_end(l, start);
            let nl = l.take(start) + spec_dec(v as int) + l.skip(end);
            &&& !spec_is_comment_line(nl)
            &&& spec_find(nl, pat, 0) == Some(i)
            &&& spec_digits_end(nl, start) == start + spec_dec(v as int).len()
            &&& nl.take(start) + spec_dec(v as int) + nl.skip(start + spec_dec(v as int).len())
                == nl
            &&& (forall|j: int| 0 <= j < l.len() ==> l[j] != '\n') ==> (forall|j: int|
                0 <= j < nl.len() ==> nl[j] != '\n')
        }),
{
    let i = spec_find(l, pat, 0)->Some_0;
    crate::text::lemma_spec_find_first(l, pat, 0);
    let plen = pat.len() as int;
    let start = i + plen;
    let end = spec_digits_end(l, start);
    crate::text::lemma_spec_digits_end(l, start);
    let dec = spec_dec(v as int);
    lemma_spec_dec_digits(v as int);
    let dlen = dec.len() as int;
    let nl = l.take(start) + dec + l.skip(end);
    assert(forall|x: int| 0 <= x < start ==> nl[x] == l[x]);
    assert(forall|x: int| 0 <= x < dlen ==> nl[start + x] == dec[x]);
    assert(forall|x: int| end <= x < l.len() ==> nl[start + dlen + (x - end)] == l[x]);
    assert(crate::text::match_at(nl, pat, i)) by {
        assert(nl.subrange(i, i + plen) =~= l.subrange(i, i + plen));
    }
    assert forall|j: int| 0 <= j < i implies !crate::text::match_at(nl, pat, j) by {
        if crate::text::match_at(nl, pat, j) {
            assert(nl.subrange(j, j + plen) =~= l.subrange(j, j + plen));
            assert(crate::text::match_at(l, pat, j));
        }
    }
    crate::text::lemma_spec_find_is(nl, pat, 0, i);
    let t = crate::text::spec_skip_spaces(l, 0);
    crate::text::lemma_spec_skip_spaces(l, 0);
    assert(l[i] == '-') by {
        assert(l.subrange(i, i + plen)[0] == l[i]);
    }
    assert(t <= i) by {
        if t > i {
            assert(crate::text::is_space_char(l[i]));
        }
    }
    crate::text::lemma_spec_skip_spaces_is(nl, 0, t);
    assert(!spec_is_comment_line(nl));
    crate::text::lemma_spec_digits_end_is(nl, start, start + dlen);
    assert(nl.take(start) =~= l.take(start));
    assert(nl.skip(start + dlen) =~= l.skip(end));
    assert(nl.take(start) + dec + nl.skip(start + dlen) =~= nl);
    if forall|j: int| 0 <= j < l.len() ==> l[j] != '\n' {
        assert forall|j: int| 0 <= j < nl.len() implies nl[j] != '\n' by {
            if j < start {
            } else if j < start + dlen {
                assert(nl[j] == dec[j - start]);
                assert(crate::text::is_digit_char(dec[j - start]));
            } else {
                assert(nl[j] == l[end + (j - start - dlen)]);
            }
        }
    }
}

/// Rewriting the token span after the line's last graphics flag keeps that
/// flag the last one, reads back as exactly the written variant, and is
/// idempotent.
proof fn lemma_set_vga_span(l: Seq<char>, v: VgaType)
    requires
        !spec_is_comment_line(l),
        spec_rfind(l, "-vga "@) is Some,
        v != VgaType::Unknown,
    ensures
        ({
            let nl = spec_set_vga_line(l, v);
            &&& spec_vga_hit()(nl)
            &&& spec_set_vga_line(nl, v) == nl
            &&& spec_line_vga(nl) == Some(v)
            &&& (forall|j: int| 0 <= j < l.len() ==> l[j] != '\n') ==> (forall|j: int|
                0 <= j < nl.len() ==> nl[j] != '\n')
        }),
{
    reveal_strlit("-vga ");
    let pat = "-vga "@;
    let i = spec_rfind(l, pat)->Some_0;
    lemma_spec_rfind(l, pat);
    let start = i + 5;
    let end = spec_token_end(l, start);
    crate::text::lemma_spec_token_end(l, start);
    let tok = vga_token(v);
    lemma_vga_token_props(v);
    let tlen = tok.len() as int;
    let nl = l.take(start) + tok + l.skip(end);
    assert(spec_set_vga_line(l, v) == nl);
    assert(forall|x: int| 0 <= x < start ==> nl[x] == l[x]);
    assert(forall|x: int| 0 <= x < tlen ==> nl[start + x] == tok[x]);
    assert(forall|x: int| end <= x < l.len() ==> nl[start + tlen + (x - end)] == l[x]);
    assert(l[i] == '-' && l[i + 1] == 'v' && l[i + 2] == 'g' && l[i + 3] == 'a' && l[i + 4]
        == ' ') by {
        assert(l.subrange(i, i + 5)[0] == l[i]);
        assert(l.subrange(i, i + 5)[1] == l[i + 1]);
        assert(l.subrange(i, i + 5)[2] == l[i + 2]);
        assert(l.subrange(i, i + 5)[3] == l[i + 3]);
        assert(l.subrange(i, i + 5)[4] == l[i + 4]);
    }
    assert(crate::text::match_at(nl, pat, i)) by {
        assert(nl.subrange(i, i + 5) =~= l.subrange(i, i + 5));
    }
    assert forall|j: int| j > i implies !crate::text::match_at(nl, pat, j) by {
        if crate::text::match_at(nl, pat, j) {
            assert(nl.subrange(j, j + 5)[0] == nl[j]);
            assert(nl[j] == '-');
            if j < start {
            } else if j < start + tlen {
                assert(nl[j] == tok[j - start]);
            } else {
                let d = j - (start + tlen) + end;
                assert(l.subrange(d, d + 5) =~= nl.subrange(j, j + 5));
                assert(crate::text::match_at(l, pat, d));
            }
        }
    }
    lemma_spec_rfind_is(nl, pat, i);
    let t = crate::text::spec_skip_spaces(l, 0);
    crate::text::lemma_spec_skip_spaces(l, 0);
    assert(t <= i) by {
        if t > i {
            assert(crate::text::is_space_char(l[i]));
        }
    }
    crate::text::lemma_spec_skip_spaces_is(nl, 0, t);
    assert(!spec_is_comment_line(nl));
    crate::text::lemma_spec_token_end_is(nl, start, start + tlen);
    assert(nl.take(start) =~= l.take(start));
    assert(nl.skip(start + tlen) =~= l.skip(end));
    assert(nl.take(start) + tok + nl.skip(start + tlen) =~= nl);
    assert(nl.subrange(start, start + tlen) =~= tok);
    crate::qemu_config::lemma_vga_token_round_trip(v);
    if forall|j: int| 0 <= j < l.len() ==> l[j] != '\n' {
        assert forall|j: int| 0 <= j < nl.len() implies nl[j] != '\n' by {
            if j < start {
            } else if j < start + tlen {
                assert(nl[j] == tok[j - start]);
            } else {
                assert(nl[j] == l[end + (j - start - tlen)]);
            }
        }
    }
}

/// The inserted memory clause is a memory line that rewrites to itself.
proof fn lemma_mem_clause_props(v: u32)
    ensures
        spec_mem_hit()(spec_mem_clause(v)),
        spec_set_memory_line(spec_mem_clause(v), v) == spec_mem_clause(v),
        forall|j: int|
            0 <= j < spec_mem_clause(v).len() ==> #[trigger] spec_mem_clause(v)[j] != '\n',
{
    reveal_strlit("    -m ");
    reveal_strlit("-m ");
    reveal_strlit(" \\");
    let a = "    -m "@;
    let dec = spec_dec(v as int);
    lemma_spec_dec_digits(v as int);
    let z = " \\"@;
    let clause = spec_mem_clause(v);
    let dlen = dec.len() as int;
    assert(forall|x: int| 0 <= x < 7 ==> clause[x] == a[x]);
    assert(forall|x: int| 0 <= x < dlen ==> clause[7 + x] == dec[x]);
    assert(forall|x: int| 0 <= x < 2 ==> clause[7 + dlen + x] == z[x]);
    assert(crate::text::match_at(clause, "-m "@, 4)) by {
        assert(clause.subrange(4, 7) =~= "-m "@);
    }
    assert forall|j: int| 0 <= j < 4 implies !crate::text::match_at(clause, "-m "@, j) by {
        if crate::text::match_at(clause, "-m "@, j) {
            assert(clause.subrange(j, j + 3)[0] == clause[j]);
        }
    }
    crate::text::lemma_spec_find_is(clause, "-m "@, 0, 4);
    crate::text::lemma_spec_skip_spaces_is(clause, 0, 4);
    assert(!spec_is_comment_line(clause));
    crate::text::lemma_spec_digits_end_is(clause, 7, 7 + dlen);
    assert(clause.take(7) =~= a);
    assert(clause.skip(7 + dlen) =~= z);
    assert(clause.take(7) + dec + clause.skip(7 + dlen) =~= clause);
    assert forall|j: int| 0 <= j < clause.len() implies #[trigger] clause[j] != '\n' by {
        if j < 7 {
        } else if j < 7 + dlen {
            assert(clause[j] == dec[j - 7]);
            assert(crate::text::is_digit_char(dec[j - 7]));
        } else {
            assert(clause[j] == z[j - 7 - dlen]);
        }
    }
}

/// The inserted core-count clause is a core-count line that rewrites to
/// itself.
proof fn lemma_smp_clause_props(v: u32)
    ensures
        spec_smp_hit()(spec_smp_clause(v)),
        spec_set_smp_line(spec_smp_clause(v), v) == spec_smp_clause(v),
        forall|j: int|
            0 <= j < spec_smp_clause(v).len() ==> #[trigger] spec_smp_clause(v)[j] != '\n',
{
    reveal_strlit("    -smp ");
    reveal_strlit("-smp ");
    reveal_strlit(" \\");
    let a = "    -smp "@;
    let dec = spec_dec(v as int);
    lemma_spec_dec_digits(v as int);
    let z = " \\"@;
    let clause = spec_smp_clause(v);
    let dlen = dec.len() as int;
    assert(forall|x: int| 0 <= x < 9 ==> clause[x] == a[x]);
    assert(forall|x: int| 0 <= x < dlen ==> clause[9 + x] == dec[x]);
    assert(forall|x: int| 0 <= x < 2 ==> clause[9 + dlen + x] == z[x]);
    assert(crate::text::match_at(clause, "-smp "@, 4)) by {
        assert(clause.subrange(4, 9) =~= "-smp "@);
    }
    assert forall|j: int| 0 <= j < 4 implies !crate::text::match_at(clause, "-smp "@, j) by {
        if crate::text::match_at(clause, "-smp "@, j) {
            assert(clause.subrange(j, j + 5)[0] == clause[j]);
        }
    }
    crate::text::lemma_spec_find_is(clause, "-smp "@, 0, 4);
    crate::text::lemma_spec_skip_spaces_is(clause, 0, 4);
    assert(!spec_is_comment_line(clause));
    crate::text::lemma_spec_digits_end_is(clause, 9, 9 + dlen);
    assert(clause.take(9) =~= a);
    assert(clause.skip(9 + dlen) =~= z);
    assert(clause.take(9) + dec + clause.skip(9 + dlen) =~= clause);
    assert forall|j: int| 0 <= j < clause.len() implies #[trigger] clause[j] != '\n' by {
        if j < 9 {
        } else if j < 9 + dlen {
            assert(clause[j] == dec[j - 9]);
            assert(crate::text::is_digit_char(dec[j - 9]));
        } else {
            assert(clause[j] == z[j - 9 - dlen]);
        }
    }
}

/// The inserted graphics clause is a graphics line that rewrites to itself
/// and reads back as the written variant.
proof fn lemma_vga_clause_props(v: VgaType)
    requires
        v != VgaType::Unknown,
    ensures
        spec_vga_hit()(spec_vga_clause(v)),
        spec_set_vga_line(spec_vga_clause(v), v) == spec_vga_clause(v),
        spec_line_vga(spec_vga_clause(v)) == Some(v),
        forall|j: int|
            0 <= j < spec_vga_clause(v).len() ==> #[trigger] spec_vga_clause(v)[j] != '\n',
{
    reveal_strlit("    -vga ");
    reveal_strlit("-vga ");
    reveal_strlit(" \\");
    let a = "    -vga "@;
    let tok = vga_token(v);
    lemma_vga_token_props(v);
    let z = " \\"@;
    let clause = spec_vga_clause(v);
    let tlen = tok.len() as int;
    assert(forall|x: int| 0 <= x < 9 ==> clause[x] == a[x]);
    assert(forall|x: int| 0 <= x < tlen ==> clause[9 + x] == tok[x]);
    assert(forall|x: int| 0 <= x < 2 ==> clause[9 + tlen + x] == z[x]);
    assert(crate::text::match_at(clause, "-vga "@, 4)) by {
        assert(clause.subrange(4, 9) =~= "-vga "@);
    }
    assert forall|j: int| j > 4 implies !crate::text::match_at(clause, "-vga "@, j) by {
        if crate::text::match_at(clause, "-vga "@, j) {
            assert(clause.subrange(j, j + 5)[0] == clause[j]);
            assert(clause[j] == '-');
            if j < 9 {
            } else if j < 9 + tlen {
                assert(clause[j] == tok[j - 9]);
            } else {
                assert(clause[j] == z[j - 9 - tlen]);
            }
        }
    }
    lemma_spec_rfind_is(clause, "-vga "@, 4);
    crate::text::lemma_spec_skip_spaces_is(clause, 0, 4);
    assert(!spec_is_comment_line(clause));
    crate::text::lemma_spec_token_end_is(clause, 9, 9 + tlen);
    assert(clause.take(9) =~= a);
    assert(clause.skip(9 + tlen) =~= z);
    assert(clause.take(9) + tok + clause.skip(9 + tlen) =~= clause);
    assert(clause.subrange(9, 9 + tlen) =~= tok);
    crate::qemu_config::lemma_vga_token_round_trip(v);
    assert forall|j: int| 0 <= j < clause.len() implies #[trigger] clause[j] != '\n' by {
        if j < 9 {
        } else if j < 9 + tlen {
            assert(clause[j] == tok[j - 9]);
        } else {
            assert(clause[j] == z[j - 9 - tlen]);
        }
    }
}

/// A line that is no graphics line yields no graphics value.
proof fn lemma_non_hit_line_vga_none(l: Seq<char>)
    requires
        !spec_vga_hit()(l),
    ensures
        spec_line_vga(l) is None,
{
}

/// When every line after `k` yields nothing and line `k` yields `v`, the
/// whole scan yields `v`.
proof fn lemma_vga_lines_pick(ls: Seq<Seq<char>>, k: int, v: VgaType)
    requires
        0 <= k < ls.len(),
        spec_line_vga(ls[k]) == Some(v),
        forall|j: int| k < j < ls.len() ==> spec_line_vga(#[trigger] ls[j]) is None,
    ensures
        crate::launch_parser::spec_vga_lines(ls) == Some(v),
    decreases ls.len(),
{
    if k == ls.len() - 1 {
    } else {
        assert(spec_line_vga(ls.last()) is None);
        assert forall|j: int| k < j < ls.len() - 1 implies spec_line_vga(
            #[trigger] ls.drop_last()[j],
        ) is None by {
            assert(ls.drop_last()[j] == ls[j]);
        }
        assert(ls.drop_last()[k] == ls[k]);
        lemma_vga_lines_pick(ls.drop_last(), k, v);
    }
}

/// Applying the same memory change twice produces identical output both
/// times.
pub proof fn lemma_rewrite_memory_idempotent(s: Seq<char>, v: u32)
    ensures
        spec_rewrite_memory(s, v) matches Some(out) ==> spec_rewrite_memory(out, v) == Some(out),
{
    reveal_strlit("-m ");
    let ls = spec_split_lines(s);
    crate::text::lemma_split_lines_no_newline(s);
    match spec_first_hit(ls, 0, spec_mem_hit()) {
        Some(k) => {
            lemma_spec_first_hit(ls, 0, spec_mem_hit());
            let nl = spec_set_memory_line(ls[k], v);
            lemma_set_digit_span(ls[k], "-m "@, v);
            let a = ls.update(k, nl);
            let out = spec_join_lines(a);
            assert forall|x: int, j: int|
                0 <= x < a.len() && 0 <= j < a[x].len() implies #[trigger] a[x][j] != '\n' by {
                if x != k {
                    assert(a[x] == ls[x]);
                }
            }
            crate::text::lemma_split_join(a);
            assert forall|j: int| 0 <= j < k implies !spec_mem_hit()(#[trigger] a[j]) by {
                assert(a[j] == ls[j]);
            }
            assert(spec_mem_hit()(a[k as int]));
            crate::text::lemma_spec_first_hit_is(a, 0, k, spec_mem_hit());
            assert(spec_set_memory_line(a[k as int], v) == a[k as int]);
            assert(a.update(k, a[k as int]) =~= a);
        },
        None => {
            match spec_first_hit(ls, 0, spec_emulator_hit()) {
                Some(e) => {
                    lemma_spec_first_hit(ls, 0, spec_mem_hit());
                    lemma_spec_first_hit(ls, 0, spec_emulator_hit());
                    let clause = spec_mem_clause(v);
                    lemma_mem_clause_props(v);
                    let a = ls.take(e) + seq![clause] + ls.skip(e);
                    let out = spec_join_lines(a);
                    assert forall|x: int, j: int|
                        0 <= x < a.len() && 0 <= j < a[x].len() implies #[trigger] a[x][j]
                        != '\n' by {
                        if x < e {
                            assert(a[x] == ls[x]);
                        } else if x == e {
                            assert(a[x] == clause);
                        } else {
                            assert(a[x] == ls[x - 1]);
                        }
                    }
                    crate::text::lemma_split_join(a);
                    assert forall|j: int| 0 <= j < e implies !spec_mem_hit()(#[trigger] a[j]) by {
                        assert(a[j] == ls[j]);
                    }
                    assert(a[e as int] == clause);
                    crate::text::lemma_spec_first_hit_is(a, 0, e, spec_mem_hit());
                    assert(spec_set_memory_line(a[e as int], v) == a[e as int]);
                    assert(a.update(e, a[e as int]) =~= a);
                },
                None => {},
            }
        },
    }
}

/// Applying the same core-count change twice produces identical output
/// both times.
pub proof fn lemma_rewrite_cpu_cores_idempotent(s: Seq<char>, v: u32)
    ensures
        spec_rewrite_cpu_cores(s, v) matches Some(out) ==> spec_rewrite_cpu_cores(out, v) == Some(
            out,
        ),
{
    reveal_strlit("-smp ");
    let ls = spec_split_lines(s);
    crate::text::lemma_split_lines_no_newline(s);
    match spec_first_hit(ls, 0, spec_smp_hit()) {
        Some(k) => {
            lemma_spec_first_hit(ls, 0, spec_smp_hit());
            let nl = spec_set_smp_line(ls[k], v);
            lemma_set_digit_span(ls[k], "-smp "@, v);
            let a = ls.update(k, nl);
            let out = spec_join_lines(a);
            assert forall|x: int, j: int|
                0 <= x < a.len() && 0 <= j < a[x].len() implies #[trigger] a[x][j] != '\n' by {
                if x != k {
                    assert(a[x] == ls[x]);
                }
            }
            crate::text::lemma_split_join(a);
            assert forall|j: int| 0 <= j < k implies !spec_smp_hit()(#[trigger] a[j]) by {
                assert(a[j] == ls[j]);
            }
            assert(spec_smp_hit()(a[k as int]));
            crate::text::lemma_spec_first_hit_is(a, 0, k, spec_smp_hit());
            assert(spec_set_smp_line(a[k as int], v) == a[k as int]);
            assert(a.update(k, a[k as int]) =~= a);
        },
        None => {
            match spec_first_hit(ls, 0, spec_emulator_hit()) {
                Some(e) => {
                    lemma_spec_first_hit(ls, 0, spec_smp_hit());
                    lemma_spec_first_hit(ls, 0, spec_emulator_hit());
                    let clause = spec_smp_clause(v);
                    lemma_smp_clause_props(v);
                    let a = ls.take(e) + seq![clause] + ls.skip(e);
                    let out = spec_join_lines(a);
                    assert forall|x: int, j: int|
                        0 <= x < a.len() && 0 <= j < a[x].len() implies #[trigger] a[x][j]
                        != '\n' by {
                        if x < e {
                            assert(a[x] == ls[x]);
                        } else if x == e {
                            assert(a[x] == clause);
                        } else {
                            assert(a[x] == ls[x - 1]);
                        }
                    }
                    crate::text::lemma_split_join(a);
                    assert forall|j: int| 0 <= j < e implies !spec_smp_hit()(#[trigger] a[j]) by {
                        assert(a[j] == ls[j]);
                    }
                    assert(a[e as int] == clause);
                    crate::text::lemma_spec_first_hit_is(a, 0, e, spec_smp_hit());
                    assert(spec_set_smp_line(a[e as int], v) == a[e as int]);
                    assert(a.update(e, a[e as int]) =~= a);
                },
                None => {},
            }
        },
    }
}

/// Applying the same graphics change twice produces identical output both
/// times.
pub proof fn lemma_rewrite_vga_idempotent(s: Seq<char>, v: VgaType)
    requires
        v != VgaType::Unknown,
    ensures
        spec_rewrite_vga(s, v) matches Some(out) ==> spec_rewrite_vga(out, v) == Some(out),
{
    reveal_strlit("-vga ");
    let ls = spec_split_lines(s);
    crate::text::lemma_split_lines_no_newline(s);
    match spec_last_hit(ls, spec_vga_hit()) {
        Some(k) => {
            lemma_spec_last_hit(ls, spec_vga_hit());
            let nl = spec_set_vga_line(ls[k], v);
            lemma_set_vga_span(ls[k], v);
            let a = ls.update(k, nl);
            let out = spec_join_lines(a);
            assert forall|x: int, j: int|
                0 <= x < a.len() && 0 <= j < a[x].len() implies #[trigger] a[x][j] != '\n' by {
                if x != k {
                    assert(a[x] == ls[x]);
                }
            }
            crate::text::lemma_split_join(a);
            assert forall|j: int| k < j < a.len() implies !spec_vga_hit()(#[trigger] a[j]) by {
                assert(a[j] == ls[j]);
            }
            assert(spec_vga_hit()(a[k as int]));
            crate::text::lemma_spec_last_hit_is(a, k, spec_vga_hit());
            assert(spec_set_vga_line(a[k as int], v) == a[k as int]);
            assert(a.update(k, a[k as int]) =~= a);
        },
        None => {
            match spec_first_hit(ls, 0, spec_emulator_hit()) {
                Some(e) => {
                    lemma_spec_last_hit(ls, spec_vga_hit());
                    lemma_spec_first_hit(ls, 0, spec_emulator_hit());
                    let clause = spec_vga_clause(v);
                    lemma_vga_clause_props(v);
                    let a = ls.take(e) + seq![clause] + ls.skip(e);
                    let out = spec_join_lines(a);
                    assert forall|x: int, j: int|
                        0 <= x < a.len() && 0 <= j < a[x].len() implies #[trigger] a[x][j]
                        != '\n' by {
                        if x < e {
                            assert(a[x] == ls[x]);
                        } else if x == e {
                            assert(a[x] == clause);
                        } else {
                            assert(a[x] == ls[x - 1]);
                        }
                    }
                    crate::text::lemma_split_join(a);
                    assert forall|j: int| e < j < a.len() implies !spec_vga_hit()(
                        #[trigger] a[j],
                    ) by {
                        assert(a[j] == ls[j - 1]);
                    }
                    assert(a[e as int] == clause);
                    crate::text::lemma_spec_last_hit_is(a, e, spec_vga_hit());
                    assert(spec_set_vga_line(a[e as int], v) == a[e as int]);
                    assert(a.update(e, a[e as int]) =~= a);
                },
                None => {},
            }
        },
    }
}

/// Writing a graphics adapter and extracting it again yields the written
/// variant: for the canonical-table field the synthesizer covers, a
/// synthesized script re-extracts to the same field value.
pub proof fn lemma_rewrite_vga_round_trip(s: Seq<char>, v: VgaType)
    requires
        v != VgaType::Unknown,
    ensures
        spec_rewrite_vga(s, v) matches Some(out)
            ==> crate::launch_parser::spec_extract_vga(out) == Some(v),
{
    reveal_strlit("-vga ");
    let ls = spec_split_lines(s);
    crate::text::lemma_split_lines_no_newline(s);
    match spec_last_hit(ls, spec_vga_hit()) {
        Some(k) => {
            lemma_spec_last_hit(ls, spec_vga_hit());
            let nl = spec_set_vga_line(ls[k], v);
            lemma_set_vga_span(ls[k], v);
            let a = ls.update(k, nl);
            let out = spec_join_lines(a);
            assert forall|x: int, j: int|
                0 <= x < a.len() && 0 <= j < a[x].len() implies #[trigger] a[x][j] != '\n' by {
                if x != k {
                    assert(a[x] == ls[x]);
                }
            }
            crate::text::lemma_split_join(a);
            assert forall|j: int| k < j < a.len() implies spec_line_vga(#[trigger] a[j]) is None by {
                assert(a[j] == ls[j]);
                lemma_non_hit_line_vga_none(ls[j]);
            }
            lemma_vga_lines_pick(a, k, v);
        },
        None => {
            match spec_first_hit(ls, 0, spec_emulator_hit()) {
                Some(e) => {
                    lemma_spec_last_hit(ls, spec_vga_hit());
                    lemma_spec_first_hit(ls, 0, spec_emulator_hit());
                    let clause = spec_vga_clause(v);
                    lemma_vga_clause_props(v);
                    let a = ls.take(e) + seq![clause] + ls.skip(e);
                    let out = spec_join_lines(a);
                    assert forall|x: int, j: int|
                        0 <= x < a.len() && 0 <= j < a[x].len() implies #[trigger] a[x][j]
                        != '\n' by {
                        if x < e {
                            assert(a[x] == ls[x]);
                        } else if x == e {
                            assert(a[x] == clause);
                        } else {
                            assert(a[x] == ls[x - 1]);
                        }
                    }
                    crate::text::lemma_split_join(a);
                    assert forall|j: int| e < j < a.len() implies spec_line_vga(
                        #[trigger] a[j],
                    ) is None by {
                        assert(a[j] == ls[j - 1]);
                        lemma_non_hit_line_vga_none(ls[j - 1]);
                    }
                    assert(a[e as int] == clause);
                    lemma_vga_lines_pick(a, e, v);
                },
                None => {},
            }
        },
    }
}

/// The full description of a requested network change.
#[derive(Debug, Clone)]
pub struct NetworkChange {
    /// Adapter model token.
    pub model: String,
    /// The backend the machine should use.
    pub backend: NetBackend,
    /// Bridge name, for the bridge backend.
    pub bridge: Option<String>,
    /// The complete ordered list of port-forward rules.
    pub port_forwards: Vec<PortForward>,
}

/// One requested structured-field change.
#[derive(Debug, Clone)]
pub enum FieldChange {
    /// Memory size in megabytes.
    Memory(u32),
    /// CPU core count.
    CpuCores(u32),
    /// Graphics adapter, as a variant of the canonical table.
    Vga(VgaType),
    /// The whole network configuration.
    Network(NetworkChange),
}

/// The rewritten script one field change produces, if it has an anchor.
pub open spec fn spec_rewrite(s: Seq<char>, c: FieldChange) -> Option<Seq<char>> {
    match c {
        FieldChange::Memory(v) => spec_rewrite_memory(s, v),
        FieldChange::CpuCores(v) => spec_rewrite_cpu_cores(s, v),
        FieldChange::Vga(v) => spec_rewrite_vga(s, v),
        FieldChange::Network(nc) => spec_rewrite_network(
            s,
            nc.model@,
            nc.backend,
            opt_string_view(nc.bridge),
            nc.port_forwards@,
        ),
    }
}

/// Apply one field change to the script, producing the complete
/// replacement text in memory: a failed rewrite produces nothing, so a
/// caller can never persist a half-applied result.
pub fn rewrite(script: &str, change: &FieldChange) -> (r: Result<String, RewriteError>)
    requires
        *change matches FieldChange::Vga(v) ==> v != VgaType::Unknown,
    ensures
        match r {
            Ok(out) => spec_rewrite(script@, *change) == Some(out@),
            Err(e) => spec_rewrite(script@, *change) is None && e
                == RewriteError::RewriteTargetNotFound,
        },
{
    match change {
        FieldChange::Memory(v) => rewrite_memory(script, *v),
        FieldChange::CpuCores(v) => rewrite_cpu_cores(script, *v),
        FieldChange::Vga(v) => rewrite_vga(script, *v),
        FieldChange::Network(nc) => {
            let bridge: Option<&str> = match &nc.bridge {
                Some(b) => Some(b.as_str()),
                None => None,
            };
            rewrite_network(script, nc.model.as_str(), nc.backend, bridge, &nc.port_forwards)
        },
    }
}


/// Applying the same field change twice produces identical output both
/// times, for every change the synthesizer accepts.
pub proof fn lemma_rewrite_idempotent(s: Seq<char>, c: FieldChange)
    requires
        c matches FieldChange::Vga(v) ==> v != VgaType::Unknown,
        c matches FieldChange::Network(nc) ==> spec_net_change_wf(
            nc.model@,
            opt_string_view(nc.bridge),
        ),
    ensures
        spec_rewrite(s, c) matches Some(out) ==> spec_rewrite(out, c) == Some(out),
{
    match c {
        FieldChange::Memory(v) => {
            lemma_rewrite_memory_idempotent(s, v);
        },
        FieldChange::CpuCores(v) => {
            lemma_rewrite_cpu_cores_idempotent(s, v);
        },
        FieldChange::Vga(v) => {
            lemma_rewrite_vga_idempotent(s, v);
        },
        FieldChange::Network(nc) => {
            lemma_rewrite_network_idempotent(
                s,
                nc.model@,
                nc.backend,
                opt_string_view(nc.bridge),
                nc.port_forwards@,
            );
        },
    }
}

} // verus!
