//! Character-level scanning and string-building utilities shared by the
//! extractor and the synthesizer.

use vstd::prelude::*;

verus! {

/// The whitespace characters that terminate a bare flag value.
pub open spec fn is_space_char(c: char) -> bool {
    c == ' ' || c == '\t' || c == '\n' || c == '\r' || c == '\u{b}' || c == '\u{c}'
}

/// ASCII decimal digit.
pub open spec fn is_digit_char(c: char) -> bool {
    '0' <= c && c <= '9'
}

/// Lower-case image of an ASCII letter; every other character is unchanged.
pub open spec fn lower_char(c: char) -> char {
    if 'A' <= c && c <= 'Z' {
        ((c as u32 + 32) as u8) as char
    } else {
        c
    }
}

/// Upper-case image of an ASCII letter; every other character is unchanged.
pub open spec fn upper_char(c: char) -> char {
    if 'a' <= c && c <= 'z' {
        ((c as u32 - 32) as u8) as char
    } else {
        c
    }
}

pub fn is_space(c: char) -> (r: bool)
    ensures
        r == is_space_char(c),
{
    c == ' ' || c == '\t' || c == '\n' || c == '\r' || c == '\u{b}' || c == '\u{c}'
}

pub fn is_digit(c: char) -> (r: bool)
    ensures
        r == is_digit_char(c),
{
    '0' <= c && c <= '9'
}

pub fn to_lower(c: char) -> (r: char)
    ensures
        r == lower_char(c),
{
    if 'A' <= c && c <= 'Z' {
        ((c as u32 + 32) as u8) as char
    } else {
        c
    }
}

pub fn to_upper(c: char) -> (r: char)
    ensures
        r == upper_char(c),
{
    if 'a' <= c && c <= 'z' {
        ((c as u32 - 32) as u8) as char
    } else {
        c
    }
}

/// The pattern `pat` occurs in `s` starting at index `i`.
pub open spec fn match_at(s: Seq<char>, pat: Seq<char>, i: int) -> bool {
    &&& 0 <= i
    &&& i + pat.len() <= s.len()
    &&& s.subrange(i, i + pat.len() as int) == pat
}

/// Index of the first occurrence of `pat` in `s` at or after `from`.
pub open spec fn spec_find(s: Seq<char>, pat: Seq<char>, from: int) -> Option<int>
    decreases s.len() - from via spec_find_decreases
{
    if from < 0 || from + pat.len() > s.len() {
        None
    } else if match_at(s, pat, from) {
        Some(from)
    } else {
        spec_find(s, pat, from + 1)
    }
}

#[via_fn]
proof fn spec_find_decreases(s: Seq<char>, pat: Seq<char>, from: int) {
    if !(from < 0 || from + pat.len() > s.len()) && !match_at(s, pat, from) {
        if pat.len() == 0 {
            assert(s.subrange(from, from) =~= pat);
        }
    }
}

/// `pat` occurs somewhere in `s`.
pub open spec fn spec_contains(s: Seq<char>, pat: Seq<char>) -> bool {
    spec_find(s, pat, 0) is Some
}

/// A found occurrence is the first one at or after `from`.
pub proof fn lemma_spec_find_first(s: Seq<char>, pat: Seq<char>, from: int)
    requires
        0 <= from,
    ensures
        spec_find(s, pat, from) matches Some(i) ==> {
            &&& from <= i
            &&& match_at(s, pat, i)
            &&& forall|j: int| from <= j < i ==> !match_at(s, pat, j)
        },
        spec_find(s, pat, from) is None ==> forall|j: int| j >= from ==> !match_at(s, pat, j),
    decreases s.len() - from,
{
    if from + pat.len() > s.len() {
    } else if match_at(s, pat, from) {
    } else {
        if pat.len() == 0 {
            assert(s.subrange(from, from) =~= pat);
        }
        lemma_spec_find_first(s, pat, from + 1);
    }
}

/// If a match exists at `j >= from`, the search from `from` finds something.
pub proof fn lemma_spec_find_exists(s: Seq<char>, pat: Seq<char>, from: int, j: int)
    requires
        0 <= from <= j,
        match_at(s, pat, j),
    ensures
        spec_find(s, pat, from) is Some,
    decreases j - from,
{
    if from == j {
    } else {
        if !(from + pat.len() > s.len()) && !match_at(s, pat, from) {
            if pat.len() == 0 {
                assert(s.subrange(from, from) =~= pat);
            }
            lemma_spec_find_exists(s, pat, from + 1, j);
        }
    }
}

/// First occurrence of `pat` in `s` at or after `from`, by a direct scan.
pub fn find_from(s: &str, from: usize, pat: &str) -> (r: Option<usize>)
    requires
        from <= s@.len(),
    ensures
        match r {
            Some(i) => spec_find(s@, pat@, from as int) == Some(i as int),
            None => spec_find(s@, pat@, from as int) is None,
        },
{
    let slen = s.unicode_len();
    let plen = pat.unicode_len();
    if plen > slen || from > slen - plen {
        proof {
            lemma_spec_find_none_when_short(s@, pat@, from as int);
        }
        return None;
    }
    let mut i: usize = from;
    loop
        invariant
            from <= i <= slen - plen,
            slen == s@.len(),
            plen == pat@.len(),
            spec_find(s@, pat@, from as int) == spec_find(s@, pat@, i as int),
        decreases slen - i,
    {
        let mut j: usize = 0;
        let mut matched: bool = true;
        while j < plen
            invariant
                0 <= j <= plen,
                i + plen <= slen,
                slen == s@.len(),
                plen == pat@.len(),
                matched ==> forall|k: int| 0 <= k < j ==> s@[i + k] == pat@[k],
                !matched ==> !match_at(s@, pat@, i as int),
            decreases plen - j,
        {
            if matched {
                let a = s.get_char(i + j);
                let b = pat.get_char(j);
                if a != b {
                    proof {
                        assert(s@.subrange(i as int, i + plen as int)[j as int] == s@[i + j]);
                    }
                    matched = false;
                }
            }
            j += 1;
        }
        if matched {
            proof {
                assert(s@.subrange(i as int, i + plen as int) =~= pat@);
            }
            return Some(i);
        }
        if i == slen - plen {
            proof {
                assert(!match_at(s@, pat@, i as int));
                assert(spec_find(s@, pat@, i as int + 1) is None);
                assert(spec_find(s@, pat@, i as int) == spec_find(s@, pat@, i as int + 1));
            }
            return None;
        }
        i += 1;
    }
}

proof fn lemma_spec_find_none_when_short(s: Seq<char>, pat: Seq<char>, from: int)
    requires
        pat.len() > s.len() || from > s.len() - pat.len(),
    ensures
        spec_find(s, pat, from) is None,
    decreases s.len() - from,
{
    if !(from < 0 || from + pat.len() > s.len()) {
        lemma_spec_find_none_when_short(s, pat, from + 1);
    }
}

/// Whether `pat` occurs anywhere in `s`.
pub fn contains_sub(s: &str, pat: &str) -> (r: bool)
    ensures
        r == spec_contains(s@, pat@),
{
    let r = find_from(s, 0, pat);
    r.is_some()
}

/// The two slices hold the same characters.
pub fn str_eq(a: &str, b: &str) -> (r: bool)
    ensures
        r == (a@ == b@),
{
    let alen = a.unicode_len();
    let blen = b.unicode_len();
    if alen != blen {
        return false;
    }
    let mut i: usize = 0;
    while i < alen
        invariant
            0 <= i <= alen,
            alen == a@.len(),
            alen == b@.len(),
            forall|k: int| 0 <= k < i ==> a@[k] == b@[k],
        decreases alen - i,
    {
        if a.get_char(i) != b.get_char(i) {
            return false;
        }
        i += 1;
    }
    proof {
        assert(a@ =~= b@);
    }
    true
}

/// Index of the first occurrence of the character `c` in `s` at or after `from`.
pub open spec fn spec_find_char(s: Seq<char>, c: char, from: int) -> Option<int>
    decreases s.len() - from,
{
    if from < 0 || from >= s.len() {
        None
    } else if s[from] == c {
        Some(from)
    } else {
        spec_find_char(s, c, from + 1)
    }
}

/// A found character occurrence is the first one at or after `from`.
pub proof fn lemma_spec_find_char_first(s: Seq<char>, c: char, from: int)
    requires
        0 <= from,
    ensures
        spec_find_char(s, c, from) matches Some(i) ==> {
            &&& from <= i < s.len()
            &&& s[i] == c
            &&& forall|j: int| from <= j < i ==> s[j] != c
        },
        spec_find_char(s, c, from) is None ==> forall|j: int| from <= j < s.len() ==> s[j] != c,
    decreases s.len() - from,
{
    if from >= s.len() {
    } else if s[from] == c {
    } else {
        lemma_spec_find_char_first(s, c, from + 1);
    }
}

/// If the character occurs at `j >= from`, the search from `from` succeeds.
pub proof fn lemma_spec_find_char_exists(s: Seq<char>, c: char, from: int, j: int)
    requires
        0 <= from <= j < s.len(),
        s[j] == c,
    ensures
        spec_find_char(s, c, from) is Some,
    decreases j - from,
{
    if from < j && s[from] != c {
        lemma_spec_find_char_exists(s, c, from + 1, j);
    }
}

/// First occurrence of the character `c` in `s` at or after `from`.
pub fn find_char_from(s: &str, from: usize, c: char) -> (r: Option<usize>)
    requires
        from <= s@.len(),
    ensures
        match r {
            Some(i) => spec_find_char(s@, c, from as int) == Some(i as int),
            None => spec_find_char(s@, c, from as int) is None,
        },
{
    let n = s.unicode_len();
    let mut i: usize = from;
    while i < n
        invariant
            from <= i <= n,
            n == s@.len(),
            spec_find_char(s@, c, from as int) == spec_find_char(s@, c, i as int),
        decreases n - i,
    {
        if s.get_char(i) == c {
            return Some(i);
        }
        i += 1;
    }
    None
}

/// Index of the last occurrence of `pat` in `s`.
pub open spec fn spec_rfind(s: Seq<char>, pat: Seq<char>) -> Option<int>
    decreases s.len() via spec_rfind_decreases
{
    if pat.len() > s.len() {
        None
    } else if match_at(s, pat, s.len() - pat.len()) {
        Some(s.len() - pat.len())
    } else {
        spec_rfind(s.take(s.len() - 1), pat)
    }
}

#[via_fn]
proof fn spec_rfind_decreases(s: Seq<char>, pat: Seq<char>) {
    if !(pat.len() > s.len()) && !match_at(s, pat, s.len() - pat.len()) {
        if pat.len() == 0 {
            assert(s.subrange(s.len() as int, s.len() as int) =~= pat);
        }
    }
}

/// A found occurrence is the last one.
pub proof fn lemma_spec_rfind(s: Seq<char>, pat: Seq<char>)
    ensures
        spec_rfind(s, pat) matches Some(i) ==> {
            &&& match_at(s, pat, i)
            &&& forall|j: int| j > i ==> !match_at(s, pat, j)
        },
        spec_rfind(s, pat) is None ==> forall|j: int| !match_at(s, pat, j),
    decreases s.len(),
{
    if pat.len() > s.len() {
    } else if match_at(s, pat, s.len() - pat.len()) {
    } else {
        if pat.len() == 0 {
            assert(s.subrange(s.len() as int, s.len() as int) =~= pat);
        }
        let t = s.take(s.len() - 1);
        lemma_spec_rfind(t, pat);
        assert forall|j: int| 0 <= j <= s.len() - 1 - pat.len() implies (match_at(t, pat, j)
            == match_at(s, pat, j)) by {
            if match_at(t, pat, j) {
                assert(s.subrange(j, j + pat.len() as int) =~= t.subrange(
                    j,
                    j + pat.len() as int,
                ));
            }
            if match_at(s, pat, j) {
                assert(t.subrange(j, j + pat.len() as int) =~= s.subrange(
                    j,
                    j + pat.len() as int,
                ));
            }
        }
    }
}

/// A position that matches, with no later match, is what the backwards
/// search finds.
pub proof fn lemma_spec_rfind_is(s: Seq<char>, pat: Seq<char>, i: int)
    requires
        match_at(s, pat, i),
        forall|j: int| j > i ==> !match_at(s, pat, j),
    ensures
        spec_rfind(s, pat) == Some(i),
{
    lemma_spec_rfind(s, pat);
    match spec_rfind(s, pat) {
        Some(w) => {
            if w < i {
            } else if w > i {
            }
        },
        None => {},
    }
}

/// Last occurrence of `pat` in `s`, by a backwards scan.
pub fn rfind_sub(s: &str, pat: &str) -> (r: Option<usize>)
    ensures
        match r {
            Some(i) => spec_rfind(s@, pat@) == Some(i as int),
            None => spec_rfind(s@, pat@) is None,
        },
{
    let slen = s.unicode_len();
    let plen = pat.unicode_len();
    if plen > slen {
        proof {
            lemma_spec_rfind(s@, pat@);
        }
        return None;
    }
    let mut i: usize = slen - plen;
    loop
        invariant
            0 <= i <= slen - plen,
            slen == s@.len(),
            plen == pat@.len(),
            forall|j: int| i < j ==> !match_at(s@, pat@, j),
        decreases i,
    {
        let mut j: usize = 0;
        let mut matched: bool = true;
        while j < plen
            invariant
                0 <= j <= plen,
                i + plen <= slen,
                slen == s@.len(),
                plen == pat@.len(),
                matched ==> forall|k: int| 0 <= k < j ==> s@[i + k] == pat@[k],
                !matched ==> !match_at(s@, pat@, i as int),
            decreases plen - j,
        {
            if matched {
                let a = s.get_char(i + j);
                let b = pat.get_char(j);
                if a != b {
                    proof {
                        assert(s@.subrange(i as int, i + plen as int)[j as int] == s@[i + j]);
                    }
                    matched = false;
                }
            }
            j += 1;
        }
        if matched {
            proof {
                assert(s@.subrange(i as int, i + plen as int) =~= pat@);
                lemma_spec_rfind_is(s@, pat@, i as int);
            }
            return Some(i);
        }
        if i == 0 {
            proof {
                lemma_spec_rfind(s@, pat@);
                if spec_rfind(s@, pat@) is Some {
                    let w = spec_rfind(s@, pat@)->Some_0;
                    assert(match_at(s@, pat@, w));
                }
            }
            return None;
        }
        i -= 1;
    }
}

/// Index of the last occurrence of the character `c` in `s`.
pub open spec fn spec_rfind_char(s: Seq<char>, c: char) -> Option<int>
    decreases s.len(),
{
    if s.len() == 0 {
        None
    } else if s[s.len() - 1] == c {
        Some(s.len() - 1)
    } else {
        spec_rfind_char(s.drop_last(), c)
    }
}

pub proof fn lemma_spec_rfind_char(s: Seq<char>, c: char)
    ensures
        spec_rfind_char(s, c) matches Some(i) ==> {
            &&& 0 <= i < s.len()
            &&& s[i] == c
            &&& forall|j: int| i < j < s.len() ==> s[j] != c
        },
        spec_rfind_char(s, c) is None ==> forall|j: int| 0 <= j < s.len() ==> s[j] != c,
    decreases s.len(),
{
    if s.len() == 0 {
    } else if s[s.len() - 1] == c {
    } else {
        lemma_spec_rfind_char(s.drop_last(), c);
        assert forall|j: int| 0 <= j < s.len() - 1 implies s.drop_last()[j] == s[j] by {}
    }
}

/// The last occurrence is determined by the characters.
pub proof fn lemma_spec_rfind_char_is(s: Seq<char>, c: char, i: int)
    requires
        0 <= i < s.len(),
        s[i] == c,
        forall|j: int| i < j < s.len() ==> s[j] != c,
    ensures
        spec_rfind_char(s, c) == Some(i),
    decreases s.len(),
{
    if i == s.len() - 1 {
    } else {
        assert(s.last() != c);
        assert forall|j: int| i < j < s.len() - 1 implies s.drop_last()[j] != c by {
            assert(s.drop_last()[j] == s[j]);
        }
        assert(s.drop_last()[i] == s[i]);
        lemma_spec_rfind_char_is(s.drop_last(), c, i);
    }
}

/// Last occurrence of the character `c` in `s`.
pub fn rfind_char(s: &str, c: char) -> (r: Option<usize>)
    ensures
        match r {
            Some(i) => spec_rfind_char(s@, c) == Some(i as int),
            None => spec_rfind_char(s@, c) is None,
        },
{
    let n = s.unicode_len();
    let mut i: usize = n;
    proof {
        assert(s@.take(n as int) =~= s@);
    }
    while i > 0
        invariant
            0 <= i <= n,
            n == s@.len(),
            spec_rfind_char(s@, c) == spec_rfind_char(s@.take(i as int), c),
        decreases i,
    {
        i -= 1;
        if s.get_char(i) == c {
            proof {
                assert(s@.take(i + 1)[i as int] == s@[i as int]);
            }
            return Some(i);
        }
        proof {
            assert(s@.take(i + 1).drop_last() =~= s@.take(i as int));
            assert(s@.take(i + 1)[i as int] == s@[i as int]);
        }
    }
    proof {
        assert(s@.take(0) =~= Seq::<char>::empty());
    }
    None
}

/// The segments of `s` between newline characters: one more segment than
/// there are newlines, in order, each newline-free.
pub open spec fn spec_split_lines(s: Seq<char>) -> Seq<Seq<char>>
    decreases s.len() via spec_split_lines_decreases
{
    match spec_find_char(s, '\n', 0) {
        None => seq![s],
        Some(i) => seq![s.take(i)] + spec_split_lines(s.skip(i + 1)),
    }
}

#[via_fn]
proof fn spec_split_lines_decreases(s: Seq<char>) {
    lemma_spec_find_char_first(s, '\n', 0);
}

/// Peeling the first line off the tail that starts at `start`.
pub proof fn lemma_split_lines_step(s: Seq<char>, start: int, i: int)
    requires
        0 <= start <= i < s.len(),
        s[i] == '\n',
        forall|j: int| start <= j < i ==> s[j] != '\n',
    ensures
        spec_split_lines(s.skip(start)) == seq![s.subrange(start, i)] + spec_split_lines(
            s.skip(i + 1),
        ),
{
    let t = s.skip(start);
    assert(t[i - start] == c_newline());
    lemma_spec_find_char_exists(t, '\n', 0, i - start);
    lemma_spec_find_char_first(t, '\n', 0);
    let k = spec_find_char(t, '\n', 0)->Some_0;
    assert(k == i - start) by {
        if k < i - start {
            assert(s[start + k] == t[k]);
        }
    }
    assert(t.take(i - start) =~= s.subrange(start, i));
    assert(t.skip(i - start + 1) =~= s.skip(i + 1));
}

/// The tail that starts at `start` holds no newline: it is the last line.
pub proof fn lemma_split_lines_last(s: Seq<char>, start: int)
    requires
        0 <= start <= s.len(),
        forall|j: int| start <= j < s.len() ==> s[j] != '\n',
    ensures
        spec_split_lines(s.skip(start)) == seq![s.subrange(start, s.len() as int)],
{
    let t = s.skip(start);
    lemma_spec_find_char_first(t, '\n', 0);
    if spec_find_char(t, '\n', 0) is Some {
        let k = spec_find_char(t, '\n', 0)->Some_0;
        assert(s[start + k] == t[k]);
    }
    assert(s.skip(start) =~= s.subrange(start, s.len() as int));
}

/// Newline, named so proofs can speak of it without revealing a literal.
pub open spec fn c_newline() -> char {
    '\n'
}

/// Character ranges `[start, end)` of the lines of `s`, in order.
#[verifier::rlimit(60)]
pub fn split_lines(s: &str) -> (v: Vec<(usize, usize)>)
    ensures
        v@.len() == spec_split_lines(s@).len(),
        forall|k: int|
            0 <= k < v@.len() ==> {
                &&& 0 <= #[trigger] v@[k].0 <= v@[k].1 <= s@.len()
                &&& s@.subrange(v@[k].0 as int, v@[k].1 as int) == spec_split_lines(s@)[k]
            },
{
    let n = s.unicode_len();
    let ghost full = spec_split_lines(s@);
    let mut v: Vec<(usize, usize)> = Vec::new();
    let mut start: usize = 0;
    let mut i: usize = 0;
    proof {
        assert(s@.skip(0) =~= s@);
        assert(full.skip(0) =~= full);
    }
    while i < n
        invariant
            0 <= start <= i <= n,
            n == s@.len(),
            full == spec_split_lines(s@),
            v@.len() <= full.len(),
            forall|k: int|
                0 <= k < v@.len() ==> {
                    &&& 0 <= #[trigger] v@[k].0 <= v@[k].1 <= s@.len()
                    &&& s@.subrange(v@[k].0 as int, v@[k].1 as int) == full[k]
                },
            spec_split_lines(s@.skip(start as int)) == full.skip(v@.len() as int),
            forall|j: int| start <= j < i ==> s@[j] != '\n',
        decreases n - i,
    {
        if s.get_char(i) == '\n' {
            proof {
                lemma_split_lines_step(s@, start as int, i as int);
            }
            let ghost oldv = v@;
            v.push((start, i));
            proof {
                let oldlen = oldv.len() as int;
                assert(full.skip(oldlen) == seq![s@.subrange(start as int, i as int)]
                    + spec_split_lines(s@.skip(i as int + 1)));
                assert(full.skip(oldlen).len() >= 1);
                assert(oldlen < full.len());
                assert(full.skip(oldlen)[0] == full[oldlen]);
                assert(full[oldlen] == s@.subrange(start as int, i as int));
                assert(full.skip(oldlen).drop_first() =~= full.skip(oldlen + 1));
                assert forall|k: int| 0 <= k < v@.len() implies {
                    &&& 0 <= #[trigger] v@[k].0 <= v@[k].1 <= s@.len()
                    &&& s@.subrange(v@[k].0 as int, v@[k].1 as int) == full[k]
                } by {
                    if k < oldlen {
                        assert(v@[k] == oldv[k]);
                    } else {
                        assert(v@[k] == (start, i));
                    }
                }
            }
            start = i + 1;
        }
        i += 1;
    }
    proof {
        lemma_split_lines_last(s@, start as int);
        assert(full.skip(v@.len() as int)[0] == full[v@.len() as int]);
        assert(full.skip(v@.len() as int).len() == 1);
    }
    v.push((start, n));
    v
}

/// Index of the first character of `l` at or after `i` that is not whitespace.
pub open spec fn spec_skip_spaces(l: Seq<char>, i: int) -> int
    decreases l.len() - i,
{
    if i < 0 || i >= l.len() {
        l.len() as int
    } else if is_space_char(l[i]) {
        spec_skip_spaces(l, i + 1)
    } else {
        i
    }
}

pub proof fn lemma_spec_skip_spaces(l: Seq<char>, i: int)
    requires
        0 <= i <= l.len(),
    ensures
        i <= spec_skip_spaces(l, i) <= l.len(),
        spec_skip_spaces(l, i) < l.len() ==> !is_space_char(l[spec_skip_spaces(l, i)]),
        forall|j: int| i <= j < spec_skip_spaces(l, i) ==> is_space_char(l[j]),
    decreases l.len() - i,
{
    if i < l.len() && is_space_char(l[i]) {
        lemma_spec_skip_spaces(l, i + 1);
    }
}

/// First non-whitespace position of `l`, scanning from `from`.
pub fn skip_spaces(l: &str, from: usize) -> (r: usize)
    requires
        from <= l@.len(),
    ensures
        r == spec_skip_spaces(l@, from as int),
        from <= r <= l@.len(),
{
    let n = l.unicode_len();
    let mut i: usize = from;
    while i < n
        invariant
            from <= i <= n,
            n == l@.len(),
            spec_skip_spaces(l@, from as int) == spec_skip_spaces(l@, i as int),
        decreases n - i,
    {
        if !is_space(l.get_char(i)) {
            return i;
        }
        i += 1;
    }
    i
}

/// A line whose first non-blank character is the comment marker.
pub open spec fn spec_is_comment_line(l: Seq<char>) -> bool {
    spec_skip_spaces(l, 0) < l.len() && l[spec_skip_spaces(l, 0)] == '#'
}

/// Whether the line's first non-blank character is the comment marker.
pub fn is_comment_line(l: &str) -> (r: bool)
    ensures
        r == spec_is_comment_line(l@),
{
    let i = skip_spaces(l, 0);
    if i < l.unicode_len() {
        l.get_char(i) == '#'
    } else {
        false
    }
}

/// End of the run of decimal digits that starts at `i`.
pub open spec fn spec_digits_end(l: Seq<char>, i: int) -> int
    decreases l.len() - i,
{
    if i < 0 || i >= l.len() {
        l.len() as int
    } else if is_digit_char(l[i]) {
        spec_digits_end(l, i + 1)
    } else {
        i
    }
}

pub proof fn lemma_spec_digits_end(l: Seq<char>, i: int)
    requires
        0 <= i <= l.len(),
    ensures
        i <= spec_digits_end(l, i) <= l.len(),
        spec_digits_end(l, i) < l.len() ==> !is_digit_char(l[spec_digits_end(l, i)]),
        forall|j: int| i <= j < spec_digits_end(l, i) ==> is_digit_char(l[j]),
    decreases l.len() - i,
{
    if i < l.len() && is_digit_char(l[i]) {
        lemma_spec_digits_end(l, i + 1);
    }
}

/// End of the digit run that starts at `from`.
pub fn digits_end(l: &str, from: usize) -> (r: usize)
    requires
        from <= l@.len(),
    ensures
        r == spec_digits_end(l@, from as int),
        from <= r <= l@.len(),
{
    let n = l.unicode_len();
    let mut i: usize = from;
    while i < n
        invariant
            from <= i <= n,
            n == l@.len(),
            spec_digits_end(l@, from as int) == spec_digits_end(l@, i as int),
        decreases n - i,
    {
        if !is_digit(l.get_char(i)) {
            return i;
        }
        i += 1;
    }
    i
}

/// A bare token character: anything but whitespace and the line-continuation
/// marker.
pub open spec fn is_token_char(c: char) -> bool {
    !is_space_char(c) && c != '\\'
}

/// A token character of a comma-separated attribute list: a bare token
/// character other than the comma.
pub open spec fn is_attr_char(c: char) -> bool {
    is_token_char(c) && c != ','
}

/// A plain name character: ASCII letters, digits, dash and underscore.
pub open spec fn is_name_char(c: char) -> bool {
    ('a' <= c && c <= 'z') || ('A' <= c && c <= 'Z') || ('0' <= c && c <= '9') || c == '-' || c
        == '_'
}

/// End of the run of bare token characters that starts at `i`.
pub open spec fn spec_token_end(l: Seq<char>, i: int) -> int
    decreases l.len() - i,
{
    if i < 0 || i >= l.len() {
        l.len() as int
    } else if is_token_char(l[i]) {
        spec_token_end(l, i + 1)
    } else {
        i
    }
}

pub proof fn lemma_spec_token_end(l: Seq<char>, i: int)
    requires
        0 <= i <= l.len(),
    ensures
        i <= spec_token_end(l, i) <= l.len(),
        spec_token_end(l, i) < l.len() ==> !is_token_char(l[spec_token_end(l, i)]),
        forall|j: int| i <= j < spec_token_end(l, i) ==> is_token_char(l[j]),
    decreases l.len() - i,
{
    if i < l.len() && is_token_char(l[i]) {
        lemma_spec_token_end(l, i + 1);
    }
}

/// End of the bare-token run that starts at `from`.
pub fn token_end(l: &str, from: usize) -> (r: usize)
    requires
        from <= l@.len(),
    ensures
        r == spec_token_end(l@, from as int),
        from <= r <= l@.len(),
{
    let n = l.unicode_len();
    let mut i: usize = from;
    while i < n
        invariant
            from <= i <= n,
            n == l@.len(),
            spec_token_end(l@, from as int) == spec_token_end(l@, i as int),
        decreases n - i,
    {
        let c = l.get_char(i);
        if is_space(c) || c == '\\' {
            return i;
        }
        i += 1;
    }
    i
}

/// End of the attribute-token run that starts at `i`.
pub open spec fn spec_attr_end(l: Seq<char>, i: int) -> int
    decreases l.len() - i,
{
    if i < 0 || i >= l.len() {
        l.len() as int
    } else if is_attr_char(l[i]) {
        spec_attr_end(l, i + 1)
    } else {
        i
    }
}

pub proof fn lemma_spec_attr_end(l: Seq<char>, i: int)
    requires
        0 <= i <= l.len(),
    ensures
        i <= spec_attr_end(l, i) <= l.len(),
        spec_attr_end(l, i) < l.len() ==> !is_attr_char(l[spec_attr_end(l, i)]),
        forall|j: int| i <= j < spec_attr_end(l, i) ==> is_attr_char(l[j]),
    decreases l.len() - i,
{
    if i < l.len() && is_attr_char(l[i]) {
        lemma_spec_attr_end(l, i + 1);
    }
}

/// End of the attribute-token run that starts at `from`.
pub fn attr_end(l: &str, from: usize) -> (r: usize)
    requires
        from <= l@.len(),
    ensures
        r == spec_attr_end(l@, from as int),
        from <= r <= l@.len(),
{
    let n = l.unicode_len();
    let mut i: usize = from;
    while i < n
        invariant
            from <= i <= n,
            n == l@.len(),
            spec_attr_end(l@, from as int) == spec_attr_end(l@, i as int),
        decreases n - i,
    {
        let c = l.get_char(i);
        if is_space(c) || c == '\\' || c == ',' {
            return i;
        }
        i += 1;
    }
    i
}

/// End of the plain-name run that starts at `i`.
pub open spec fn spec_name_end(l: Seq<char>, i: int) -> int
    decreases l.len() - i,
{
    if i < 0 || i >= l.len() {
        l.len() as int
    } else if is_name_char(l[i]) {
        spec_name_end(l, i + 1)
    } else {
        i
    }
}

pub proof fn lemma_spec_name_end(l: Seq<char>, i: int)
    requires
        0 <= i <= l.len(),
    ensures
        i <= spec_name_end(l, i) <= l.len(),
        forall|j: int| i <= j < spec_name_end(l, i) ==> is_name_char(l[j]),
    decreases l.len() - i,
{
    if i < l.len() && is_name_char(l[i]) {
        lemma_spec_name_end(l, i + 1);
    }
}

/// End of the plain-name run that starts at `from`.
pub fn name_end(l: &str, from: usize) -> (r: usize)
    requires
        from <= l@.len(),
    ensures
        r == spec_name_end(l@, from as int),
        from <= r <= l@.len(),
{
    let n = l.unicode_len();
    let mut i: usize = from;
    while i < n
        invariant
            from <= i <= n,
            n == l@.len(),
            spec_name_end(l@, from as int) == spec_name_end(l@, i as int),
        decreases n - i,
    {
        let c = l.get_char(i);
        let ok = ('a' <= c && c <= 'z') || ('A' <= c && c <= 'Z') || ('0' <= c && c <= '9') || c
            == '-' || c == '_';
        if !ok {
            return i;
        }
        i += 1;
    }
    i
}

/// Length of `s` once trailing whitespace is removed.
pub open spec fn spec_rtrim(s: Seq<char>) -> int
    decreases s.len(),
{
    if s.len() == 0 {
        0
    } else if is_space_char(s.last()) {
        spec_rtrim(s.drop_last())
    } else {
        s.len() as int
    }
}

pub proof fn lemma_spec_rtrim(s: Seq<char>)
    ensures
        0 <= spec_rtrim(s) <= s.len(),
        spec_rtrim(s) > 0 ==> !is_space_char(s[spec_rtrim(s) - 1]),
        forall|j: int| spec_rtrim(s) <= j < s.len() ==> is_space_char(s[j]),
    decreases s.len(),
{
    if s.len() > 0 && is_space_char(s.last()) {
        lemma_spec_rtrim(s.drop_last());
        assert(forall|j: int| 0 <= j < s.len() - 1 ==> s.drop_last()[j] == s[j]);
    }
}

/// Length of `s` once trailing whitespace is removed.
pub fn rtrim_end(s: &str) -> (r: usize)
    ensures
        r == spec_rtrim(s@),
        r <= s@.len(),
{
    let n = s.unicode_len();
    let mut i: usize = n;
    proof {
        assert(s@.take(n as int) =~= s@);
        lemma_spec_rtrim(s@);
    }
    while i > 0
        invariant
            0 <= i <= n,
            n == s@.len(),
            spec_rtrim(s@) == spec_rtrim(s@.take(i as int)),
        decreases i,
    {
        proof {
            assert(s@.take(i as int).last() == s@[i - 1]);
            assert(s@.take(i as int).drop_last() =~= s@.take(i - 1));
        }
        if !is_space(s.get_char(i - 1)) {
            return i;
        }
        i -= 1;
    }
    proof {
        assert(s@.take(0) =~= Seq::<char>::empty());
    }
    0
}

/// Numeric value of a run of decimal digits, most significant first.
pub open spec fn spec_digits_val(d: Seq<char>) -> nat
    decreases d.len(),
{
    if d.len() == 0 {
        0
    } else {
        spec_digits_val(d.drop_last()) * 10 + (d.last() as u32 - 48) as nat
    }
}

/// Digit values only grow as more digits are appended.
pub proof fn lemma_digits_val_prefix_le(d: Seq<char>, i: int, j: int)
    requires
        0 <= i <= j <= d.len(),
    ensures
        spec_digits_val(d.take(i)) <= spec_digits_val(d.take(j)),
    decreases j - i,
{
    if i < j {
        lemma_digits_val_prefix_le(d, i, j - 1);
        assert(d.take(j).drop_last() =~= d.take(j - 1));
        assert(spec_digits_val(d.take(j)) == spec_digits_val(d.take(j - 1)) * 10 + (d.take(
            j,
        ).last() as u32 - 48) as nat);
    }
}

/// The value of the digit run `l[from..to)`, when it is non-empty and fits
/// in 32 bits.
pub fn parse_u32(l: &str, from: usize, to: usize) -> (r: Option<u32>)
    requires
        from <= to <= l@.len(),
        forall|j: int| from <= j < to ==> is_digit_char(l@[j]),
    ensures
        match r {
            Some(v) => to > from && spec_digits_val(l@.subrange(from as int, to as int)) == v,
            None => to == from || spec_digits_val(l@.subrange(from as int, to as int))
                > u32::MAX,
        },
{
    if to == from {
        return None;
    }
    let ghost d = l@.subrange(from as int, to as int);
    let mut val: u32 = 0;
    let mut i: usize = from;
    while i < to
        invariant
            from <= i <= to <= l@.len(),
            d == l@.subrange(from as int, to as int),
            forall|j: int| from <= j < to ==> is_digit_char(l@[j]),
            val == spec_digits_val(d.take(i - from)),
        decreases to - i,
    {
        let c = l.get_char(i);
        let dv: u32 = c as u32 - 48;
        proof {
            assert(d[i - from] == l@[i as int]);
            assert(is_digit_char(d[i - from]));
            assert(dv <= 9);
            assert(d.take(i - from + 1).drop_last() =~= d.take(i - from));
            assert(d.take(i - from + 1).last() == d[i - from]);
        }
        if val > (u32::MAX - dv) / 10 {
            proof {
                assert(spec_digits_val(d.take(i - from + 1)) == val * 10 + dv);
                assert(spec_digits_val(d.take(i - from + 1)) > u32::MAX);
                lemma_digits_val_prefix_le(d, i - from + 1, d.len() as int);
                assert(d.take(d.len() as int) =~= d);
            }
            return None;
        }
        val = val * 10 + dv;
        i += 1;
    }
    proof {
        assert(d.take(d.len() as int) =~= d);
    }
    Some(val)
}

/// `s` with every occurrence of `pat` replaced by `rep`, scanning left to
/// right; an empty pattern leaves `s` unchanged.
pub open spec fn spec_replace_all(s: Seq<char>, pat: Seq<char>, rep: Seq<char>) -> Seq<char>
    decreases s.len() via spec_replace_all_decreases
{
    if pat.len() == 0 {
        s
    } else {
        match spec_find(s, pat, 0) {
            None => s,
            Some(i) => s.take(i) + rep + spec_replace_all(
                s.skip(i + pat.len() as int),
                pat,
                rep,
            ),
        }
    }
}

#[via_fn]
proof fn spec_replace_all_decreases(s: Seq<char>, pat: Seq<char>, rep: Seq<char>) {
    if pat.len() > 0 {
        lemma_spec_find_first(s, pat, 0);
    }
}

/// Occurrences of `pat` in a suffix, re-expressed in the suffix's indices.
pub proof fn lemma_spec_find_skip(s: Seq<char>, pat: Seq<char>, from: int, base: int)
    requires
        0 <= base <= from,
        from <= s.len(),
    ensures
        spec_find(s.skip(base), pat, from - base) == match spec_find(s, pat, from) {
            None => None::<int>,
            Some(i) => Some(i - base),
        },
    decreases s.len() - from,
{
    let t = s.skip(base);
    assert forall|j: int| base <= j && match_at(t, pat, j - base) implies match_at(
        s,
        pat,
        j,
    ) by {
        assert(t.subrange(j - base, j - base + pat.len() as int) =~= s.subrange(
            j,
            j + pat.len() as int,
        ));
    }
    assert forall|j: int| base <= j && match_at(s, pat, j) implies match_at(
        t,
        pat,
        j - base,
    ) by {
        assert(t.subrange(j - base, j - base + pat.len() as int) =~= s.subrange(
            j,
            j + pat.len() as int,
        ));
    }
    if from + pat.len() > s.len() {
    } else if match_at(s, pat, from) {
    } else {
        if pat.len() == 0 {
            assert(s.subrange(from, from) =~= pat);
        }
        lemma_spec_find_skip(s, pat, from + 1, base);
    }
}

/// `s` with every occurrence of `pat` replaced by `rep`.
pub fn replace_all(s: &str, pat: &str, rep: &str) -> (r: String)
    ensures
        r@ == spec_replace_all(s@, pat@, rep@),
{
    let plen = pat.unicode_len();
    if plen == 0 {
        return String::from_str(s);
    }
    let slen = s.unicode_len();
    let mut out = String::new();
    let mut pos: usize = 0;
    proof {
        assert(s@.skip(0) =~= s@);
        assert(Seq::<char>::empty() + spec_replace_all(s@, pat@, rep@) =~= spec_replace_all(
            s@,
            pat@,
            rep@,
        ));
    }
    loop
        invariant
            0 <= pos <= slen,
            slen == s@.len(),
            plen == pat@.len(),
            plen > 0,
            out@ + spec_replace_all(s@.skip(pos as int), pat@, rep@) == spec_replace_all(
                s@,
                pat@,
                rep@,
            ),
        decreases slen - pos,
    {
        match find_from(s, pos, pat) {
            Some(i) => {
                proof {
                    lemma_spec_find_first(s@, pat@, pos as int);
                    lemma_spec_find_skip(s@, pat@, pos as int, pos as int);
                    assert(s@.skip(pos as int).take(i - pos) =~= s@.subrange(
                        pos as int,
                        i as int,
                    ));
                    assert(s@.skip(pos as int).skip(i - pos + pat@.len() as int) =~= s@.skip(
                        i + pat@.len() as int,
                    ));
                }
                let piece = s.substring_char(pos, i);
                out.append(piece);
                out.append(rep);
                proof {
                    assert(out@ + spec_replace_all(s@.skip(i + plen), pat@, rep@)
                        == spec_replace_all(s@, pat@, rep@));
                }
                pos = i + plen;
            },
            None => {
                proof {
                    lemma_spec_find_skip(s@, pat@, pos as int, pos as int);
                    assert(s@.skip(pos as int).skip(0) =~= s@.skip(pos as int));
                }
                let piece = s.substring_char(pos, slen);
                out.append(piece);
                proof {
                    assert(s@.skip(pos as int) =~= s@.subrange(pos as int, slen as int));
                }
                return out;
            },
        }
    }
}

/// The lines joined back with newlines: the inverse of splitting.
pub open spec fn spec_join_lines(ls: Seq<Seq<char>>) -> Seq<char>
    decreases ls.len(),
{
    if ls.len() == 0 {
        Seq::empty()
    } else if ls.len() == 1 {
        ls[0]
    } else {
        ls[0] + seq!['\n'] + spec_join_lines(ls.drop_first())
    }
}

/// Splitting always yields at least one segment.
pub proof fn lemma_split_lines_nonempty(s: Seq<char>)
    ensures
        spec_split_lines(s).len() >= 1,
{
    lemma_spec_find_char_first(s, '\n', 0);
}

/// No segment of a split holds a newline.
pub proof fn lemma_split_lines_no_newline(s: Seq<char>)
    ensures
        forall|k: int, j: int|
            0 <= k < spec_split_lines(s).len() && 0 <= j < spec_split_lines(s)[k].len()
                ==> spec_split_lines(s)[k][j] != '\n',
    decreases s.len(),
{
    lemma_spec_find_char_first(s, '\n', 0);
    match spec_find_char(s, '\n', 0) {
        None => {},
        Some(i) => {
            lemma_split_lines_no_newline(s.skip(i + 1));
            let ls = spec_split_lines(s);
            let rest = spec_split_lines(s.skip(i + 1));
            assert forall|k: int, j: int|
                0 <= k < ls.len() && 0 <= j < ls[k].len() implies ls[k][j] != '\n' by {
                if k == 0 {
                    assert(ls[0] == s.take(i));
                    assert(s.take(i)[j] == s[j]);
                } else {
                    assert(ls[k] == rest[k - 1]);
                }
            }
        },
    }
}

/// Joining the lines of a text restores the text.
pub proof fn lemma_join_split(s: Seq<char>)
    ensures
        spec_join_lines(spec_split_lines(s)) == s,
    decreases s.len(),
{
    lemma_spec_find_char_first(s, '\n', 0);
    match spec_find_char(s, '\n', 0) {
        None => {},
        Some(i) => {
            lemma_join_split(s.skip(i + 1));
            lemma_split_lines_nonempty(s.skip(i + 1));
            let ls = spec_split_lines(s);
            let rest = spec_split_lines(s.skip(i + 1));
            assert(ls.drop_first() =~= rest);
            assert(ls[0] == s.take(i));
            assert(s.take(i) + seq!['\n'] + s.skip(i + 1) =~= s);
        },
    }
}

/// Splitting the join of newline-free lines restores the lines.
pub proof fn lemma_split_join(ls: Seq<Seq<char>>)
    requires
        ls.len() >= 1,
        forall|k: int, j: int|
            0 <= k < ls.len() && 0 <= j < ls[k].len() ==> ls[k][j] != '\n',
    ensures
        spec_split_lines(spec_join_lines(ls)) == ls,
    decreases ls.len(),
{
    let s = spec_join_lines(ls);
    if ls.len() == 1 {
        lemma_spec_find_char_first(s, '\n', 0);
        if spec_find_char(s, '\n', 0) is Some {
            let i = spec_find_char(s, '\n', 0)->Some_0;
            assert(s[i] == ls[0][i]);
            assert(false);
        }
        assert(spec_split_lines(s) =~= seq![ls[0]]);
    } else {
        let rest = ls.drop_first();
        lemma_split_join(rest);
        let n0 = ls[0].len() as int;
        assert(s == ls[0] + seq!['\n'] + spec_join_lines(rest));
        assert(s[n0] == '\n');
        lemma_spec_find_char_exists(s, '\n', 0, n0);
        lemma_spec_find_char_first(s, '\n', 0);
        let i = spec_find_char(s, '\n', 0)->Some_0;
        assert(i == n0) by {
            if i < n0 {
                assert(s[i] == ls[0][i]);
            }
        }
        assert(s.take(n0) =~= ls[0]);
        assert(s.skip(n0 + 1) =~= spec_join_lines(rest));
        assert(spec_split_lines(s) =~= seq![ls[0]] + spec_split_lines(spec_join_lines(rest)));
        assert(seq![ls[0]] + rest =~= ls);
    }
}

/// Joining distributes over concatenation of non-empty line sequences.
pub proof fn lemma_join_concat(a: Seq<Seq<char>>, b: Seq<Seq<char>>)
    requires
        a.len() >= 1,
        b.len() >= 1,
    ensures
        spec_join_lines(a + b) == spec_join_lines(a) + seq!['\n'] + spec_join_lines(b),
    decreases a.len(),
{
    if a.len() == 1 {
        assert((a + b).len() >= 2);
        assert((a + b)[0] == a[0]);
        assert((a + b).drop_first() =~= b);
        assert(spec_join_lines(a + b) == a[0] + seq!['\n'] + spec_join_lines(b));
    } else {
        lemma_join_concat(a.drop_first(), b);
        assert((a + b)[0] == a[0]);
        assert((a + b).drop_first() =~= a.drop_first() + b);
        assert(a[0] + seq!['\n'] + (spec_join_lines(a.drop_first()) + seq!['\n']
            + spec_join_lines(b)) =~= (a[0] + seq!['\n'] + spec_join_lines(a.drop_first()))
            + seq!['\n'] + spec_join_lines(b));
    }
}

/// Index of the first line at or after `from` that satisfies `p`.
pub open spec fn spec_first_hit(ls: Seq<Seq<char>>, from: int, p: spec_fn(Seq<char>) -> bool) -> Option<int>
    decreases ls.len() - from,
{
    if from < 0 || from >= ls.len() {
        None
    } else if p(ls[from]) {
        Some(from)
    } else {
        spec_first_hit(ls, from + 1, p)
    }
}

pub proof fn lemma_spec_first_hit(ls: Seq<Seq<char>>, from: int, p: spec_fn(Seq<char>) -> bool)
    requires
        0 <= from,
    ensures
        spec_first_hit(ls, from, p) matches Some(i) ==> {
            &&& from <= i < ls.len()
            &&& p(ls[i])
            &&& forall|j: int| from <= j < i ==> !p(ls[j])
        },
        spec_first_hit(ls, from, p) is None ==> forall|j: int| from <= j < ls.len() ==> !p(ls[j]),
    decreases ls.len() - from,
{
    if from >= ls.len() {
    } else if p(ls[from]) {
    } else {
        lemma_spec_first_hit(ls, from + 1, p);
    }
}

/// Index of the last line that satisfies `p`.
pub open spec fn spec_last_hit(ls: Seq<Seq<char>>, p: spec_fn(Seq<char>) -> bool) -> Option<int>
    decreases ls.len(),
{
    if ls.len() == 0 {
        None
    } else if p(ls.last()) {
        Some(ls.len() - 1)
    } else {
        spec_last_hit(ls.drop_last(), p)
    }
}

pub proof fn lemma_spec_last_hit(ls: Seq<Seq<char>>, p: spec_fn(Seq<char>) -> bool)
    ensures
        spec_last_hit(ls, p) matches Some(i) ==> {
            &&& 0 <= i < ls.len()
            &&& p(ls[i])
            &&& forall|j: int| i < j < ls.len() ==> !p(ls[j])
        },
        spec_last_hit(ls, p) is None ==> forall|j: int| 0 <= j < ls.len() ==> !p(ls[j]),
    decreases ls.len(),
{
    if ls.len() == 0 {
    } else if p(ls.last()) {
    } else {
        lemma_spec_last_hit(ls.drop_last(), p);
        assert(forall|j: int| 0 <= j < ls.len() - 1 ==> ls.drop_last()[j] == ls[j]);
    }
}

/// The lines of `ls` that do not satisfy `p`, in order.
pub open spec fn spec_drop_hits(ls: Seq<Seq<char>>, p: spec_fn(Seq<char>) -> bool) -> Seq<Seq<char>>
    decreases ls.len(),
{
    if ls.len() == 0 {
        Seq::empty()
    } else if p(ls[0]) {
        spec_drop_hits(ls.drop_first(), p)
    } else {
        seq![ls[0]] + spec_drop_hits(ls.drop_first(), p)
    }
}

/// Dropping hits commutes with appending one line.
pub proof fn lemma_drop_hits_push(a: Seq<Seq<char>>, x: Seq<char>, p: spec_fn(Seq<char>) -> bool)
    ensures
        spec_drop_hits(a.push(x), p) == spec_drop_hits(a, p) + (if p(x) {
            Seq::<Seq<char>>::empty()
        } else {
            seq![x]
        }),
    decreases a.len(),
{
    reveal_with_fuel(spec_drop_hits, 3);
    if a.len() == 0 {
        assert(a.push(x)[0] == x);
        assert(a.push(x).drop_first() =~= Seq::<Seq<char>>::empty());
        if p(x) {
            assert(spec_drop_hits(a, p) + Seq::<Seq<char>>::empty() =~= spec_drop_hits(a, p));
        } else {
            assert(spec_drop_hits(a.push(x), p) =~= seq![x]);
            assert(spec_drop_hits(a, p) + seq![x] =~= seq![x]);
        }
    } else {
        lemma_drop_hits_push(a.drop_first(), x, p);
        assert(a.push(x)[0] == a[0]);
        assert(a.push(x).drop_first() =~= a.drop_first().push(x));
        if p(a[0]) {
        } else {
            if p(x) {
                assert(spec_drop_hits(a, p) + Seq::<Seq<char>>::empty() =~= spec_drop_hits(a, p));
                assert(spec_drop_hits(a.drop_first(), p) + Seq::<Seq<char>>::empty()
                    =~= spec_drop_hits(a.drop_first(), p));
            } else {
                assert(seq![a[0]] + (spec_drop_hits(a.drop_first(), p) + seq![x]) =~= (seq![a[0]]
                    + spec_drop_hits(a.drop_first(), p)) + seq![x]);
            }
        }
    }
}

/// Dropping hits from a hit-free sequence changes nothing.
pub proof fn lemma_drop_hits_id(ls: Seq<Seq<char>>, p: spec_fn(Seq<char>) -> bool)
    requires
        forall|j: int| 0 <= j < ls.len() ==> !p(ls[j]),
    ensures
        spec_drop_hits(ls, p) == ls,
    decreases ls.len(),
{
    if ls.len() > 0 {
        assert(forall|j: int| 0 <= j < ls.len() - 1 ==> ls.drop_first()[j] == ls[j + 1]);
        lemma_drop_hits_id(ls.drop_first(), p);
        assert(seq![ls[0]] + ls.drop_first() =~= ls);
    }
}

/// What remains after dropping hits holds no hit, and every remaining line
/// was a line of the input.
pub proof fn lemma_drop_hits_members(ls: Seq<Seq<char>>, p: spec_fn(Seq<char>) -> bool)
    ensures
        forall|k: int|
            0 <= k < spec_drop_hits(ls, p).len() ==> !p(#[trigger] spec_drop_hits(ls, p)[k]),
        forall|k: int|
            0 <= k < spec_drop_hits(ls, p).len() ==> ls.contains(
                #[trigger] spec_drop_hits(ls, p)[k],
            ),
    decreases ls.len(),
{
    if ls.len() > 0 {
        lemma_drop_hits_members(ls.drop_first(), p);
        let rest = spec_drop_hits(ls.drop_first(), p);
        assert forall|x: Seq<char>| ls.drop_first().contains(x) implies ls.contains(x) by {
            let j0 = choose|j0: int| 0 <= j0 < ls.drop_first().len() && ls.drop_first()[j0] == x;
            assert(ls[j0 + 1] == x);
        }
        let out = spec_drop_hits(ls, p);
        if !p(ls[0]) {
            assert forall|k: int| 0 <= k < out.len() implies !p(#[trigger] out[k]) && ls.contains(
                out[k],
            ) by {
                if k == 0 {
                    assert(out[0] == ls[0]);
                    assert(ls.contains(ls[0]));
                } else {
                    assert(out[k] == rest[k - 1]);
                    assert(ls.drop_first().contains(rest[k - 1]));
                }
            }
        } else {
            assert forall|k: int| 0 <= k < out.len() implies !p(#[trigger] out[k]) && ls.contains(
                out[k],
            ) by {
                assert(out[k] == rest[k]);
                assert(ls.drop_first().contains(rest[k]));
            }
        }
    }
}

/// Whether `s` begins with `pat`.
pub fn starts_with_str(s: &str, pat: &str) -> (r: bool)
    ensures
        r == match_at(s@, pat@, 0),
{
    let n = s.unicode_len();
    let m = pat.unicode_len();
    if m > n {
        return false;
    }
    let mut j: usize = 0;
    while j < m
        invariant
            0 <= j <= m <= n,
            n == s@.len(),
            m == pat@.len(),
            forall|k: int| 0 <= k < j ==> s@[k] == pat@[k],
        decreases m - j,
    {
        if s.get_char(j) != pat.get_char(j) {
            proof {
                assert(s@.subrange(0, m as int)[j as int] == s@[j as int]);
            }
            return false;
        }
        j += 1;
    }
    proof {
        assert(s@.subrange(0, m as int) =~= pat@);
    }
    true
}

/// End of the run of non-whitespace characters that starts at `i`.
pub open spec fn spec_word_end(l: Seq<char>, i: int) -> int
    decreases l.len() - i,
{
    if i < 0 || i >= l.len() {
        l.len() as int
    } else if !is_space_char(l[i]) {
        spec_word_end(l, i + 1)
    } else {
        i
    }
}

pub proof fn lemma_spec_word_end(l: Seq<char>, i: int)
    requires
        0 <= i <= l.len(),
    ensures
        i <= spec_word_end(l, i) <= l.len(),
        i < l.len() && !is_space_char(l[i]) ==> spec_word_end(l, i) > i,
        spec_word_end(l, i) < l.len() ==> is_space_char(l[spec_word_end(l, i)]),
        forall|j: int| i <= j < spec_word_end(l, i) ==> !is_space_char(l[j]),
    decreases l.len() - i,
{
    if i < l.len() && !is_space_char(l[i]) {
        lemma_spec_word_end(l, i + 1);
    }
}

/// End of the non-whitespace run that starts at `from`.
pub fn word_end(l: &str, from: usize) -> (r: usize)
    requires
        from <= l@.len(),
    ensures
        r == spec_word_end(l@, from as int),
        from <= r <= l@.len(),
{
    let n = l.unicode_len();
    let mut i: usize = from;
    while i < n
        invariant
            from <= i <= n,
            n == l@.len(),
            spec_word_end(l@, from as int) == spec_word_end(l@, i as int),
        decreases n - i,
    {
        if is_space(l.get_char(i)) {
            return i;
        }
        i += 1;
    }
    i
}

/// Skipping blanks in a suffix, re-expressed in the suffix's indices.
pub proof fn lemma_skip_spaces_shift(s: Seq<char>, p: int, i: int)
    requires
        0 <= p <= i <= s.len(),
    ensures
        spec_skip_spaces(s.skip(p), i - p) == spec_skip_spaces(s, i) - p,
    decreases s.len() - i,
{
    if i < s.len() {
        assert(s.skip(p)[i - p] == s[i]);
        if is_space_char(s[i]) {
            lemma_skip_spaces_shift(s, p, i + 1);
        }
    }
}

/// A word's end in a suffix, re-expressed in the suffix's indices.
pub proof fn lemma_word_end_shift(s: Seq<char>, p: int, i: int)
    requires
        0 <= p <= i <= s.len(),
    ensures
        spec_word_end(s.skip(p), i - p) == spec_word_end(s, i) - p,
    decreases s.len() - i,
{
    if i < s.len() {
        assert(s.skip(p)[i - p] == s[i]);
        if !is_space_char(s[i]) {
            lemma_word_end_shift(s, p, i + 1);
        }
    }
}

/// The whitespace-separated words of `s`, in order, each non-empty.
pub open spec fn spec_words(s: Seq<char>) -> Seq<Seq<char>>
    decreases s.len() via spec_words_decreases
{
    let t0 = spec_skip_spaces(s, 0);
    if t0 >= s.len() {
        Seq::empty()
    } else {
        let e = spec_word_end(s, t0);
        seq![s.subrange(t0, e)] + spec_words(s.skip(e))
    }
}

#[via_fn]
proof fn spec_words_decreases(s: Seq<char>) {
    lemma_spec_skip_spaces(s, 0);
    let t0 = spec_skip_spaces(s, 0);
    if t0 < s.len() {
        lemma_spec_word_end(s, t0);
    }
}

/// The whitespace-separated words of `s`, as owned strings.
pub fn split_words(s: &str) -> (r: Vec<String>)
    ensures
        r@.len() == spec_words(s@).len(),
        forall|i: int| 0 <= i < r@.len() ==> #[trigger] r@[i]@ == spec_words(s@)[i],
{
    let ghost ws = spec_words(s@);
    let n = s.unicode_len();
    let mut r: Vec<String> = Vec::new();
    let mut pos: usize = 0;
    proof {
        assert(s@.skip(0) =~= s@);
        assert(ws.skip(0) =~= ws);
    }
    while pos < n
        invariant
            0 <= pos <= n,
            n == s@.len(),
            ws == spec_words(s@),
            r@.len() <= ws.len(),
            forall|i: int| 0 <= i < r@.len() ==> #[trigger] r@[i]@ == ws[i],
            spec_words(s@.skip(pos as int)) == ws.skip(r@.len() as int),
        decreases n - pos,
    {
        let i0 = skip_spaces(s, pos);
        proof {
            lemma_skip_spaces_shift(s@, pos as int, pos as int);
            lemma_spec_skip_spaces(s@, pos as int);
        }
        if i0 == n {
            proof {
                assert(spec_words(s@.skip(pos as int)) =~= Seq::<Seq<char>>::empty());
                assert(ws.skip(r@.len() as int).len() == 0);
            }
            return r;
        }
        let e = word_end(s, i0);
        proof {
            lemma_word_end_shift(s@, pos as int, i0 as int);
            lemma_spec_word_end(s@, i0 as int);
            let t = s@.skip(pos as int);
            assert(t.subrange(i0 - pos, e - pos) =~= s@.subrange(i0 as int, e as int));
            assert(t.skip(e - pos) =~= s@.skip(e as int));
            assert(spec_words(t) == seq![s@.subrange(i0 as int, e as int)] + spec_words(
                s@.skip(e as int),
            ));
            assert(ws.skip(r@.len() as int)[0] == ws[r@.len() as int]);
            assert(ws[r@.len() as int] == s@.subrange(i0 as int, e as int));
            assert(ws.skip(r@.len() as int).drop_first() =~= ws.skip(r@.len() as int + 1));
            assert(spec_words(s@.skip(e as int)) =~= ws.skip(r@.len() as int).drop_first());
        }
        r.push(String::from_str(s.substring_char(i0, e)));
        pos = e;
    }
    proof {
        assert(s@.skip(n as int).len() == 0);
        assert(spec_skip_spaces(s@.skip(n as int), 0) >= 0);
        assert(spec_words(s@.skip(n as int)) =~= Seq::<Seq<char>>::empty());
        assert(ws.skip(r@.len() as int).len() == 0);
    }
    r
}

/// Words joined with single spaces.
pub open spec fn spec_join_words(ws: Seq<Seq<char>>) -> Seq<char>
    decreases ws.len(),
{
    if ws.len() == 0 {
        Seq::empty()
    } else if ws.len() == 1 {
        ws[0]
    } else {
        ws[0] + seq![' '] + spec_join_words(ws.drop_first())
    }
}

/// Word joining distributes over concatenation of non-empty sequences.
pub proof fn lemma_join_words_concat(a: Seq<Seq<char>>, b: Seq<Seq<char>>)
    requires
        a.len() >= 1,
        b.len() >= 1,
    ensures
        spec_join_words(a + b) == spec_join_words(a) + seq![' '] + spec_join_words(b),
    decreases a.len(),
{
    if a.len() == 1 {
        assert((a + b).len() >= 2);
        assert((a + b)[0] == a[0]);
        assert((a + b).drop_first() =~= b);
        assert(spec_join_words(a + b) == a[0] + seq![' '] + spec_join_words(b));
    } else {
        lemma_join_words_concat(a.drop_first(), b);
        assert((a + b)[0] == a[0]);
        assert((a + b).drop_first() =~= a.drop_first() + b);
        assert(a[0] + seq![' '] + (spec_join_words(a.drop_first()) + seq![' ']
            + spec_join_words(b)) =~= (a[0] + seq![' '] + spec_join_words(a.drop_first()))
            + seq![' '] + spec_join_words(b));
    }
}

/// Lower-case image of a character sequence.
pub open spec fn spec_lower_seq(s: Seq<char>) -> Seq<char> {
    s.map_values(|c: char| lower_char(c))
}

/// The string with every ASCII letter lower-cased.
pub fn lower_string(s: &str) -> (r: String)
    ensures
        r@ == spec_lower_seq(s@),
{
    let n = s.unicode_len();
    let mut r = String::new();
    let mut i: usize = 0;
    proof {
        assert(r@ =~= spec_lower_seq(s@.take(0)));
    }
    while i < n
        invariant
            0 <= i <= n,
            n == s@.len(),
            r@ == spec_lower_seq(s@.take(i as int)),
        decreases n - i,
    {
        push_char(&mut r, to_lower(s.get_char(i)));
        proof {
            assert(spec_lower_seq(s@.take(i as int + 1)) =~= spec_lower_seq(
                s@.take(i as int),
            ).push(lower_char(s@[i as int])));
        }
        i += 1;
    }
    proof {
        assert(s@.take(n as int) =~= s@);
    }
    r
}

/// A position that matches, with no earlier match, is what the search finds.
pub proof fn lemma_spec_find_is(s: Seq<char>, pat: Seq<char>, from: int, i: int)
    requires
        0 <= from <= i,
        match_at(s, pat, i),
        forall|j: int| from <= j < i ==> !match_at(s, pat, j),
    ensures
        spec_find(s, pat, from) == Some(i),
{
    lemma_spec_find_exists(s, pat, from, i);
    lemma_spec_find_first(s, pat, from);
    let w = spec_find(s, pat, from)->Some_0;
    if w < i {
    } else if w > i {
    }
}

/// The first non-blank position is determined by the characters.
pub proof fn lemma_spec_skip_spaces_is(l: Seq<char>, from: int, t: int)
    requires
        0 <= from <= t <= l.len(),
        forall|j: int| from <= j < t ==> is_space_char(l[j]),
        t < l.len() ==> !is_space_char(l[t]),
    ensures
        spec_skip_spaces(l, from) == t,
{
    lemma_spec_skip_spaces(l, from);
    let w = spec_skip_spaces(l, from);
    if w < t {
    } else if w > t {
    }
}

/// The end of a digit run is determined by the characters.
pub proof fn lemma_spec_digits_end_is(l: Seq<char>, from: int, t: int)
    requires
        0 <= from <= t <= l.len(),
        forall|j: int| from <= j < t ==> is_digit_char(l[j]),
        t < l.len() ==> !is_digit_char(l[t]),
    ensures
        spec_digits_end(l, from) == t,
{
    lemma_spec_digits_end(l, from);
    let w = spec_digits_end(l, from);
    if w < t {
    } else if w > t {
    }
}

/// The end of a token run is determined by the characters.
pub proof fn lemma_spec_token_end_is(l: Seq<char>, from: int, t: int)
    requires
        0 <= from <= t <= l.len(),
        forall|j: int| from <= j < t ==> is_token_char(l[j]),
        t < l.len() ==> !is_token_char(l[t]),
    ensures
        spec_token_end(l, from) == t,
{
    lemma_spec_token_end(l, from);
    let w = spec_token_end(l, from);
    if w < t {
    } else if w > t {
    }
}

/// A hit with no earlier hit is what the line search finds.
pub proof fn lemma_spec_first_hit_is(
    ls: Seq<Seq<char>>,
    from: int,
    i: int,
    p: spec_fn(Seq<char>) -> bool,
)
    requires
        0 <= from <= i < ls.len(),
        p(ls[i]),
        forall|j: int| from <= j < i ==> !p(ls[j]),
    ensures
        spec_first_hit(ls, from, p) == Some(i),
    decreases i - from,
{
    if from == i {
    } else {
        lemma_spec_first_hit_is(ls, from + 1, i, p);
    }
}

/// A hit with no later hit is what the backwards line search finds.
pub proof fn lemma_spec_last_hit_is(ls: Seq<Seq<char>>, i: int, p: spec_fn(Seq<char>) -> bool)
    requires
        0 <= i < ls.len(),
        p(ls[i]),
        forall|j: int| i < j < ls.len() ==> !p(ls[j]),
    ensures
        spec_last_hit(ls, p) == Some(i),
    decreases ls.len(),
{
    if i == ls.len() - 1 {
    } else {
        assert(!p(ls.last()));
        assert forall|j: int| i < j < ls.len() - 1 implies !p(#[trigger] ls.drop_last()[j]) by {
            assert(ls.drop_last()[j] == ls[j]);
        }
        assert(ls.drop_last()[i] == ls[i]);
        lemma_spec_last_hit_is(ls.drop_last(), i, p);
    }
}

/// A replacement whose pattern heads the text starts with the replacement.
pub proof fn lemma_replace_all_prefix(s: Seq<char>, pat: Seq<char>, rep: Seq<char>)
    requires
        pat.len() > 0,
        match_at(s, pat, 0),
    ensures
        spec_replace_all(s, pat, rep) == rep + spec_replace_all(
            s.skip(pat.len() as int),
            pat,
            rep,
        ),
{
    assert(spec_find(s, pat, 0) == Some(0int));
    assert(s.take(0) + rep + spec_replace_all(s.skip(pat.len() as int), pat, rep) =~= rep
        + spec_replace_all(s.skip(pat.len() as int), pat, rep));
}

/// A region with no match is copied through unchanged by replacement.
pub proof fn lemma_replace_all_after(s: Seq<char>, pat: Seq<char>, rep: Seq<char>, d: int)
    requires
        pat.len() > 0,
        0 <= d <= s.len(),
        forall|j: int| 0 <= j < d ==> !match_at(s, pat, j),
    ensures
        spec_replace_all(s, pat, rep) == s.take(d) + spec_replace_all(s.skip(d), pat, rep),
{
    lemma_spec_find_first(s, pat, 0);
    lemma_spec_find_skip(s, pat, d, d);
    match spec_find(s, pat, 0) {
        None => {
            lemma_spec_find_first(s, pat, d);
            if spec_find(s, pat, d) is Some {
                assert(match_at(s, pat, spec_find(s, pat, d)->Some_0));
            }
            assert(spec_find(s.skip(d), pat, 0) is None);
            assert(s.take(d) + s.skip(d) =~= s);
        },
        Some(i) => {
            assert(i >= d);
            lemma_spec_find_exists(s, pat, d, i);
            lemma_spec_find_first(s, pat, d);
            let w = spec_find(s, pat, d)->Some_0;
            assert(w == i) by {
                if w < i {
                } else if w > i {
                }
            }
            assert(spec_find(s.skip(d), pat, 0) == Some(i - d));
            let t = s.skip(d);
            assert(t.take(i - d) =~= s.subrange(d, i));
            assert(t.skip(i - d + pat.len() as int) =~= s.skip(i + pat.len() as int));
            assert(s.take(d) + (t.take(i - d) + rep + spec_replace_all(
                t.skip(i - d + pat.len() as int),
                pat,
                rep,
            )) =~= s.take(i) + rep + spec_replace_all(s.skip(i + pat.len() as int), pat, rep));
        },
    }
}

/// Relies on `String::push` from std (vstd gives it no specification):
/// it appends exactly the given character to the end of the string.
#[verifier::external_body]
pub fn push_char(s: &mut String, c: char)
    ensures
        final(s)@ == old(s)@.push(c),
{
    s.push(c);
}

} // verus!
