//! Reading the processes of a terminal: the summary line that Linux keeps
//! for each process in `/proc/<pid>/stat`, and which of the processes on a
//! shell's terminal an interrupt left behind.

use vstd::prelude::*;

use crate::text::{chars_of, string_of};

verus! {

broadcast use vstd::std_specs::vec::group_vec_axioms;

/// Whether `c` is white space in Unicode's sense, as `char::is_whitespace`
/// has it.
pub open spec fn is_space(c: char) -> bool {
    ||| c == ' ' || c == '\t' || c == '\n' || c == '\u{0B}' || c == '\u{0C}' || c == '\r'
    ||| c == '\u{85}' || c == '\u{A0}' || c == '\u{1680}'
    ||| ('\u{2000}' <= c && c <= '\u{200A}')
    ||| c == '\u{2028}' || c == '\u{2029}' || c == '\u{202F}' || c == '\u{205F}' || c == '\u{3000}'
}

fn space(c: char) -> (r: bool)
    ensures
        r == is_space(c),
{
    c == ' ' || c == '\t' || c == '\n' || c == '\u{0B}' || c == '\u{0C}' || c == '\r' || c == '\u{85}' || c
        == '\u{A0}' || c == '\u{1680}' || ('\u{2000}' <= c && c <= '\u{200A}') || c == '\u{2028}' || c == '\u{2029}'
        || c == '\u{202F}' || c == '\u{205F}' || c == '\u{3000}'
}

/// The first position from `i` on that is not white space, or the end.
pub open spec fn skip_spaces(s: Seq<char>, i: int) -> int
    decreases s.len() - i,
{
    if i < 0 || i >= s.len() || !is_space(s[i]) {
        i
    } else {
        skip_spaces(s, i + 1)
    }
}

/// The first position from `i` on that is white space, or the end.
pub open spec fn field_end(s: Seq<char>, i: int) -> int
    decreases s.len() - i,
{
    if i < 0 || i >= s.len() || is_space(s[i]) {
        i
    } else {
        field_end(s, i + 1)
    }
}

/// The next field, a run of characters without white space, from `i` on:
/// where it starts and where it ends; none when only white space is left.
pub open spec fn next_field(s: Seq<char>, i: int) -> Option<(int, int)> {
    let a = skip_spaces(s, i);
    if a >= s.len() {
        None
    } else {
        Some((a, field_end(s, a)))
    }
}

/// The value of a string of decimal digits.
pub open spec fn digits_value(d: Seq<char>) -> nat
    decreases d.len(),
{
    if d.len() == 0 {
        0
    } else {
        digits_value(d.drop_last()) * 10 + ((d.last() as nat) - ('0' as nat)) as nat
    }
}

/// Every character is a decimal digit.
pub open spec fn all_digits(d: Seq<char>) -> bool {
    forall|i: int| 0 <= i < d.len() ==> '0' <= #[trigger] d[i] <= '9'
}

/// `t` read as a `u32`, as `u32::from_str` reads it: an optional `+`, then
/// at least one digit, of a value that fits.
pub open spec fn parse_u32_spec(t: Seq<char>) -> Option<u32> {
    let d = if t.len() > 0 && t[0] == '+' { t.drop_first() } else { t };
    if d.len() > 0 && all_digits(d) && digits_value(d) <= u32::MAX {
        Some(digits_value(d) as u32)
    } else {
        None
    }
}

/// `t` read as an `i32`, as `i32::from_str` reads it: an optional sign,
/// then at least one digit, of a value that fits.
pub open spec fn parse_i32_spec(t: Seq<char>) -> Option<i32> {
    let negative = t.len() > 0 && t[0] == '-';
    let d = if t.len() > 0 && (t[0] == '+' || t[0] == '-') { t.drop_first() } else { t };
    if d.len() == 0 || !all_digits(d) {
        None
    } else if negative {
        if digits_value(d) <= 0x8000_0000 {
            Some((-(digits_value(d) as int)) as i32)
        } else {
            None
        }
    } else if digits_value(d) <= 0x7fff_ffff {
        Some(digits_value(d) as i32)
    } else {
        None
    }
}

/// A `") "` starts at position `i`.
pub open spec fn paren_at(s: Seq<char>, i: int) -> bool {
    0 <= i && i + 1 < s.len() && s[i] == ')' && s[i + 1] == ' '
}

/// The last position where `") "` starts, if any.
#[verifier::opaque]
pub open spec fn last_close_paren(s: Seq<char>) -> Option<int> {
    if exists|i: int| #[trigger] paren_at(s, i) {
        Some(choose|i: int| #[trigger] paren_at(s, i) && forall|j: int| i < j ==> !#[trigger] paren_at(s, j))
    } else {
        None
    }
}

/// The state, parent, process group and session read from what follows
/// the command name: its first four fields.
pub open spec fn fields_summary(r: Seq<char>) -> Option<(Seq<char>, u32, i32, i32)> {
    match next_field(r, 0) {
        None => None,
        Some(f1) => match next_field(r, f1.1) {
            None => None,
            Some(f2) => match next_field(r, f2.1) {
                None => None,
                Some(f3) => match next_field(r, f3.1) {
                    None => None,
                    Some(f4) => match (
                        parse_u32_spec(r.subrange(f2.0, f2.1)),
                        parse_i32_spec(r.subrange(f3.0, f3.1)),
                        parse_i32_spec(r.subrange(f4.0, f4.1)),
                    ) {
                        (Some(ppid), Some(pgid), Some(sid)) => Some((r.subrange(f1.0, f1.1), ppid, pgid, sid)),
                        _ => None,
                    },
                },
            },
        },
    }
}

/// The state, parent, process group and session of a process, from the
/// text of its `stat` file: the four fields after the last `") "`, which
/// ends the command name.
pub open spec fn stat_summary(s: Seq<char>) -> Option<(Seq<char>, u32, i32, i32)> {
    match last_close_paren(s) {
        None => None,
        Some(c) => fields_summary(s.skip(c + 2)),
    }
}

proof fn lemma_skip_spaces_bounds(s: Seq<char>, i: int)
    requires
        0 <= i <= s.len(),
    ensures
        i <= skip_spaces(s, i) <= s.len(),
        forall|j: int| i <= j < skip_spaces(s, i) ==> is_space(#[trigger] s[j]),
        skip_spaces(s, i) < s.len() ==> !is_space(s[skip_spaces(s, i)]),
    decreases s.len() - i,
{
    if i < s.len() && is_space(s[i]) {
        lemma_skip_spaces_bounds(s, i + 1);
    }
}

proof fn lemma_field_end_bounds(s: Seq<char>, i: int)
    requires
        0 <= i <= s.len(),
    ensures
        i <= field_end(s, i) <= s.len(),
    decreases s.len() - i,
{
    if i < s.len() && !is_space(s[i]) {
        lemma_field_end_bounds(s, i + 1);
    }
}

/// The next field of `s` from `from` on, found by scanning.
fn find_field(s: &Vec<char>, from: usize) -> (r: Option<(usize, usize)>)
    requires
        from <= s@.len(),
    ensures
        match next_field(s@, from as int) {
            None => r is None,
            Some(f) => r matches Some(g) && g.0 == f.0 && g.1 == f.1 && from <= g.0 < g.1 <= s@.len(),
        },
{
    let mut a = from;
    while a < s.len() && space(s[a])
        invariant
            from <= a <= s@.len(),
            skip_spaces(s@, from as int) == skip_spaces(s@, a as int),
        decreases s@.len() - a,
    {
        a = a + 1;
    }
    if a >= s.len() {
        return None;
    }
    let mut b = a;
    while b < s.len() && !space(s[b])
        invariant
            a <= b <= s@.len(),
            field_end(s@, a as int) == field_end(s@, b as int),
        decreases s@.len() - b,
    {
        b = b + 1;
    }
    assert(field_end(s@, a as int) == b);
    Some((a, b))
}

proof fn lemma_digits_prefix(d: Seq<char>, i: int)
    requires
        0 <= i < d.len(),
    ensures
        d.take(i + 1).drop_last() == d.take(i),
        d.take(i + 1).last() == d[i],
{
    assert(d.take(i + 1).drop_last() =~= d.take(i));
}

/// A longer string of digits is worth at least as much.
proof fn lemma_digits_grow(d: Seq<char>, i: int)
    requires
        0 <= i <= d.len(),
        all_digits(d),
    ensures
        digits_value(d.take(i)) <= digits_value(d),
    decreases d.len() - i,
{
    if i < d.len() {
        lemma_digits_grow(d, i + 1);
        lemma_digits_prefix(d, i);
        assert('0' <= d[i]);
    } else {
        assert(d.take(i) =~= d);
    }
}

/// The digits of `s` from `from` to `to`, with their value when it is at
/// most `bound`.
fn digits_up_to(s: &Vec<char>, from: usize, to: usize, bound: u64) -> (r: Option<u64>)
    requires
        from <= to <= s@.len(),
        bound <= 0x1_0000_0000,
    ensures
        ({
            let d = s@.subrange(from as int, to as int);
            match r {
                Some(v) => d.len() > 0 && all_digits(d) && v == digits_value(d) && v <= bound,
                None => d.len() == 0 || !all_digits(d) || digits_value(d) > bound,
            }
        }),
{
    let ghost d = s@.subrange(from as int, to as int);
    if from == to {
        return None;
    }
    let mut acc: u64 = 0;
    let mut i = from;
    proof {
        assert(d.take(0) =~= Seq::<char>::empty());
    }
    while i < to
        invariant
            from <= i <= to <= s@.len(),
            d == s@.subrange(from as int, to as int),
            bound <= 0x1_0000_0000,
            acc == digits_value(d.take(i - from)),
            acc <= bound,
            all_digits(d.take(i - from)),
        decreases to - i,
    {
        let c = s[i];
        proof {
            assert(d[i - from] == c);
        }
        if c < '0' || c > '9' {
            proof {
                assert(!('0' <= d[i - from] <= '9'));
            }
            return None;
        }
        let digit = ((c as u32) - ('0' as u32)) as u64;
        let next = acc * 10 + digit;
        proof {
            lemma_digits_prefix(d, i - from);
            assert(all_digits(d.take(i - from + 1))) by {
                assert forall|j: int| 0 <= j < i - from + 1 implies '0' <= #[trigger] d.take(i - from + 1)[j] <= '9' by {
                    if j < i - from {
                        assert(d.take(i - from + 1)[j] == d.take(i - from)[j]);
                    }
                }
            }
        }
        if next > bound {
            proof {
                if all_digits(d) {
                    lemma_digits_grow(d, i - from + 1);
                }
            }
            return None;
        }
        acc = next;
        i = i + 1;
    }
    proof {
        assert(d.take(to - from) =~= d);
    }
    Some(acc)
}

/// `s` from `from` to `to` read as a `u32`.
fn parse_u32_at(s: &Vec<char>, from: usize, to: usize) -> (r: Option<u32>)
    requires
        from <= to <= s@.len(),
    ensures
        r == parse_u32_spec(s@.subrange(from as int, to as int)),
{
    let ghost t = s@.subrange(from as int, to as int);
    let start = if from < to && s[from] == '+' { from + 1 } else { from };
    proof {
        if from < to && s@[from as int] == '+' {
            assert(t.drop_first() =~= s@.subrange(start as int, to as int));
        } else {
            assert(t =~= s@.subrange(start as int, to as int));
        }
    }
    match digits_up_to(s, start, to, 0xffff_ffff) {
        Some(v) => Some(v as u32),
        None => None,
    }
}

/// `s` from `from` to `to` read as an `i32`.
fn parse_i32_at(s: &Vec<char>, from: usize, to: usize) -> (r: Option<i32>)
    requires
        from <= to <= s@.len(),
    ensures
        r == parse_i32_spec(s@.subrange(from as int, to as int)),
{
    let ghost t = s@.subrange(from as int, to as int);
    let negative = from < to && s[from] == '-';
    let signed = from < to && (s[from] == '+' || s[from] == '-');
    let start = if signed { from + 1 } else { from };
    proof {
        if signed {
            assert(t.drop_first() =~= s@.subrange(start as int, to as int));
        } else {
            assert(t =~= s@.subrange(start as int, to as int));
        }
    }
    let bound: u64 = if negative { 0x8000_0000 } else { 0x7fff_ffff };
    match digits_up_to(s, start, to, bound) {
        Some(v) => if negative {
            Some((0i64 - (v as i64)) as i32)
        } else {
            Some(v as i32)
        },
        None => None,
    }
}

/// Where the last `") "` of `s` starts, if any.
fn find_last_close_paren(s: &Vec<char>) -> (r: Option<usize>)
    ensures
        match last_close_paren(s@) {
            None => r is None,
            Some(c) => r matches Some(x) && x == c,
        },
        r matches Some(c) ==> paren_at(s@, c as int),
{
    reveal(last_close_paren);
    let n = s.len();
    let mut i = n;
    while i >= 2
        invariant
            i <= n == s@.len(),
            forall|j: int| i - 1 <= j ==> !#[trigger] paren_at(s@, j),
        decreases i,
    {
        if s[i - 2] == ')' && s[i - 1] == ' ' {
            let c = i - 2;
            proof {
                reveal(last_close_paren);
                assert(paren_at(s@, c as int));
                assert(forall|j: int| c < j ==> !#[trigger] paren_at(s@, j));
                let w = choose|w: int| #[trigger] paren_at(s@, w) && forall|j: int| w < j ==> !#[trigger] paren_at(s@, j);
                assert(paren_at(s@, w) && forall|j: int| w < j ==> !#[trigger] paren_at(s@, j));
                if w < c {
                    assert(!paren_at(s@, c as int));
                } else if w > c {
                    assert(!paren_at(s@, w));
                }
            }
            return Some(c);
        }
        proof {
            assert(!paren_at(s@, i - 2));
        }
        i = i - 1;
    }
    proof {
        reveal(last_close_paren);
        assert forall|j: int| !#[trigger] paren_at(s@, j) by {
            if 0 <= j && j < i - 1 {
                assert(i < 2);
            }
        }
    }
    None
}

/// The characters of `s` from `from` to `to`.
fn copy_range(s: &Vec<char>, from: usize, to: usize) -> (r: Vec<char>)
    requires
        from <= to <= s@.len(),
    ensures
        r@ == s@.subrange(from as int, to as int),
{
    let mut out: Vec<char> = Vec::new();
    let mut k = from;
    while k < to
        invariant
            from <= k <= to <= s@.len(),
            out@ == s@.subrange(from as int, k as int),
        decreases to - k,
    {
        out.push(s[k]);
        proof {
            assert(out@ =~= s@.subrange(from as int, k + 1));
        }
        k = k + 1;
    }
    out
}

/// The first four fields of `rest`, read.
fn read_fields(rest: &Vec<char>) -> (r: Option<(String, u32, i32, i32)>)
    ensures
        match fields_summary(rest@) {
            None => r is None,
            Some(v) => r matches Some(w) && w.0@ == v.0 && w.1 == v.1 && w.2 == v.2 && w.3 == v.3,
        },
{
    reveal(fields_summary);
    let f1 = match find_field(rest, 0) {
        Some(f) => f,
        None => return None,
    };
    let f2 = match find_field(rest, f1.1) {
        Some(f) => f,
        None => return None,
    };
    let f3 = match find_field(rest, f2.1) {
        Some(f) => f,
        None => return None,
    };
    let f4 = match find_field(rest, f3.1) {
        Some(f) => f,
        None => return None,
    };
    let parent = parse_u32_at(rest, f2.0, f2.1);
    let group = parse_i32_at(rest, f3.0, f3.1);
    let session = parse_i32_at(rest, f4.0, f4.1);
    match (parent, group, session) {
        (Some(ppid), Some(pgid), Some(sid)) => {
            let state = copy_range(rest, f1.0, f1.1);
            Some((string_of(&state), ppid, pgid, sid))
        },
        _ => None,
    }
}

/// The state, parent, process group and session read from the text of a
/// `stat` file: the four fields after the last `") "`; none when one is
/// missing or a number does not read.
pub fn parse_proc_stat_summary(stat: &str) -> (r: Option<(String, u32, i32, i32)>)
    ensures
        match stat_summary(stat@) {
            None => r is None,
            Some(v) => r matches Some(w) && w.0@ == v.0 && w.1 == v.1 && w.2 == v.2 && w.3 == v.3,
        },
{
    let all = chars_of(stat);
    let found = find_last_close_paren(&all);
    let c = match found {
        Some(c) => c,
        None => return None,
    };
    assert(paren_at(all@, c as int));
    assert(c + 2 <= all.len());
    let rest = copy_range(&all, c + 2, all.len());
    proof {
        assert(rest@ =~= all@.skip(c + 2));
        assert(last_close_paren(stat@) == Some(c as int));
        assert(stat_summary(stat@) == fields_summary(all@.skip(c + 2)));
    }
    read_fields(&rest)
}

/// A process on a terminal, as `/proc` describes it.
#[derive(Debug, Clone, PartialEq, Eq)]
pub struct ProcSummary {
    pub pid: u32,
    pub comm: String,
    pub state: String,
    pub parent_pid: u32,
    pub process_group_id: i32,
    pub session_id: i32,
}

/// A process an interrupt left behind: not the shell itself, not in the
/// shell's group but in the interrupted one, and not a descendant of the
/// shell.
pub open spec fn lingers(p: ProcSummary, shell_pid: u32, shell_group: i32, interrupted_group: i32, descendants: Seq<i32>) -> bool {
    &&& p.pid != shell_pid
    &&& p.process_group_id != shell_group
    &&& p.process_group_id == interrupted_group
    &&& !descendants.contains(p.pid as i32)
}

/// The processes of the terminal, in order, that an interrupt left behind.
pub open spec fn lingering(ps: Seq<ProcSummary>, shell_pid: u32, shell_group: i32, interrupted_group: i32, descendants: Seq<i32>) -> Seq<ProcSummary> {
    ps.filter(|p: ProcSummary| lingers(p, shell_pid, shell_group, interrupted_group, descendants))
}

fn contains_i32(v: &Vec<i32>, x: i32) -> (r: bool)
    ensures
        r == v@.contains(x),
{
    let mut i: usize = 0;
    while i < v.len()
        invariant
            0 <= i <= v@.len(),
            forall|j: int| 0 <= j < i ==> v@[j] != x,
        decreases v@.len() - i,
    {
        if v[i] == x {
            proof {
                assert(v@[i as int] == x);
            }
            return true;
        }
        i = i + 1;
    }
    false
}

/// The identifiers of the processes on the shell's terminal (`attached`),
/// in order, that an interrupt of group `interrupted_group` left behind.
pub fn lingering_tty_processes_for_interrupted_group(
    attached: &Vec<ProcSummary>,
    shell_pid: u32,
    shell_group: i32,
    interrupted_group: i32,
    descendants: &Vec<i32>,
) -> (r: Vec<u32>)
    ensures
        r@ == lingering(attached@, shell_pid, shell_group, interrupted_group, descendants@).map_values(
            |p: ProcSummary| p.pid,
        ),
{
    let ghost f = |p: ProcSummary| lingers(p, shell_pid, shell_group, interrupted_group, descendants@);
    let ghost g = |p: ProcSummary| p.pid;
    let mut out: Vec<u32> = Vec::new();
    let mut i: usize = 0;
    proof {
        assert(attached@.take(0) =~= Seq::<ProcSummary>::empty());
        reveal(Seq::filter);
        assert(out@ =~= attached@.take(0).filter(f).map_values(g));
    }
    while i < attached.len()
        invariant
            0 <= i <= attached@.len(),
            f == (|p: ProcSummary| lingers(p, shell_pid, shell_group, interrupted_group, descendants@)),
            g == (|p: ProcSummary| p.pid),
            out@ == attached@.take(i as int).filter(f).map_values(g),
        decreases attached@.len() - i,
    {
        let p = &attached[i];
        let lingers_here = p.pid != shell_pid && p.process_group_id != shell_group && p.process_group_id
            == interrupted_group && !contains_i32(descendants, #[verifier::truncate] (p.pid as i32));
        let ghost before = attached@.take(i as int).filter(f);
        proof {
            let t = attached@.take(i + 1);
            assert(t.drop_last() =~= attached@.take(i as int));
            assert(t.last() == attached@[i as int]);
            assert(lingers_here == f(attached@[i as int]));
            reveal(Seq::filter);
            if lingers_here {
                assert(t.filter(f) == before.push(attached@[i as int]));
            } else {
                assert(t.filter(f) == before);
            }
        }
        if lingers_here {
            out.push(p.pid);
            proof {
                assert(out@ =~= before.push(attached@[i as int]).map_values(g));
            }
        }
        i = i + 1;
    }
    proof {
        assert(attached@.take(attached@.len() as int) =~= attached@);
    }
    out
}

/// Whether any process on the shell's terminal (`attached`) is one an
/// interrupt of group `interrupted_group` left behind.
pub fn has_lingering_tty_processes_for_interrupted_group(
    attached: &Vec<ProcSummary>,
    shell_pid: u32,
    shell_group: i32,
    interrupted_group: i32,
    descendants: &Vec<i32>,
) -> (r: bool)
    ensures
        r == (lingering(attached@, shell_pid, shell_group, interrupted_group, descendants@).len() > 0),
{
    lingering_tty_processes_for_interrupted_group(attached, shell_pid, shell_group, interrupted_group, descendants).len() > 0
}

} // verus!
