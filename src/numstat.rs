use vstd::prelude::*;
use vstd::string::*;

verus! {

/// ASCII whitespace, as it separates the fields of a numstat line.
pub open spec fn is_space(c: char) -> bool {
    c == ' ' || c == '\t' || c == '\n' || c == '\r' || c == '\x0B' || c == '\x0C'
}

pub open spec fn is_digit(c: char) -> bool {
    '0' <= c && c <= '9'
}

pub open spec fn digit_value(c: char) -> int {
    (c as u32) - ('0' as u32)
}

/// Length of the run starting at `i` of characters that are whitespace
/// (`space`) or are not (`!space`).
pub open spec fn run_len(s: Seq<char>, i: int, space: bool) -> int
    decreases s.len() - i,
{
    if 0 <= i < s.len() && is_space(s[i]) == space {
        1 + run_len(s, i + 1, space)
    } else {
        0
    }
}

pub open spec fn all_digits(s: Seq<char>) -> bool {
    forall|i: int| 0 <= i < s.len() ==> is_digit(#[trigger] s[i])
}

/// The number that a string of decimal digits writes.
pub open spec fn decimal_value(s: Seq<char>) -> int
    decreases s.len(),
{
    if s.len() == 0 {
        0
    } else {
        decimal_value(s.drop_last()) * 10 + digit_value(s.last())
    }
}

/// The field as a `u32` count: decimal digits only, not above `u32::MAX`.
pub open spec fn count_field(s: Seq<char>) -> Option<u32> {
    if s.len() > 0 && all_digits(s) && decimal_value(s) <= u32::MAX {
        Some(decimal_value(s) as u32)
    } else {
        None
    }
}

/// The first two whitespace-separated fields of a line, when it has at least two.
pub open spec fn leading_fields(s: Seq<char>) -> Option<(Seq<char>, Seq<char>)> {
    let a0 = run_len(s, 0, true);
    let a1 = a0 + run_len(s, a0, false);
    let d0 = a1 + run_len(s, a1, true);
    let d1 = d0 + run_len(s, d0, false);
    if a1 > a0 && d1 > d0 {
        Some((s.subrange(a0, a1), s.subrange(d0, d1)))
    } else {
        None
    }
}

/// The (added, deleted) counts of a numstat line `<added> <deleted> [<path>]`.
/// A line whose counts are not plain decimal numbers (the `-` that marks a
/// binary file, a blank line, anything else) is no record.
pub open spec fn numstat_record(s: Seq<char>) -> Option<(u32, u32)> {
    match leading_fields(s) {
        Some((a, d)) => match (count_field(a), count_field(d)) {
            (Some(x), Some(y)) => Some((x, y)),
            _ => None,
        },
        None => None,
    }
}

/// Lines added over all records among `lines`.
pub open spec fn added_total(lines: Seq<Seq<char>>) -> int
    decreases lines.len(),
{
    if lines.len() == 0 {
        0
    } else {
        added_total(lines.drop_last()) + match numstat_record(lines.last()) {
            Some((a, _)) => a as int,
            None => 0,
        }
    }
}

/// Lines deleted over all records among `lines`.
pub open spec fn deleted_total(lines: Seq<Seq<char>>) -> int
    decreases lines.len(),
{
    if lines.len() == 0 {
        0
    } else {
        deleted_total(lines.drop_last()) + match numstat_record(lines.last()) {
            Some((_, d)) => d as int,
            None => 0,
        }
    }
}

/// The most lines that a numstat feed may hold, so that every sum fits in a `u64`.
pub const MAX_FEED_LINES: usize = 0x8000_0000;

/// Line counts, as a numstat record states them.
#[derive(Clone, Copy, Debug, PartialEq, Eq, Structural)]
pub struct LineChange {
    pub added: u32,
    pub deleted: u32,
}

/// End of the run of whitespace (`space`) or non-whitespace characters from `from`.
fn run_end(s: &str, len: usize, from: usize, space: bool) -> (r: usize)
    requires
        len == s@.len(),
        from <= len,
    ensures
        r == from + run_len(s@, from as int, space),
        from <= r <= len,
{
    let mut j = from;
    while j < len && is_space_char(s.get_char(j)) == space
        invariant
            from <= j <= len,
            len == s@.len(),
            run_len(s@, from as int, space) == (j - from) + run_len(s@, j as int, space),
        decreases len - j,
    {
        j = j + 1;
    }
    j
}

fn is_space_char(c: char) -> (r: bool)
    ensures
        r == is_space(c),
{
    c == ' ' || c == '\t' || c == '\n' || c == '\r' || c == '\x0B' || c == '\x0C'
}

proof fn lemma_decimal_grows(s: Seq<char>, i: int, j: int)
    requires
        0 <= i <= j <= s.len(),
        all_digits(s),
    ensures
        decimal_value(s.subrange(0, i)) <= decimal_value(s.subrange(0, j)),
    decreases j - i,
{
    if i < j {
        lemma_decimal_grows(s, i, j - 1);
        assert(s.subrange(0, j).drop_last() == s.subrange(0, j - 1));
        assert(is_digit(s[j - 1]));
        assert(all_digits(s.subrange(0, j - 1))) by {
            assert forall|k: int| 0 <= k < j - 1 implies is_digit(
                #[trigger] s.subrange(0, j - 1)[k],
            ) by {
                assert(s.subrange(0, j - 1)[k] == s[k]);
            }
        }
        lemma_decimal_nonneg(s.subrange(0, j - 1));
    }
}

proof fn lemma_decimal_nonneg(s: Seq<char>)
    requires
        all_digits(s),
    ensures
        decimal_value(s) >= 0,
    decreases s.len(),
{
    if s.len() > 0 {
        assert(is_digit(s[s.len() - 1]));
        assert(all_digits(s.drop_last())) by {
            assert forall|i: int| 0 <= i < s.len() - 1 implies is_digit(
                #[trigger] s.drop_last()[i],
            ) by {
                assert(s.drop_last()[i] == s[i]);
            }
        }
        lemma_decimal_nonneg(s.drop_last());
    }
}

/// The count written by the characters `from..to` of `s`, as `count_field` reads it.
fn parse_count(s: &str, from: usize, to: usize) -> (r: Option<u32>)
    requires
        from <= to <= s@.len(),
    ensures
        r == count_field(s@.subrange(from as int, to as int)),
{
    let ghost f = s@.subrange(from as int, to as int);
    if from == to {
        return None;
    }
    let mut v: u32 = 0;
    let mut i = from;
    while i < to
        invariant
            from <= i <= to <= s@.len(),
            f == s@.subrange(from as int, to as int),
            forall|k: int| 0 <= k < i - from ==> is_digit(#[trigger] f[k]),
            v as int == decimal_value(f.subrange(0, i - from)),
        decreases to - i,
    {
        let c = s.get_char(i);
        if !('0' <= c && c <= '9') {
            assert(!is_digit(f[i - from]));
            return None;
        }
        let d = (c as u32) - ('0' as u32);
        proof {
            assert(f.subrange(0, i + 1 - from).drop_last() == f.subrange(0, i - from));
            assert(f[i - from] == c);
        }
        if v > (u32::MAX - d) / 10 {
            proof {
                if all_digits(f) {
                    lemma_decimal_grows(f, i + 1 - from, f.len() as int);
                    assert(f.subrange(0, f.len() as int) == f);
                }
            }
            return None;
        }
        v = v * 10 + d;
        i = i + 1;
    }
    assert(f.subrange(0, f.len() as int) == f);
    Some(v)
}

/// The counts of one numstat line, or `None` where the line is no record.
pub fn parse_numstat_line(line: &str) -> (r: Option<LineChange>)
    ensures
        r matches Some(c) ==> numstat_record(line@) == Some((c.added, c.deleted)),
        r is None ==> numstat_record(line@) is None,
{
    let len = line.unicode_len();
    let a0 = run_end(line, len, 0, true);
    let a1 = run_end(line, len, a0, false);
    let d0 = run_end(line, len, a1, true);
    let d1 = run_end(line, len, d0, false);
    if a1 == a0 || d1 == d0 {
        return None;
    }
    match (parse_count(line, a0, a1), parse_count(line, d0, d1)) {
        (Some(added), Some(deleted)) => Some(LineChange { added, deleted }),
        _ => None,
    }
}

/// The lines added and deleted over all records of a numstat feed; lines
/// that are no record are skipped.
pub fn sum_numstat(lines: &Vec<String>) -> (r: (u64, u64))
    requires
        lines@.len() <= MAX_FEED_LINES,
    ensures
        r.0 == added_total(lines@.map_values(|l: String| l@)),
        r.1 == deleted_total(lines@.map_values(|l: String| l@)),
        r.0 as int + r.1 as int <= u64::MAX,
{
    let ghost ls = lines@.map_values(|l: String| l@);
    let mut added: u64 = 0;
    let mut deleted: u64 = 0;
    let mut i: usize = 0;
    while i < lines.len()
        invariant
            i <= lines@.len() <= MAX_FEED_LINES,
            ls == lines@.map_values(|l: String| l@),
            added == added_total(ls.take(i as int)),
            deleted == deleted_total(ls.take(i as int)),
            added <= i * 0xffff_ffff,
            deleted <= i * 0xffff_ffff,
        decreases lines@.len() - i,
    {
        let rec = parse_numstat_line(lines[i].as_str());
        proof {
            assert(ls.take(i + 1).drop_last() == ls.take(i as int));
            assert(ls.take(i + 1).last() == lines@[i as int]@);
            assert((i + 1) * 0xffff_ffff <= 0x8000_0000 * 0xffff_ffff) by (nonlinear_arith)
                requires
                    i + 1 <= 0x8000_0000,
            ;
        }
        match rec {
            Some(c) => {
                added = added + c.added as u64;
                deleted = deleted + c.deleted as u64;
            },
            None => {},
        }
        i = i + 1;
    }
    assert(ls.take(lines@.len() as int) == ls);
    assert(added + deleted <= 2 * 0x8000_0000 * 0xffff_ffff) by (nonlinear_arith)
        requires
            added <= i * 0xffff_ffff,
            deleted <= i * 0xffff_ffff,
            i <= 0x8000_0000,
    ;
    (added, deleted)
}

} // verus!
