//! Cutting a line into raw fields.
//!
//! The scan runs once from left to right. Each field of the delimiter table
//! may wait for a start delimiter, which moves the field's start past it, and
//! ends at its end delimiter. When the line ends inside a field that has
//! started, that is, one that waits for no start delimiter, the text of the
//! field so far, if not empty, is the final field. A field that never found
//! its start delimiter gives nothing.
use vstd::prelude::*;

use vstd::std_specs::iter::IteratorSpec;

use crate::field::{end_delimiter, end_delimiter_at, start_delimiter, start_delimiter_at};

verus! {

broadcast use vstd::string::group_string_axioms;

/// Whether `c` has the Unicode `White_Space` property, which is what
/// `char::is_whitespace` tests.
pub open spec fn is_white_space(c: char) -> bool {
    let u = c as u32;
    (0x9 <= u <= 0xd) || u == 0x20 || u == 0x85 || u == 0xa0 || u == 0x1680 || (0x2000 <= u
        <= 0x200a) || u == 0x2028 || u == 0x2029 || u == 0x202f || u == 0x205f || u == 0x3000
}

/// The index of the first character of `line` that is not white space, or
/// the length of `line` if there is none.
pub open spec fn first_non_space(line: Seq<char>, from: int) -> int
    decreases line.len() - from,
{
    if from >= line.len() || !is_white_space(line[from]) {
        from
    } else {
        first_non_space(line, from + 1)
    }
}

/// The position in the delimiter table whose delimiters apply to the field
/// at `index`: past the end of the table the last entry keeps applying.
pub open spec fn table_position(index: nat) -> nat {
    if index < 17 {
        index
    } else {
        16
    }
}

/// Where the scan stands after some prefix of a line.
pub struct ScanState {
    /// How many fields have been ended.
    pub index: nat,
    /// Whether the current field still waits for its start delimiter.
    pub awaiting_start: bool,
    /// Where the current field begins.
    pub start: int,
    /// The fields ended so far, as ranges of character positions.
    pub ranges: Seq<(int, int)>,
}

/// The state before the first character after leading white space.
pub open spec fn initial_state(start: int) -> ScanState {
    ScanState {
        index: 0,
        awaiting_start: start_delimiter(0) is Some,
        start,
        ranges: Seq::empty(),
    }
}

/// One step of the scan: what reading `c` at position `i` does to `s`.
pub open spec fn scan_step(s: ScanState, c: char, i: int) -> ScanState {
    let p = table_position(s.index);
    if s.awaiting_start {
        if Some(c) == start_delimiter(p) {
            ScanState { awaiting_start: false, start: i + 1, ..s }
        } else {
            s
        }
    } else if c == end_delimiter(p) {
        let next = s.index + 1;
        ScanState {
            index: next,
            awaiting_start: next < 17 && start_delimiter(next) is Some,
            start: i + 1,
            ranges: s.ranges.push((s.start, i)),
        }
    } else {
        s
    }
}

/// The state of the scan once the characters before `end` have been read.
pub open spec fn scan_to(line: Seq<char>, end: int) -> ScanState
    decreases end,
{
    let first = first_non_space(line, 0);
    if end <= first || end <= 0 {
        initial_state(first)
    } else {
        scan_step(scan_to(line, end - 1), line[end - 1], end - 1)
    }
}

/// The ranges of the raw fields of `line`: those the scan ended, and then
/// the text of the field that the line ends in, if that field has started
/// and its text is not empty.
pub open spec fn field_ranges(line: Seq<char>) -> Seq<(int, int)> {
    let s = scan_to(line, line.len() as int);
    if !s.awaiting_start && s.start < line.len() {
        s.ranges.push((s.start, line.len() as int))
    } else {
        s.ranges
    }
}

/// The raw fields of `line`, in order.
pub open spec fn split_fields(line: Seq<char>) -> Seq<Seq<char>> {
    field_ranges(line).map_values(|r: (int, int)| line.subrange(r.0, r.1))
}

pub proof fn lemma_first_non_space_bounds(line: Seq<char>, from: int)
    requires
        0 <= from <= line.len(),
    ensures
        from <= first_non_space(line, from) <= line.len(),
        forall|j: int| from <= j < first_non_space(line, from) ==> is_white_space(line[j]),
        first_non_space(line, from) < line.len() ==> !is_white_space(
            line[first_non_space(line, from)],
        ),
    decreases line.len() - from,
{
    if from < line.len() && is_white_space(line[from]) {
        lemma_first_non_space_bounds(line, from + 1);
    }
}

proof fn lemma_scan_bounds(line: Seq<char>, end: int)
    requires
        first_non_space(line, 0) <= end <= line.len(),
    ensures
        ({
            let s = scan_to(line, end);
            &&& first_non_space(line, 0) <= s.start <= end
            &&& s.ranges.len() == s.index
            &&& forall|k: int|
                0 <= k < s.ranges.len() ==> first_non_space(line, 0) <= #[trigger] s.ranges[k].0
                    <= s.ranges[k].1 < s.start
        }),
    decreases end,
{
    let first = first_non_space(line, 0);
    lemma_first_non_space_bounds(line, 0);
    if end > first {
        lemma_scan_bounds(line, end - 1);
    }
}

/// No character of `line` in `[from, to)` is `c`.
pub open spec fn free_of(line: Seq<char>, from: int, to: int, c: char) -> bool {
    forall|j: int| from <= j < to ==> #[trigger] line[j] != c
}

proof fn lemma_scan_free(line: Seq<char>, end: int)
    requires
        first_non_space(line, 0) <= end <= line.len(),
    ensures
        ({
            let s = scan_to(line, end);
            &&& forall|k: int|
                0 <= k < s.ranges.len() ==> free_of(
                    line,
                    #[trigger] s.ranges[k].0,
                    s.ranges[k].1,
                    end_delimiter(table_position(k as nat)),
                )
            &&& !s.awaiting_start ==> free_of(
                line,
                s.start,
                end,
                end_delimiter(table_position(s.index)),
            )
        }),
    decreases end,
{
    let first = first_non_space(line, 0);
    lemma_first_non_space_bounds(line, 0);
    if end > first {
        lemma_scan_free(line, end - 1);
        lemma_scan_bounds(line, end - 1);
        let s0 = scan_to(line, end - 1);
        let s1 = scan_to(line, end);
        assert(s1 == scan_step(s0, line[end - 1], end - 1));
        assert forall|k: int|
            0 <= k < s1.ranges.len() implies free_of(
                line,
                #[trigger] s1.ranges[k].0,
                s1.ranges[k].1,
                end_delimiter(table_position(k as nat)),
            ) by {
            if k < s0.ranges.len() {
                assert(s1.ranges[k] == s0.ranges[k]);
            }
        }
    }
}

/// Each raw field of `line` holds no character that ends it: no quote in
/// the HTTP version and the user agent, no space in any other field.
pub proof fn lemma_fields_hold_no_end_delimiter(line: Seq<char>)
    ensures
        forall|k: int, j: int|
            0 <= k < split_fields(line).len() && 0 <= j < split_fields(line)[k].len() ==> #[trigger] split_fields(line)[k][j]
                != end_delimiter(table_position(k as nat)),
{
    lemma_first_non_space_bounds(line, 0);
    lemma_scan_bounds(line, line.len() as int);
    lemma_scan_free(line, line.len() as int);
    let s = scan_to(line, line.len() as int);
    let r = field_ranges(line);
    assert forall|k: int, j: int|
        0 <= k < split_fields(line).len() && 0 <= j < split_fields(line)[k].len() implies #[trigger] split_fields(line)[k][j]
            != end_delimiter(table_position(k as nat)) by {
        assert(split_fields(line)[k] == line.subrange(r[k].0, r[k].1));
        if k < s.ranges.len() {
            assert(free_of(line, s.ranges[k].0, s.ranges[k].1, end_delimiter(table_position(k as nat))));
        }
        assert(line.subrange(r[k].0, r[k].1)[j] == line[r[k].0 + j]);
    }
}

/// The characters of `s`, in order.
pub(crate) fn chars_of(s: &str) -> (r: Vec<char>)
    ensures
        r@ == s@,
{
    let mut out: Vec<char> = Vec::new();
    for c in it: s.chars()
        invariant
            it.seq() == s@,
            out@ == it.seq().take(it.index() as int),
    {
        out.push(c);
    }
    out
}

/// Whether `c` is white space, as `char::is_whitespace` decides it.
pub fn is_white_space_char(c: char) -> (r: bool)
    ensures
        r == is_white_space(c),
{
    let u = c as u32;
    (0x9 <= u && u <= 0xd) || u == 0x20 || u == 0x85 || u == 0xa0 || u == 0x1680 || (0x2000 <= u
        && u <= 0x200a) || u == 0x2028 || u == 0x2029 || u == 0x202f || u == 0x205f || u == 0x3000
}

/// Cuts `line` into its raw fields.
///
/// Leading white space is skipped. A field that waits for its start
/// delimiter when the line ends is not part of the result, so a field never
/// holds its own end delimiter. A record of the older layout gives 14
/// fields and one of the newer layout 17; any other count means that the
/// line is not a record of either.
pub fn split_record<'a>(line: &'a str) -> (r: Vec<&'a str>)
    ensures
        r@.len() == split_fields(line@).len(),
        forall|k: int| 0 <= k < r@.len() ==> #[trigger] r@[k]@ == split_fields(line@)[k],
{
    let chars = chars_of(line);
    let n = chars.len();
    let mut first: usize = 0;
    while first < n && is_white_space_char(chars[first])
        invariant
            first <= n,
            n == line@.len(),
            chars@ == line@,
            first_non_space(line@, first as int) == first_non_space(line@, 0),
        decreases n - first,
    {
        first = first + 1;
    }
    proof {
        lemma_first_non_space_bounds(line@, 0);
    }
    let mut out: Vec<&'a str> = Vec::new();
    let mut index: usize = 0;
    let mut awaiting: bool = start_delimiter_at(0).is_some();
    let mut start: usize = first;
    let mut i: usize = first;
    while i < n
        invariant
            first <= i <= n,
            n == line@.len(),
            chars@ == line@,
            first as int == first_non_space(line@, 0),
            index <= i,
            ({
                let s = scan_to(line@, i as int);
                &&& s.index == index as nat
                &&& s.awaiting_start == awaiting
                &&& s.start == start as int
                &&& s.ranges.len() == out@.len()
                &&& forall|k: int|
                    0 <= k < out@.len() ==> #[trigger] out@[k]@ == line@.subrange(
                        s.ranges[k].0,
                        s.ranges[k].1,
                    )
            }),
        decreases n - i,
    {
        proof {
            lemma_scan_bounds(line@, i as int);
        }
        let c = chars[i];
        let p: usize = if index < 17 {
            index
        } else {
            16
        };
        if awaiting {
            if Some(c) == start_delimiter_at(p) {
                awaiting = false;
                start = i + 1;
            }
        } else if c == end_delimiter_at(p) {
            let piece = line.substring_char(start, i);
            out.push(piece);
            index = index + 1;
            awaiting = index < 17 && start_delimiter_at(index).is_some();
            start = i + 1;
        }
        proof {
            let s0 = scan_to(line@, i as int);
            let s1 = scan_to(line@, i as int + 1);
            assert(s1 == scan_step(s0, line@[i as int], i as int));
            assert forall|k: int| 0 <= k < out@.len() implies #[trigger] out@[k]@ == line@.subrange(
                s1.ranges[k].0,
                s1.ranges[k].1,
            ) by {
                if k < s0.ranges.len() {
                    assert(s1.ranges[k] == s0.ranges[k]);
                }
            }
        }
        i = i + 1;
    }
    proof {
        lemma_scan_bounds(line@, n as int);
    }
    if !awaiting && start < n {
        let piece = line.substring_char(start, n);
        out.push(piece);
    }
    proof {
        let ranges = field_ranges(line@);
        assert forall|k: int| 0 <= k < out@.len() implies #[trigger] out@[k]@ == split_fields(
            line@,
        )[k] by {
            assert(split_fields(line@)[k] == line@.subrange(ranges[k].0, ranges[k].1));
        }
    }
    out
}

} // verus!
