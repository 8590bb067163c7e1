//! Writing raw fields back into a line, and reading them again.
use vstd::prelude::*;

use crate::field::{end_delimiter, start_delimiter};
use crate::split::{
    field_ranges, first_non_space, is_white_space, lemma_first_non_space_bounds, scan_step, scan_to,
    split_fields,
    table_position, ScanState,
};

verus! {

/// The concatenation of `p`, in order.
pub open spec fn concat_all(p: Seq<Seq<char>>) -> Seq<char>
    decreases p.len(),
{
    if p.len() == 0 {
        Seq::empty()
    } else {
        concat_all(p.drop_last()) + p.last()
    }
}

/// Where the piece `j` of `p` starts in `concat_all(p)`.
pub open spec fn piece_start(p: Seq<Seq<char>>, j: int) -> int {
    concat_all(p.take(j)).len() as int
}

/// Whether `t` holds the character `c`.
pub open spec fn holds(t: Seq<char>, c: char) -> bool {
    exists|i: int| 0 <= i < t.len() && t[i] == c
}

/// The pieces of a line of the shorter layout: the fields and the
/// delimiters between them.
pub open spec fn short_pieces(f: Seq<Seq<char>>) -> Seq<Seq<char>> {
    seq![
        f[0], seq![' '], f[1], seq![' '], f[2], seq![' '], f[3], seq![' '], f[4], seq![' '],
        f[5], seq![' '], f[6], seq![' '], f[7], seq![' '], f[8], seq![' '], f[9], seq![' '],
        f[10], seq![' ', '"'], f[11], seq![' '], f[12], seq![' '], f[13], seq!['"'],
    ]
}

/// The pieces of a line of the longer layout.
pub open spec fn full_pieces(f: Seq<Seq<char>>) -> Seq<Seq<char>> {
    short_pieces(f).drop_last() + seq![
        seq!['"', ' ', '"'], f[14], seq!['"', ' '], f[15], seq![' '], f[16],
    ]
}

/// The line that the fields `f` of the shorter layout make.
pub open spec fn short_line(f: Seq<Seq<char>>) -> Seq<char> {
    concat_all(short_pieces(f))
}

/// The line that the fields `f` of the longer layout make.
pub open spec fn full_line(f: Seq<Seq<char>>) -> Seq<char> {
    concat_all(full_pieces(f))
}

/// Fields that the shorter layout can carry: the first starts with a
/// character that is not white space, none of the first thirteen holds a
/// space, and the HTTP version holds no quote.
pub open spec fn short_writable(f: Seq<Seq<char>>) -> bool {
    &&& f.len() == 14
    &&& f[0].len() > 0 && !is_white_space(f[0][0])
    &&& forall|k: int| 0 <= k < 13 ==> !holds(#[trigger] f[k], ' ')
    &&& !holds(f[13], '"')
}

/// Fields that the longer layout can carry: those of the shorter one, a
/// user agent without a quote, and a cipher and a protocol without a space,
/// the protocol not empty.
pub open spec fn full_writable(f: Seq<Seq<char>>) -> bool {
    &&& f.len() == 17
    &&& short_writable(f.take(14))
    &&& !holds(f[14], '"')
    &&& !holds(f[15], ' ')
    &&& !holds(f[16], ' ')
    &&& f[16].len() > 0
}

proof fn lemma_concat_all(p: Seq<Seq<char>>, j: int)
    requires
        0 <= j < p.len(),
    ensures
        piece_start(p, j + 1) == piece_start(p, j) + p[j].len(),
        piece_start(p, j + 1) <= concat_all(p).len(),
        concat_all(p).subrange(piece_start(p, j), piece_start(p, j + 1)) == p[j],
        forall|i: int|
            piece_start(p, j) <= i < piece_start(p, j + 1) ==> #[trigger] concat_all(p)[i]
                == p[j][i - piece_start(p, j)],
    decreases p.len(),
{
    let q = p.drop_last();
    if j == p.len() - 1 {
        assert(p.take(j) == q);
        assert(p.take(j + 1) == p);
        assert(concat_all(p.take(j + 1)) == concat_all(q) + p[j]);
        assert(concat_all(p).subrange(piece_start(p, j), piece_start(p, j + 1)) =~= p[j]);
        assert forall|i: int|
            piece_start(p, j) <= i < piece_start(p, j + 1) implies #[trigger] concat_all(p)[i]
                == p[j][i - piece_start(p, j)] by {
            assert(concat_all(p).subrange(piece_start(p, j), piece_start(p, j + 1))[i
                - piece_start(p, j)] == concat_all(p)[i]);
        }
    } else {
        lemma_concat_all(q, j);
        assert(q.take(j) == p.take(j));
        assert(q.take(j + 1) == p.take(j + 1));
        assert(concat_all(p).subrange(piece_start(p, j), piece_start(p, j + 1)) =~= concat_all(
            q,
        ).subrange(piece_start(q, j), piece_start(q, j + 1)));
        assert forall|i: int|
            piece_start(p, j) <= i < piece_start(p, j + 1) implies #[trigger] concat_all(p)[i]
                == p[j][i - piece_start(p, j)] by {
            assert(concat_all(p)[i] == concat_all(q)[i]);
        }
    }
}

/// Whether reading `c` changes the scan state `s`.
pub open spec fn moves(s: ScanState, c: char) -> bool {
    if s.awaiting_start {
        Some(c) == start_delimiter(table_position(s.index))
    } else {
        c == end_delimiter(table_position(s.index))
    }
}

proof fn lemma_scan_run(line: Seq<char>, a: int, b: int)
    requires
        first_non_space(line, 0) <= a <= b <= line.len(),
        forall|i: int| a <= i < b ==> !moves(scan_to(line, a), #[trigger] line[i]),
    ensures
        scan_to(line, b) == scan_to(line, a),
    decreases b - a,
{
    if b > a {
        lemma_scan_run(line, a, b - 1);
        assert(!moves(scan_to(line, a), line[b - 1]));
    }
}

proof fn lemma_field_then_delimiter(line: Seq<char>, a: int, b: int)
    requires
        first_non_space(line, 0) <= a <= b < line.len(),
        !scan_to(line, a).awaiting_start,
        forall|i: int|
            a <= i < b ==> #[trigger] line[i] != end_delimiter(
                table_position(scan_to(line, a).index),
            ),
        line[b] == end_delimiter(table_position(scan_to(line, a).index)),
    ensures
        scan_to(line, b + 1) == scan_step(scan_to(line, a), line[b], b),
{
    lemma_first_non_space_bounds(line, 0);
    assert forall|i: int| a <= i < b implies !moves(scan_to(line, a), #[trigger] line[i]) by {}
    lemma_scan_run(line, a, b);
}

/// The ranges of the first `k` fields of a line made of the pieces `p`.
pub open spec fn leading_ranges(p: Seq<Seq<char>>, k: int) -> Seq<(int, int)> {
    Seq::new(k as nat, |i: int| (piece_start(p, 2 * i), piece_start(p, 2 * i + 1)))
}

/// The scan of a line whose first eleven fields are plain, after `k` of them.
proof fn lemma_plain_fields(p: Seq<Seq<char>>, k: int)
    requires
        0 <= k <= 11,
        p.len() >= 22,
        p[0].len() > 0,
        !is_white_space(p[0][0]),
        forall|j: int| 0 <= j < 10 ==> #[trigger] p[2 * j + 1] == seq![' '],
        p[21][0] == ' ',
        p[21].len() > 0,
        forall|j: int| 0 <= j < 11 ==> !holds(#[trigger] p[2 * j], ' '),
    ensures
        k <= 10 ==> scan_to(concat_all(p), piece_start(p, 2 * k)) == (ScanState {
            index: k as nat,
            awaiting_start: false,
            start: piece_start(p, 2 * k),
            ranges: leading_ranges(p, k),
        }),
        k == 11 ==> scan_to(concat_all(p), piece_start(p, 21) + 1) == (ScanState {
            index: 11,
            awaiting_start: true,
            start: piece_start(p, 21) + 1,
            ranges: leading_ranges(p, 11),
        }),
    decreases k,
{
    let line = concat_all(p);
    assert(p.take(0) =~= Seq::<Seq<char>>::empty());
    assert(piece_start(p, 0) == 0);
    lemma_concat_all(p, 0);
    assert(line[0] == p[0][0]);
    assert(first_non_space(line, 0) == 0);
    if k == 0 {
        assert(leading_ranges(p, 0) =~= Seq::<(int, int)>::empty());
    } else {
        lemma_plain_fields(p, k - 1);
        lemma_concat_all(p, 2 * (k - 1));
        lemma_concat_all(p, 2 * (k - 1) + 1);
        let a = piece_start(p, 2 * (k - 1));
        let b = piece_start(p, 2 * (k - 1) + 1);
        assert(forall|i: int| a <= i < b ==> #[trigger] line[i] != ' ') by {
            assert forall|i: int| a <= i < b implies #[trigger] line[i] != ' ' by {
                assert(line[i] == p[2 * (k - 1)][i - a]);
                assert(!holds(p[2 * (k - 1)], ' '));
            }
        }
        if k <= 10 {
            assert(p[2 * (k - 1) + 1] == seq![' ']);
        }
        assert(line[b] == p[2 * (k - 1) + 1][0]);
        lemma_field_then_delimiter(line, a, b);
        assert(leading_ranges(p, k) =~= leading_ranges(p, k - 1).push((a, b)));
    }
}

/// The scan of a line of either layout after its request line: the state
/// once the quote that closes the HTTP version has been read.
proof fn lemma_request_line(p: Seq<Seq<char>>, f: Seq<Seq<char>>)
    requires
        p.len() >= 28,
        f.len() >= 14,
        short_writable(f.take(14)),
        forall|j: int| 0 <= j < 27 ==> #[trigger] p[j] == short_pieces(f)[j],
        p[27].len() > 0,
        p[27][0] == '"',
    ensures
        scan_to(concat_all(p), piece_start(p, 27) + 1) == (ScanState {
            index: 14,
            awaiting_start: true,
            start: piece_start(p, 27) + 1,
            ranges: leading_ranges(p, 14),
        }),
        piece_start(p, 28) <= concat_all(p).len(),
        forall|i: int|
            0 <= i < 14 ==> concat_all(p).subrange(
                piece_start(p, 2 * i),
                piece_start(p, 2 * i + 1),
            ) == f[i],
{
    let line = concat_all(p);
    let g = f.take(14);
    assert forall|j: int| 0 <= j < 14 implies #[trigger] g[j] == f[j] by {}
    assert forall|j: int| 0 <= j < 10 implies #[trigger] p[2 * j + 1] == seq![' '] by {
        assert(p[2 * j + 1] == short_pieces(f)[2 * j + 1]);
    }
    assert forall|j: int| 0 <= j < 11 implies !holds(#[trigger] p[2 * j], ' ') by {
        assert(p[2 * j] == short_pieces(f)[2 * j]);
        assert(!holds(g[j], ' '));
    }
    assert(p[21] == seq![' ', '"']);
    assert(p[0] == f[0]);
    lemma_plain_fields(p, 11);
    lemma_concat_all(p, 0);
    lemma_concat_all(p, 21);
    lemma_concat_all(p, 22);
    lemma_concat_all(p, 23);
    lemma_concat_all(p, 24);
    lemma_concat_all(p, 25);
    lemma_concat_all(p, 26);
    lemma_concat_all(p, 27);
    assert(line[0] == p[0][0]);
    assert(first_non_space(line, 0) == 0);
    let o = |j: int| piece_start(p, j);
    // The quote that opens the request line.
    assert(line[o(21) + 1] == '"');
    assert(o(22) == o(21) + 2);
    // Method, URL and HTTP version.
    assert(p[22] == f[11] && p[24] == f[12] && p[26] == f[13]);
    assert(!holds(g[11], ' ') && !holds(g[12], ' ') && !holds(g[13], '"'));
    assert forall|i: int| o(22) <= i < o(23) implies #[trigger] line[i] != ' ' by {
        assert(line[i] == p[22][i - o(22)]);
    }
    assert(line[o(23)] == ' ');
    lemma_field_then_delimiter(line, o(22), o(23));
    assert forall|i: int| o(24) <= i < o(25) implies #[trigger] line[i] != ' ' by {
        assert(line[i] == p[24][i - o(24)]);
    }
    assert(line[o(25)] == ' ');
    lemma_field_then_delimiter(line, o(24), o(25));
    assert forall|i: int| o(26) <= i < o(27) implies #[trigger] line[i] != '"' by {
        assert(line[i] == p[26][i - o(26)]);
    }
    assert(line[o(27)] == '"');
    lemma_field_then_delimiter(line, o(26), o(27));
    assert(leading_ranges(p, 14) =~= leading_ranges(p, 11).push((o(22), o(23))).push(
        (o(24), o(25)),
    ).push((o(26), o(27))));
    assert forall|i: int|
        0 <= i < 14 implies concat_all(p).subrange(
            piece_start(p, 2 * i),
            piece_start(p, 2 * i + 1),
        ) == f[i] by {
        lemma_concat_all(p, 2 * i);
        assert(p[2 * i] == short_pieces(f)[2 * i]);
    }
}

/// Writing the fields of the shorter layout into a line with its delimiters
/// and splitting that line gives the same fields again.
pub proof fn lemma_short_line_splits_back(f: Seq<Seq<char>>)
    requires
        short_writable(f),
    ensures
        split_fields(short_line(f)) == f,
{
    let p = short_pieces(f);
    let line = concat_all(p);
    assert(f.take(14) =~= f);
    lemma_request_line(p, f);
    assert(p.take(28) == p);
    assert(piece_start(p, 28) == line.len());
    let ranges = field_ranges(line);
    assert(ranges == leading_ranges(p, 14));
    assert(split_fields(line) =~= f);
}

/// Writing the fields of the longer layout into a line with its delimiters
/// and splitting that line gives the same fields again.
#[verifier::rlimit(40)]
pub proof fn lemma_full_line_splits_back(f: Seq<Seq<char>>)
    requires
        full_writable(f),
    ensures
        split_fields(full_line(f)) == f,
{
    let p = full_pieces(f);
    let line = concat_all(p);
    assert forall|j: int| 0 <= j < 27 implies #[trigger] p[j] == short_pieces(f)[j] by {}
    lemma_request_line(p, f);
    let o = |j: int| piece_start(p, j);
    lemma_concat_all(p, 27);
    lemma_concat_all(p, 28);
    lemma_concat_all(p, 29);
    lemma_concat_all(p, 30);
    lemma_concat_all(p, 31);
    lemma_concat_all(p, 32);
    assert(p.take(33) == p);
    assert(o(33) == line.len());
    assert(first_non_space(line, 0) == 0) by {
        lemma_concat_all(p, 0);
        assert(line[0] == p[0][0]);
        assert(p[0] == f.take(14)[0]);
    }
    assert(p[28] == f[14] && p[30] == f[15] && p[32] == f[16]);
    // The space and the quote that open the user agent.
    assert(line[o(27) + 1] == ' ');
    assert(line[o(27) + 2] == '"');
    assert(o(28) == o(27) + 3);
    assert(scan_to(line, o(27) + 2) == scan_step(scan_to(line, o(27) + 1), line[o(27) + 1], o(27) + 1));
    assert(scan_to(line, o(27) + 3) == scan_step(scan_to(line, o(27) + 2), line[o(27) + 2], o(27) + 2));
    // User agent, then the space that opens the cipher.
    assert forall|i: int| o(28) <= i < o(29) implies #[trigger] line[i] != '"' by {
        assert(line[i] == p[28][i - o(28)]);
    }
    assert(line[o(29)] == '"');
    lemma_field_then_delimiter(line, o(28), o(29));
    assert(line[o(29) + 1] == ' ');
    assert(o(30) == o(29) + 2);
    assert(scan_to(line, o(29) + 2) == scan_step(scan_to(line, o(29) + 1), line[o(29) + 1], o(29) + 1));
    // Cipher, then protocol up to the end of the line.
    assert forall|i: int| o(30) <= i < o(31) implies #[trigger] line[i] != ' ' by {
        assert(line[i] == p[30][i - o(30)]);
    }
    assert(line[o(31)] == ' ');
    lemma_field_then_delimiter(line, o(30), o(31));
    assert(o(32) == o(31) + 1);
    assert forall|i: int| o(32) <= i < o(33) implies !moves(scan_to(line, o(32)), #[trigger] line[i]) by {
        assert(line[i] == p[32][i - o(32)]);
    }
    lemma_scan_run(line, o(32), o(33));
    assert(field_ranges(line) =~= leading_ranges(p, 17));
    assert forall|i: int|
        0 <= i < 17 implies #[trigger] line.subrange(o(2 * i), o(2 * i + 1)) == f[i] by {
        if i >= 14 {
            lemma_concat_all(p, 2 * i);
        }
    }
    assert(split_fields(line) =~= f);
}

/// A line of the shorter layout followed by a space splits into the same
/// fields: the user agent never finds its opening quote, so the space starts
/// no field.
pub proof fn lemma_short_line_with_trailing_space(f: Seq<Seq<char>>)
    requires
        short_writable(f),
    ensures
        split_fields(short_line(f) + seq![' ']) == f,
{
    let p = short_pieces(f).push(seq![' ']);
    let line = concat_all(p);
    assert(p.drop_last() == short_pieces(f));
    assert(line == short_line(f) + seq![' ']);
    assert(f.take(14) =~= f);
    assert forall|j: int| 0 <= j < 27 implies #[trigger] p[j] == short_pieces(f)[j] by {}
    lemma_request_line(p, f);
    lemma_concat_all(p, 27);
    lemma_concat_all(p, 28);
    assert(p.take(29) == p);
    assert(piece_start(p, 29) == line.len());
    assert(piece_start(p, 28) == piece_start(p, 27) + 1);
    assert(line[piece_start(p, 28)] == ' ');
    assert(first_non_space(line, 0) == 0) by {
        lemma_concat_all(p, 0);
        assert(line[0] == p[0][0]);
        assert(p[0] == f[0]);
    }
    assert(scan_to(line, line.len() as int) == scan_step(
        scan_to(line, piece_start(p, 28)),
        line[piece_start(p, 28)],
        piece_start(p, 28),
    ));
    assert(field_ranges(line) == leading_ranges(p, 14));
    assert(split_fields(line) =~= f);
}

} // verus!
