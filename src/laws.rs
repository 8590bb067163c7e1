//! Properties of [`parse_record`](crate::record::parse_record) that hold of
//! every line, stated over the result that its contract describes.
use vstd::prelude::*;

use crate::field::{field_position, ELBRecordField, FULL_FIELD_COUNT, SHORT_FIELD_COUNT};
use crate::record::{
    decoded_field, decodes_to, error_views, failure_of, field_failure, field_failures, known_layout, parse_result_matches, ELBRecord, ErrorView,
    ParsingErrors, UNDEFINED_CHAR,
};
use crate::decode::{
    all_digits, exponent_index, is_digit, is_float_literal, is_socket_address, lemma_exponent_index,
    lemma_separator_positions, socket_pieces, spells, unsigned_digits,
    unsigned_float,
};
use crate::layout::{
    full_line, full_writable, holds, lemma_full_line_splits_back, lemma_short_line_splits_back,
    short_line, short_writable,
};
use crate::split::split_fields;

verus! {

/// The message with which the field `g` of the raw fields `f` fails, if it does.
pub open spec fn failure_at(f: Seq<Seq<char>>, g: ELBRecordField) -> Option<Seq<char>> {
    field_failure(g, f[field_position(g) as int])
}

/// A line whose number of raw fields is neither 14 nor 17 gives exactly one
/// error, `MalformedRecord`, and no error of any field.
pub proof fn lemma_unknown_layout_is_malformed(
    line: Seq<char>,
    r: Result<ELBRecord, ParsingErrors>,
)
    requires
        parse_result_matches(line, r),
        !known_layout(split_fields(line).len()),
    ensures
        r matches Err(e) && e.errors@.len() == 1 && e.errors@[0]@ == ErrorView::Malformed,
{
    let e = r->Err_0;
    assert(error_views(e.errors@).len() == e.errors@.len());
    assert(error_views(e.errors@)[0] == e.errors@[0]@);
}

/// A well-formed line of the shorter layout has `-` as its user agent, SSL
/// cipher and SSL protocol.
pub proof fn lemma_short_layout_placeholders(line: Seq<char>, r: Result<ELBRecord, ParsingErrors>)
    requires
        parse_result_matches(line, r),
        split_fields(line).len() == SHORT_FIELD_COUNT,
        r is Ok,
    ensures
        r->Ok_0.user_agent@ == UNDEFINED_CHAR@,
        r->Ok_0.ssl_cipher@ == UNDEFINED_CHAR@,
        r->Ok_0.ssl_protocol@ == UNDEFINED_CHAR@,
{
}

/// A well-formed line of the longer layout has as its user agent, SSL cipher
/// and SSL protocol the text of its last three fields, without the quotes
/// around the user agent.
pub proof fn lemma_full_layout_optional_fields(
    line: Seq<char>,
    r: Result<ELBRecord, ParsingErrors>,
)
    requires
        parse_result_matches(line, r),
        split_fields(line).len() == FULL_FIELD_COUNT,
        r is Ok,
    ensures
        r->Ok_0.user_agent@ == split_fields(line)[14],
        r->Ok_0.ssl_cipher@ == split_fields(line)[15],
        r->Ok_0.ssl_protocol@ == split_fields(line)[16],
{
}

/// When exactly one field of a well-formed line fails to decode, the result
/// holds exactly one error, and it names that field.
pub proof fn lemma_one_bad_field(
    line: Seq<char>,
    r: Result<ELBRecord, ParsingErrors>,
    bad: ELBRecordField,
)
    requires
        parse_result_matches(line, r),
        known_layout(split_fields(line).len()),
        failure_at(split_fields(line), bad) is Some,
        forall|g: ELBRecordField| g != bad ==> #[trigger] failure_at(split_fields(line), g) is None,
    ensures
        r matches Err(e) && error_views(e.errors@) == seq![
            ErrorView::Field(bad, failure_at(split_fields(line), bad)->0),
        ],
{
    let f = split_fields(line);
    let m = failure_at(f, bad)->0;
    assert forall|g: ELBRecordField| #[trigger] failure_of(f, g) == if g == bad {
        seq![ErrorView::Field(bad, m)]
    } else {
        Seq::<ErrorView>::empty()
    } by {
        assert(failure_at(f, g) == field_failure(g, f[field_position(g) as int]));
    }
    assert(field_failures(f) =~= seq![ErrorView::Field(bad, m)]);
}

/// When exactly two fields of a well-formed line fail to decode, the result
/// holds exactly two errors, one for each of them, in the order of the fields.
#[verifier::rlimit(60)]
pub proof fn lemma_two_bad_fields(
    line: Seq<char>,
    r: Result<ELBRecord, ParsingErrors>,
    first: ELBRecordField,
    second: ELBRecordField,
)
    requires
        parse_result_matches(line, r),
        known_layout(split_fields(line).len()),
        field_position(first) < field_position(second),
        failure_at(split_fields(line), first) is Some,
        failure_at(split_fields(line), second) is Some,
        forall|g: ELBRecordField|
            g != first && g != second ==> #[trigger] failure_at(split_fields(line), g) is None,
    ensures
        r matches Err(e) && error_views(e.errors@) == seq![
            ErrorView::Field(first, failure_at(split_fields(line), first)->0),
            ErrorView::Field(second, failure_at(split_fields(line), second)->0),
        ],
{
    let f = split_fields(line);
    let m1 = failure_at(f, first)->0;
    let m2 = failure_at(f, second)->0;
    assert forall|g: ELBRecordField| #[trigger] failure_of(f, g) == if g == first {
        seq![ErrorView::Field(first, m1)]
    } else if g == second {
        seq![ErrorView::Field(second, m2)]
    } else {
        Seq::<ErrorView>::empty()
    } by {
        assert(failure_at(f, g) == field_failure(g, f[field_position(g) as int]));
    }
    assert(field_failures(f) =~= seq![
        ErrorView::Field(first, m1),
        ErrorView::Field(second, m2),
    ]);
}

/// Whether `t` holds no decimal digit.
pub open spec fn has_no_digit(t: Seq<char>) -> bool {
    forall|i: int| 0 <= i < t.len() ==> !is_digit(#[trigger] t[i])
}

/// A token without a digit fails to decode as an address, a status code or
/// a byte count, and as a processing time unless it names infinity or NaN.
pub proof fn lemma_token_without_digits_fails(g: ELBRecordField, t: Seq<char>)
    requires
        g != ELBRecordField::Timestamp,
        decoded_field(g),
        has_no_digit(t),
        !spells(unsigned_float(t), "inf"@),
        !spells(unsigned_float(t), "infinity"@),
        !spells(unsigned_float(t), "nan"@),
    ensures
        field_failure(g, t) is Some,
{
    if t.len() > 0 {
        let d = unsigned_digits(t);
        if d.len() > 0 && all_digits(d) {
            assert(d[0] == t[t.len() - d.len()]);
        }
        if is_socket_address(t) {
            lemma_separator_positions(t);
            let first = socket_pieces(t)[0];
            assert(first[0] == t[0]);
        }
        if is_float_literal(t) {
            let b = unsigned_float(t);
            let k = exponent_index(b, 0);
            lemma_exponent_index(b, 0);
            let m = b.take(k);
            let i = choose|i: int| 0 <= i < m.len() && is_digit(#[trigger] m[i]);
            assert(m[i] == t[t.len() - b.len() + i]);
        }
    }
}

/// Decoding a line written from the fields `f` of the longer layout gives a
/// record exactly when every field of `f` decodes, and then the record holds
/// the values of `f`: its text fields are those of `f`, without the quotes
/// that the line adds.
pub proof fn lemma_full_line_round_trip(f: Seq<Seq<char>>, r: Result<ELBRecord, ParsingErrors>)
    requires
        full_writable(f),
        parse_result_matches(full_line(f), r),
    ensures
        r is Ok <==> field_failures(f).len() == 0,
        r matches Ok(rec) ==> decodes_to(f, rec),
        r matches Err(e) ==> error_views(e.errors@) == field_failures(f),
{
    lemma_full_line_splits_back(f);
}

/// Decoding a line written from the fields `f` of the shorter layout gives a
/// record exactly when every field of `f` decodes, and then the record holds
/// the values of `f` and the placeholder in the three fields it lacks.
pub proof fn lemma_short_line_round_trip(f: Seq<Seq<char>>, r: Result<ELBRecord, ParsingErrors>)
    requires
        short_writable(f),
        parse_result_matches(short_line(f), r),
    ensures
        r is Ok <==> field_failures(f).len() == 0,
        r matches Ok(rec) ==> decodes_to(f, rec),
        r matches Err(e) ==> error_views(e.errors@) == field_failures(f),
{
    lemma_short_line_splits_back(f);
}

/// A token that can replace a decoded field of a written line: it holds no
/// digit, space or quote, and does not name infinity or NaN.
pub open spec fn corrupting_token(t: Seq<char>) -> bool {
    &&& has_no_digit(t)
    &&& !holds(t, ' ')
    &&& !holds(t, '"')
    &&& !spells(unsigned_float(t), "inf"@)
    &&& !spells(unsigned_float(t), "infinity"@)
    &&& !spells(unsigned_float(t), "nan"@)
}

/// The line written from the fields `f`, in the layout that their number
/// selects.
pub open spec fn written_line(f: Seq<Seq<char>>) -> Seq<char> {
    if f.len() == FULL_FIELD_COUNT {
        full_line(f)
    } else {
        short_line(f)
    }
}

/// Fields that the layout their number selects can carry.
pub open spec fn writable(f: Seq<Seq<char>>) -> bool {
    short_writable(f) || full_writable(f)
}

proof fn lemma_replaced_writable(f: Seq<Seq<char>>, i: int, t: Seq<char>)
    requires
        writable(f),
        2 <= i <= 10,
        !holds(t, ' '),
    ensures
        writable(f.update(i, t)),
        split_fields(written_line(f.update(i, t))) == f.update(i, t),
{
    let g = f.update(i, t);
    assert forall|k: int| 0 <= k < 13 implies !holds(#[trigger] g[k], ' ') by {
        if k != i {
            assert(g[k] == f[k]);
            if f.len() == FULL_FIELD_COUNT {
                assert(f.take(14)[k] == f[k]);
                assert(!holds(f.take(14)[k], ' '));
            }
        }
    }
    if f.len() == FULL_FIELD_COUNT {
        assert(g.take(14) == f.take(14).update(i, t));
        assert forall|k: int| 0 <= k < 13 implies !holds(#[trigger] g.take(14)[k], ' ') by {
            assert(g.take(14)[k] == g[k]);
        }
        assert(g.take(14)[0] == f.take(14)[0]);
        assert(g.take(14)[13] == f.take(14)[13]);
        assert(full_writable(g));
        lemma_full_line_splits_back(g);
    } else {
        assert(short_writable(g));
        lemma_short_line_splits_back(g);
    }
}

proof fn lemma_no_failures(f: Seq<Seq<char>>)
    requires
        f.len() >= 11,
        field_failures(f).len() == 0,
    ensures
        forall|h: ELBRecordField| #[trigger] failure_at(f, h) is None,
{
    assert(failure_of(f, ELBRecordField::Timestamp).len() == 0);
    assert(failure_of(f, ELBRecordField::ClientAddress).len() == 0);
    assert(failure_of(f, ELBRecordField::BackendAddress).len() == 0);
    assert(failure_of(f, ELBRecordField::RequestProcessingTime).len() == 0);
    assert(failure_of(f, ELBRecordField::BackendProcessingTime).len() == 0);
    assert(failure_of(f, ELBRecordField::ResponseProcessingTime).len() == 0);
    assert(failure_of(f, ELBRecordField::ELBStatusCode).len() == 0);
    assert(failure_of(f, ELBRecordField::BackendStatusCode).len() == 0);
    assert(failure_of(f, ELBRecordField::ReceivedBytes).len() == 0);
    assert(failure_of(f, ELBRecordField::SentBytes).len() == 0);
    assert forall|h: ELBRecordField| #[trigger] failure_at(f, h) is None by {
        if failure_at(f, h) is Some {
            assert(failure_of(f, h).len() == 1);
        }
    }
}

proof fn lemma_position_injective(a: ELBRecordField, b: ELBRecordField)
    requires
        field_position(a) == field_position(b),
    ensures
        a == b,
{
}

/// Replacing one decoded field, other than the timestamp, of a line whose
/// fields all decode by a token without digits gives exactly one error, and
/// it names that field.
#[verifier::rlimit(40)]
pub proof fn lemma_corrupted_field(
    f: Seq<Seq<char>>,
    bad: ELBRecordField,
    t: Seq<char>,
    r: Result<ELBRecord, ParsingErrors>,
)
    requires
        writable(f),
        field_failures(f).len() == 0,
        decoded_field(bad),
        bad != ELBRecordField::Timestamp,
        corrupting_token(t),
        parse_result_matches(written_line(f.update(field_position(bad) as int, t)), r),
    ensures
        r matches Err(e) && error_views(e.errors@) == seq![
            ErrorView::Field(bad, field_failure(bad, t)->0),
        ],
{
    let i = field_position(bad) as int;
    let g = f.update(i, t);
    let line = written_line(g);
    lemma_replaced_writable(f, i, t);
    lemma_token_without_digits_fails(bad, t);
    assert(f.len() == SHORT_FIELD_COUNT || f.len() == FULL_FIELD_COUNT);
    lemma_no_failures(f);
    assert(g[i] == t);
    assert forall|h: ELBRecordField| h != bad implies #[trigger] failure_at(split_fields(line), h) is None by {
        if decoded_field(h) {
            let k = field_position(h) as int;
            if k == i {
                lemma_position_injective(h, bad);
            }
            assert(g[k] == f[k]);
            assert(failure_at(f, h) is None);
        }
    }
    lemma_one_bad_field(line, r, bad);
}

/// Replacing two decoded fields, other than the timestamp, of a line whose
/// fields all decode by tokens without digits gives exactly two errors, one
/// for each of them, in the order of the fields.
#[verifier::rlimit(40)]
pub proof fn lemma_two_corrupted_fields(
    f: Seq<Seq<char>>,
    first: ELBRecordField,
    second: ELBRecordField,
    t1: Seq<char>,
    t2: Seq<char>,
    r: Result<ELBRecord, ParsingErrors>,
)
    requires
        writable(f),
        field_failures(f).len() == 0,
        decoded_field(first),
        decoded_field(second),
        first != ELBRecordField::Timestamp,
        field_position(first) < field_position(second),
        corrupting_token(t1),
        corrupting_token(t2),
        parse_result_matches(
            written_line(
                f.update(field_position(first) as int, t1).update(field_position(second) as int, t2),
            ),
            r,
        ),
    ensures
        r matches Err(e) && error_views(e.errors@) == seq![
            ErrorView::Field(first, field_failure(first, t1)->0),
            ErrorView::Field(second, field_failure(second, t2)->0),
        ],
{
    let i1 = field_position(first) as int;
    let i2 = field_position(second) as int;
    let g1 = f.update(i1, t1);
    let g = g1.update(i2, t2);
    let line = written_line(g);
    lemma_replaced_writable(f, i1, t1);
    lemma_replaced_writable(g1, i2, t2);
    lemma_token_without_digits_fails(first, t1);
    lemma_token_without_digits_fails(second, t2);
    assert(f.len() == SHORT_FIELD_COUNT || f.len() == FULL_FIELD_COUNT);
    lemma_no_failures(f);
    assert(g[i1] == t1);
    assert(g[i2] == t2);
    assert forall|h: ELBRecordField|
        h != first && h != second implies #[trigger] failure_at(split_fields(line), h) is None by {
        if decoded_field(h) {
            let k = field_position(h) as int;
            if k == i1 {
                lemma_position_injective(h, first);
            }
            if k == i2 {
                lemma_position_injective(h, second);
            }
            assert(g[k] == f[k]);
            assert(failure_at(f, h) is None);
        }
    }
    lemma_two_bad_fields(line, r, first, second);
}

} // verus!
