use vstd::prelude::*;

use crate::sample::LabelPixel;

verus! {

/// A dataset line failed to parse into a label and a feature vector; the
/// whole load is abandoned rather than silently shrinking the dataset.
#[derive(Clone, Copy, Debug, PartialEq, Eq, Structural)]
pub struct MalformedRecordError;

/// The byte is an ASCII decimal digit.
pub open spec fn is_digit(b: u8) -> bool {
    48 <= b <= 57
}

/// Value of a most-significant-first sequence of ASCII digits.
pub open spec fn digits_value(s: Seq<u8>) -> int
    decreases s.len(),
{
    if s.len() == 0 {
        0
    } else {
        digits_value(s.drop_last()) * 10 + (s.last() - 48)
    }
}

/// The digits of an integer field: the field with its optional sign removed.
pub open spec fn field_digits(s: Seq<u8>) -> Seq<u8> {
    if s.len() > 0 && (s[0] == 45 || s[0] == 43) {
        s.skip(1)
    } else {
        s
    }
}

/// The byte sequence is a well-formed integer field: an optional ASCII sign
/// followed by at least one ASCII decimal digit and nothing else.
pub open spec fn is_int_field(s: Seq<u8>) -> bool {
    s.len() > 0 && field_digits(s).len() > 0 && (forall|i: int|
        0 <= i < field_digits(s).len() ==> is_digit(#[trigger] field_digits(s)[i]))
}

/// Integer value a well-formed field denotes.
pub open spec fn field_value(s: Seq<u8>) -> int {
    if s.len() > 0 && s[0] == 45 {
        -digits_value(field_digits(s))
    } else {
        digits_value(field_digits(s))
    }
}

proof fn lemma_digits_value_nonneg(s: Seq<u8>)
    requires
        forall|i: int| 0 <= i < s.len() ==> is_digit(#[trigger] s[i]),
    ensures
        digits_value(s) >= 0,
    decreases s.len(),
{
    if s.len() > 0 {
        lemma_digits_value_nonneg(s.drop_last());
    }
}

proof fn lemma_digits_value_step(s: Seq<u8>, i: int)
    requires
        0 <= i < s.len(),
    ensures
        digits_value(s.take(i + 1)) == digits_value(s.take(i)) * 10 + (s[i] - 48),
{
    assert(s.take(i + 1).drop_last() =~= s.take(i));
    assert(s.take(i + 1).last() == s[i]);
}

proof fn lemma_digits_value_monotone(s: Seq<u8>, i: int)
    requires
        forall|j: int| 0 <= j < s.len() ==> is_digit(#[trigger] s[j]),
        0 <= i <= s.len(),
    ensures
        digits_value(s.take(i)) <= digits_value(s),
    decreases s.len() - i,
{
    if i < s.len() {
        lemma_digits_value_step(s, i);
        assert(forall|j: int|
            0 <= j < s.take(i).len() ==> is_digit(#[trigger] s.take(i)[j]));
        lemma_digits_value_nonneg(s.take(i));
        lemma_digits_value_monotone(s, i + 1);
    } else {
        assert(s.take(i) =~= s);
    }
}

/// Parses one integer field: an optional sign followed by decimal digits.
/// Succeeds exactly on well-formed fields whose value fits an `i64`.
pub fn parse_i64(field: &[u8]) -> (r: Option<i64>)
    ensures
        r is Some <==> (is_int_field(field@) && i64::MIN <= field_value(field@) <= i64::MAX),
        r matches Some(v) ==> v == field_value(field@),
{
    let len = field.len();
    if len == 0 {
        return None;
    }
    let negative = field[0] == 45;
    let start: usize = if negative || field[0] == 43 {
        1
    } else {
        0
    };
    assert(field@.skip(start as int) =~= field_digits(field@)) by {
        if start == 0 {
            assert(field@.skip(0) =~= field@);
        }
    }
    let ghost ds = field_digits(field@);
    if start == len {
        return None;
    }
    let mut acc: i128 = 0;
    let mut i: usize = start;
    while i < len
        invariant
            start <= i <= len,
            len == field@.len(),
            start <= 1,
            ds == field_digits(field@),
            ds =~= field@.skip(start as int),
            ds.len() == len - start,
            forall|j: int| 0 <= j < i - start ==> is_digit(#[trigger] ds[j]),
            0 <= acc <= 0x8000_0000_0000_0000,
            acc == digits_value(ds.take(i - start)),
        decreases len - i,
    {
        let b = field[i];
        if b < 48 || b > 57 {
            proof {
                assert(field_digits(field@)[i - start] == field@[i as int]);
                assert(!is_digit(field_digits(field@)[i - start]));
                assert(!is_int_field(field@));
            }
            return None;
        }
        proof {
            lemma_digits_value_step(ds, i - start);
        }
        let d = (b - 48) as i128;
        acc = acc * 10 + d;
        i = i + 1;
        if acc > 0x8000_0000_0000_0000 {
            proof {
                if is_int_field(field@) {
                    lemma_digits_value_monotone(ds, i - start);
                    assert(digits_value(ds) >= acc);
                }
            }
            return None;
        }
    }
    proof {
        assert(ds.take(len - start) =~= ds);
        assert(acc == digits_value(ds));
        assert(is_int_field(field@));
    }
    if negative {
        let v128: i128 = -acc;
        Some(v128 as i64)
    } else {
        if acc > 0x7fff_ffff_ffff_ffff {
            return None;
        }
        Some(acc as i64)
    }
}

/// Index of the first comma in `s`, or `s.len()` if there is none.
pub open spec fn first_comma(s: Seq<u8>) -> nat
    decreases s.len(),
{
    if s.len() == 0 {
        0
    } else if s[0] == 44 {
        0
    } else {
        1 + first_comma(s.skip(1))
    }
}

/// The comma-separated fields of a line: the maximal segments between
/// commas, in order. Every line has at least one field.
pub open spec fn split_commas(s: Seq<u8>) -> Seq<Seq<u8>>
    decreases s.len(),
{
    let k = first_comma(s) as int;
    if k >= s.len() {
        seq![s]
    } else {
        seq![s.take(k)] + split_commas(s.skip(k + 1))
    }
}

/// Every field of the line is a well-formed integer field whose value fits
/// an `i64`: the condition under which the line parses into a sample.
pub open spec fn valid_record(line: Seq<u8>) -> bool {
    forall|i: int|
        0 <= i < split_commas(line).len() ==> is_int_field(#[trigger] split_commas(line)[i])
            && i64::MIN <= field_value(split_commas(line)[i]) <= i64::MAX
}

/// The label a valid line denotes: the value of its first field.
pub open spec fn record_label(line: Seq<u8>) -> int {
    field_value(split_commas(line)[0])
}

proof fn lemma_split_nonempty(s: Seq<u8>)
    ensures
        split_commas(s).len() >= 1,
{
}

proof fn lemma_first_comma_at(s: Seq<u8>, k: int)
    requires
        0 <= k <= s.len(),
        forall|j: int| 0 <= j < k ==> s[j] != 44,
        k < s.len() ==> s[k] == 44,
    ensures
        first_comma(s) == k,
    decreases k,
{
    if k > 0 {
        assert(forall|j: int| 0 <= j < k - 1 ==> s.skip(1)[j] != 44);
        lemma_first_comma_at(s.skip(1), k - 1);
    }
}

fn find_comma(line: &[u8], start: usize) -> (e: usize)
    requires
        start <= line@.len(),
    ensures
        start <= e <= line@.len(),
        forall|j: int| start <= j < e ==> line@[j] != 44,
        e < line@.len() ==> line@[e as int] == 44,
{
    let n = line.len();
    let mut e = start;
    while e < n
        invariant
            start <= e <= n,
            n == line@.len(),
            forall|j: int| start <= j < e ==> line@[j] != 44,
        decreases n - e,
    {
        if line[e] == 44 {
            return e;
        }
        e = e + 1;
    }
    e
}

/// Parses one dataset line: comma-separated integer fields, the first field
/// the label and the remaining fields the feature vector. Succeeds exactly
/// when every field is a well-formed integer that fits an `i64`; a malformed
/// record is rejected as fatal, never skipped or truncated.
pub fn parse_record(line: &[u8]) -> (r: Result<LabelPixel, MalformedRecordError>)
    ensures
        r is Ok <==> valid_record(line@),
        r matches Ok(rec) ==> ({
            &&& rec.label == record_label(line@)
            &&& rec.pixels@.len() == split_commas(line@).len() - 1
            &&& forall|i: int|
                0 <= i < rec.pixels@.len() ==> rec.pixels@[i] == field_value(
                    split_commas(line@)[i + 1],
                )
        }),
{
    let ghost fs = split_commas(line@);
    let mut vals: Vec<i64> = Vec::new();
    let mut cursor: usize = 0;
    proof {
        assert(line@.skip(0) =~= line@);
        lemma_split_nonempty(line@);
    }
    loop
        invariant_except_break
            cursor <= line@.len(),
            fs == split_commas(line@),
            fs.skip(vals@.len() as int) == split_commas(line@.skip(cursor as int)),
            vals@.len() < fs.len(),
            forall|i: int|
                0 <= i < vals@.len() ==> is_int_field(#[trigger] fs[i]) && i64::MIN <= field_value(
                    fs[i],
                ) <= i64::MAX && vals@[i] == field_value(fs[i]),
        ensures
            fs == split_commas(line@),
            vals@.len() == fs.len(),
            forall|i: int|
                0 <= i < fs.len() ==> is_int_field(#[trigger] fs[i]) && i64::MIN <= field_value(
                    fs[i],
                ) <= i64::MAX && vals@[i] == field_value(fs[i]),
        decreases line@.len() - cursor,
    {
        let ghost m = vals@.len() as int;
        let ghost rest = line@.skip(cursor as int);
        let e = find_comma(line, cursor);
        proof {
            assert(forall|j: int| 0 <= j < e - cursor ==> rest[j] != 44);
            lemma_first_comma_at(rest, e - cursor);
            assert(fs[m] == fs.skip(m)[0]);
            assert(fs.skip(m)[0] == split_commas(rest)[0]);
            if e < line@.len() {
                lemma_split_nonempty(rest.skip(e - cursor + 1));
                assert(split_commas(rest) == seq![rest.take(e - cursor)] + split_commas(
                    rest.skip(e - cursor + 1),
                ));
                assert(fs[m] == rest.take(e - cursor));
            } else {
                assert(split_commas(rest) == seq![rest]);
                assert(fs[m] == rest);
            }
            assert(line@.subrange(cursor as int, e as int) =~= fs[m]);
        }
        let field = &line[cursor..e];
        let v = match parse_i64(field) {
            Some(v) => v,
            None => {
                proof {
                    assert(split_commas(line@)[m] == fs[m]);
                    assert(!valid_record(line@));
                }
                return Err(MalformedRecordError);
            },
        };
        vals.push(v);
        if e == line.len() {
            proof {
                assert(fs.skip(m).len() == 1);
            }
            break;
        }
        proof {
            assert(fs.skip(m + 1) =~= fs.skip(m).skip(1));
            assert(fs.skip(m).skip(1) =~= split_commas(rest.skip(e - cursor + 1)));
            assert(rest.skip(e - cursor + 1) =~= line@.skip(e + 1));
            lemma_split_nonempty(rest.skip(e - cursor + 1));
        }
        cursor = e + 1;
    }
    let label = vals[0];
    let mut pixels: Vec<i64> = Vec::new();
    let mut i: usize = 1;
    while i < vals.len()
        invariant
            1 <= i <= vals@.len(),
            pixels@.len() == i - 1,
            forall|j: int| 0 <= j < i - 1 ==> pixels@[j] == vals@[j + 1],
        decreases vals@.len() - i,
    {
        pixels.push(vals[i]);
        i = i + 1;
    }
    proof {
        assert(valid_record(line@));
    }
    Ok(LabelPixel { label, pixels })
}

} // verus!
