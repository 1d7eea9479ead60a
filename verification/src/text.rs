use vstd::prelude::*;

verus! {

/// Why a table of records is not an edge list.
#[derive(Debug, Clone, Copy, PartialEq, Eq)]
pub enum EdgeListError {
    /// The record with this index has fewer than two fields, or one of its
    /// first two fields is not an unsigned number that fits a machine word.
    BadRecord { index: usize },
    /// The largest vertex identifier is the largest machine word, so the
    /// number of vertices does not fit one.
    TooManyVertices,
}

/// The records that the csv reader finds in a text without a header line:
/// for each record its fields, or `None` where the reader reports an error
/// for the record.
pub uninterp spec fn csv_records(text: Seq<u8>) -> Seq<Option<Seq<Seq<u8>>>>;

/// `csv::ReaderBuilder::new().has_headers(false).from_reader(..)` and
/// `into_records()` on the reader: the records of the text in the order in
/// which the reader yields them, the fields of each copied out as bytes, and
/// `None` in the place of a record for which the reader yields an error. The
/// text is in memory, so the outcome depends on its bytes alone.
#[verifier::external_body]
pub(crate) fn read_csv_records(text: &[u8]) -> (rows: Vec<Option<Vec<Vec<u8>>>>)
    ensures
        rows.deep_view() == csv_records(text@),
{
    csv::ReaderBuilder::new().has_headers(false).from_reader(text).into_records().map(
        |r| r.ok().map(|p| p.iter().map(|f| f.as_bytes().to_vec()).collect()),
    ).collect()
}

/// The value of a decimal digit, and zero for any other byte.
pub open spec fn digit(c: u8) -> nat {
    if 48 <= c <= 57 {
        (c - 48) as nat
    } else {
        0
    }
}

/// The number that a string of decimal digits writes.
pub open spec fn digits_value(s: Seq<u8>) -> nat
    decreases s.len(),
{
    if s.len() == 0 {
        0
    } else {
        digits_value(s.drop_last()) * 10 + digit(s.last())
    }
}

/// `s` is one decimal digit or more.
pub open spec fn is_digits(s: Seq<u8>) -> bool {
    s.len() > 0 && forall|i: int| 0 <= i < s.len() ==> 48 <= #[trigger] s[i] <= 57
}

/// `s` without a leading plus sign.
pub open spec fn unsigned_body(s: Seq<u8>) -> Seq<u8> {
    if s.len() > 0 && s[0] == 43 {
        s.subrange(1, s.len() as int)
    } else {
        s
    }
}

/// The number that a field writes: decimal digits after an optional plus
/// sign, with a value that fits a machine word. Anything else is no number.
pub open spec fn number_of(s: Seq<u8>) -> Option<usize> {
    if is_digits(unsigned_body(s)) && digits_value(unsigned_body(s)) <= usize::MAX {
        Some(digits_value(unsigned_body(s)) as usize)
    } else {
        None
    }
}

/// The edge that a record writes in its first two fields.
pub open spec fn record_edge(rec: Seq<Seq<u8>>) -> Option<(usize, usize)> {
    if rec.len() >= 2 && number_of(rec[0]) is Some && number_of(rec[1]) is Some {
        Some((number_of(rec[0]).unwrap(), number_of(rec[1]).unwrap()))
    } else {
        None
    }
}

/// A row is in order if the reader gave no record for it, or a record that
/// writes an edge.
pub open spec fn row_ok(row: Option<Seq<Seq<u8>>>) -> bool {
    row is Some ==> record_edge(row.unwrap()) is Some
}

/// The edges that the rows write, in the order of the rows; rows without a
/// record or without an edge give none.
pub open spec fn rows_edges(rows: Seq<Option<Seq<Seq<u8>>>>) -> Seq<(usize, usize)>
    decreases rows.len(),
{
    if rows.len() == 0 {
        Seq::empty()
    } else if rows.last() is Some && record_edge(rows.last().unwrap()) is Some {
        rows_edges(rows.drop_last()).push(record_edge(rows.last().unwrap()).unwrap())
    } else {
        rows_edges(rows.drop_last())
    }
}

/// The largest vertex identifier that the edges name, and zero for no edges.
pub open spec fn max_id(el: Seq<(usize, usize)>) -> nat
    decreases el.len(),
{
    if el.len() == 0 {
        0
    } else {
        let m = max_id(el.drop_last());
        let a = el.last().0 as nat;
        let b = el.last().1 as nat;
        if m >= a && m >= b {
            m
        } else if a >= b {
            a
        } else {
            b
        }
    }
}

/// The digits of a prefix write a number that is no larger than the whole.
pub proof fn lemma_digits_prefix(s: Seq<u8>, k: int)
    requires
        0 <= k <= s.len(),
    ensures
        digits_value(s.take(k)) <= digits_value(s),
    decreases s.len() - k,
{
    if k == s.len() {
        assert(s.take(k) =~= s);
    } else {
        lemma_digits_prefix(s, k + 1);
        assert(s.take(k + 1).drop_last() =~= s.take(k));
    }
}

/// Reads an unsigned decimal number: digits after an optional plus sign.
/// `None` for an empty field, any other byte, or a value that does not fit a
/// machine word.
pub fn parse_usize(s: &[u8]) -> (r: Option<usize>)
    ensures
        r == number_of(s@),
{
    let n: usize = s.len();
    let start: usize = if n > 0 && s[0] == 43 {
        1
    } else {
        0
    };
    let ghost body = unsigned_body(s@);
    proof {
        assert(body =~= s@.subrange(start as int, n as int));
    }
    if start == n {
        return None;
    }
    let mut acc: usize = 0;
    let mut i: usize = start;
    proof {
        assert(body.take(0) =~= Seq::<u8>::empty());
    }
    while i < n
        invariant
            start <= i <= n,
            n == s@.len(),
            body == s@.subrange(start as int, n as int),
            body == unsigned_body(s@),
            forall|k: int| 0 <= k < i - start ==> 48 <= #[trigger] body[k] <= 57,
            acc == digits_value(body.take(i - start)),
        decreases n - i,
    {
        let c: u8 = s[i];
        if c < 48 || c > 57 {
            proof {
                assert(body[i - start] == c);
            }
            return None;
        }
        let d: usize = (c - 48) as usize;
        proof {
            assert(body.take(i + 1 - start).drop_last() =~= body.take(i - start));
            assert(body.take(i + 1 - start).last() == c);
            lemma_digits_prefix(body, i + 1 - start);
        }
        if acc > (usize::MAX - d) / 10 {
            return None;
        }
        acc = acc * 10 + d;
        i += 1;
    }
    proof {
        assert(body.take(n - start) =~= body);
    }
    Some(acc)
}

/// Turns the records of a table into an edge list and the number of
/// vertices that it names: one more than the largest identifier. Rows for
/// which the reader gave no record are passed over. The first record that
/// writes no edge is reported.
pub fn el_from_records(rows: &Vec<Option<Vec<Vec<u8>>>>) -> (r: Result<(usize, Vec<(usize, usize)>), EdgeListError>)
    ensures
        match r {
            Ok((numv, el)) => {
                &&& forall|k: int| 0 <= k < rows.deep_view().len() ==> row_ok(#[trigger] rows.deep_view()[k])
                &&& el@ == rows_edges(rows.deep_view())
                &&& numv == max_id(el@) + 1
            },
            Err(EdgeListError::BadRecord { index }) => {
                &&& index < rows.deep_view().len()
                &&& !row_ok(rows.deep_view()[index as int])
                &&& forall|k: int| 0 <= k < index ==> row_ok(#[trigger] rows.deep_view()[k])
            },
            Err(EdgeListError::TooManyVertices) => {
                &&& forall|k: int| 0 <= k < rows.deep_view().len() ==> row_ok(#[trigger] rows.deep_view()[k])
                &&& max_id(rows_edges(rows.deep_view())) == usize::MAX
            },
        },
{
    let ghost table = rows.deep_view();
    let mut el: Vec<(usize, usize)> = Vec::new();
    let mut maxv: usize = 0;
    let mut k: usize = 0;
    proof {
        assert(table.take(0) =~= Seq::<Option<Seq<Seq<u8>>>>::empty());
    }
    while k < rows.len()
        invariant
            k <= rows@.len(),
            table == rows.deep_view(),
            table.len() == rows@.len(),
            forall|j: int| 0 <= j < k ==> row_ok(#[trigger] table[j]),
            el@ == rows_edges(table.take(k as int)),
            maxv == max_id(el@),
        decreases rows@.len() - k,
    {
        proof {
            assert(table.take(k + 1).drop_last() =~= table.take(k as int));
            assert(table.take(k + 1).last() == table[k as int]);
            assert(table[k as int] == rows@[k as int].deep_view());
        }
        match &rows[k] {
            Some(rec) => {
                proof {
                    assert(table[k as int] == Some(rec.deep_view()));
                    if rec@.len() >= 2 {
                        assert(rec.deep_view()[0] == rec@[0]@);
                        assert(rec.deep_view()[1] == rec@[1]@);
                    }
                }
                if rec.len() < 2 {
                    return Err(EdgeListError::BadRecord { index: k });
                }
                let v0: usize = match parse_usize(rec[0].as_slice()) {
                    Some(x) => x,
                    None => {
                        return Err(EdgeListError::BadRecord { index: k });
                    },
                };
                let v1: usize = match parse_usize(rec[1].as_slice()) {
                    Some(x) => x,
                    None => {
                        return Err(EdgeListError::BadRecord { index: k });
                    },
                };
                let ghost before = el@;
                el.push((v0, v1));
                proof {
                    assert(el@.drop_last() =~= before);
                }
                if v0 > maxv {
                    maxv = v0;
                }
                if v1 > maxv {
                    maxv = v1;
                }
            },
            None => {},
        }
        k += 1;
    }
    proof {
        assert(table.take(rows@.len() as int) =~= table);
    }
    if maxv == usize::MAX {
        return Err(EdgeListError::TooManyVertices);
    }
    Ok((maxv + 1, el))
}

/// Reads an edge list from delimited text, one `source,destination` pair on
/// each line: the records are those that the csv reader finds in the text,
/// and they are turned into edges as `el_from_records` does.
pub fn el_from_text(text: &[u8]) -> (r: Result<(usize, Vec<(usize, usize)>), EdgeListError>)
    ensures
        match r {
            Ok((numv, el)) => {
                &&& forall|k: int| 0 <= k < csv_records(text@).len() ==> row_ok(#[trigger] csv_records(text@)[k])
                &&& el@ == rows_edges(csv_records(text@))
                &&& numv == max_id(el@) + 1
            },
            Err(EdgeListError::BadRecord { index }) => {
                &&& index < csv_records(text@).len()
                &&& !row_ok(csv_records(text@)[index as int])
                &&& forall|k: int| 0 <= k < index ==> row_ok(#[trigger] csv_records(text@)[k])
            },
            Err(EdgeListError::TooManyVertices) => {
                &&& forall|k: int| 0 <= k < csv_records(text@).len() ==> row_ok(#[trigger] csv_records(text@)[k])
                &&& max_id(rows_edges(csv_records(text@))) == usize::MAX
            },
        },
{
    let rows = read_csv_records(text);
    el_from_records(&rows)
}

} // verus!
