//! Loading the dataset from a CSV source.
//!
//! The bytes of the source are parsed by the `csv` crate behind one trusted
//! wrapper whose result is named: the record sequence of a CSV source is a
//! function of its bytes alone. Everything after the parse is verified code
//! with an exact contract: which records contribute entries, in what order,
//! how keys are normalized, and which message is reported for a malformed
//! record.

use vstd::prelude::*;
use vstd::string::{StrSliceExecFns, StringExecFns};

verus! {

pub assume_specification[ String::push ](s: &mut String, ch: char)
    ensures
        final(s)@ == old(s)@.push(ch),
;

/// What the `csv` crate parses a byte source into, record by record and in
/// source order, the header row excluded: the field sequences of the
/// well-formed records, and the messages of the malformed ones.
pub uninterp spec fn csv_records(data: Seq<u8>) -> Seq<Result<Seq<Seq<char>>, Seq<char>>>;

/// One parsed record as plain values.
pub open spec fn record_view(r: Result<Vec<String>, String>) -> Result<Seq<Seq<char>>, Seq<char>> {
    match r {
        Ok(fields) => Ok(fields.deep_view()),
        Err(m) => Err(m@),
    }
}

/// A parsed record stream as plain values.
pub open spec fn records_view(rs: Seq<Result<Vec<String>, String>>) -> Seq<
    Result<Seq<Seq<char>>, Seq<char>>,
> {
    Seq::new(rs.len(), |i: int| record_view(rs[i]))
}

/// Relies on `csv::Reader` in its default configuration: the records of a CSV
/// source are a function of its bytes alone; the first record is a header row
/// and is not yielded; a malformed record is yielded as an error, whose
/// message is likewise fixed by the bytes, and reading goes on past it; the
/// fields of each well-formed record are handed over one for one.
#[verifier::external_body]
fn csv_parse_all(data: &[u8]) -> (r: Vec<Result<Vec<String>, String>>)
    ensures
        records_view(r@) == csv_records(data@),
{
    csv::Reader::from_reader(data)
        .records()
        .map(|rec| match rec {
            Ok(rec) => Ok(rec.iter().map(|f| f.to_string()).collect()),
            Err(e) => Err(e.to_string()),
        })
        .collect()
}

/// Key normalization: every underscore becomes a space.
pub open spec fn normalize_key(s: Seq<char>) -> Seq<char> {
    s.map_values(|c: char| if c == '_' { ' ' } else { c })
}

/// A key is normalized when it holds no underscore.
pub open spec fn key_normalized(k: Seq<char>) -> bool {
    forall|i: int| 0 <= i < k.len() ==> k[i] != '_'
}

/// Normalization leaves no underscore behind.
pub proof fn lemma_normalize_removes_underscores(s: Seq<char>)
    ensures
        key_normalized(normalize_key(s)),
{
    assert forall|i: int| 0 <= i < normalize_key(s).len() implies normalize_key(s)[i] != '_' by {
        assert(normalize_key(s)[i] == if s[i] == '_' {
            ' '
        } else {
            s[i]
        });
    }
}

/// The entries a parsed record stream yields, in order: each well-formed
/// record with at least two fields contributes its first field, normalized,
/// paired with its second; every other record contributes nothing.
pub open spec fn dataset_of(rs: Seq<Result<Seq<Seq<char>>, Seq<char>>>) -> Seq<
    (Seq<char>, Seq<char>),
>
    decreases rs.len(),
{
    if rs.len() == 0 {
        Seq::empty()
    } else {
        let init = dataset_of(rs.drop_last());
        match rs.last() {
            Ok(fields) => if fields.len() >= 2 {
                init.push((normalize_key(fields[0]), fields[1]))
            } else {
                init
            },
            Err(_) => init,
        }
    }
}

/// The fixed report for a record with fewer than two fields.
pub open spec fn short_record_message() -> Seq<char> {
    "record has fewer than two fields"@
}

/// What a single parsed record reports: nothing for a well-formed record with
/// at least two fields, the parser's message for a malformed one, and the
/// fixed message for a record with fewer than two fields.
pub open spec fn record_error(r: Result<Seq<Seq<char>>, Seq<char>>) -> Option<Seq<char>> {
    match r {
        Ok(fields) => if fields.len() >= 2 {
            None
        } else {
            Some(short_record_message())
        },
        Err(m) => Some(m),
    }
}

/// The report of the last record that reports anything, if one exists.
pub open spec fn last_error_of(rs: Seq<Result<Seq<Seq<char>>, Seq<char>>>) -> Option<Seq<char>>
    decreases rs.len(),
{
    if rs.len() == 0 {
        None
    } else if record_error(rs.last()) is Some {
        record_error(rs.last())
    } else {
        last_error_of(rs.drop_last())
    }
}

/// Replaces every underscore in `s` with a space.
pub fn replace_underscores(s: &str) -> (r: String)
    ensures
        r@ == normalize_key(s@),
{
    let n = s.unicode_len();
    let mut r = String::new();
    let mut i: usize = 0;
    while i < n
        invariant
            i <= n,
            n == s@.len(),
            r@ == normalize_key(s@).take(i as int),
        decreases n - i,
    {
        let c = s.get_char(i);
        if c == '_' {
            r.push(' ');
        } else {
            r.push(c);
        }
        i += 1;
        proof {
            assert(r@ =~= normalize_key(s@).take(i as int));
        }
    }
    proof {
        assert(normalize_key(s@).take(n as int) =~= normalize_key(s@));
    }
    r
}

/// Builds one dataset entry from the two fields of a record: the key with
/// every underscore replaced by a space, the value as it stands.
pub fn make_entry(key_field: &str, value_field: &str) -> (e: (String, String))
    ensures
        e.0@ == normalize_key(key_field@),
        e.1@ == value_field@,
{
    (replace_underscores(key_field), String::from_str(value_field))
}

/// What loading a dataset source produced: the entries parsed successfully,
/// and the message of the last malformed record, if any record was malformed.
pub struct LoadOutcome {
    pub entries: Vec<(String, String)>,
    pub last_error: Option<String>,
}

/// Parses a CSV source into dataset entries. The entries are exactly what
/// `dataset_of` yields from the source's parsed records: every well-formed
/// two-field record, in source order, its key normalized and its value
/// untouched, with the header row excluded. A malformed record, or one with
/// fewer than two fields, leaves its message in `last_error` (the last such
/// message wins, and `last_error` is `None` exactly when no record is
/// malformed) without stopping the scan: the entries before and after it are
/// all kept.
pub fn load_dataset(data: &[u8]) -> (out: LoadOutcome)
    ensures
        out.entries.deep_view() == dataset_of(csv_records(data@)),
        out.last_error is Some <==> last_error_of(csv_records(data@)) is Some,
        out.last_error is Some ==> Some(out.last_error->Some_0@) == last_error_of(
            csv_records(data@),
        ),
        forall|i: int|
            0 <= i < out.entries@.len() ==> key_normalized((#[trigger] out.entries@[i]).0@),
{
    let parsed: Vec<Result<Vec<String>, String>> = csv_parse_all(data);
    let ghost rs = csv_records(data@);
    let mut entries: Vec<(String, String)> = Vec::new();
    let mut last_error: Option<String> = None;
    let mut i: usize = 0;
    while i < parsed.len()
        invariant
            i <= parsed@.len(),
            records_view(parsed@) == rs,
            entries.deep_view() == dataset_of(rs.take(i as int)),
            last_error is Some <==> last_error_of(rs.take(i as int)) is Some,
            last_error is Some ==> Some(last_error->Some_0@) == last_error_of(rs.take(i as int)),
            forall|t: int|
                0 <= t < entries@.len() ==> key_normalized((#[trigger] entries@[t]).0@),
        decreases parsed@.len() - i,
    {
        let ghost prev = rs.take(i as int);
        let ghost cur = rs.take(i as int + 1);
        proof {
            assert(cur.drop_last() =~= prev);
            assert(cur.last() == rs[i as int]);
            assert(rs[i as int] == record_view(parsed@[i as int]));
        }
        let record = &parsed[i];
        match record {
            Ok(fields) => {
                if fields.len() >= 2 {
                    let key_field = &fields[0];
                    let value_field = &fields[1];
                    proof {
                        lemma_normalize_removes_underscores(key_field@);
                        assert(fields.deep_view()[0] == key_field@);
                        assert(fields.deep_view()[1] == value_field@);
                    }
                    entries.push(make_entry(key_field.as_str(), value_field.as_str()));
                    proof {
                        assert(entries.deep_view() =~= dataset_of(cur));
                    }
                } else {
                    last_error = Some(String::from_str("record has fewer than two fields"));
                    proof {
                        assert(fields.deep_view().len() == fields@.len());
                        assert(record_error(rs[i as int]) == Some(short_record_message()));
                    }
                }
            },
            Err(m) => {
                last_error = Some(m.clone());
                proof {
                    assert(record_error(rs[i as int]) == Some(m@));
                }
            },
        }
        i += 1;
    }
    proof {
        assert(rs.take(parsed@.len() as int) =~= rs);
    }
    LoadOutcome { entries, last_error }
}

} // verus!
