//! The tabular record store, and the whole batch-mode run on top of it.
//! Parsing bytes into a header row plus data rows, and writing them back
//! out, is the csv crate's work; both directions stand behind trusted
//! wrappers whose results are named, and everything between the two is
//! verified.

use vstd::prelude::*;
use crate::engine::{reconcile_batch, spec_output_rows};
use crate::errors::MergeError;
use crate::index::{build_partner_index, spec_build_index};
use crate::strutil::str_eq;

verus! {

/// The header row and the data rows that a byte input parses to under a
/// flexible-width tabular reader, or `None` when the input is malformed.
pub uninterp spec fn csv_table_of(data: Seq<u8>) -> Option<
    (Seq<Seq<char>>, Seq<Seq<Seq<char>>>),
>;

/// The byte encoding of a header row followed by data rows under a
/// flexible-width tabular writer.
pub uninterp spec fn csv_encode_of(hs: Seq<Seq<char>>, rows: Seq<Seq<Seq<char>>>) -> Seq<u8>;

/// Relies on csv::ReaderBuilder / csv::Reader in flexible mode: the header
/// row (the first record) and the following data rows of the input, a
/// function of the input bytes alone; `None` exactly when the reader
/// reports an error.
#[verifier::external_body]
fn parse_table(data: &[u8]) -> (r: Option<(Vec<String>, Vec<Vec<String>>)>)
    ensures
        match r {
            Some(t) => csv_table_of(data@) == Some((t.0.deep_view(), t.1.deep_view())),
            None => csv_table_of(data@) is None,
        },
{
    let mut rdr = csv::ReaderBuilder::new().flexible(true).from_reader(data);
    let headers: Vec<String> = match rdr.headers() {
        Ok(h) => h.iter().map(String::from).collect(),
        Err(_) => return None,
    };
    let mut rows: Vec<Vec<String>> = Vec::new();
    for rec in rdr.into_records() {
        match rec {
            Ok(r) => rows.push(r.iter().map(String::from).collect()),
            Err(_) => return None,
        }
    }
    Some((headers, rows))
}

/// Relies on csv::WriterBuilder / csv::Writer in flexible mode, writing to
/// an in-memory buffer: the byte encoding of the header row followed by the
/// data rows, a function of the arguments alone.  Flexible mode performs no
/// field-count check and a byte buffer accepts every write, so the writer
/// cannot fail here.
#[verifier::external_body]
fn write_table(headers: &Vec<String>, rows: &Vec<Vec<String>>) -> (r: Vec<u8>)
    ensures
        r@ == csv_encode_of(headers.deep_view(), rows.deep_view()),
{
    let mut wtr = csv::WriterBuilder::new().flexible(true).from_writer(Vec::new());
    wtr.write_record(headers.iter()).expect("a byte buffer accepts every write");
    for row in rows.iter() {
        wtr.write_record(row.iter()).expect("a byte buffer accepts every write");
    }
    wtr.into_inner().expect("a byte buffer accepts every write")
}

/// A whole batch-mode run: parse the partner table, build the partner index
/// (fatal when a partner row has no `msku`), parse the master table (fatal
/// when malformed or empty), reconcile every master row with every conflict
/// resolved to the partner's value, and encode the merged table under the
/// master's headers.  On inputs that raise no fatal condition, success is
/// owed and the output bytes are fixed.
pub fn run_batch(master: &[u8], partner: &[u8]) -> (r: Result<Vec<u8>, MergeError>)
    ensures
        ({
            match csv_table_of(partner@) {
                None => r == Err::<Vec<u8>, MergeError>(MergeError::PartnerUnparsable),
                Some(p) => match spec_build_index(p.0, p.1) {
                    None => r == Err::<Vec<u8>, MergeError>(MergeError::MissingMsku),
                    Some(ix) => match csv_table_of(master@) {
                        None => r == Err::<Vec<u8>, MergeError>(MergeError::MasterUnparsable),
                        Some(m) => if m.0.len() == 0 {
                            r == Err::<Vec<u8>, MergeError>(MergeError::MasterUnparsable)
                        } else {
                            r matches Ok(out) && out@ == csv_encode_of(
                                m.0,
                                spec_output_rows(m.0, m.1, ix),
                            )
                        },
                    },
                },
            }
        }),
{
    let (pheaders, prows) = match parse_table(partner) {
        Some(t) => t,
        None => {
            return Err(MergeError::PartnerUnparsable);
        },
    };
    let index = match build_partner_index(&pheaders, &prows) {
        Ok(ix) => ix,
        Err(e) => {
            return Err(e);
        },
    };
    let (mheaders, mrows) = match parse_table(master) {
        Some(t) => t,
        None => {
            return Err(MergeError::MasterUnparsable);
        },
    };
    if mheaders.len() == 0 {
        return Err(MergeError::MasterUnparsable);
    }
    let out_rows = reconcile_batch(&mheaders, &mrows, &index);
    Ok(write_table(&mheaders, &out_rows))
}

/// The headers of one side that the other side lacks, in the first side's
/// order.  The comparison is purely diagnostic: a header present on one side
/// only is reported and processing continues.
pub open spec fn spec_missing_from(a: Seq<Seq<char>>, b: Seq<Seq<char>>) -> Seq<Seq<char>>
    decreases a.len(),
{
    if a.len() == 0 {
        Seq::empty()
    } else {
        let rest = spec_missing_from(a.drop_last(), b);
        if b.contains(a.last()) {
            rest
        } else {
            rest.push(a.last())
        }
    }
}

/// The header columns of `a` that `b` lacks, in `a`'s order.
pub fn headers_missing_from(a: &Vec<String>, b: &Vec<String>) -> (r: Vec<String>)
    ensures
        r.deep_view() == spec_missing_from(a.deep_view(), b.deep_view()),
{
    let n = a.len();
    let mut r: Vec<String> = Vec::new();
    let mut i: usize = 0;
    proof {
        assert(a.deep_view().subrange(0, 0) =~= Seq::<Seq<char>>::empty());
        assert(r.deep_view() =~= Seq::<Seq<char>>::empty());
    }
    while i < n
        invariant
            n == a@.len(),
            i <= n,
            r.deep_view() == spec_missing_from(a.deep_view().subrange(0, i as int), b.deep_view()),
        decreases n - i,
    {
        let m = b.len();
        let mut j: usize = 0;
        let mut found = false;
        while j < m && !found
            invariant
                m == b@.len(),
                i < n == a@.len(),
                j <= m,
                found ==> b.deep_view().contains(a.deep_view()[i as int]),
                !found ==> forall|k: int| 0 <= k < j ==> b.deep_view()[k] != a.deep_view()[
                    i as int
                ],
            decreases m - j,
        {
            if str_eq(b[j].as_str(), a[i].as_str()) {
                proof {
                    assert(b.deep_view()[j as int] == a.deep_view()[i as int]);
                    assert(b.deep_view().contains(a.deep_view()[i as int]));
                }
                found = true;
            }
            j += 1;
        }
        let ghost prefix = a.deep_view().subrange(0, i as int);
        let ghost prefix2 = a.deep_view().subrange(0, i as int + 1);
        proof {
            assert(prefix2.drop_last() =~= prefix);
            assert(prefix2.last() == a.deep_view()[i as int]);
        }
        if !found {
            proof {
                assert(!b.deep_view().contains(a.deep_view()[i as int]));
            }
            let ghost pre = r.deep_view();
            let v = a[i].clone();
            let ghost vv = v@;
            r.push(v);
            proof {
                assert(r.deep_view() =~= pre.push(vv));
            }
        } else {
            proof {
                assert(b.deep_view().contains(a.deep_view()[i as int]));
            }
        }
        i += 1;
    }
    proof {
        assert(a.deep_view().subrange(0, n as int) =~= a.deep_view());
    }
    r
}

} // verus!
