//! The partner index: every partner row, keyed by the master SKU that its
//! `msku` field names.  Built once before any master row is read and
//! read-only afterwards; on a duplicate SKU the last row wins.

use vstd::prelude::*;
use crate::errors::MergeError;
use crate::record::{
    alist_get, alist_set, lemma_alist_get_found, lemma_alist_get_missing, lemma_alist_set_found,
    lemma_alist_set_missing, spec_from_row, Record,
};
use crate::strutil::str_eq;

verus! {

/// The model of a record: its `(name, value)` pairs.
pub type RecModel = Seq<(Seq<char>, Seq<char>)>;

/// The model of the index: `(sku, record)` pairs, looked up like a record.
pub type IndexModel = Seq<(Seq<char>, RecModel)>;

/// A mapping from SKU to partner record.
pub struct PartnerIndex {
    skus: Vec<String>,
    recs: Vec<Record>,
}

impl View for PartnerIndex {
    type V = IndexModel;

    closed spec fn view(&self) -> IndexModel {
        Seq::new(self.skus@.len(), |i: int| (self.skus@[i]@, self.recs@[i]@))
    }
}

impl PartnerIndex {
    /// The two columns stay aligned and every record is well formed.
    pub closed spec fn wf(&self) -> bool {
        &&& self.skus@.len() == self.recs@.len()
        &&& forall|i: int| 0 <= i < self.recs@.len() ==> self.recs@[i].wf()
    }

    /// An index with no entries.
    pub fn new() -> (r: PartnerIndex)
        ensures
            r.wf(),
            r@ =~= Seq::<(Seq<char>, RecModel)>::empty(),
    {
        PartnerIndex { skus: Vec::new(), recs: Vec::new() }
    }

    /// Enters a record under a SKU; a record already under that SKU is
    /// replaced.
    pub fn insert(&mut self, sku: &str, rec: Record)
        requires
            old(self).wf(),
            rec.wf(),
        ensures
            final(self).wf(),
            final(self)@ == alist_set(old(self)@, sku@, rec@),
    {
        let n = self.skus.len();
        let mut i: usize = 0;
        while i < n
            invariant
                self.wf(),
                self == old(self),
                rec.wf(),
                n == self.skus@.len(),
                i <= n,
                forall|j: int| 0 <= j < i ==> self@[j].0 != sku@,
            decreases n - i,
        {
            if str_eq(self.skus[i].as_str(), sku) {
                proof {
                    lemma_alist_set_found(self@, sku@, rec@, i as int);
                }
                self.recs[i] = rec;
                proof {
                    assert(self@ =~= old(self)@.update(i as int, (sku@, self.recs@[i as int]@)));
                }
                return;
            }
            i += 1;
        }
        proof {
            lemma_alist_set_missing(self@, sku@, rec@);
        }
        self.skus.push(String::from_str(sku));
        self.recs.push(rec);
        proof {
            assert(self@ =~= old(self)@.push((sku@, self.recs@[n as int]@)));
        }
    }

    /// The partner record under a SKU, if any.
    pub fn get<'a>(&'a self, sku: &str) -> (r: Option<&'a Record>)
        requires
            self.wf(),
        ensures
            match r {
                Some(rec) => alist_get(self@, sku@) == Some(rec@) && rec.wf(),
                None => alist_get(self@, sku@) is None,
            },
    {
        let n = self.skus.len();
        let mut i: usize = 0;
        while i < n
            invariant
                self.wf(),
                n == self.skus@.len(),
                i <= n,
                forall|j: int| 0 <= j < i ==> self@[j].0 != sku@,
            decreases n - i,
        {
            if str_eq(self.skus[i].as_str(), sku) {
                proof {
                    lemma_alist_get_found(self@, sku@, i as int);
                }
                return Some(&self.recs[i]);
            }
            i += 1;
        }
        proof {
            lemma_alist_get_missing(self@, sku@);
        }
        None
    }
}

/// The record a partner row contributes: its fields, with the `msku` value
/// copied into a synthetic `sku` field; `None` when `msku` is absent.
pub open spec fn spec_partner_entry(hs: Seq<Seq<char>>, row: Seq<Seq<char>>) -> Option<
    (Seq<char>, RecModel),
> {
    let r = spec_from_row(hs, row);
    match alist_get(r, "msku"@) {
        None => None,
        Some(s) => Some((s, alist_set(r, "sku"@, s))),
    }
}

/// The index that the first `n` partner rows build, entered left to right;
/// `None` as soon as one of them has no `msku`.
pub open spec fn spec_build_index_upto(hs: Seq<Seq<char>>, rows: Seq<Seq<Seq<char>>>, n: int) -> Option<
    IndexModel,
>
    decreases n,
{
    if n <= 0 {
        Some(Seq::empty())
    } else {
        match spec_build_index_upto(hs, rows, n - 1) {
            None => None,
            Some(ix) => match spec_partner_entry(hs, rows[n - 1]) {
                None => None,
                Some(e) => Some(alist_set(ix, e.0, e.1)),
            },
        }
    }
}

/// Once a row without `msku` is hit, no longer prefix builds an index.
proof fn lemma_build_index_none_mono(hs: Seq<Seq<char>>, rows: Seq<Seq<Seq<char>>>, n: int, m: int)
    requires
        0 <= n <= m,
        spec_build_index_upto(hs, rows, n) is None,
    ensures
        spec_build_index_upto(hs, rows, m) is None,
    decreases m - n,
{
    if m > n {
        lemma_build_index_none_mono(hs, rows, n, m - 1);
    }
}

/// The index that the whole partner table builds.
pub open spec fn spec_build_index(hs: Seq<Seq<char>>, rows: Seq<Seq<Seq<char>>>) -> Option<
    IndexModel,
> {
    spec_build_index_upto(hs, rows, rows.len() as int)
}

/// Builds the partner index from the partner table.  A row without `msku`
/// is fatal: the index is meaningless without it.
pub fn build_partner_index(headers: &Vec<String>, rows: &Vec<Vec<String>>) -> (r: Result<
    PartnerIndex,
    MergeError,
>)
    ensures
        match r {
            Ok(ix) => ix.wf() && spec_build_index(headers.deep_view(), rows.deep_view()) == Some(
                ix@,
            ),
            Err(e) => e == MergeError::MissingMsku && spec_build_index(
                headers.deep_view(),
                rows.deep_view(),
            ) is None,
        },
{
    let mut ix = PartnerIndex::new();
    let n = rows.len();
    let mut i: usize = 0;
    while i < n
        invariant
            n == rows@.len(),
            i <= n,
            ix.wf(),
            spec_build_index_upto(headers.deep_view(), rows.deep_view(), i as int) == Some(ix@),
        decreases n - i,
    {
        let mut rec = Record::from_row(headers, &rows[i]);
        let sku: String = match rec.get("msku") {
            Some(s) => s.clone(),
            None => {
                proof {
                    lemma_build_index_none_mono(
                        headers.deep_view(),
                        rows.deep_view(),
                        i + 1,
                        rows@.len() as int,
                    );
                }
                return Err(MergeError::MissingMsku);
            },
        };
        rec.set("sku", sku.as_str().to_owned());
        ix.insert(sku.as_str(), rec);
        i += 1;
    }
    Ok(ix)
}

} // verus!
