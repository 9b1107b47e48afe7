//! Records: a row of a tabular source, modelled as an association list from
//! field name to field value.  The view of a `Record` is a sequence of
//! `(name, value)` pairs; `alist_get` and `alist_set` give the lookup and
//! update semantics that every contract of this crate speaks in.

use vstd::prelude::*;
use crate::strutil::str_eq;

verus! {

/// Lookup in an association list: the value of the first pair whose name
/// matches, if any.
pub open spec fn alist_get<V>(m: Seq<(Seq<char>, V)>, k: Seq<char>) -> Option<V>
    decreases m.len(),
{
    if m.len() == 0 {
        None
    } else if m[0].0 == k {
        Some(m[0].1)
    } else {
        alist_get(m.drop_first(), k)
    }
}

/// Update of an association list: replaces the first pair whose name matches,
/// or appends a new pair at the end.
pub open spec fn alist_set<V>(m: Seq<(Seq<char>, V)>, k: Seq<char>, v: V) -> Seq<(Seq<char>, V)>
    decreases m.len(),
{
    if m.len() == 0 {
        seq![(k, v)]
    } else if m[0].0 == k {
        m.update(0, (k, v))
    } else {
        seq![m[0]] + alist_set(m.drop_first(), k, v)
    }
}

/// After an update, looking the updated name up yields the new value, and
/// every other name is untouched.
pub proof fn lemma_alist_get_set<V>(m: Seq<(Seq<char>, V)>, k: Seq<char>, v: V, q: Seq<char>)
    ensures
        alist_get(alist_set(m, k, v), q) == (if q == k {
            Some(v)
        } else {
            alist_get(m, q)
        }),
    decreases m.len(),
{
    reveal_with_fuel(alist_get, 3);
    if m.len() == 0 {
        let s = alist_set(m, k, v);
        assert(s =~= seq![(k, v)]);
        assert(s.drop_first() =~= Seq::<(Seq<char>, V)>::empty());
        assert(alist_get(s, q) == (if q == k { Some(v) } else { alist_get::<V>(s.drop_first(), q) }));
    } else if m[0].0 == k {
        let s = m.update(0, (k, v));
        assert(alist_set(m, k, v) == s);
        assert(s.len() == m.len());
        assert(s.drop_first() =~= m.drop_first());
        assert(s[0] == (k, v));
    } else {
        let s = seq![m[0]] + alist_set(m.drop_first(), k, v);
        assert(alist_set(m, k, v) == s);
        lemma_alist_set_len(m.drop_first(), k, v);
        assert(s.len() > 0);
        assert(s[0] == m[0]);
        assert(s.drop_first() =~= alist_set(m.drop_first(), k, v));
        lemma_alist_get_set(m.drop_first(), k, v, q);
    }
}

/// An update never shortens an association list.
pub proof fn lemma_alist_set_len<V>(m: Seq<(Seq<char>, V)>, k: Seq<char>, v: V)
    ensures
        alist_set(m, k, v).len() >= m.len(),
    decreases m.len(),
{
    if m.len() == 0 {
    } else if m[0].0 == k {
    } else {
        lemma_alist_set_len(m.drop_first(), k, v);
    }
}

pub proof fn lemma_alist_get_found<V>(m: Seq<(Seq<char>, V)>, k: Seq<char>, i: int)
    requires
        0 <= i < m.len(),
        m[i].0 == k,
        forall|j: int| 0 <= j < i ==> m[j].0 != k,
    ensures
        alist_get(m, k) == Some(m[i].1),
    decreases i,
{
    if i > 0 {
        lemma_alist_get_found(m.drop_first(), k, i - 1);
    }
}

pub proof fn lemma_alist_get_missing<V>(m: Seq<(Seq<char>, V)>, k: Seq<char>)
    requires
        forall|j: int| 0 <= j < m.len() ==> m[j].0 != k,
    ensures
        alist_get(m, k) is None,
    decreases m.len(),
{
    if m.len() > 0 {
        lemma_alist_get_missing(m.drop_first(), k);
    }
}

pub proof fn lemma_alist_set_found<V>(m: Seq<(Seq<char>, V)>, k: Seq<char>, v: V, i: int)
    requires
        0 <= i < m.len(),
        m[i].0 == k,
        forall|j: int| 0 <= j < i ==> m[j].0 != k,
    ensures
        alist_set(m, k, v) =~= m.update(i, (k, v)),
    decreases i,
{
    if i > 0 {
        lemma_alist_set_found(m.drop_first(), k, v, i - 1);
        assert(alist_set(m, k, v) =~= seq![m[0]] + m.drop_first().update(i - 1, (k, v)));
    }
}

pub proof fn lemma_alist_set_missing<V>(m: Seq<(Seq<char>, V)>, k: Seq<char>, v: V)
    requires
        forall|j: int| 0 <= j < m.len() ==> m[j].0 != k,
    ensures
        alist_set(m, k, v) =~= m.push((k, v)),
    decreases m.len(),
{
    if m.len() > 0 {
        lemma_alist_set_missing(m.drop_first(), k, v);
        assert(alist_set(m, k, v) =~= seq![m[0]] + m.drop_first().push((k, v)));
    }
}

/// A row of a tabular source: field names with their values.  Lookup finds
/// the first pair with the given name; an update replaces it, so building a
/// record left to right gives the last writer the field.
pub struct Record {
    keys: Vec<String>,
    vals: Vec<String>,
}

impl View for Record {
    type V = Seq<(Seq<char>, Seq<char>)>;

    closed spec fn view(&self) -> Seq<(Seq<char>, Seq<char>)> {
        Seq::new(self.keys@.len(), |i: int| (self.keys@[i]@, self.vals@[i]@))
    }
}

impl DeepView for Record {
    type V = Seq<(Seq<char>, Seq<char>)>;

    open spec fn deep_view(&self) -> Seq<(Seq<char>, Seq<char>)> {
        self.view()
    }
}

impl Record {
    /// The two field columns stay aligned.
    pub closed spec fn wf(&self) -> bool {
        self.keys@.len() == self.vals@.len()
    }

    /// A record with no fields.
    pub fn new() -> (r: Record)
        ensures
            r.wf(),
            r@ =~= Seq::<(Seq<char>, Seq<char>)>::empty(),
    {
        Record { keys: Vec::new(), vals: Vec::new() }
    }

    /// The value of field `k`, if the record has it.
    pub fn get<'a>(&'a self, k: &str) -> (r: Option<&'a String>)
        requires
            self.wf(),
        ensures
            match r {
                Some(v) => alist_get(self@, k@) == Some(v@),
                None => alist_get(self@, k@) is None,
            },
    {
        let n = self.keys.len();
        let mut i: usize = 0;
        while i < n
            invariant
                self.wf(),
                n == self.keys@.len(),
                i <= n,
                forall|j: int| 0 <= j < i ==> self@[j].0 != k@,
            decreases n - i,
        {
            if str_eq(self.keys[i].as_str(), k) {
                proof {
                    lemma_alist_get_found(self@, k@, i as int);
                }
                return Some(&self.vals[i]);
            }
            i += 1;
        }
        proof {
            lemma_alist_get_missing(self@, k@);
        }
        None
    }

    /// Sets field `k` to `v`, replacing the value if the field exists and
    /// appending the field otherwise.
    pub fn set(&mut self, k: &str, v: String)
        requires
            old(self).wf(),
        ensures
            final(self).wf(),
            final(self)@ == alist_set(old(self)@, k@, v@),
    {
        let n = self.keys.len();
        let mut i: usize = 0;
        while i < n
            invariant
                self.wf(),
                self == old(self),
                n == self.keys@.len(),
                i <= n,
                forall|j: int| 0 <= j < i ==> self@[j].0 != k@,
            decreases n - i,
        {
            if str_eq(self.keys[i].as_str(), k) {
                proof {
                    lemma_alist_set_found(self@, k@, v@, i as int);
                }
                self.vals[i] = v;
                proof {
                    assert(self@ =~= old(self)@.update(i as int, (k@, v@)));
                }
                return;
            }
            i += 1;
        }
        proof {
            lemma_alist_set_missing(self@, k@, v@);
        }
        self.keys.push(String::from_str(k));
        self.vals.push(v);
        proof {
            assert(self@ =~= old(self)@.push((k@, v@)));
        }
    }

    /// A record with the same fields and values.
    pub fn duplicate(&self) -> (r: Record)
        requires
            self.wf(),
        ensures
            r.wf(),
            r@ == self@,
    {
        let n = self.keys.len();
        let mut keys: Vec<String> = Vec::new();
        let mut vals: Vec<String> = Vec::new();
        let mut i: usize = 0;
        while i < n
            invariant
                self.wf(),
                n == self.keys@.len(),
                i <= n,
                keys@.len() == i,
                vals@.len() == i,
                forall|j: int| 0 <= j < i ==> keys@[j]@ == self.keys@[j]@ && vals@[j]@
                    == self.vals@[j]@,
            decreases n - i,
        {
            keys.push(self.keys[i].clone());
            vals.push(self.vals[i].clone());
            i += 1;
        }
        let r = Record { keys, vals };
        proof {
            assert(r@ =~= self@);
        }
        r
    }
}

/// The record that a header row and a data row make together: the rows are
/// zipped up to the shorter of the two, later duplicate headers overwriting
/// earlier ones.
pub open spec fn spec_from_row_upto(hs: Seq<Seq<char>>, row: Seq<Seq<char>>, n: int) -> Seq<
    (Seq<char>, Seq<char>),
>
    decreases n,
{
    if n <= 0 {
        Seq::empty()
    } else {
        alist_set(spec_from_row_upto(hs, row, n - 1), hs[n - 1], row[n - 1])
    }
}

/// See `spec_from_row_upto`: fields beyond the shorter row are absent.
pub open spec fn spec_from_row(hs: Seq<Seq<char>>, row: Seq<Seq<char>>) -> Seq<
    (Seq<char>, Seq<char>),
> {
    spec_from_row_upto(
        hs,
        row,
        if hs.len() <= row.len() {
            hs.len() as int
        } else {
            row.len() as int
        },
    )
}

impl Record {
    /// Builds the record of one data row under the given headers.
    pub fn from_row(headers: &Vec<String>, row: &Vec<String>) -> (r: Record)
        ensures
            r.wf(),
            r@ == spec_from_row(headers.deep_view(), row.deep_view()),
    {
        let n = if headers.len() <= row.len() {
            headers.len()
        } else {
            row.len()
        };
        let mut r = Record::new();
        let mut i: usize = 0;
        while i < n
            invariant
                n <= headers@.len(),
                n <= row@.len(),
                i <= n,
                r.wf(),
                r@ == spec_from_row_upto(headers.deep_view(), row.deep_view(), i as int),
            decreases n - i,
        {
            r.set(headers[i].as_str(), row[i].clone());
            i += 1;
        }
        r
    }
}

} // verus!
