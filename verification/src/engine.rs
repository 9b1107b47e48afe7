//! The reconciliation engine: walks master rows in file order, classifies
//! each as a parent (master variant) or a child variant, compares eligible
//! fields against the matching partner record, applies resolved values to the
//! child and to the still-buffered parent, and emits rows in input order.
//! The parent of a group is buffered until its first reconciled child, the
//! next parent, or the end of the stream forces a flush, so that revisions
//! found on a child can still reach it.

use vstd::prelude::*;
use crate::index::{IndexModel, PartnerIndex, RecModel};
use crate::policy::{
    is_localized_key, is_master_variant, should_compare_key, spec_is_master, spec_localized,
    spec_should_compare,
};
use crate::record::{alist_get, alist_set, spec_from_row, Record};
use crate::strutil::{clone_strings, str_eq};

verus! {

/// One detected field conflict between a master row and its partner record.
pub struct Conflict {
    /// The field both sides hold.
    pub key: String,
    /// The master side's value (for a localized field: the parent's value).
    pub master_value: String,
    /// The partner side's value.
    pub partner_value: String,
    /// Whether the conflict came from the always-on localized-field rule,
    /// whose resolution touches only the buffered parent.
    pub localized: bool,
}

/// The model of a conflict: key, master value, partner value, localized.
pub type ConflictModel = (Seq<char>, Seq<char>, Seq<char>, bool);

impl View for Conflict {
    type V = ConflictModel;

    open spec fn view(&self) -> ConflictModel {
        (self.key@, self.master_value@, self.partner_value@, self.localized)
    }
}

impl DeepView for Conflict {
    type V = ConflictModel;

    open spec fn deep_view(&self) -> ConflictModel {
        self.view()
    }
}

/// An operator's (or the batch policy's) decision for one conflict.
pub enum Resolution {
    /// Take the partner's value.
    Partner,
    /// Keep the master's value.
    Master,
    /// Replace the value with the given text, verbatim.
    Edit(String),
}

/// The value a resolution settles a conflict to.
pub open spec fn spec_resolved(c: ConflictModel, r: Resolution) -> Seq<char> {
    match r {
        Resolution::Partner => c.2,
        Resolution::Master => c.1,
        Resolution::Edit(s) => s@,
    }
}

/// The value a resolution settles a conflict to.  In batch mode the
/// resolution is always `Partner`, so the result is always the partner's
/// value.
pub fn resolved_value(c: &Conflict, r: &Resolution) -> (v: String)
    ensures
        v@ == spec_resolved(c@, *r),
        *r is Partner ==> v@ == c.partner_value@,
{
    match r {
        Resolution::Partner => c.partner_value.clone(),
        Resolution::Master => c.master_value.clone(),
        Resolution::Edit(s) => s.clone(),
    }
}

/// The conflict (at most one) that the field `k` raises for a child row:
/// an eligible field conflicts when the partner has it and its value differs
/// from the child's (an absent child field reads as empty); a localized
/// field conflicts when the partner's value differs from the parent
/// snapshot's value for it.
pub open spec fn spec_conflict_at(
    k: Seq<char>,
    child: RecModel,
    snapshot: Option<RecModel>,
    partner: RecModel,
) -> Seq<ConflictModel> {
    if spec_should_compare(k) {
        match alist_get(partner, k) {
            Some(pv) => {
                let mv = match alist_get(child, k) {
                    Some(v) => v,
                    None => Seq::<char>::empty(),
                };
                if mv != pv {
                    seq![(k, mv, pv, false)]
                } else {
                    Seq::empty()
                }
            },
            None => Seq::empty(),
        }
    } else if spec_localized(k) {
        match (alist_get(partner, k), snapshot) {
            (Some(pv), Some(sn)) => match alist_get(sn, k) {
                Some(mn) => if pv != mn {
                    seq![(k, mn, pv, true)]
                } else {
                    Seq::empty()
                },
                None => Seq::empty(),
            },
            _ => Seq::empty(),
        }
    } else {
        Seq::empty()
    }
}

/// The conflicts the first `n` header columns raise, in header order.
pub open spec fn spec_conflicts_upto(
    hs: Seq<Seq<char>>,
    child: RecModel,
    snapshot: Option<RecModel>,
    partner: RecModel,
    n: int,
) -> Seq<ConflictModel>
    decreases n,
{
    if n <= 0 {
        Seq::empty()
    } else {
        spec_conflicts_upto(hs, child, snapshot, partner, n - 1) + spec_conflict_at(
            hs[n - 1],
            child,
            snapshot,
            partner,
        )
    }
}

/// The conflicts a child row raises against a partner record, walking the
/// header columns in order.
pub open spec fn spec_conflicts(
    hs: Seq<Seq<char>>,
    child: RecModel,
    snapshot: Option<RecModel>,
    partner: RecModel,
) -> Seq<ConflictModel> {
    spec_conflicts_upto(hs, child, snapshot, partner, hs.len() as int)
}

/// The conflicts a master row raises: none for a parent row, none for a
/// child without a SKU or without a matching partner record.
pub open spec fn spec_row_conflicts(
    hs: Seq<Seq<char>>,
    snapshot: Option<RecModel>,
    row: RecModel,
    index: IndexModel,
) -> Seq<ConflictModel> {
    if spec_is_master(row) {
        Seq::empty()
    } else {
        match alist_get(row, "sku"@) {
            Some(s) => match alist_get(index, s) {
                Some(p) => spec_conflicts(hs, row, snapshot, p),
                None => Seq::empty(),
            },
            None => Seq::empty(),
        }
    }
}

/// Setting a field of a parent that may already have been flushed.
pub open spec fn opt_set(p: Option<RecModel>, k: Seq<char>, v: Seq<char>) -> Option<RecModel> {
    match p {
        Some(m) => Some(alist_set(m, k, v)),
        None => None,
    }
}

/// Applies the resolutions to the conflicts in order: an eligible conflict's
/// value goes to the child and to the pending parent; a localized conflict's
/// value goes to the pending parent only, never the child.
pub open spec fn spec_apply(
    child: RecModel,
    pending: Option<RecModel>,
    cs: Seq<ConflictModel>,
    rs: Seq<Resolution>,
) -> (RecModel, Option<RecModel>)
    decreases cs.len(),
{
    if cs.len() == 0 || rs.len() == 0 {
        (child, pending)
    } else {
        let v = spec_resolved(cs[0], rs[0]);
        let child2 = if !cs[0].3 {
            alist_set(child, cs[0].0, v)
        } else {
            child
        };
        let pending2 = opt_set(pending, cs[0].0, v);
        spec_apply(child2, pending2, cs.drop_first(), rs.drop_first())
    }
}

/// A pending parent as the row sequence its flush emits.
pub open spec fn opt_seq(p: Option<RecModel>) -> Seq<RecModel> {
    match p {
        Some(m) => seq![m],
        None => Seq::empty(),
    }
}

/// One transition of the engine: a parent row flushes the previous pending
/// parent and becomes both the new pending parent and the snapshot; a child
/// row has its conflicts resolved, flushes the (possibly revised) pending
/// parent, and is emitted after it.  Returns the new pending parent, the new
/// snapshot, and the rows emitted, in order.
pub open spec fn spec_step(
    hs: Seq<Seq<char>>,
    pending: Option<RecModel>,
    snapshot: Option<RecModel>,
    row: RecModel,
    index: IndexModel,
    rs: Seq<Resolution>,
) -> (Option<RecModel>, Option<RecModel>, Seq<RecModel>) {
    if spec_is_master(row) {
        (Some(row), Some(row), opt_seq(pending))
    } else {
        let cs = spec_row_conflicts(hs, snapshot, row, index);
        let ap = spec_apply(row, pending, cs, rs);
        (None, snapshot, opt_seq(ap.1) + seq![ap.0])
    }
}

/// Batch mode's decisions: every conflict resolved to the partner's value.
pub open spec fn batch_resolutions(n: nat) -> Seq<Resolution> {
    Seq::new(n, |i: int| Resolution::Partner)
}

/// The rows a batch-mode run emits from the given engine state for the
/// remaining master rows, the end of the stream flushing the last pending
/// parent.
pub open spec fn spec_run_batch(
    hs: Seq<Seq<char>>,
    pending: Option<RecModel>,
    snapshot: Option<RecModel>,
    rows: Seq<Seq<Seq<char>>>,
    index: IndexModel,
) -> Seq<RecModel>
    decreases rows.len(),
{
    if rows.len() == 0 {
        opt_seq(pending)
    } else {
        let rec = spec_from_row(hs, rows[0]);
        let cs = spec_row_conflicts(hs, snapshot, rec, index);
        let st = spec_step(hs, pending, snapshot, rec, index, batch_resolutions(cs.len()));
        st.2 + spec_run_batch(hs, st.0, st.1, rows.drop_first(), index)
    }
}

/// The records a whole batch-mode run emits, in output order.
pub open spec fn spec_reconcile_batch(
    hs: Seq<Seq<char>>,
    rows: Seq<Seq<Seq<char>>>,
    index: IndexModel,
) -> Seq<RecModel> {
    spec_run_batch(hs, None, None, rows, index)
}

/// The engine's mutable state: the master headers, the at-most-one pending
/// parent row, and the snapshot of the last seen parent (the read-only
/// context for localized-field comparison and diagnostics).
pub struct Engine {
    headers: Vec<String>,
    pending: Option<Record>,
    snapshot: Option<Record>,
}

impl Engine {
    /// The master header columns, in writing order.
    pub closed spec fn headers_model(&self) -> Seq<Seq<char>> {
        self.headers.deep_view()
    }

    /// The buffered parent row that is still waiting to be written.
    pub closed spec fn pending_model(&self) -> Option<RecModel> {
        match self.pending {
            Some(r) => Some(r@),
            None => None,
        }
    }

    /// The last seen parent row, kept as read-only context.
    pub closed spec fn snapshot_model(&self) -> Option<RecModel> {
        match self.snapshot {
            Some(r) => Some(r@),
            None => None,
        }
    }

    /// The buffered records are well formed.
    pub closed spec fn wf(&self) -> bool {
        &&& match self.pending {
            Some(r) => r.wf(),
            None => true,
        }
        &&& match self.snapshot {
            Some(r) => r.wf(),
            None => true,
        }
    }

    /// An engine that has seen no master row yet.
    pub fn new(headers: Vec<String>) -> (e: Engine)
        ensures
            e.wf(),
            e.headers_model() == headers.deep_view(),
            e.pending_model() is None,
            e.snapshot_model() is None,
    {
        Engine { headers, pending: None, snapshot: None }
    }

    /// The name of the product under reconciliation, for diagnostics: the
    /// last seen parent's `name.de`, or a sentinel when none is known.
    pub fn context_name(&self) -> (n: String)
        requires
            self.wf(),
        ensures
            n@ == match self.snapshot_model() {
                Some(m) => match alist_get(m, "name.de"@) {
                    Some(v) => v,
                    None => "<unknown>"@,
                },
                None => "<unknown>"@,
            },
    {
        match &self.snapshot {
            Some(sn) => match sn.get("name.de") {
                Some(v) => v.clone(),
                None => String::from_str("<unknown>"),
            },
            None => String::from_str("<unknown>"),
        }
    }

    /// The conflicts the next master row raises against the partner index,
    /// in header order.  A parent row, a child without a SKU, and a child
    /// without a partner match raise none.
    pub fn row_conflicts(&self, row: &Record, index: &PartnerIndex) -> (cs: Vec<Conflict>)
        requires
            self.wf(),
            row.wf(),
            index.wf(),
        ensures
            cs.deep_view() == spec_row_conflicts(
                self.headers_model(),
                self.snapshot_model(),
                row@,
                index@,
            ),
    {
        if is_master_variant(row) {
            let cs: Vec<Conflict> = Vec::new();
            proof {
                assert(cs.deep_view() =~= Seq::<ConflictModel>::empty());
            }
            return cs;
        }
        let sku: &String = match row.get("sku") {
            Some(s) => s,
            None => {
                let cs: Vec<Conflict> = Vec::new();
                proof {
                    assert(cs.deep_view() =~= Seq::<ConflictModel>::empty());
                }
                return cs;
            },
        };
        let partner: &Record = match index.get(sku.as_str()) {
            Some(p) => p,
            None => {
                let cs: Vec<Conflict> = Vec::new();
                proof {
                    assert(cs.deep_view() =~= Seq::<ConflictModel>::empty());
                }
                return cs;
            },
        };
        let n = self.headers.len();
        let mut cs: Vec<Conflict> = Vec::new();
        let mut i: usize = 0;
        proof {
            assert(cs.deep_view() =~= spec_conflicts_upto(
                self.headers_model(),
                row@,
                self.snapshot_model(),
                partner@,
                0,
            ));
        }
        while i < n
            invariant
                self.wf(),
                row.wf(),
                partner.wf(),
                n == self.headers@.len(),
                i <= n,
                cs.deep_view() == spec_conflicts_upto(
                    self.headers_model(),
                    row@,
                    self.snapshot_model(),
                    partner@,
                    i as int,
                ),
            decreases n - i,
        {
            let ghost pre = cs.deep_view();
            let key: &String = &self.headers[i];
            proof {
                assert(self.headers_model()[i as int] == key@);
            }
            if should_compare_key(key.as_str()) {
                match partner.get(key.as_str()) {
                    Some(pv) => {
                        let mv: String = match row.get(key.as_str()) {
                            Some(v) => v.clone(),
                            None => String::new(),
                        };
                        if !str_eq(mv.as_str(), pv.as_str()) {
                            cs.push(
                                Conflict {
                                    key: key.clone(),
                                    master_value: mv,
                                    partner_value: pv.clone(),
                                    localized: false,
                                },
                            );
                        }
                    },
                    None => {},
                }
            } else if is_localized_key(key.as_str()) {
                match partner.get(key.as_str()) {
                    Some(pv) => {
                        match &self.snapshot {
                            Some(sn) => {
                                match sn.get(key.as_str()) {
                                    Some(mn) => {
                                        if !str_eq(pv.as_str(), mn.as_str()) {
                                            cs.push(
                                                Conflict {
                                                    key: key.clone(),
                                                    master_value: mn.clone(),
                                                    partner_value: pv.clone(),
                                                    localized: true,
                                                },
                                            );
                                        }
                                    },
                                    None => {},
                                }
                            },
                            None => {},
                        }
                    },
                    None => {},
                }
            }
            i += 1;
            proof {
                assert(cs.deep_view() =~= pre + spec_conflict_at(
                    self.headers_model()[i - 1],
                    row@,
                    self.snapshot_model(),
                    partner@,
                ));
            }
        }
        proof {
            assert(alist_get(row@, "sku"@) == Some(sku@));
        }
        cs
    }

    /// Feeds the engine one master row together with the resolutions of the
    /// conflicts it raises (one per conflict, in conflict order), and returns
    /// the rows to write, in order.
    pub fn push_row(&mut self, row: Record, index: &PartnerIndex, resolutions: &Vec<Resolution>) -> (out: Vec<Record>)
        requires
            old(self).wf(),
            row.wf(),
            index.wf(),
            resolutions@.len() == spec_row_conflicts(
                old(self).headers_model(),
                old(self).snapshot_model(),
                row@,
                index@,
            ).len(),
        ensures
            final(self).wf(),
            final(self).headers_model() == old(self).headers_model(),
            ({
                let st = spec_step(
                    old(self).headers_model(),
                    old(self).pending_model(),
                    old(self).snapshot_model(),
                    row@,
                    index@,
                    resolutions@,
                );
                &&& final(self).pending_model() == st.0
                &&& final(self).snapshot_model() == st.1
                &&& out.deep_view() == st.2
            }),
            forall|i: int| 0 <= i < out@.len() ==> out@[i].wf(),
    {
        let mut out: Vec<Record> = Vec::new();
        if is_master_variant(&row) {
            let mut flushed: Option<Record> = None;
            core::mem::swap(&mut flushed, &mut self.pending);
            match flushed {
                Some(p) => out.push(p),
                None => {},
            }
            self.pending = Some(row.duplicate());
            self.snapshot = Some(row);
            proof {
                assert(out.deep_view() =~= opt_seq(old(self).pending_model()));
            }
            return out;
        }
        let cs = self.row_conflicts(&row, index);
        let ghost cs0 = cs.deep_view();
        let ghost rs0 = resolutions@;
        let ghost target = spec_apply(row@, old(self).pending_model(), cs0, rs0);
        let mut child = row;
        let mut pend: Option<Record> = None;
        core::mem::swap(&mut pend, &mut self.pending);
        let n = cs.len();
        let mut j: usize = 0;
        proof {
            assert(cs0.skip(0) =~= cs0);
            assert(rs0.skip(0) =~= rs0);
        }
        while j < n
            invariant
                n == cs0.len(),
                n == cs@.len(),
                cs.deep_view() == cs0,
                rs0.len() == n,
                rs0 == resolutions@,
                j <= n,
                child.wf(),
                match pend {
                    Some(p) => p.wf(),
                    None => true,
                },
                spec_apply(
                    child@,
                    match pend {
                        Some(p) => Some(p@),
                        None => None,
                    },
                    cs0.skip(j as int),
                    rs0.skip(j as int),
                ) == target,
            decreases n - j,
        {
            let ghost cs_rest = cs0.skip(j as int);
            let ghost rs_rest = rs0.skip(j as int);
            proof {
                assert(cs_rest[0] == cs0[j as int]);
                assert(rs_rest[0] == rs0[j as int]);
                assert(cs_rest.drop_first() =~= cs0.skip(j as int + 1));
                assert(rs_rest.drop_first() =~= rs0.skip(j as int + 1));
            }
            let c = &cs[j];
            let v = resolved_value(c, &resolutions[j]);
            let v2: String = if !c.localized {
                child.set(c.key.as_str(), v.clone());
                v
            } else {
                v
            };
            pend = match pend {
                Some(mut p) => {
                    p.set(c.key.as_str(), v2);
                    Some(p)
                },
                None => None,
            };
            j += 1;
        }
        proof {
            assert(cs0.skip(n as int) =~= Seq::<ConflictModel>::empty());
            assert(rs0.skip(n as int) =~= Seq::<Resolution>::empty());
        }
        match pend {
            Some(p) => out.push(p),
            None => {},
        }
        out.push(child);
        proof {
            let st = spec_step(
                old(self).headers_model(),
                old(self).pending_model(),
                old(self).snapshot_model(),
                child@,
                index@,
                rs0,
            );
            assert(out.deep_view() =~= opt_seq(target.1) + seq![target.0]);
        }
        out
    }

    /// The end of the master stream: flushes the still-pending parent, if
    /// any.
    pub fn finish(&mut self) -> (out: Vec<Record>)
        requires
            old(self).wf(),
        ensures
            final(self).wf(),
            final(self).headers_model() == old(self).headers_model(),
            final(self).pending_model() is None,
            final(self).snapshot_model() == old(self).snapshot_model(),
            out.deep_view() == opt_seq(old(self).pending_model()),
            forall|i: int| 0 <= i < out@.len() ==> out@[i].wf(),
    {
        let mut out: Vec<Record> = Vec::new();
        let mut flushed: Option<Record> = None;
        core::mem::swap(&mut flushed, &mut self.pending);
        match flushed {
            Some(p) => out.push(p),
            None => {},
        }
        proof {
            assert(out.deep_view() =~= opt_seq(old(self).pending_model()));
        }
        out
    }
}

/// The records a batch-mode reconciliation of the master rows emits:
/// every conflict is resolved to the partner's value, no prompt is raised.
pub fn reconcile_batch_records(
    headers: &Vec<String>,
    rows: &Vec<Vec<String>>,
    index: &PartnerIndex,
) -> (out: Vec<Record>)
    requires
        index.wf(),
    ensures
        out.deep_view() == spec_reconcile_batch(headers.deep_view(), rows.deep_view(), index@),
        forall|i: int| 0 <= i < out@.len() ==> out@[i].wf(),
{
    let ghost total = spec_reconcile_batch(headers.deep_view(), rows.deep_view(), index@);
    let mut eng = Engine::new(clone_strings(headers));
    let mut out: Vec<Record> = Vec::new();
    let n = rows.len();
    let mut i: usize = 0;
    proof {
        assert(rows.deep_view().skip(0) =~= rows.deep_view());
        assert(out.deep_view() =~= Seq::<RecModel>::empty());
    }
    while i < n
        invariant
            index.wf(),
            eng.wf(),
            n == rows@.len(),
            i <= n,
            eng.headers_model() == headers.deep_view(),
            forall|k: int| 0 <= k < out@.len() ==> out@[k].wf(),
            out.deep_view() + spec_run_batch(
                headers.deep_view(),
                eng.pending_model(),
                eng.snapshot_model(),
                rows.deep_view().skip(i as int),
                index@,
            ) == total,
        decreases n - i,
    {
        let ghost rest = rows.deep_view().skip(i as int);
        proof {
            assert(rest[0] == rows.deep_view()[i as int]);
            assert(rest.drop_first() =~= rows.deep_view().skip(i as int + 1));
        }
        let rec = Record::from_row(headers, &rows[i]);
        let cs = eng.row_conflicts(&rec, index);
        let mut rs: Vec<Resolution> = Vec::new();
        let m = cs.len();
        let mut j: usize = 0;
        while j < m
            invariant
                j <= m,
                rs@.len() == j,
                forall|k: int| 0 <= k < j ==> rs@[k] is Partner,
            decreases m - j,
        {
            rs.push(Resolution::Partner);
            j += 1;
        }
        proof {
            assert(rs@ =~= batch_resolutions(cs.deep_view().len()));
        }
        let mut emitted = eng.push_row(rec, index, &rs);
        let ghost pre_out = out.deep_view();
        let ghost emitted_view = emitted.deep_view();
        out.append(&mut emitted);
        proof {
            assert(out.deep_view() =~= pre_out + emitted_view);
        }
        i += 1;
    }
    proof {
        assert(rows.deep_view().skip(n as int) =~= Seq::<Seq<Seq<char>>>::empty());
    }
    let ghost pre_out = out.deep_view();
    let mut tail = eng.finish();
    let ghost tail_view = tail.deep_view();
    out.append(&mut tail);
    proof {
        assert(out.deep_view() =~= pre_out + tail_view);
    }
    out
}

/// The output row a record makes under the given headers: the value of each
/// header column in order, an absent field written as the empty string.
pub open spec fn spec_to_row(hs: Seq<Seq<char>>, m: RecModel) -> Seq<Seq<char>> {
    Seq::new(
        hs.len(),
        |i: int|
            match alist_get(m, hs[i]) {
                Some(v) => v,
                None => Seq::<char>::empty(),
            },
    )
}

/// Assembles the output row of a record: one value per header column, in
/// header order, absent fields as the empty string.
pub fn record_to_row(headers: &Vec<String>, rec: &Record) -> (row: Vec<String>)
    requires
        rec.wf(),
    ensures
        row.deep_view() == spec_to_row(headers.deep_view(), rec@),
{
    let n = headers.len();
    let mut row: Vec<String> = Vec::new();
    let mut i: usize = 0;
    while i < n
        invariant
            rec.wf(),
            n == headers@.len(),
            i <= n,
            row@.len() == i,
            forall|j: int| 0 <= j < i ==> row.deep_view()[j] == spec_to_row(
                headers.deep_view(),
                rec@,
            )[j],
        decreases n - i,
    {
        let val: String = match rec.get(headers[i].as_str()) {
            Some(v) => v.clone(),
            None => String::new(),
        };
        let ghost pre = row.deep_view();
        let ghost vv = val@;
        proof {
            assert(vv == spec_to_row(headers.deep_view(), rec@)[i as int]);
        }
        row.push(val);
        proof {
            assert(row.deep_view() =~= pre.push(vv));
        }
        i += 1;
    }
    proof {
        assert(row.deep_view() =~= spec_to_row(headers.deep_view(), rec@));
    }
    row
}

/// The output rows of a batch-mode run: the reconciled records, written out
/// under the master headers.
pub open spec fn spec_output_rows(
    hs: Seq<Seq<char>>,
    rows: Seq<Seq<Seq<char>>>,
    index: IndexModel,
) -> Seq<Seq<Seq<char>>> {
    spec_reconcile_batch(hs, rows, index).map(|i: int, m: RecModel| spec_to_row(hs, m))
}

/// A whole batch-mode reconciliation at row level: master rows in, merged
/// rows out, every conflict resolved to the partner's value.
pub fn reconcile_batch(
    headers: &Vec<String>,
    rows: &Vec<Vec<String>>,
    index: &PartnerIndex,
) -> (out: Vec<Vec<String>>)
    requires
        index.wf(),
    ensures
        out.deep_view() == spec_output_rows(headers.deep_view(), rows.deep_view(), index@),
{
    let recs = reconcile_batch_records(headers, rows, index);
    let n = recs.len();
    let mut out: Vec<Vec<String>> = Vec::new();
    let mut i: usize = 0;
    while i < n
        invariant
            n == recs@.len(),
            i <= n,
            forall|k: int| 0 <= k < n ==> recs@[k].wf(),
            recs.deep_view() == spec_reconcile_batch(
                headers.deep_view(),
                rows.deep_view(),
                index@,
            ),
            out@.len() == i,
            forall|j: int| 0 <= j < i ==> out.deep_view()[j] == spec_to_row(
                headers.deep_view(),
                recs.deep_view()[j],
            ),
        decreases n - i,
    {
        let r = record_to_row(headers, &recs[i]);
        let ghost pre = out.deep_view();
        let ghost rv = r.deep_view();
        out.push(r);
        proof {
            assert(out.deep_view() =~= pre.push(rv));
        }
        i += 1;
    }
    proof {
        assert(out.deep_view() =~= spec_output_rows(
            headers.deep_view(),
            rows.deep_view(),
            index@,
        ));
    }
    out
}

} // verus!
