//! The engine's guarantees, stated and proved over the same spec functions
//! that the executable functions' contracts use: untouched inputs pass
//! through unchanged, output order and group structure are preserved, and a
//! resolved value reaches both the child and the still-buffered parent.

use vstd::prelude::*;
use crate::engine::{
    batch_resolutions, opt_seq, opt_set, spec_apply, spec_conflict_at, spec_conflicts_upto,
    spec_reconcile_batch, spec_resolved, spec_row_conflicts, spec_run_batch, spec_step,
    ConflictModel,
    Resolution,
};
use crate::index::{IndexModel, RecModel};
use crate::policy::{spec_is_master, spec_localized, spec_should_compare};
use crate::record::{alist_get, alist_set, lemma_alist_get_set, spec_from_row};

verus! {

/// A master row whose SKU no partner record answers to (or that has no SKU
/// at all): nothing is compared for it.
pub open spec fn no_partner_match(
    hs: Seq<Seq<char>>,
    row: Seq<Seq<char>>,
    index: IndexModel,
) -> bool {
    match alist_get(spec_from_row(hs, row), "sku"@) {
        Some(s) => alist_get(index, s) is None,
        None => true,
    }
}

/// The master rows, each read as a record under the master headers.
pub open spec fn rows_as_records(hs: Seq<Seq<char>>, rows: Seq<Seq<Seq<char>>>) -> Seq<RecModel> {
    rows.map(|i: int, r: Seq<Seq<char>>| spec_from_row(hs, r))
}

proof fn lemma_run_no_overlap(
    hs: Seq<Seq<char>>,
    pending: Option<RecModel>,
    snapshot: Option<RecModel>,
    rows: Seq<Seq<Seq<char>>>,
    index: IndexModel,
)
    requires
        forall|i: int| 0 <= i < rows.len() ==> no_partner_match(hs, #[trigger] rows[i], index),
    ensures
        spec_run_batch(hs, pending, snapshot, rows, index) == opt_seq(pending) + rows_as_records(
            hs,
            rows,
        ),
    decreases rows.len(),
{
    if rows.len() == 0 {
        assert(rows_as_records(hs, rows) =~= Seq::<RecModel>::empty());
        assert(spec_run_batch(hs, pending, snapshot, rows, index) =~= opt_seq(pending)
            + rows_as_records(hs, rows));
    } else {
        let rec = spec_from_row(hs, rows[0]);
        let rest = rows.drop_first();
        assert forall|i: int| 0 <= i < rest.len() implies no_partner_match(
            hs,
            #[trigger] rest[i],
            index,
        ) by {
            assert(rest[i] == rows[i + 1]);
        }
        assert(rows_as_records(hs, rows) =~= seq![rec] + rows_as_records(hs, rest));
        if spec_is_master(rec) {
            lemma_run_no_overlap(hs, Some(rec), Some(rec), rest, index);
            assert(spec_run_batch(hs, pending, snapshot, rows, index) =~= opt_seq(pending)
                + rows_as_records(hs, rows));
        } else {
            assert(no_partner_match(hs, rows[0], index));
            let cs = spec_row_conflicts(hs, snapshot, rec, index);
            assert(cs =~= Seq::<ConflictModel>::empty());
            assert(spec_apply(rec, pending, cs, batch_resolutions(cs.len())) == (rec, pending));
            lemma_run_no_overlap(hs, None, snapshot, rest, index);
            assert(spec_run_batch(hs, pending, snapshot, rows, index) =~= opt_seq(pending)
                + rows_as_records(hs, rows));
        }
    }
}

/// Idempotence of unmodified groups: when no master row's SKU has a partner
/// record, the batch run emits exactly the master rows' records, in their
/// original order.
pub proof fn lemma_no_overlap_identity(
    hs: Seq<Seq<char>>,
    rows: Seq<Seq<Seq<char>>>,
    index: IndexModel,
)
    requires
        forall|i: int| 0 <= i < rows.len() ==> no_partner_match(hs, #[trigger] rows[i], index),
    ensures
        spec_reconcile_batch(hs, rows, index) == rows_as_records(hs, rows),
{
    lemma_run_no_overlap(hs, Option::<RecModel>::None, Option::<RecModel>::None, rows, index);
    assert(opt_seq(Option::<RecModel>::None) + rows_as_records(hs, rows) =~= rows_as_records(
        hs,
        rows,
    ));
}

/// A field name the comparison policy never touches: not eligible for the
/// custom-attribute rule and not a localized field.
pub open spec fn untouched_key(k: Seq<char>) -> bool {
    !spec_should_compare(k) && !spec_localized(k)
}

/// `a` is `b` with revisions at most on fields the policy compares: every
/// untouched field reads the same on both.
pub open spec fn revision_of(a: RecModel, b: RecModel) -> bool {
    forall|k: Seq<char>| untouched_key(k) ==> #[trigger] alist_get(a, k) == alist_get(b, k)
}

/// Revisions compose.
proof fn lemma_revision_trans(a: RecModel, b: RecModel, c: RecModel)
    requires
        revision_of(a, b),
        revision_of(b, c),
    ensures
        revision_of(a, c),
{
    assert forall|k: Seq<char>| untouched_key(k) implies #[trigger] alist_get(a, k) == alist_get(
        c,
        k,
    ) by {
        assert(alist_get(a, k) == alist_get(b, k));
        assert(alist_get(b, k) == alist_get(c, k));
    }
}

/// Every conflict's key is a field the policy compares.
pub open spec fn conflicts_touched(cs: Seq<ConflictModel>) -> bool {
    forall|j: int| 0 <= j < cs.len() ==> !untouched_key((#[trigger] cs[j]).0)
}

proof fn lemma_conflicts_upto_touched(
    hs: Seq<Seq<char>>,
    child: RecModel,
    snapshot: Option<RecModel>,
    partner: RecModel,
    n: int,
)
    ensures
        conflicts_touched(spec_conflicts_upto(hs, child, snapshot, partner, n)),
    decreases n,
{
    if n <= 0 {
    } else {
        lemma_conflicts_upto_touched(hs, child, snapshot, partner, n - 1);
        let prev = spec_conflicts_upto(hs, child, snapshot, partner, n - 1);
        let at = spec_conflict_at(hs[n - 1], child, snapshot, partner);
        assert(conflicts_touched(at));
        let whole = prev + at;
        assert forall|j: int| 0 <= j < whole.len() implies !untouched_key(
            (#[trigger] whole[j]).0,
        ) by {
            if j < prev.len() {
                assert(whole[j] == prev[j]);
            } else {
                assert(whole[j] == at[j - prev.len()]);
            }
        }
    }
}

proof fn lemma_row_conflicts_touched(
    hs: Seq<Seq<char>>,
    snapshot: Option<RecModel>,
    row: RecModel,
    index: IndexModel,
)
    ensures
        conflicts_touched(spec_row_conflicts(hs, snapshot, row, index)),
{
    if !spec_is_master(row) {
        match alist_get(row, "sku"@) {
            Some(s) => {
                match alist_get(index, s) {
                    Some(p) => {
                        lemma_conflicts_upto_touched(hs, row, snapshot, p, hs.len() as int);
                    },
                    None => {},
                }
            },
            None => {},
        }
    }
}

/// Option records related pairwise: both absent, or both present and the
/// first a revision of the second.
pub open spec fn opt_revision_of(a: Option<RecModel>, b: Option<RecModel>) -> bool {
    match (a, b) {
        (Some(x), Some(y)) => revision_of(x, y),
        (None, None) => true,
        _ => false,
    }
}

proof fn lemma_apply_revision(
    child: RecModel,
    pending: Option<RecModel>,
    cs: Seq<ConflictModel>,
    rs: Seq<Resolution>,
)
    requires
        conflicts_touched(cs),
    ensures
        revision_of(spec_apply(child, pending, cs, rs).0, child),
        opt_revision_of(spec_apply(child, pending, cs, rs).1, pending),
    decreases cs.len(),
{
    if cs.len() == 0 || rs.len() == 0 {
    } else {
        let v = spec_resolved(cs[0], rs[0]);
        let k0 = cs[0].0;
        let child2 = if !cs[0].3 {
            alist_set(child, k0, v)
        } else {
            child
        };
        let pending2 = opt_set(pending, k0, v);
        assert(!untouched_key(cs[0].0));
        assert forall|q: Seq<char>| untouched_key(q) implies #[trigger] alist_get(child2, q)
            == alist_get(child, q) by {
            if !cs[0].3 {
                lemma_alist_get_set(child, k0, v, q);
            }
        }
        assert(opt_revision_of(pending2, pending)) by {
            match pending {
                Some(p) => {
                    assert forall|q: Seq<char>| untouched_key(q) implies #[trigger] alist_get(
                        alist_set(p, k0, v),
                        q,
                    ) == alist_get(p, q) by {
                        lemma_alist_get_set(p, k0, v, q);
                    }
                },
                None => {},
            }
        }
        assert forall|j: int| 0 <= j < cs.drop_first().len() implies !untouched_key(
            (#[trigger] cs.drop_first()[j]).0,
        ) by {
            assert(cs.drop_first()[j] == cs[j + 1]);
        }
        lemma_apply_revision(child2, pending2, cs.drop_first(), rs.drop_first());
        let ap = spec_apply(child, pending, cs, rs);
        assert(ap == spec_apply(child2, pending2, cs.drop_first(), rs.drop_first()));
        lemma_revision_trans(ap.0, child2, child);
        assert(opt_revision_of(ap.1, pending)) by {
            match (ap.1, pending2, pending) {
                (Some(x), Some(y), Some(z)) => {
                    lemma_revision_trans(x, y, z);
                },
                _ => {},
            }
        }
    }
}

/// How many rows a pending parent stands for.
pub open spec fn opt_len(p: Option<RecModel>) -> int {
    match p {
        Some(_) => 1,
        None => 0,
    }
}

proof fn lemma_run_structure(
    hs: Seq<Seq<char>>,
    pending: Option<RecModel>,
    snapshot: Option<RecModel>,
    rows: Seq<Seq<Seq<char>>>,
    index: IndexModel,
)
    ensures
        ({
            let out = spec_run_batch(hs, pending, snapshot, rows, index);
            &&& out.len() == opt_len(pending) + rows.len()
            &&& (pending matches Some(p) ==> revision_of(out[0], p))
            &&& forall|j: int|
                0 <= j < rows.len() ==> revision_of(
                    #[trigger] out[opt_len(pending) + j],
                    spec_from_row(hs, rows[j]),
                )
        }),
    decreases rows.len(),
{
    let out = spec_run_batch(hs, pending, snapshot, rows, index);
    if rows.len() == 0 {
        match pending {
            Some(p) => {
                assert(out.len() == 1);
            },
            None => {
                assert(out.len() == 0);
            },
        }
    } else {
        let rec = spec_from_row(hs, rows[0]);
        let rest = rows.drop_first();
        if spec_is_master(rec) {
            let tail = spec_run_batch(hs, Some(rec), Some(rec), rest, index);
            lemma_run_structure(hs, Some(rec), Some(rec), rest, index);
            assert(out == opt_seq(pending) + tail);
            assert(opt_seq(pending).len() == opt_len(pending));
            assert forall|j: int| 0 <= j < rows.len() implies revision_of(
                #[trigger] out[opt_len(pending) + j],
                spec_from_row(hs, rows[j]),
            ) by {
                if j == 0 {
                    assert(out[opt_len(pending)] == tail[0]);
                } else {
                    assert(out[opt_len(pending) + j] == tail[1 + (j - 1)]);
                    assert(rest[j - 1] == rows[j]);
                }
            }
        } else {
            let cs = spec_row_conflicts(hs, snapshot, rec, index);
            lemma_row_conflicts_touched(hs, snapshot, rec, index);
            lemma_apply_revision(rec, pending, cs, batch_resolutions(cs.len()));
            let ap = spec_apply(rec, pending, cs, batch_resolutions(cs.len()));
            let emitted = opt_seq(ap.1) + seq![ap.0];
            let tail = spec_run_batch(hs, Option::<RecModel>::None, snapshot, rest, index);
            lemma_run_structure(hs, Option::<RecModel>::None, snapshot, rest, index);
            assert(out == emitted + tail);
            assert(opt_seq(ap.1).len() == opt_len(pending));
            assert(emitted.len() == opt_len(pending) + 1);
            assert forall|j: int| 0 <= j < rows.len() implies revision_of(
                #[trigger] out[opt_len(pending) + j],
                spec_from_row(hs, rows[j]),
            ) by {
                if j == 0 {
                    assert(out[opt_len(pending)] == emitted[opt_len(pending)]);
                    assert(emitted[opt_len(pending)] == ap.0);
                    assert(revision_of(ap.0, rec));
                } else {
                    assert(out[opt_len(pending) + j] == tail[j - 1]);
                    assert(revision_of(tail[0 + (j - 1)], spec_from_row(hs, rest[j - 1])));
                    assert(rest[j - 1] == rows[j]);
                }
            }
        }
    }
}

proof fn lemma_service_keys_untouched()
    ensures
        untouched_key("sku"@),
        untouched_key("_published"@),
{
    reveal_strlit("sku");
    reveal_strlit("_published");
    reveal_strlit("name.de");
    reveal_strlit("description.de");
    assert("sku"@[0] == 's');
    assert("_published"@[0] == '_');
    assert("sku"@.len() != "name.de"@.len());
    assert("sku"@.len() != "description.de"@.len());
    assert("_published"@.len() != "name.de"@.len());
    assert("_published"@.len() != "description.de"@.len());
}

/// Parent before children: the batch run emits exactly one record per master
/// row, at the master row's own position, each a revision of its input row
/// on compared fields only.  Every record keeps its `sku` and keeps (or
/// keeps lacking) the master-variant mark, so each group's parent still
/// precedes all of the group's children in the output, whichever child
/// forced a revision.
pub proof fn lemma_order_preserved(
    hs: Seq<Seq<char>>,
    rows: Seq<Seq<Seq<char>>>,
    index: IndexModel,
)
    ensures
        ({
            let out = spec_reconcile_batch(hs, rows, index);
            &&& out.len() == rows.len()
            &&& forall|i: int|
                0 <= i < rows.len() ==> revision_of(
                    #[trigger] out[i],
                    spec_from_row(hs, rows[i]),
                )
            &&& forall|i: int|
                0 <= i < rows.len() ==> alist_get(#[trigger] out[i], "sku"@) == alist_get(
                    spec_from_row(hs, rows[i]),
                    "sku"@,
                )
            &&& forall|i: int|
                0 <= i < rows.len() ==> spec_is_master(#[trigger] out[i]) == spec_is_master(
                    spec_from_row(hs, rows[i]),
                )
        }),
{
    lemma_run_structure(hs, Option::<RecModel>::None, Option::<RecModel>::None, rows, index);
    lemma_service_keys_untouched();
    let out = spec_reconcile_batch(hs, rows, index);
    assert forall|i: int| 0 <= i < rows.len() implies alist_get(#[trigger] out[i], "sku"@)
        == alist_get(spec_from_row(hs, rows[i]), "sku"@) by {
        assert(revision_of(out[0 + i], spec_from_row(hs, rows[i])));
        assert(alist_get(out[i], "sku"@) == alist_get(spec_from_row(hs, rows[i]), "sku"@));
    }
    assert forall|i: int| 0 <= i < rows.len() implies spec_is_master(#[trigger] out[i])
        == spec_is_master(spec_from_row(hs, rows[i])) by {
        assert(revision_of(out[0 + i], spec_from_row(hs, rows[i])));
        assert(alist_get(out[i], "_published"@) == alist_get(
            spec_from_row(hs, rows[i]),
            "_published"@,
        ));
    }
    assert forall|i: int| 0 <= i < rows.len() implies revision_of(
        #[trigger] out[i],
        spec_from_row(hs, rows[i]),
    ) by {
        assert(revision_of(out[0 + i], spec_from_row(hs, rows[i])));
    }
}

proof fn lemma_apply_other_keys(
    child: RecModel,
    pending: Option<RecModel>,
    cs: Seq<ConflictModel>,
    rs: Seq<Resolution>,
    q: Seq<char>,
)
    requires
        forall|k: int| 0 <= k < cs.len() ==> (#[trigger] cs[k]).0 != q,
    ensures
        ({
            let ap = spec_apply(child, pending, cs, rs);
            &&& alist_get(ap.0, q) == alist_get(child, q)
            &&& match (ap.1, pending) {
                (Some(p2), Some(p)) => alist_get(p2, q) == alist_get(p, q),
                (None, None) => true,
                _ => false,
            }
        }),
    decreases cs.len(),
{
    if cs.len() == 0 || rs.len() == 0 {
    } else {
        let v = spec_resolved(cs[0], rs[0]);
        let k0 = cs[0].0;
        let child2 = if !cs[0].3 {
            alist_set(child, k0, v)
        } else {
            child
        };
        let pending2 = opt_set(pending, k0, v);
        lemma_alist_get_set(child, k0, v, q);
        match pending {
            Some(p) => {
                lemma_alist_get_set(p, k0, v, q);
            },
            None => {},
        }
        assert forall|k: int| 0 <= k < cs.drop_first().len() implies (#[trigger] cs.drop_first()[
            k
        ]).0 != q by {
            assert(cs.drop_first()[k] == cs[k + 1]);
        }
        lemma_apply_other_keys(child2, pending2, cs.drop_first(), rs.drop_first(), q);
    }
}

/// Upward propagation: when the conflict at position `j` is an eligible
/// (non-localized) one, no later conflict of the row names the same field,
/// and a parent is still pending, the resolved value stands in that field of
/// both the applied child and the applied pending parent.
pub proof fn lemma_upward_propagation(
    child: RecModel,
    pending: RecModel,
    cs: Seq<ConflictModel>,
    rs: Seq<Resolution>,
    j: int,
)
    requires
        rs.len() == cs.len(),
        0 <= j < cs.len(),
        !cs[j].3,
        forall|k: int| j < k < cs.len() ==> (#[trigger] cs[k]).0 != cs[j].0,
    ensures
        ({
            let ap = spec_apply(child, Some(pending), cs, rs);
            &&& alist_get(ap.0, cs[j].0) == Some(spec_resolved(cs[j], rs[j]))
            &&& ap.1 matches Some(p2) && alist_get(p2, cs[j].0) == Some(
                spec_resolved(cs[j], rs[j]),
            )
        }),
    decreases j,
{
    let v = spec_resolved(cs[0], rs[0]);
    let k0 = cs[0].0;
    let child2 = if !cs[0].3 {
        alist_set(child, k0, v)
    } else {
        child
    };
    let pending2 = alist_set(pending, k0, v);
    assert(spec_apply(child, Some(pending), cs, rs) == spec_apply(
        child2,
        Some(pending2),
        cs.drop_first(),
        rs.drop_first(),
    ));
    if j == 0 {
        lemma_alist_get_set(child, k0, v, k0);
        lemma_alist_get_set(pending, k0, v, k0);
        assert forall|k: int| 0 <= k < cs.drop_first().len() implies (#[trigger] cs.drop_first()[
            k
        ]).0 != k0 by {
            assert(cs.drop_first()[k] == cs[k + 1]);
        }
        lemma_apply_other_keys(child2, Some(pending2), cs.drop_first(), rs.drop_first(), k0);
    } else {
        assert forall|k: int| j - 1 < k < cs.drop_first().len() implies (
        #[trigger] cs.drop_first()[k]).0 != cs.drop_first()[j - 1].0 by {
            assert(cs.drop_first()[k] == cs[k + 1]);
            assert(cs.drop_first()[j - 1] == cs[j]);
        }
        assert(cs.drop_first()[j - 1] == cs[j]);
        assert(rs.drop_first()[j - 1] == rs[j]);
        lemma_upward_propagation(child2, pending2, cs.drop_first(), rs.drop_first(), j - 1);
    }
}

/// The localized-field rule updates only the parent, never the child: when
/// the conflict at position `j` is a localized one and no other conflict of
/// the row names the same field, the applied child reads that field as the
/// input child did, while the applied pending parent carries the resolved
/// value.
pub proof fn lemma_localized_only_parent(
    child: RecModel,
    pending: RecModel,
    cs: Seq<ConflictModel>,
    rs: Seq<Resolution>,
    j: int,
)
    requires
        rs.len() == cs.len(),
        0 <= j < cs.len(),
        cs[j].3,
        forall|k: int| 0 <= k < cs.len() && k != j ==> (#[trigger] cs[k]).0 != cs[j].0,
    ensures
        ({
            let ap = spec_apply(child, Some(pending), cs, rs);
            &&& alist_get(ap.0, cs[j].0) == alist_get(child, cs[j].0)
            &&& ap.1 matches Some(p2) && alist_get(p2, cs[j].0) == Some(
                spec_resolved(cs[j], rs[j]),
            )
        }),
    decreases j,
{
    let v = spec_resolved(cs[0], rs[0]);
    let k0 = cs[0].0;
    let child2 = if !cs[0].3 {
        alist_set(child, k0, v)
    } else {
        child
    };
    let pending2 = alist_set(pending, k0, v);
    assert(spec_apply(child, Some(pending), cs, rs) == spec_apply(
        child2,
        Some(pending2),
        cs.drop_first(),
        rs.drop_first(),
    ));
    if j == 0 {
        lemma_alist_get_set(pending, k0, v, k0);
        assert(child2 == child);
        assert forall|k: int| 0 <= k < cs.drop_first().len() implies (#[trigger] cs.drop_first()[
            k
        ]).0 != k0 by {
            assert(cs.drop_first()[k] == cs[k + 1]);
        }
        lemma_apply_other_keys(child2, Some(pending2), cs.drop_first(), rs.drop_first(), k0);
    } else {
        assert(cs[0].0 != cs[j].0);
        if !cs[0].3 {
            lemma_alist_get_set(child, k0, v, cs[j].0);
        }
        assert forall|k: int|
            0 <= k < cs.drop_first().len() && k != j - 1 implies (#[trigger] cs.drop_first()[
            k]).0 != cs.drop_first()[j - 1].0 by {
            assert(cs.drop_first()[k] == cs[k + 1]);
            assert(cs.drop_first()[j - 1] == cs[j]);
        }
        assert(cs.drop_first()[j - 1] == cs[j]);
        assert(rs.drop_first()[j - 1] == rs[j]);
        lemma_localized_only_parent(child2, pending2, cs.drop_first(), rs.drop_first(), j - 1);
    }
}

/// A lookup that succeeds returns the value of an entry with that name.
proof fn lemma_alist_get_is_entry<V>(m: Seq<(Seq<char>, V)>, k: Seq<char>)
    ensures
        match alist_get(m, k) {
            Some(v) => exists|i: int|
                0 <= i < m.len() && (#[trigger] m[i]).0 == k && m[i].1 == v,
            None => true,
        },
    decreases m.len(),
{
    if m.len() == 0 {
    } else if m[0].0 == k {
        assert((m[0]).0 == k && m[0].1 == alist_get(m, k)->Some_0);
    } else {
        lemma_alist_get_is_entry(m.drop_first(), k);
        match alist_get(m, k) {
            Some(v) => {
                let i = choose|i: int|
                    0 <= i < m.drop_first().len() && (#[trigger] m.drop_first()[i]).0 == k
                        && m.drop_first()[i].1 == v;
                assert((m[i + 1]).0 == k && m[i + 1].1 == v);
            },
            None => {},
        }
    }
}

/// No partner record of the index has the field `q`.
pub open spec fn partner_lacks(index: IndexModel, q: Seq<char>) -> bool {
    forall|i: int| 0 <= i < index.len() ==> alist_get((#[trigger] index[i]).1, q) is None
}

proof fn lemma_conflicts_avoid_absent_key(
    hs: Seq<Seq<char>>,
    child: RecModel,
    snapshot: Option<RecModel>,
    partner: RecModel,
    n: int,
    q: Seq<char>,
)
    requires
        alist_get(partner, q) is None,
    ensures
        ({
            let cs = spec_conflicts_upto(hs, child, snapshot, partner, n);
            forall|j: int| 0 <= j < cs.len() ==> (#[trigger] cs[j]).0 != q
        }),
    decreases n,
{
    if n <= 0 {
    } else {
        lemma_conflicts_avoid_absent_key(hs, child, snapshot, partner, n - 1, q);
        let prev = spec_conflicts_upto(hs, child, snapshot, partner, n - 1);
        let at = spec_conflict_at(hs[n - 1], child, snapshot, partner);
        assert(forall|j: int| 0 <= j < at.len() ==> (#[trigger] at[j]).0 != q);
        let cs = prev + at;
        assert forall|j: int| 0 <= j < cs.len() implies (#[trigger] cs[j]).0 != q by {
            if j < prev.len() {
                assert(cs[j] == prev[j]);
            } else {
                assert(cs[j] == at[j - prev.len()]);
            }
        }
    }
}

proof fn lemma_row_conflicts_avoid_absent_key(
    hs: Seq<Seq<char>>,
    snapshot: Option<RecModel>,
    row: RecModel,
    index: IndexModel,
    q: Seq<char>,
)
    requires
        partner_lacks(index, q),
    ensures
        ({
            let cs = spec_row_conflicts(hs, snapshot, row, index);
            forall|j: int| 0 <= j < cs.len() ==> (#[trigger] cs[j]).0 != q
        }),
{
    if !spec_is_master(row) {
        match alist_get(row, "sku"@) {
            Some(s) => {
                match alist_get(index, s) {
                    Some(p) => {
                        lemma_alist_get_is_entry(index, s);
                        let i = choose|i: int|
                            0 <= i < index.len() && (#[trigger] index[i]).0 == s && index[i].1
                                == p;
                        assert(alist_get(p, q) is None);
                        lemma_conflicts_avoid_absent_key(
                            hs,
                            row,
                            snapshot,
                            p,
                            hs.len() as int,
                            q,
                        );
                    },
                    None => {},
                }
            },
            None => {},
        }
    }
}

proof fn lemma_run_key_passthrough(
    hs: Seq<Seq<char>>,
    pending: Option<RecModel>,
    snapshot: Option<RecModel>,
    rows: Seq<Seq<Seq<char>>>,
    index: IndexModel,
    q: Seq<char>,
)
    requires
        partner_lacks(index, q),
    ensures
        ({
            let out = spec_run_batch(hs, pending, snapshot, rows, index);
            &&& out.len() == opt_len(pending) + rows.len()
            &&& (pending matches Some(p) ==> alist_get(out[0], q) == alist_get(p, q))
            &&& forall|j: int|
                0 <= j < rows.len() ==> alist_get(#[trigger] out[opt_len(pending) + j], q)
                    == alist_get(spec_from_row(hs, rows[j]), q)
        }),
    decreases rows.len(),
{
    let out = spec_run_batch(hs, pending, snapshot, rows, index);
    if rows.len() == 0 {
    } else {
        let rec = spec_from_row(hs, rows[0]);
        let rest = rows.drop_first();
        if spec_is_master(rec) {
            let tail = spec_run_batch(hs, Some(rec), Some(rec), rest, index);
            lemma_run_key_passthrough(hs, Some(rec), Some(rec), rest, index, q);
            assert(out == opt_seq(pending) + tail);
            assert(opt_seq(pending).len() == opt_len(pending));
            assert forall|j: int| 0 <= j < rows.len() implies alist_get(
                #[trigger] out[opt_len(pending) + j],
                q,
            ) == alist_get(spec_from_row(hs, rows[j]), q) by {
                if j == 0 {
                    assert(out[opt_len(pending)] == tail[0]);
                } else {
                    assert(out[opt_len(pending) + j] == tail[1 + (j - 1)]);
                    assert(alist_get(tail[1 + (j - 1)], q) == alist_get(
                        spec_from_row(hs, rest[j - 1]),
                        q,
                    ));
                    assert(rest[j - 1] == rows[j]);
                }
            }
        } else {
            let cs = spec_row_conflicts(hs, snapshot, rec, index);
            lemma_row_conflicts_avoid_absent_key(hs, snapshot, rec, index, q);
            let rs = batch_resolutions(cs.len());
            lemma_apply_other_keys(rec, pending, cs, rs, q);
            let ap = spec_apply(rec, pending, cs, rs);
            let emitted = opt_seq(ap.1) + seq![ap.0];
            let tail = spec_run_batch(hs, Option::<RecModel>::None, snapshot, rest, index);
            lemma_run_key_passthrough(hs, Option::<RecModel>::None, snapshot, rest, index, q);
            assert(out == emitted + tail);
            assert(opt_seq(ap.1).len() == opt_len(pending));
            assert(emitted.len() == opt_len(pending) + 1);
            assert forall|j: int| 0 <= j < rows.len() implies alist_get(
                #[trigger] out[opt_len(pending) + j],
                q,
            ) == alist_get(spec_from_row(hs, rows[j]), q) by {
                if j == 0 {
                    assert(out[opt_len(pending)] == emitted[opt_len(pending)]);
                    assert(emitted[opt_len(pending)] == ap.0);
                } else {
                    assert(out[opt_len(pending) + j] == tail[j - 1]);
                    assert(alist_get(tail[0 + (j - 1)], q) == alist_get(
                        spec_from_row(hs, rest[j - 1]),
                        q,
                    ));
                    assert(rest[j - 1] == rows[j]);
                }
            }
        }
    }
}

/// A column the partner catalog does not have is never compared: it passes
/// through the batch run unchanged for every row, parents and children
/// alike.
pub proof fn lemma_absent_column_passes_through(
    hs: Seq<Seq<char>>,
    rows: Seq<Seq<Seq<char>>>,
    index: IndexModel,
    q: Seq<char>,
)
    requires
        partner_lacks(index, q),
    ensures
        ({
            let out = spec_reconcile_batch(hs, rows, index);
            &&& out.len() == rows.len()
            &&& forall|i: int|
                0 <= i < rows.len() ==> alist_get(#[trigger] out[i], q) == alist_get(
                    spec_from_row(hs, rows[i]),
                    q,
                )
        }),
{
    lemma_run_key_passthrough(
        hs,
        Option::<RecModel>::None,
        Option::<RecModel>::None,
        rows,
        index,
        q,
    );
    let out = spec_reconcile_batch(hs, rows, index);
    assert forall|i: int| 0 <= i < rows.len() implies alist_get(#[trigger] out[i], q)
        == alist_get(spec_from_row(hs, rows[i]), q) by {
        assert(alist_get(out[0 + i], q) == alist_get(spec_from_row(hs, rows[i]), q));
    }
}

/// A header row without duplicate column names.
pub open spec fn distinct_headers(hs: Seq<Seq<char>>) -> bool {
    forall|i: int, j: int| 0 <= i < j < hs.len() ==> hs[i] != hs[j]
}

/// Whether a key is one of the first `n` header names.
spec fn key_among(k: Seq<char>, hs: Seq<Seq<char>>, n: int) -> bool {
    exists|i: int| 0 <= i < n && #[trigger] hs[i] == k
}

proof fn lemma_conflicts_keys_distinct(
    hs: Seq<Seq<char>>,
    child: RecModel,
    snapshot: Option<RecModel>,
    partner: RecModel,
    n: int,
)
    requires
        distinct_headers(hs),
        n <= hs.len(),
    ensures
        ({
            let cs = spec_conflicts_upto(hs, child, snapshot, partner, n);
            &&& forall|j: int| 0 <= j < cs.len() ==> key_among((#[trigger] cs[j]).0, hs, n)
            &&& forall|j: int, k: int| 0 <= j < k < cs.len() ==> cs[j].0 != cs[k].0
        }),
    decreases n,
{
    if n <= 0 {
    } else {
        lemma_conflicts_keys_distinct(hs, child, snapshot, partner, n - 1);
        let prev = spec_conflicts_upto(hs, child, snapshot, partner, n - 1);
        let at = spec_conflict_at(hs[n - 1], child, snapshot, partner);
        let cs = prev + at;
        assert(forall|j: int| 0 <= j < at.len() ==> (#[trigger] at[j]).0 == hs[n - 1]);
        assert forall|j: int| 0 <= j < cs.len() implies key_among(
            (#[trigger] cs[j]).0,
            hs,
            n,
        ) by {
            if j < prev.len() {
                assert(cs[j] == prev[j]);
                assert(key_among(prev[j].0, hs, n - 1));
                let i = choose|i: int| 0 <= i < n - 1 && #[trigger] hs[i] == prev[j].0;
                assert(hs[i] == cs[j].0);
            } else {
                assert(cs[j] == at[j - prev.len()]);
                assert(hs[n - 1] == cs[j].0);
            }
        }
        assert forall|j: int, k: int| 0 <= j < k < cs.len() implies cs[j].0 != cs[k].0 by {
            if k < prev.len() {
                assert(cs[j] == prev[j]);
                assert(cs[k] == prev[k]);
            } else {
                assert(cs[k] == at[k - prev.len()]);
                assert(cs[j] == prev[j]);
                assert(key_among(prev[j].0, hs, n - 1));
                let i = choose|i: int| 0 <= i < n - 1 && #[trigger] hs[i] == prev[j].0;
                assert(hs[i] != hs[n - 1]);
            }
        }
    }
}

/// Under a header row without duplicates, no two conflicts of one row name
/// the same field.
pub proof fn lemma_row_conflicts_keys_distinct(
    hs: Seq<Seq<char>>,
    snapshot: Option<RecModel>,
    row: RecModel,
    index: IndexModel,
)
    requires
        distinct_headers(hs),
    ensures
        ({
            let cs = spec_row_conflicts(hs, snapshot, row, index);
            forall|j: int, k: int| 0 <= j < k < cs.len() ==> cs[j].0 != cs[k].0
        }),
{
    if !spec_is_master(row) {
        match alist_get(row, "sku"@) {
            Some(s) => {
                match alist_get(index, s) {
                    Some(p) => {
                        lemma_conflicts_keys_distinct(hs, row, snapshot, p, hs.len() as int);
                    },
                    None => {},
                }
            },
            None => {},
        }
    }
}

/// Upward propagation for a whole row, under a header row without duplicate
/// column names: the resolved value of an eligible conflict stands in that
/// field of both the applied child and the applied pending parent.
pub proof fn lemma_row_upward_propagation(
    hs: Seq<Seq<char>>,
    snapshot: Option<RecModel>,
    pending: RecModel,
    row: RecModel,
    index: IndexModel,
    rs: Seq<Resolution>,
    j: int,
)
    requires
        distinct_headers(hs),
        ({
            let cs = spec_row_conflicts(hs, snapshot, row, index);
            &&& rs.len() == cs.len()
            &&& 0 <= j < cs.len()
            &&& !cs[j].3
        }),
    ensures
        ({
            let cs = spec_row_conflicts(hs, snapshot, row, index);
            let ap = spec_apply(row, Some(pending), cs, rs);
            &&& alist_get(ap.0, cs[j].0) == Some(spec_resolved(cs[j], rs[j]))
            &&& ap.1 matches Some(p2) && alist_get(p2, cs[j].0) == Some(
                spec_resolved(cs[j], rs[j]),
            )
        }),
{
    let cs = spec_row_conflicts(hs, snapshot, row, index);
    lemma_row_conflicts_keys_distinct(hs, snapshot, row, index);
    lemma_upward_propagation(row, pending, cs, rs, j);
}

/// The localized-field rule for a whole row, under a header row without
/// duplicate column names: the resolved value of a localized conflict goes
/// to the applied pending parent only; the applied child reads that field as
/// the input child did.
pub proof fn lemma_row_localized_only_parent(
    hs: Seq<Seq<char>>,
    snapshot: Option<RecModel>,
    pending: RecModel,
    row: RecModel,
    index: IndexModel,
    rs: Seq<Resolution>,
    j: int,
)
    requires
        distinct_headers(hs),
        ({
            let cs = spec_row_conflicts(hs, snapshot, row, index);
            &&& rs.len() == cs.len()
            &&& 0 <= j < cs.len()
            &&& cs[j].3
        }),
    ensures
        ({
            let cs = spec_row_conflicts(hs, snapshot, row, index);
            let ap = spec_apply(row, Some(pending), cs, rs);
            &&& alist_get(ap.0, cs[j].0) == alist_get(row, cs[j].0)
            &&& ap.1 matches Some(p2) && alist_get(p2, cs[j].0) == Some(
                spec_resolved(cs[j], rs[j]),
            )
        }),
{
    let cs = spec_row_conflicts(hs, snapshot, row, index);
    lemma_row_conflicts_keys_distinct(hs, snapshot, row, index);
    lemma_localized_only_parent(row, pending, cs, rs, j);
}

/// Upward propagation, seen on the engine's own transition: when a child row
/// raises an eligible conflict while a parent is still pending, under a
/// header row without duplicate column names, the step emits exactly the
/// flushed parent followed by the child, and both carry the resolved value
/// in that field.
pub proof fn lemma_step_upward_propagation(
    hs: Seq<Seq<char>>,
    pending: RecModel,
    snapshot: Option<RecModel>,
    row: RecModel,
    index: IndexModel,
    rs: Seq<Resolution>,
    j: int,
)
    requires
        !spec_is_master(row),
        distinct_headers(hs),
        ({
            let cs = spec_row_conflicts(hs, snapshot, row, index);
            &&& rs.len() == cs.len()
            &&& 0 <= j < cs.len()
            &&& !cs[j].3
        }),
    ensures
        ({
            let cs = spec_row_conflicts(hs, snapshot, row, index);
            let st = spec_step(hs, Some(pending), snapshot, row, index, rs);
            let v = spec_resolved(cs[j], rs[j]);
            &&& st.2.len() == 2
            &&& alist_get(st.2[0], cs[j].0) == Some(v)
            &&& alist_get(st.2[1], cs[j].0) == Some(v)
        }),
{
    let cs = spec_row_conflicts(hs, snapshot, row, index);
    lemma_row_conflicts_keys_distinct(hs, snapshot, row, index);
    lemma_upward_propagation(row, pending, cs, rs, j);
    let ap = spec_apply(row, Some(pending), cs, rs);
    let st = spec_step(hs, Some(pending), snapshot, row, index, rs);
    assert(st.2 == opt_seq(ap.1) + seq![ap.0]);
    assert(st.2[1] == ap.0);
}

/// Batch mode always prefers the partner: every resolution the batch run
/// hands the engine is `Partner`, and a conflict resolved by `Partner`
/// settles to the partner's value.
pub proof fn lemma_batch_prefers_partner(c: ConflictModel, n: nat, j: int)
    requires
        0 <= j < n,
    ensures
        batch_resolutions(n)[j] is Partner,
        spec_resolved(c, batch_resolutions(n)[j]) == c.2,
{
}

} // verus!
