//! The update coalescer.
//!
//! A flush drains the records that arrived during one throttle window and
//! folds them into one merged record per distinct item id, in first-seen id
//! order.  Merging is last-write-wins per field, not per record: a later
//! rotation-only update does not clobber a color set earlier in the window.

use vstd::prelude::*;

use crate::update::{bytes_eq, UpdateRecord, UpdateRecordView, views_of};

verus! {

/// Field-wise merge: the later record's field wins where present, the
/// accumulated one is kept where absent.  The id is the accumulated one.
pub open spec fn merge_views(acc: UpdateRecordView, inc: UpdateRecordView) -> UpdateRecordView {
    UpdateRecordView {
        id: acc.id,
        rotation: if inc.rotation is Some {
            inc.rotation
        } else {
            acc.rotation
        },
        position: if inc.position is Some {
            inc.position
        } else {
            acc.position
        },
        color: if inc.color is Some {
            inc.color
        } else {
            acc.color
        },
    }
}

/// Index of the first record with the given id, or -1 when there is none.
pub open spec fn find_id(s: Seq<UpdateRecordView>, id: Seq<u8>) -> int
    decreases s.len(),
{
    if s.len() == 0 {
        -1
    } else if s[0].id == id {
        0
    } else {
        let rest = find_id(s.drop_first(), id);
        if rest == -1 {
            -1
        } else {
            rest + 1
        }
    }
}

/// What one incoming record does to the accumulated batch: merge into the
/// record that already carries its id, or append as a new one.
pub open spec fn coalesce_step(acc: Seq<UpdateRecordView>, inc: UpdateRecordView) -> Seq<
    UpdateRecordView,
> {
    let i = find_id(acc, inc.id);
    if i >= 0 {
        acc.update(i, merge_views(acc[i], inc))
    } else {
        acc.push(inc)
    }
}

/// The whole window coalesced, record by record in arrival order.
pub open spec fn coalesce_seq(s: Seq<UpdateRecordView>) -> Seq<UpdateRecordView>
    decreases s.len(),
{
    if s.len() == 0 {
        Seq::empty()
    } else {
        coalesce_step(coalesce_seq(s.drop_last()), s.last())
    }
}

/// The ids of a sequence of records, in order.
pub open spec fn ids_of(s: Seq<UpdateRecordView>) -> Seq<Seq<u8>> {
    s.map_values(|r: UpdateRecordView| r.id)
}

/// The distinct values of a sequence, each at its first occurrence, in that
/// order.
pub open spec fn first_seen(s: Seq<Seq<u8>>) -> Seq<Seq<u8>>
    decreases s.len(),
{
    if s.len() == 0 {
        Seq::empty()
    } else {
        let pre = first_seen(s.drop_last());
        if pre.contains(s.last()) {
            pre
        } else {
            pre.push(s.last())
        }
    }
}

/// `find_id` finds the first index that carries the id, and -1 exactly when
/// no index does.
pub proof fn lemma_find_id(s: Seq<UpdateRecordView>, id: Seq<u8>)
    ensures
        -1 <= find_id(s, id) < s.len(),
        find_id(s, id) == -1 <==> (forall|j: int| 0 <= j < s.len() ==> (#[trigger] s[j]).id != id),
        find_id(s, id) >= 0 ==> s[find_id(s, id)].id == id && (forall|j: int|
            0 <= j < find_id(s, id) ==> (#[trigger] s[j]).id != id),
    decreases s.len(),
{
    if s.len() == 0 {
    } else if s[0].id == id {
    } else {
        lemma_find_id(s.drop_first(), id);
        assert(forall|j: int|
            1 <= j < s.len() ==> #[trigger] s[j] == s.drop_first()[j - 1]);
    }
}

/// Law: coalescing a single-record window yields that record unchanged.
pub proof fn lemma_coalesce_single(r: UpdateRecordView)
    ensures
        coalesce_seq(seq![r]) == seq![r],
{
    let s = seq![r];
    assert(s.drop_last() =~= Seq::<UpdateRecordView>::empty());
    assert(coalesce_seq(s.drop_last()) == Seq::<UpdateRecordView>::empty());
    assert(coalesce_seq(s) == coalesce_step(Seq::empty(), r));
    assert(coalesce_seq(s) =~= seq![r]);
}

/// Law: the distinct ids appear in the coalesced output in first-seen order,
/// however often each id repeats within the window.
pub proof fn lemma_coalesce_first_seen_order(s: Seq<UpdateRecordView>)
    ensures
        ids_of(coalesce_seq(s)) == first_seen(ids_of(s)),
    decreases s.len(),
{
    if s.len() == 0 {
        assert(ids_of(coalesce_seq(s)) =~= first_seen(ids_of(s)));
    } else {
        let pre = s.drop_last();
        let r = s.last();
        lemma_coalesce_first_seen_order(pre);
        let acc = coalesce_seq(pre);
        assert(ids_of(s).drop_last() =~= ids_of(pre));
        assert(ids_of(s).last() == r.id);
        lemma_find_id(acc, r.id);
        let i = find_id(acc, r.id);
        if i >= 0 {
            assert(ids_of(acc).contains(r.id)) by {
                assert(ids_of(acc)[i] == r.id);
            }
            assert(ids_of(coalesce_step(acc, r)) =~= ids_of(acc));
        } else {
            assert(!ids_of(acc).contains(r.id)) by {
                if exists|j: int| 0 <= j < ids_of(acc).len() && ids_of(acc)[j] == r.id {
                    let j = choose|j: int| 0 <= j < ids_of(acc).len() && ids_of(acc)[j] == r.id;
                    assert(acc[j].id == r.id);
                }
            }
            assert(ids_of(coalesce_step(acc, r)) =~= ids_of(acc).push(r.id));
        }
    }
}

/// Field-wise merge of one incoming record into the accumulated one that
/// already carries its id.
pub fn merge_update(current: UpdateRecord, incoming: UpdateRecord) -> (merged: UpdateRecord)
    ensures
        merged@ == merge_views(current@, incoming@),
{
    UpdateRecord {
        id: current.id,
        rotation: match incoming.rotation {
            Some(v) => Some(v),
            None => current.rotation,
        },
        position: match incoming.position {
            Some(v) => Some(v),
            None => current.position,
        },
        color: match incoming.color {
            Some(c) => Some(c),
            None => current.color,
        },
    }
}

/// Index of the accumulated record that carries the given id, if any.
fn find_index(recs: &Vec<UpdateRecord>, id: &Vec<u8>) -> (r: Option<usize>)
    ensures
        match r {
            Some(i) => 0 <= i < recs@.len() && i == find_id(views_of(recs@), id@),
            None => find_id(views_of(recs@), id@) == -1,
        },
{
    let ghost vs = views_of(recs@);
    let mut i: usize = 0;
    while i < recs.len()
        invariant
            i <= recs@.len(),
            vs == views_of(recs@),
            forall|j: int| 0 <= j < i ==> (#[trigger] vs[j]).id != id@,
        decreases recs@.len() - i,
    {
        if bytes_eq(&recs[i].id, id) {
            proof {
                lemma_find_id(vs, id@);
                assert(vs[i as int].id == id@);
            }
            return Some(i);
        }
        i += 1;
    }
    proof {
        lemma_find_id(vs, id@);
    }
    None
}

/// Coalesces one drained window of records: one merged record per distinct
/// id, ids in first-seen order, fields merged last-write-wins.
pub fn coalesce(updates: Vec<UpdateRecord>) -> (merged: Vec<UpdateRecord>)
    ensures
        views_of(merged@) == coalesce_seq(views_of(updates@)),
{
    let ghost full_input = views_of(updates@);
    let mut rest = updates;
    let ghost mut done: Seq<UpdateRecordView> = Seq::empty();
    let mut out: Vec<UpdateRecord> = Vec::new();
    while rest.len() > 0
        invariant
            done + views_of(rest@) =~= full_input,
            views_of(out@) == coalesce_seq(done),
        decreases rest.len(),
    {
        let ghost rest0 = views_of(rest@);
        let rec = rest.remove(0);
        proof {
            assert(views_of(rest@) =~= rest0.drop_first());
            assert(done.push(rec@) + views_of(rest@) =~= full_input);
            assert(done.push(rec@).drop_last() =~= done);
        }
        let ghost acc = views_of(out@);
        let found = find_index(&out, &rec.id);
        match found {
            Some(i) => {
                let cur = out.remove(i);
                let merged_rec = merge_update(cur, rec);
                out.insert(i, merged_rec);
                proof {
                    assert(views_of(out@) =~= acc.update(i as int, merge_views(acc[i as int], rec@)));
                }
            },
            None => {
                out.push(rec);
                proof {
                    assert(views_of(out@) =~= acc.push(rec@));
                }
            },
        }
        proof {
            done = done.push(rec@);
            assert(views_of(out@) == coalesce_step(acc, done.last()));
        }
    }
    proof {
        assert(done =~= full_input);
    }
    out
}

} // verus!
