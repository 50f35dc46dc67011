//! First-seen-wins deduplication of records by identifier.
use vstd::prelude::*;
use crate::record::{Tutor, TutorView, tutor_views};

verus! {

/// No record before position `i` has the identifier of `s[i]`.
pub open spec fn is_first(s: Seq<TutorView>, i: int) -> bool {
    forall|j: int| 0 <= j < i ==> #[trigger] s[j].id != s[i].id
}

/// The records of `s` that are the first of their identifier, in order.
pub open spec fn first_seen(s: Seq<TutorView>) -> Seq<TutorView>
    decreases s.len(),
{
    if s.len() == 0 {
        seq![]
    } else if is_first(s, s.len() - 1) {
        first_seen(s.drop_last()).push(s.last())
    } else {
        first_seen(s.drop_last())
    }
}

/// The positions in `s` of the records that are the first of their
/// identifier, in order.
pub open spec fn first_positions(s: Seq<TutorView>) -> Seq<int>
    decreases s.len(),
{
    if s.len() == 0 {
        seq![]
    } else if is_first(s, s.len() - 1) {
        first_positions(s.drop_last()).push(s.len() - 1)
    } else {
        first_positions(s.drop_last())
    }
}

/// Some record of `s` has identifier `id`.
pub open spec fn has_id(s: Seq<TutorView>, id: Seq<char>) -> bool {
    exists|k: int| 0 <= k < s.len() && #[trigger] s[k].id == id
}

proof fn lemma_is_first_prefix(s: Seq<TutorView>, i: int)
    requires
        0 <= i < s.len() - 1,
    ensures
        is_first(s, i) == is_first(s.drop_last(), i),
{
    let t = s.drop_last();
    if is_first(t, i) {
        assert forall|j: int| 0 <= j < i implies #[trigger] s[j].id != s[i].id by {
            assert(t[j] == s[j]);
        }
    }
    if is_first(s, i) {
        assert forall|j: int| 0 <= j < i implies #[trigger] t[j].id != t[i].id by {
            assert(t[j] == s[j]);
        }
    }
}

/// The identifiers kept are exactly the identifiers of the input.
pub proof fn lemma_first_seen_ids(s: Seq<TutorView>, id: Seq<char>)
    ensures
        has_id(first_seen(s), id) == has_id(s, id),
    decreases s.len(),
{
    if s.len() > 0 {
        let t = s.drop_last();
        lemma_first_seen_ids(t, id);
        let out = first_seen(s);
        let prev = first_seen(t);
        if has_id(t, id) {
            let k = choose|k: int| 0 <= k < t.len() && #[trigger] t[k].id == id;
            assert(s[k].id == id);
            let q = choose|q: int| 0 <= q < prev.len() && #[trigger] prev[q].id == id;
            if is_first(s, s.len() - 1) {
                assert(out[q] == prev[q]);
            }
            assert(has_id(out, id));
        } else if s.last().id == id {
            if !is_first(s, s.len() - 1) {
                let j = choose|j: int| 0 <= j < s.len() - 1 && #[trigger] s[j].id == s[s.len() - 1].id;
                assert(t[j].id == id);
            }
            assert(out.last().id == id);
            assert(has_id(out, id));
        } else {
            assert forall|k: int| 0 <= k < s.len() implies #[trigger] s[k].id != id by {
                if k < s.len() - 1 {
                    assert(t[k] == s[k]);
                }
            }
            if is_first(s, s.len() - 1) {
                assert forall|k: int| 0 <= k < out.len() implies #[trigger] out[k].id != id by {
                    if k < prev.len() {
                        assert(out[k] == prev[k]);
                    }
                }
            }
        }
    }
}

/// First-seen-wins deduplication: the records kept are, in their input
/// order, exactly those that are the first of their identifier, each
/// unchanged; so no two records kept share an identifier, and a later record
/// with an identifier already seen is dropped without moving any other.
pub proof fn lemma_first_seen(s: Seq<TutorView>)
    ensures
        first_positions(s).len() == first_seen(s).len(),
        forall|k: int|
            0 <= k < first_seen(s).len() ==> {
                let i = #[trigger] first_positions(s)[k];
                &&& 0 <= i < s.len()
                &&& is_first(s, i)
                &&& first_seen(s)[k] == s[i]
            },
        forall|k1: int, k2: int|
            0 <= k1 < k2 < first_seen(s).len() ==> #[trigger] first_positions(s)[k1]
                < #[trigger] first_positions(s)[k2],
        forall|i: int|
            0 <= i < s.len() && #[trigger] is_first(s, i) ==> first_positions(s).contains(i),
        forall|k1: int, k2: int|
            0 <= k1 < first_seen(s).len() && 0 <= k2 < first_seen(s).len() && k1 != k2
                ==> #[trigger] first_seen(s)[k1].id != #[trigger] first_seen(s)[k2].id,
    decreases s.len(),
{
    if s.len() > 0 {
        let t = s.drop_last();
        let n = s.len() - 1;
        lemma_first_seen(t);
        let po = first_positions(t);
        let pt = first_seen(t);
        assert forall|k: int| 0 <= k < pt.len() implies is_first(s, #[trigger] po[k]) by {
            lemma_is_first_prefix(s, po[k]);
        }
        assert forall|i: int| 0 <= i < n && #[trigger] is_first(s, i) implies po.contains(i) by {
            lemma_is_first_prefix(s, i);
            assert(is_first(t, i));
        }
        if is_first(s, n) {
            let p = po.push(n);
            let o = pt.push(s.last());
            assert(first_positions(s) == p);
            assert(first_seen(s) == o);
            assert forall|k: int| 0 <= k < o.len() implies {
                let i = #[trigger] p[k];
                &&& 0 <= i < s.len()
                &&& is_first(s, i)
                &&& o[k] == s[i]
            } by {
                if k < pt.len() {
                    assert(p[k] == po[k]);
                    assert(t[po[k]] == s[po[k]]);
                }
            }
            assert forall|i: int| 0 <= i < s.len() && #[trigger] is_first(s, i) implies p.contains(
                i,
            ) by {
                if i < n {
                    assert(po.contains(i));
                    let k = choose|k: int| 0 <= k < po.len() && po[k] == i;
                    assert(p[k] == i);
                } else {
                    assert(p[po.len() as int] == i);
                }
            }
            assert forall|k1: int, k2: int|
                0 <= k1 < o.len() && 0 <= k2 < o.len() && k1 != k2 implies #[trigger] o[k1].id
                != #[trigger] o[k2].id by {
                if k1 < pt.len() && k2 < pt.len() {
                    assert(o[k1] == pt[k1] && o[k2] == pt[k2]);
                } else if k1 < pt.len() {
                    assert(o[k1] == s[po[k1]]);
                    assert(po[k1] < n);
                } else if k2 < pt.len() {
                    assert(o[k2] == s[po[k2]]);
                    assert(po[k2] < n);
                }
            }
        } else {
            assert forall|i: int| 0 <= i < s.len() && #[trigger] is_first(s, i) implies po.contains(
                i,
            ) by {
                if i < n {
                    assert(po.contains(i));
                }
            }
            assert forall|k: int| 0 <= k < pt.len() implies s[#[trigger] po[k]] == t[po[k]] by {}
        }
    }
}

/// Appends `cand` to `out` unless a record of `out` has its identifier.
pub fn push_if_new(out: &mut Vec<Tutor>, cand: Tutor)
    ensures
        tutor_views(final(out)@) == if has_id(tutor_views(old(out)@), cand.id@) {
            tutor_views(old(out)@)
        } else {
            tutor_views(old(out)@).push(cand@)
        },
{
    let ghost before = tutor_views(out@);
    let mut k: usize = 0;
    while k < out.len()
        invariant
            before == tutor_views(out@),
            0 <= k <= out.len(),
            forall|q: int| 0 <= q < k ==> #[trigger] before[q].id != cand.id@,
        decreases out.len() - k,
    {
        if out[k].id == cand.id {
            assert(before[k as int].id == cand.id@);
            return;
        }
        k = k + 1;
    }
    out.push(cand);
    assert(tutor_views(out@) == before.push(cand@));
}

} // verus!
