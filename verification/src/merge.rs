//! Bounded-depth recursive merge of two table documents.
//!
//! The overlay wins per key: when both sides hold a table at a key the
//! two merge recursively, and any other pair is replaced whole — arrays
//! are never merged element-wise. Nesting deeper than the bound fails
//! rather than recursing without limit.

use vstd::prelude::*;

use crate::doc::CfgTable;
use crate::doc::CfgValue;
use crate::doc::DocView;
use crate::doc::Entry;
use crate::doc::TblView;
use crate::doc::clone_val;
use crate::doc::lemma_tv_drop_last_other;
use crate::doc::lemma_tv_first_match;
use crate::doc::lemma_tv_index_of;
use crate::doc::lemma_push_view;
use crate::doc::lemma_tv_push;
use crate::doc::lemma_update_view;
use crate::doc::lemma_tv_update_other;
use crate::doc::lemma_tv_update_same;
use crate::doc::lemma_views_of_entries_index;
use crate::doc::lemma_views_of_entries_len;
use crate::doc::tv_get;
use crate::doc::tv_has;
use crate::doc::tv_index_of;
use crate::doc::tv_keys_unique;
use crate::doc::views_of_entries;
use crate::errors::CfgError;

verus! {

broadcast use vstd::seq::group_seq_axioms, vstd::std_specs::vec::group_vec_axioms;

/// The deepest table nesting a merge will follow before failing.
pub const TOML_MAX_MERGE_DEPTH: u32 = 30;

/// The table produced by merging overlay `o` into base `b`, entry by
/// entry, recursing into tables at depth + 1. Meaningful only where
/// `merge_defined` holds of the same arguments.
pub open spec fn merge_tv(b: TblView, o: TblView, depth: nat) -> TblView
    decreases TOML_MAX_MERGE_DEPTH as int + 2 - depth, o.len(),
{
    if depth > TOML_MAX_MERGE_DEPTH || o.len() == 0 {
        b
    } else {
        let m = merge_tv(b, o.drop_last(), depth);
        let k = o.last().0;
        let v = o.last().1;
        if tv_has(m, k) {
            let j = tv_index_of(m, k);
            match (m[j].1, v) {
                (DocView::Tbl(bt), DocView::Tbl(ot)) => m.update(
                    j,
                    (k, DocView::Tbl(merge_tv(bt, ot, depth + 1))),
                ),
                _ => m.update(j, (k, v)),
            }
        } else {
            m.push((k, v))
        }
    }
}

/// Whether merging overlay `o` into base `b` at the given depth stays
/// within the depth bound.
pub open spec fn merge_defined(b: TblView, o: TblView, depth: nat) -> bool
    decreases TOML_MAX_MERGE_DEPTH as int + 2 - depth, o.len(),
{
    depth <= TOML_MAX_MERGE_DEPTH && (o.len() == 0 || {
        &&& merge_defined(b, o.drop_last(), depth)
        &&& {
            let m = merge_tv(b, o.drop_last(), depth);
            let k = o.last().0;
            let v = o.last().1;
            if tv_has(m, k) {
                match (m[tv_index_of(m, k)].1, v) {
                    (DocView::Tbl(bt), DocView::Tbl(ot)) => merge_defined(bt, ot, depth + 1),
                    _ => true,
                }
            } else {
                true
            }
        }
    })
}

/// A merge that is defined is defined on every prefix of the overlay.
pub proof fn lemma_merge_defined_prefix(b: TblView, o: TblView, depth: nat, m: int)
    requires
        merge_defined(b, o, depth),
        0 <= m <= o.len(),
    ensures
        merge_defined(b, o.take(m), depth),
    decreases o.len(),
{
    if m == o.len() {
        assert(o.take(m) =~= o);
    } else {
        lemma_merge_defined_prefix(b, o.drop_last(), depth, m);
        assert(o.drop_last().take(m) =~= o.take(m));
    }
}

/// Merges the `other` table into `me`. Overlay values win per key; two
/// tables at the same key merge recursively; any other pair — a type
/// mismatch, an array, a scalar — is replaced whole. Nesting deeper
/// than `TOML_MAX_MERGE_DEPTH` fails with `MergeDepthExceeded`.
pub fn toml_merge(me: &mut CfgTable, other: &CfgTable) -> (r: Result<(), CfgError>)
    ensures
        r is Ok <==> merge_defined(old(me)@, other@, 0),
        r is Ok ==> final(me)@ == merge_tv(old(me)@, other@, 0),
        r matches Err(e) ==> e == CfgError::MergeDepthExceeded(TOML_MAX_MERGE_DEPTH),
{
    toml_merge_recurse(me, other, 0)
}

#[verifier::loop_isolation(false)]
fn toml_merge_recurse(me: &mut CfgTable, other: &CfgTable, depth: u32) -> (r: Result<
    (),
    CfgError,
>)
    ensures
        r is Ok <==> merge_defined(old(me)@, other@, depth as nat),
        r is Ok ==> final(me)@ == merge_tv(old(me)@, other@, depth as nat),
        r matches Err(e) ==> e == CfgError::MergeDepthExceeded(TOML_MAX_MERGE_DEPTH),
    decreases TOML_MAX_MERGE_DEPTH as int + 1 - depth,
{
    if depth > TOML_MAX_MERGE_DEPTH {
        return Err(CfgError::MergeDepthExceeded(TOML_MAX_MERGE_DEPTH));
    }
    let ghost b0 = me@;
    let ghost ov = other@;
    proof {
        lemma_views_of_entries_len(other.entries@);
    }
    let n = other.entries.len();
    let mut i: usize = 0;
    while i < n
        invariant
            i <= n,
            merge_defined(b0, ov.take(i as int), depth as nat),
            me@ == merge_tv(b0, ov.take(i as int), depth as nat),
        decreases n - i,
    {
        let ghost pre = me@;
        proof {
            lemma_views_of_entries_index(other.entries@, i as int);
            assert(ov.take(i + 1).drop_last() =~= ov.take(i as int));
            assert(ov.take(i + 1).last() == ov[i as int]);
        }
        let oe = &other.entries[i];
        match me.find_key(&oe.key) {
            None => {
                let ghost ents = me.entries@;
                me.entries.push(Entry { key: oe.key.clone(), val: clone_val(&oe.val) });
                proof {
                    lemma_push_view(ents, me.entries@[ents.len() as int]);
                    assert(me@ =~= pre.push((oe.key@, oe.val@)));
                }
            },
            Some(j) => {
                let ghost ents = me.entries@;
                proof {
                    lemma_views_of_entries_len(ents);
                    assert(tv_has(pre, oe.key@));
                    lemma_tv_index_of(pre, oe.key@);
                    if tv_index_of(pre, oe.key@) < j {
                        assert(pre[tv_index_of(pre, oe.key@)].0 != oe.key@);
                    }
                    assert(tv_index_of(pre, oe.key@) == j);
                }
                let removed = me.entries.remove(j);
                let Entry { key: bkey, val: bval } = removed;
                match (bval, &oe.val) {
                    (CfgValue::Tbl(mut bt), CfgValue::Tbl(ot)) => {
                        proof {
                            lemma_views_of_entries_index(ents, j as int);
                        }
                        let rr = toml_merge_recurse(&mut bt, ot, depth + 1);
                        me.entries.insert(j, Entry { key: bkey, val: CfgValue::Tbl(bt) });
                        proof {
                            lemma_update_view(
                                ents,
                                j as int,
                                me.entries@[j as int],
                            );
                            assert(me.entries@ =~= ents.update(
                                j as int,
                                me.entries@[j as int],
                            ));
                        }
                        match rr {
                            Ok(()) => {
                                proof {
                                    assert(me@ =~= merge_tv(b0, ov.take(i + 1), depth as nat));
                                }
                            },
                            Err(err) => {
                                proof {
                                    if merge_defined(b0, ov, depth as nat) {
                                        lemma_merge_defined_prefix(
                                            b0,
                                            ov,
                                            depth as nat,
                                            i + 1,
                                        );
                                    }
                                }
                                return Err(err);
                            },
                        }
                    },
                    (_, oval) => {
                        proof {
                            lemma_views_of_entries_index(ents, j as int);
                        }
                        me.entries.insert(j, Entry { key: bkey, val: clone_val(oval) });
                        proof {
                            lemma_update_view(ents, j as int, me.entries@[j as int]);
                            assert(me.entries@ =~= ents.update(
                                j as int,
                                me.entries@[j as int],
                            ));
                            assert(me@ =~= merge_tv(b0, ov.take(i + 1), depth as nat));
                        }
                    },
                }
            },
        }
        i += 1;
    }
    proof {
        assert(ov.take(n as int) =~= ov);
    }
    Ok(())
}

/// What a merge leaves at one key: where base and overlay both hold a
/// table the two merge one level deeper, and in every other case the
/// overlay value replaces the base value whole.
pub open spec fn merged_value(bv: Option<DocView>, ov: DocView, depth: nat) -> DocView {
    match (bv, ov) {
        (Some(DocView::Tbl(bt)), DocView::Tbl(ot)) => DocView::Tbl(merge_tv(bt, ot, depth + 1)),
        _ => ov,
    }
}

/// The value the base holds at a key, if any.
pub open spec fn tv_get_opt(t: TblView, k: Seq<char>) -> Option<DocView> {
    if tv_has(t, k) {
        Some(tv_get(t, k))
    } else {
        None
    }
}

/// Overlay wins, key by key: a defined merge holds an entry for
/// exactly the keys of either side; at each overlay key it holds
/// `merged_value` (the overlay value, except that two tables merge
/// recursively), and at every other base key the base value, untouched.
pub proof fn lemma_merge_per_key(b: TblView, o: TblView, depth: nat, k: Seq<char>)
    requires
        tv_keys_unique(o),
        merge_defined(b, o, depth),
    ensures
        tv_keys_unique(merge_tv(b, o, depth)) == tv_keys_unique(b),
        tv_has(merge_tv(b, o, depth), k) <==> (tv_has(b, k) || tv_has(o, k)),
        tv_has(o, k) ==> tv_get(merge_tv(b, o, depth), k) == merged_value(
            tv_get_opt(b, k),
            tv_get(o, k),
            depth,
        ),
        !tv_has(o, k) && tv_has(b, k) ==> tv_get(merge_tv(b, o, depth), k) == tv_get(b, k),
    decreases o.len(),
{
    if o.len() == 0 {
    } else {
        let p = o.drop_last();
        let e = o.last();
        let ke = e.0;
        let ve = e.1;
        let m = merge_tv(b, p, depth);
        assert(tv_keys_unique(p)) by {
            assert(forall|i: int| 0 <= i < p.len() ==> p[i] == o[i]);
        }
        assert(forall|i: int| 0 <= i < p.len() ==> #[trigger] p[i].0 != ke) by {
            assert(forall|i: int| 0 <= i < p.len() ==> p[i] == o[i]);
        }
        assert(!tv_has(p, ke)) by {
            if tv_has(p, ke) {
                let w = choose|w: int| 0 <= w < p.len() && p[w].0 == ke;
            }
        }
        lemma_merge_per_key(b, p, depth, ke);
        lemma_merge_per_key(b, p, depth, k);
        assert(e == (e.0, e.1));
        assert forall|j: int| 0 <= j < o.len() - 1 implies o[j].0 != ke by {
            assert(p[j] == o[j]);
        }
        lemma_tv_first_match(o, ke, o.len() - 1);
        if k != ke {
            lemma_tv_drop_last_other(o, k);
        }
        if tv_has(m, ke) {
            let j = tv_index_of(m, ke);
            lemma_tv_index_of(m, ke);
            let nv = match (m[j].1, ve) {
                (DocView::Tbl(bt), DocView::Tbl(ot)) => DocView::Tbl(
                    merge_tv(bt, ot, depth + 1),
                ),
                _ => ve,
            };
            assert(merge_tv(b, o, depth) == m.update(j, (ke, nv)));
            if k == ke {
                lemma_tv_update_same(m, j, (ke, nv));
                assert(tv_get(m, ke) == m[j].1);
            } else {
                lemma_tv_update_other(m, j, (ke, nv), k);
            }
            assert(tv_keys_unique(m.update(j, (ke, nv))) == tv_keys_unique(m)) by {
                let m2 = m.update(j, (ke, nv));
                assert(forall|i: int| 0 <= i < m.len() ==> #[trigger] m2[i].0 == m[i].0);
                if tv_keys_unique(m) {
                    assert forall|x: int, y: int|
                        0 <= x < y < m2.len() implies m2[x].0 != m2[y].0 by {
                        assert(m2[x].0 == m[x].0 && m2[y].0 == m[y].0);
                    }
                }
                if tv_keys_unique(m2) {
                    assert forall|x: int, y: int|
                        0 <= x < y < m.len() implies m[x].0 != m[y].0 by {
                        assert(m2[x].0 == m[x].0 && m2[y].0 == m[y].0);
                    }
                }
            }
        } else {
            assert(merge_tv(b, o, depth) == m.push((ke, ve)));
            lemma_tv_push(m, (ke, ve), k);
            if tv_keys_unique(m) {
                assert(tv_keys_unique(m.push((ke, ve)))) by {
                    let m2 = m.push((ke, ve));
                    assert forall|x: int, y: int|
                        0 <= x < y < m2.len() implies m2[x].0 != m2[y].0 by {
                        if y < m.len() {
                            assert(m2[x].0 == m[x].0 && m2[y].0 == m[y].0);
                        } else {
                            assert(m2[x].0 == m[x].0);
                            if m2[x].0 == ke {
                                assert(tv_has(m, ke));
                            }
                        }
                    }
                }
            } else {
                assert(!tv_keys_unique(m.push((ke, ve)))) by {
                    let m2 = m.push((ke, ve));
                    let (x, y) = choose|x: int, y: int|
                        0 <= x < y < m.len() && m[x].0 == m[y].0;
                    assert(m2[x].0 == m2[y].0);
                }
            }
        }
    }
}

/// Merging an empty overlay into any document leaves it unchanged.
pub proof fn lemma_merge_empty_overlay(b: TblView, depth: nat)
    requires
        depth <= TOML_MAX_MERGE_DEPTH,
    ensures
        merge_defined(b, Seq::<(Seq<char>, DocView)>::empty(), depth),
        merge_tv(b, Seq::<(Seq<char>, DocView)>::empty(), depth) == b,
{
}

/// Merging any overlay with unique keys into an empty document yields
/// the overlay unchanged.
pub proof fn lemma_merge_into_empty(o: TblView, depth: nat)
    requires
        tv_keys_unique(o),
        depth <= TOML_MAX_MERGE_DEPTH,
    ensures
        merge_defined(Seq::<(Seq<char>, DocView)>::empty(), o, depth),
        merge_tv(Seq::<(Seq<char>, DocView)>::empty(), o, depth) == o,
    decreases o.len(),
{
    let b = Seq::<(Seq<char>, DocView)>::empty();
    if o.len() == 0 {
        assert(merge_tv(b, o, depth) =~= o);
    } else {
        let p = o.drop_last();
        let e = o.last();
        assert(tv_keys_unique(p)) by {
            assert(forall|i: int| 0 <= i < p.len() ==> p[i] == o[i]);
        }
        lemma_merge_into_empty(p, depth);
        assert(!tv_has(p, e.0)) by {
            if tv_has(p, e.0) {
                let w = choose|w: int| 0 <= w < p.len() && p[w].0 == e.0;
                assert(o[w].0 == o[o.len() - 1].0);
            }
        }
        assert(e == (e.0, e.1));
        assert(merge_tv(b, o, depth) == p.push(e));
        assert(p.push(e) =~= o);
    }
}

} // verus!
