//! Output ordering. The output format forbids a non-table key after a
//! table key, so within every table — the top level and, recursively,
//! every nested table — keys are bucketed: scalar-valued keys first,
//! then array-valued keys, then table-valued keys, each bucket keeping
//! the document's own key order.

use vstd::prelude::*;

use crate::doc::CfgTable;
use crate::doc::CfgValue;
use crate::doc::DocView;
use crate::doc::Entry;
use crate::doc::TblView;
use crate::doc::clone_val;
use crate::doc::lemma_push_view;
use crate::doc::lemma_views_of_entries_index;
use crate::doc::lemma_views_of_entries_len;
use crate::doc::views_of_entries;

verus! {

broadcast use vstd::seq::group_seq_axioms, vstd::std_specs::vec::group_vec_axioms;

/// A scalar: neither an array nor a table.
pub open spec fn is_scalar(v: DocView) -> bool {
    !(v is Arr) && !(v is Tbl)
}

/// The scalar-valued entries of a table, in their own order.
pub open spec fn scalars_of(t: TblView) -> TblView
    decreases t.len(),
{
    if t.len() == 0 {
        Seq::empty()
    } else {
        scalars_of(t.drop_last()) + (if is_scalar(t.last().1) {
            seq![t.last()]
        } else {
            Seq::empty()
        })
    }
}

/// The array-valued entries of a table, in their own order.
pub open spec fn arrays_of(t: TblView) -> TblView
    decreases t.len(),
{
    if t.len() == 0 {
        Seq::empty()
    } else {
        arrays_of(t.drop_last()) + (if t.last().1 is Arr {
            seq![t.last()]
        } else {
            Seq::empty()
        })
    }
}

/// The table-valued entries of a table, in their own order, each value
/// ordered in turn.
pub open spec fn tables_of(t: TblView) -> TblView
    decreases t, 0int,
{
    if t.len() == 0 {
        Seq::empty()
    } else {
        tables_of(t.drop_last()) + (match t.last().1 {
            DocView::Tbl(sub) => seq![(t.last().0, DocView::Tbl(order_tv(sub)))],
            _ => Seq::empty(),
        })
    }
}

/// The table reordered for output: scalars, then arrays, then tables,
/// recursively.
pub open spec fn order_tv(t: TblView) -> TblView
    decreases t, 1int,
{
    scalars_of(t) + arrays_of(t) + tables_of(t)
}

/// Reorders a table for output: scalar entries first, then array
/// entries, then table entries — the latter reordered recursively —
/// each bucket keeping the table's own key order.
#[verifier::loop_isolation(false)]
pub fn order_table(t: &CfgTable) -> (r: CfgTable)
    ensures
        r@ == order_tv(t@),
    decreases t,
{
    let mut scal: Vec<Entry> = Vec::new();
    let mut arrs: Vec<Entry> = Vec::new();
    let mut tbls: Vec<Entry> = Vec::new();
    proof {
        lemma_views_of_entries_len(t.entries@);
    }
    let n = t.entries.len();
    let mut i: usize = 0;
    while i < n
        invariant
            i <= n,
            views_of_entries(scal@) == scalars_of(t@.take(i as int)),
            views_of_entries(arrs@) == arrays_of(t@.take(i as int)),
            views_of_entries(tbls@) == tables_of(t@.take(i as int)),
        decreases n - i,
    {
        proof {
            lemma_views_of_entries_index(t.entries@, i as int);
            assert(t@.take(i + 1).drop_last() =~= t@.take(i as int));
            assert(t@.take(i + 1).last() == t@[i as int]);
        }
        let e = &t.entries[i];
        match &e.val {
            CfgValue::Tbl(sub) => {
                let ghost pre = tbls@;
                tbls.push(Entry { key: e.key.clone(), val: CfgValue::Tbl(order_table(sub)) });
                proof {
                    lemma_push_view(pre, tbls@[pre.len() as int]);
                    assert(views_of_entries(tbls@) =~= tables_of(t@.take(i + 1)));
                }
            },
            CfgValue::Arr(_) => {
                let ghost pre = arrs@;
                arrs.push(Entry { key: e.key.clone(), val: clone_val(&e.val) });
                proof {
                    lemma_push_view(pre, arrs@[pre.len() as int]);
                    assert(views_of_entries(arrs@) =~= arrays_of(t@.take(i + 1)));
                }
            },
            _ => {
                let ghost pre = scal@;
                scal.push(Entry { key: e.key.clone(), val: clone_val(&e.val) });
                proof {
                    lemma_push_view(pre, scal@[pre.len() as int]);
                    assert(views_of_entries(scal@) =~= scalars_of(t@.take(i + 1)));
                }
            },
        }
        i += 1;
    }
    proof {
        assert(t@.take(n as int) =~= t@);
    }
    let ghost sv = scal@;
    let ghost av = arrs@;
    let ghost tv = tbls@;
    scal.append(&mut arrs);
    scal.append(&mut tbls);
    proof {
        lemma_views_concat(sv + av, tv);
        lemma_views_concat(sv, av);
    }
    CfgTable { entries: scal }
}

/// The views of concatenated entries are the concatenated views.
pub proof fn lemma_views_concat(a: Seq<Entry>, b: Seq<Entry>)
    ensures
        views_of_entries(a + b) == views_of_entries(a) + views_of_entries(b),
{
    lemma_views_of_entries_len(a);
    lemma_views_of_entries_len(b);
    lemma_views_of_entries_len(a + b);
    assert forall|x: int| 0 <= x < a.len() + b.len() implies views_of_entries(a + b)[x] == (
    views_of_entries(a) + views_of_entries(b))[x] by {
        lemma_views_of_entries_index(a + b, x);
        if x < a.len() {
            lemma_views_of_entries_index(a, x);
            assert((a + b)[x] == a[x]);
        } else {
            lemma_views_of_entries_index(b, x - a.len());
            assert((a + b)[x] == b[x - a.len()]);
        }
    }
    assert(views_of_entries(a + b) =~= views_of_entries(a) + views_of_entries(b));
}

} // verus!
