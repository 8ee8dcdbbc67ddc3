//! The hierarchical configuration document: a tree of scalars, arrays
//! and string-keyed tables, with insertion order kept inside a table.

use vstd::prelude::*;

verus! {

broadcast use vstd::seq::group_seq_axioms, vstd::std_specs::vec::group_vec_axioms;

/// Specification-level form of a document value.
pub enum DocView {
    Null,
    Bool(bool),
    Int(int),
    Str(Seq<char>),
    Arr(Seq<DocView>),
    Tbl(Seq<(Seq<char>, DocView)>),
}

/// Specification-level form of a table: key/value pairs in insertion order.
pub type TblView = Seq<(Seq<char>, DocView)>;

/// One key/value pair of a table.
#[derive(Debug, PartialEq)]
pub struct Entry {
    pub key: String,
    pub val: CfgValue,
}

/// A configuration document value.
#[derive(Debug, PartialEq)]
pub enum CfgValue {
    Null,
    Bool(bool),
    Int(i64),
    Str(String),
    Arr(Vec<CfgValue>),
    Tbl(CfgTable),
}

/// A table document: entries in insertion order, keys unique.
#[derive(Debug, PartialEq)]
pub struct CfgTable {
    pub entries: Vec<Entry>,
}

/// The mathematical value of a document value.
pub open spec fn val_view(v: CfgValue) -> DocView
    decreases v,
{
    match v {
        CfgValue::Null => DocView::Null,
        CfgValue::Bool(b) => DocView::Bool(b),
        CfgValue::Int(i) => DocView::Int(i as int),
        CfgValue::Str(s) => DocView::Str(s@),
        CfgValue::Arr(a) => DocView::Arr(views_of_vals(a@)),
        CfgValue::Tbl(t) => DocView::Tbl(views_of_entries(t.entries@)),
    }
}

/// The mathematical values of a sequence of document values.
pub open spec fn views_of_vals(s: Seq<CfgValue>) -> Seq<DocView>
    decreases s,
{
    if s.len() == 0 {
        Seq::empty()
    } else {
        views_of_vals(s.drop_last()).push(val_view(s.last()))
    }
}

/// The mathematical value of a sequence of table entries.
pub open spec fn views_of_entries(s: Seq<Entry>) -> TblView
    decreases s,
{
    if s.len() == 0 {
        Seq::empty()
    } else {
        views_of_entries(s.drop_last()).push((s.last().key@, val_view(s.last().val)))
    }
}

impl View for CfgValue {
    type V = DocView;

    open spec fn view(&self) -> DocView {
        val_view(*self)
    }
}

impl View for CfgTable {
    type V = TblView;

    open spec fn view(&self) -> TblView {
        views_of_entries(self.entries@)
    }
}

/// The views of values are as many as the values.
pub broadcast proof fn lemma_views_of_vals_len(s: Seq<CfgValue>)
    ensures
        (#[trigger] views_of_vals(s)).len() == s.len(),
    decreases s,
{
    if s.len() > 0 {
        lemma_views_of_vals_len(s.drop_last());
    }
}

/// The views of values sit at their values' places.
pub broadcast proof fn lemma_views_of_vals_index(s: Seq<CfgValue>, i: int)
    requires
        0 <= i < s.len(),
    ensures
        #[trigger] views_of_vals(s)[i] == val_view(s[i]),
    decreases s,
{
    lemma_views_of_vals_len(s.drop_last());
    if i < s.len() - 1 {
        lemma_views_of_vals_index(s.drop_last(), i);
    }
}

/// The views of entries are as many as the entries.
pub broadcast proof fn lemma_views_of_entries_len(s: Seq<Entry>)
    ensures
        (#[trigger] views_of_entries(s)).len() == s.len(),
    decreases s,
{
    if s.len() > 0 {
        lemma_views_of_entries_len(s.drop_last());
    }
}

/// The views of entries sit at their entries' places.
pub broadcast proof fn lemma_views_of_entries_index(s: Seq<Entry>, i: int)
    requires
        0 <= i < s.len(),
    ensures
        #[trigger] views_of_entries(s)[i] == (s[i].key@, val_view(s[i].val)),
    decreases s,
{
    lemma_views_of_entries_len(s.drop_last());
    if i < s.len() - 1 {
        lemma_views_of_entries_index(s.drop_last(), i);
    }
}

/// Keys are pairwise distinct.
pub open spec fn tv_keys_unique(t: TblView) -> bool {
    forall|i: int, j: int| 0 <= i < j < t.len() ==> t[i].0 != t[j].0
}

/// A well-formed document value: every table in it has unique keys.
pub open spec fn dv_wf(v: DocView) -> bool
    decreases v,
{
    match v {
        DocView::Arr(a) => forall|i: int| 0 <= i < a.len() ==> dv_wf(#[trigger] a[i]),
        DocView::Tbl(t) => tv_wf(t),
        _ => true,
    }
}

/// A well-formed table view: unique keys, well-formed values.
pub open spec fn tv_wf(t: TblView) -> bool
    decreases t,
{
    tv_keys_unique(t) && forall|i: int| 0 <= i < t.len() ==> dv_wf(#[trigger] t[i].1)
}

/// Whether the table holds the key.
pub open spec fn tv_has(t: TblView, k: Seq<char>) -> bool {
    exists|i: int| 0 <= i < t.len() && t[i].0 == k
}

/// The value at the key (the first occurrence, which under
/// `tv_keys_unique` is the only one).
pub open spec fn tv_get(t: TblView, k: Seq<char>) -> DocView {
    t[tv_index_of(t, k)].1
}

/// The index of the first entry with the key, or -1.
pub open spec fn tv_index_of(t: TblView, k: Seq<char>) -> int
    decreases t,
{
    if t.len() == 0 {
        -1
    } else if t[0].0 == k {
        0
    } else if tv_index_of(t.drop_first(), k) == -1 {
        -1
    } else {
        1 + tv_index_of(t.drop_first(), k)
    }
}

pub broadcast proof fn lemma_tv_index_of(t: TblView, k: Seq<char>)
    ensures
        #[trigger] tv_index_of(t, k) == -1 <==> !tv_has(t, k),
        tv_has(t, k) ==> {
            &&& 0 <= tv_index_of(t, k) < t.len()
            &&& t[tv_index_of(t, k)].0 == k
            &&& forall|j: int| 0 <= j < tv_index_of(t, k) ==> t[j].0 != k
        },
    decreases t,
{
    if t.len() == 0 {
    } else if t[0].0 == k {
        assert(tv_has(t, k));
    } else {
        lemma_tv_index_of(t.drop_first(), k);
        if tv_has(t.drop_first(), k) {
            let si = tv_index_of(t.drop_first(), k);
            assert(t[si + 1].0 == k);
            assert(tv_has(t, k));
            assert forall|j: int| 0 <= j < tv_index_of(t, k) implies t[j].0 != k by {
                if j > 0 {
                    assert(t.drop_first()[j - 1].0 != k);
                }
            }
        } else {
            assert forall|i: int| 0 <= i < t.len() implies t[i].0 != k by {
                if i > 0 {
                    assert(t.drop_first()[i - 1] == t[i]);
                }
            }
        }
    }
}

/// An entry that is first for its key pins down lookup.
pub proof fn lemma_tv_first_match(t: TblView, k: Seq<char>, i: int)
    requires
        0 <= i < t.len(),
        t[i].0 == k,
        forall|j: int| 0 <= j < i ==> t[j].0 != k,
    ensures
        tv_has(t, k),
        tv_index_of(t, k) == i,
        tv_get(t, k) == t[i].1,
{
    assert(tv_has(t, k));
    lemma_tv_index_of(t, k);
    if tv_index_of(t, k) < i {
        assert(t[tv_index_of(t, k)].0 != k);
    }
}

/// Replacing the entry at one key leaves lookup at any other key as it
/// was.
pub proof fn lemma_tv_update_other(t: TblView, j: int, e: (Seq<char>, DocView), k: Seq<char>)
    requires
        0 <= j < t.len(),
        t[j].0 == e.0,
        k != e.0,
    ensures
        tv_has(t.update(j, e), k) == tv_has(t, k),
        tv_has(t, k) ==> tv_get(t.update(j, e), k) == tv_get(t, k),
{
    let t2 = t.update(j, e);
    if tv_has(t, k) {
        lemma_tv_index_of(t, k);
        let i = tv_index_of(t, k);
        assert(t2[i].0 == k);
        assert forall|x: int| 0 <= x < i implies t2[x].0 != k by {
            assert(t2[x].0 == t[x].0);
        }
        lemma_tv_first_match(t2, k, i);
    } else {
        lemma_tv_index_of(t, k);
        assert forall|x: int| 0 <= x < t2.len() implies t2[x].0 != k by {
            assert(t2[x].0 == t[x].0);
        }
        if tv_has(t2, k) {
            let w = choose|w: int| 0 <= w < t2.len() && t2[w].0 == k;
            assert(t2[w].0 != k);
        }
    }
}

/// Replacing the first entry of a key makes lookup of that key yield
/// the new value.
pub proof fn lemma_tv_update_same(t: TblView, j: int, e: (Seq<char>, DocView))
    requires
        0 <= j < t.len(),
        t[j].0 == e.0,
        forall|x: int| 0 <= x < j ==> t[x].0 != e.0,
    ensures
        tv_has(t.update(j, e), e.0),
        tv_get(t.update(j, e), e.0) == e.1,
{
    let t2 = t.update(j, e);
    assert forall|x: int| 0 <= x < j implies t2[x].0 != e.0 by {
        assert(t2[x].0 == t[x].0);
    }
    lemma_tv_first_match(t2, e.0, j);
}

/// Appending an entry leaves lookup at other keys as it was, and makes
/// a fresh key look up the appended value.
pub proof fn lemma_tv_push(t: TblView, e: (Seq<char>, DocView), k: Seq<char>)
    ensures
        k != e.0 ==> tv_has(t.push(e), k) == tv_has(t, k),
        k != e.0 && tv_has(t, k) ==> tv_get(t.push(e), k) == tv_get(t, k),
        !tv_has(t, e.0) ==> tv_has(t.push(e), e.0) && tv_get(t.push(e), e.0) == e.1,
{
    let t2 = t.push(e);
    if k != e.0 {
        if tv_has(t, k) {
            lemma_tv_index_of(t, k);
            let i = tv_index_of(t, k);
            assert(t2[i].0 == k);
            assert forall|x: int| 0 <= x < i implies t2[x].0 != k by {
                assert(t2[x].0 == t[x].0);
            }
            lemma_tv_first_match(t2, k, i);
        } else {
            if tv_has(t2, k) {
                let w = choose|w: int| 0 <= w < t2.len() && t2[w].0 == k;
                if w < t.len() {
                    assert(t[w].0 == k);
                    assert(tv_has(t, k));
                }
            }
        }
    }
    if !tv_has(t, e.0) {
        assert forall|x: int| 0 <= x < t.len() implies t2[x].0 != e.0 by {
            if t2[x].0 == e.0 {
                assert(t[x].0 == e.0);
                assert(tv_has(t, e.0));
            }
        }
        lemma_tv_first_match(t2, e.0, t.len() as int);
    }
}

/// Dropping the last entry leaves lookup at any other key as it was.
pub proof fn lemma_tv_drop_last_other(o: TblView, k: Seq<char>)
    requires
        o.len() > 0,
        k != o.last().0,
    ensures
        tv_has(o, k) == tv_has(o.drop_last(), k),
        tv_has(o, k) ==> tv_get(o, k) == tv_get(o.drop_last(), k),
{
    let p = o.drop_last();
    assert(forall|i: int| 0 <= i < p.len() ==> p[i] == o[i]);
    if tv_has(o, k) {
        lemma_tv_index_of(o, k);
        let i = tv_index_of(o, k);
        assert(i < p.len());
        assert(p[i].0 == k);
        lemma_tv_first_match(p, k, i);
        lemma_tv_first_match(o, k, i);
    } else {
        if tv_has(p, k) {
            let w = choose|w: int| 0 <= w < p.len() && p[w].0 == k;
            assert(o[w].0 == k);
            assert(tv_has(o, k));
        }
    }
}

/// Appending an entry appends its view.
pub proof fn lemma_push_view(s: Seq<Entry>, e: Entry)
    ensures
        views_of_entries(s.push(e)) == views_of_entries(s).push((e.key@, e.val@)),
{
    assert(s.push(e).drop_last() =~= s);
    assert(s.push(e).last() == e);
}

/// Replacing an entry replaces its view.
pub proof fn lemma_update_view(s: Seq<Entry>, j: int, e: Entry)
    requires
        0 <= j < s.len(),
    ensures
        views_of_entries(s.update(j, e)) =~= views_of_entries(s).update(j, (e.key@, e.val@)),
{
    lemma_views_of_entries_len(s);
    lemma_views_of_entries_len(s.update(j, e));
    assert forall|x: int| 0 <= x < s.len() implies views_of_entries(s.update(j, e))[x]
        == views_of_entries(s).update(j, (e.key@, e.val@))[x] by {
        lemma_views_of_entries_index(s.update(j, e), x);
        lemma_views_of_entries_index(s, x);
    }
}

/// The table with `k` bound to `v`: the entry holding `k` replaced in
/// place, or a fresh entry appended.
pub open spec fn tv_upsert(t: TblView, k: Seq<char>, v: DocView) -> TblView {
    if tv_has(t, k) {
        t.update(tv_index_of(t, k), (k, v))
    } else {
        t.push((k, v))
    }
}

/// A deep copy of a document value.
#[verifier::loop_isolation(false)]
pub fn clone_val(v: &CfgValue) -> (r: CfgValue)
    ensures
        r@ == v@,
    decreases v,
{
    match v {
        CfgValue::Null => CfgValue::Null,
        CfgValue::Bool(b) => CfgValue::Bool(*b),
        CfgValue::Int(i) => CfgValue::Int(*i),
        CfgValue::Str(s) => CfgValue::Str(s.clone()),
        CfgValue::Arr(a) => {
            let mut out: Vec<CfgValue> = Vec::new();
            let n = a.len();
            let mut i: usize = 0;
            while i < n
                invariant
                    i <= n,
                    out@.len() == i,
                    forall|j: int| 0 <= j < i ==> out@[j]@ == a@[j]@,
                decreases n - i,
            {
                out.push(clone_val(&a[i]));
                i += 1;
            }
            proof {
                lemma_views_of_vals_len(out@);
                lemma_views_of_vals_len(a@);
                assert forall|j: int| 0 <= j < a@.len() implies views_of_vals(out@)[j]
                    == views_of_vals(a@)[j] by {
                    lemma_views_of_vals_index(out@, j);
                    lemma_views_of_vals_index(a@, j);
                }
                assert(views_of_vals(out@) =~= views_of_vals(a@));
            }
            CfgValue::Arr(out)
        },
        CfgValue::Tbl(t) => CfgValue::Tbl(clone_table(t)),
    }
}

/// A deep copy of a table document.
#[verifier::loop_isolation(false)]
pub fn clone_table(t: &CfgTable) -> (r: CfgTable)
    ensures
        r@ == t@,
    decreases t,
{
    let mut out: Vec<Entry> = Vec::new();
    let n = t.entries.len();
    let mut i: usize = 0;
    while i < n
        invariant
            i <= n,
            out@.len() == i,
            forall|j: int| 0 <= j < i ==> out@[j].key@ == t.entries@[j].key@ && out@[j].val@
                == t.entries@[j].val@,
        decreases n - i,
    {
        let e = &t.entries[i];
        out.push(Entry { key: e.key.clone(), val: clone_val(&e.val) });
        i += 1;
    }
    proof {
        lemma_views_of_entries_len(out@);
        lemma_views_of_entries_len(t.entries@);
        assert forall|j: int| 0 <= j < t.entries@.len() implies views_of_entries(out@)[j]
            == views_of_entries(t.entries@)[j] by {
            lemma_views_of_entries_index(out@, j);
            lemma_views_of_entries_index(t.entries@, j);
        }
        assert(views_of_entries(out@) =~= views_of_entries(t.entries@));
    }
    CfgTable { entries: out }
}

impl CfgTable {
    /// The empty table.
    pub fn new() -> (r: CfgTable)
        ensures
            r@ == Seq::<(Seq<char>, DocView)>::empty(),
    {
        CfgTable { entries: Vec::new() }
    }

    /// Binds `k` to `v`: replaces the value in place where the key is
    /// already bound, else appends a fresh entry.
    pub fn upsert(&mut self, k: String, v: CfgValue)
        ensures
            final(self)@ == tv_upsert(old(self)@, k@, v@),
    {
        let ghost pre = self@;
        let ghost ents = self.entries@;
        match self.find_key(&k) {
            Some(j) => {
                proof {
                    lemma_views_of_entries_len(ents);
                    assert(tv_has(pre, k@));
                    lemma_tv_index_of(pre, k@);
                    if tv_index_of(pre, k@) < j {
                        assert(pre[tv_index_of(pre, k@)].0 != k@);
                    }
                    assert(tv_index_of(pre, k@) == j);
                    lemma_views_of_entries_index(ents, j as int);
                }
                let removed = self.entries.remove(j);
                self.entries.insert(j, Entry { key: removed.key, val: v });
                proof {
                    lemma_update_view(ents, j as int, self.entries@[j as int]);
                    assert(self.entries@ =~= ents.update(j as int, self.entries@[j as int]));
                    assert(self@ =~= tv_upsert(pre, k@, v@));
                }
            },
            None => {
                self.entries.push(Entry { key: k, val: v });
                proof {
                    lemma_push_view(ents, self.entries@[ents.len() as int]);
                    assert(self@ =~= tv_upsert(pre, k@, v@));
                }
            },
        }
    }

    /// The index of the entry holding the key, if any.
    pub fn find_key(&self, k: &String) -> (r: Option<usize>)
        ensures
            match r {
                Some(i) => {
                    &&& 0 <= i < self@.len()
                    &&& self@[i as int].0 == k@
                    &&& forall|j: int| 0 <= j < i ==> self@[j].0 != k@
                },
                None => !tv_has(self@, k@),
            },
    {
        broadcast use lemma_views_of_entries_len, lemma_views_of_entries_index;

        let n = self.entries.len();
        let mut i: usize = 0;
        while i < n
            invariant
                n == self.entries@.len(),
                i <= n,
                forall|j: int| 0 <= j < i ==> self@[j].0 != k@,
            decreases n - i,
        {
            proof {
                lemma_views_of_entries_len(self.entries@);
                lemma_views_of_entries_index(self.entries@, i as int);
            }
            if self.entries[i].key == *k {
                return Some(i);
            }
            i += 1;
        }
        None
    }
}

} // verus!
