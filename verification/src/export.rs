//! Export filtering: resolving dotted paths into the merged document
//! and publishing the whitelisted subset a package declares.

use vstd::prelude::*;
use vstd::std_specs::iter::IteratorSpec;

use crate::doc::CfgTable;
use crate::doc::CfgValue;
use crate::doc::DocView;
use crate::doc::TblView;
use crate::doc::clone_table;
use crate::doc::clone_val;
use crate::doc::lemma_tv_index_of;
use crate::doc::lemma_views_of_entries_index;
use crate::doc::lemma_views_of_entries_len;
use crate::doc::tv_get;
use crate::doc::tv_has;
use crate::doc::tv_index_of;
use crate::cfg::push_char;
use crate::doc::tv_upsert;

verus! {

broadcast use vstd::seq::group_seq_axioms, vstd::std_specs::vec::group_vec_axioms,
    vstd::string::next_postcondition, vstd::string::axiom_spec_iter;

/// The index of the first dot of a text, or its length.
pub open spec fn dot_index(s: Seq<char>) -> int
    decreases s.len(),
{
    if s.len() == 0 {
        0
    } else if s[0] == '.' {
        0
    } else {
        1 + dot_index(s.drop_first())
    }
}

/// `dot_index` lies in range, names a dot, and nothing before it is a
/// dot.
pub proof fn lemma_dot_index(s: Seq<char>)
    ensures
        0 <= dot_index(s) <= s.len(),
        dot_index(s) < s.len() ==> s[dot_index(s)] == '.',
        forall|j: int| 0 <= j < dot_index(s) ==> s[j] != '.',
    decreases s.len(),
{
    if s.len() > 0 && s[0] != '.' {
        lemma_dot_index(s.drop_first());
        assert forall|j: int| 0 <= j < dot_index(s) implies s[j] != '.' by {
            if j > 0 {
                assert(s.drop_first()[j - 1] != '.');
            }
        }
    }
}

/// A position with no dot before it, and a dot (or the end) at it, is
/// `dot_index`.
pub proof fn lemma_dot_index_is(s: Seq<char>, i: int)
    requires
        0 <= i <= s.len(),
        forall|j: int| 0 <= j < i ==> s[j] != '.',
        i < s.len() ==> s[i] == '.',
    ensures
        dot_index(s) == i,
{
    lemma_dot_index(s);
    if dot_index(s) < i {
        assert(s[dot_index(s)] != '.');
    }
    if dot_index(s) > i && i < s.len() {
        assert(s[i] != '.');
    }
}

/// A dotted path as its segments: the text split at every dot, one
/// (possibly empty) segment more than there are dots.
pub open spec fn split_path(s: Seq<char>) -> Seq<Seq<char>>
    decreases s.len(),
{
    let i = dot_index(s);
    if i < 0 || i >= s.len() {
        seq![s]
    } else {
        seq![s.take(i)] + split_path(s.skip(i + 1))
    }
}

/// The texts of a sequence of strings.
pub open spec fn str_views(v: Seq<String>) -> Seq<Seq<char>> {
    v.map_values(|x: String| x@)
}

/// Splits a dotted path into its segments.
pub fn split_dotted(path: &str) -> (r: Vec<String>)
    ensures
        str_views(r@) == split_path(path@),
{
    let ghost total = path@;
    let mut segs: Vec<String> = Vec::new();
    let mut cur = String::new();
    let mut it = path.chars();
    let ghost mut pos: int = 0;
    let ghost mut seg_start: int = 0;
    proof {
        assert(total.subrange(0, 0) =~= Seq::<char>::empty());
        assert(str_views(segs@) =~= Seq::<Seq<char>>::empty());
        assert(total.skip(0) =~= total);
    }
    loop
        invariant
            0 <= seg_start <= pos <= total.len(),
            it.remaining() == total.skip(pos),
            cur@ == total.subrange(seg_start, pos),
            forall|j: int| seg_start <= j < pos ==> total[j] != '.',
            split_path(total) == str_views(segs@) + split_path(total.skip(seg_start)),
        ensures
            pos == total.len(),
            0 <= seg_start <= pos,
            cur@ == total.subrange(seg_start, pos),
            forall|j: int| seg_start <= j < pos ==> total[j] != '.',
            split_path(total) == str_views(segs@) + split_path(total.skip(seg_start)),
        decreases total.len() - pos,
    {
        match it.next() {
            Some(c) => {
                proof {
                    assert(c == total.skip(pos)[0]);
                    assert(c == total[pos]);
                    assert(total.skip(pos).drop_first() =~= total.skip(pos + 1));
                }
                if c == '.' {
                    proof {
                        let rest = total.skip(seg_start);
                        assert forall|j: int| 0 <= j < pos - seg_start implies rest[j]
                            != '.' by {
                            assert(rest[j] == total[seg_start + j]);
                        }
                        assert(rest[pos - seg_start] == total[pos]);
                        lemma_dot_index_is(rest, pos - seg_start);
                        assert(rest.take(pos - seg_start) =~= total.subrange(seg_start, pos));
                        assert(rest.skip(pos - seg_start + 1) =~= total.skip(pos + 1));
                    }
                    let ghost old_segs = segs@;
                    segs.push(cur);
                    cur = String::new();
                    proof {
                        assert(str_views(segs@) =~= str_views(old_segs).push(total.subrange(
                            seg_start,
                            pos,
                        )));
                        assert(str_views(old_segs).push(total.subrange(seg_start, pos)) + split_path(
                            total.skip(pos + 1),
                        ) =~= str_views(old_segs) + (seq![total.subrange(seg_start, pos)]
                            + split_path(total.skip(pos + 1))));
                        pos = pos + 1;
                        seg_start = pos;
                        assert(cur@ =~= total.subrange(seg_start, pos));
                    }
                } else {
                    push_char(&mut cur, c);
                    proof {
                        assert(cur@ =~= total.subrange(seg_start, pos + 1));
                        pos = pos + 1;
                    }
                }
            },
            None => {
                proof {
                    assert(total.skip(pos).len() == 0);
                    assert(pos == total.len());
                }
                break ;
            },
        }
    }
    proof {
        let rest = total.skip(seg_start);
        assert forall|j: int| 0 <= j < rest.len() implies rest[j] != '.' by {
            assert(rest[j] == total[seg_start + j]);
        }
        lemma_dot_index_is(rest, rest.len() as int);
        assert(rest =~= cur@);
    }
    let ghost old_segs = segs@;
    segs.push(cur);
    proof {
        assert(str_views(segs@) =~= str_views(old_segs).push(total.subrange(
            seg_start,
            total.len() as int,
        )));
        assert(str_views(old_segs).push(total.skip(seg_start)) =~= str_views(old_segs) + seq![
            total.skip(seg_start),
        ]);
        assert(total.subrange(seg_start, total.len() as int) =~= total.skip(seg_start));
        assert(str_views(segs@) =~= split_path(total));
    }
    segs
}

/// The value a dotted path resolves to: each segment must name an
/// entry of the table at hand, every segment but the last a table;
/// any segment that fails to resolve makes the whole path "not found".
pub open spec fn walk_path(t: TblView, segs: Seq<Seq<char>>) -> Option<DocView>
    decreases segs.len(),
{
    if segs.len() == 0 {
        Some(DocView::Tbl(t))
    } else if tv_has(t, segs[0]) {
        if segs.len() == 1 {
            Some(tv_get(t, segs[0]))
        } else {
            match tv_get(t, segs[0]) {
                DocView::Tbl(sub) => walk_path(sub, segs.drop_first()),
                _ => Option::None,
            }
        }
    } else {
        Option::None
    }
}

/// Resolves the path segments from `from` on against the table,
/// yielding a copy of the value found.
pub fn walk_from(t: &CfgTable, segs: &Vec<String>, from: usize) -> (r: Option<CfgValue>)
    requires
        from <= segs@.len(),
    ensures
        match r {
            Option::Some(v) => walk_path(t@, str_views(segs@).skip(from as int)) == Some(v@),
            Option::None => walk_path(t@, str_views(segs@).skip(from as int)) is None,
        },
    decreases segs@.len() - from,
{
    let ghost tail = str_views(segs@).skip(from as int);
    if from == segs.len() {
        proof {
            assert(tail.len() == 0);
        }
        Some(CfgValue::Tbl(clone_table(t)))
    } else {
        proof {
            assert(tail[0] == segs@[from as int]@);
        }
        match t.find_key(&segs[from]) {
            None => None,
            Some(j) => {
                proof {
                    let k = segs@[from as int]@;
                    lemma_views_of_entries_len(t.entries@);
                    lemma_views_of_entries_index(t.entries@, j as int);
                    assert(tv_has(t@, k));
                    lemma_tv_index_of(t@, k);
                    if tv_index_of(t@, k) < j {
                        assert(t@[tv_index_of(t@, k)].0 != k);
                    }
                    assert(tv_index_of(t@, k) == j);
                    assert(tv_get(t@, k) == t@[j as int].1);
                }
                if from + 1 == segs.len() {
                    proof {
                        assert(tail.len() == 1);
                    }
                    Some(clone_val(&t.entries[j].val))
                } else {
                    proof {
                        assert(tail.drop_first() =~= str_views(segs@).skip(from + 1));
                    }
                    match &t.entries[j].val {
                        CfgValue::Tbl(sub) => walk_from(sub, segs, from + 1),
                        _ => None,
                    }
                }
            },
        }
    }
}

/// The texts of a sequence of pairs of strings.
pub open spec fn pair_views(v: Seq<(String, String)>) -> Seq<(Seq<char>, Seq<char>)> {
    v.map_values(|p: (String, String)| (p.0@, p.1@))
}

/// The whitelisted subset of a merged document that a package's export
/// declarations select: each declaration maps an export name to a
/// dotted path, and exactly the declarations whose whole path resolves
/// appear, under their export name, with the resolved value verbatim.
pub open spec fn exports_view(m: TblView, exports: Seq<(Seq<char>, Seq<char>)>) -> TblView
    decreases exports.len(),
{
    if exports.len() == 0 {
        Seq::empty()
    } else {
        let prev = exports_view(m, exports.drop_last());
        match walk_path(m, split_path(exports.last().1)) {
            Some(v) => tv_upsert(prev, exports.last().0, v),
            Option::None => prev,
        }
    }
}

} // verus!
