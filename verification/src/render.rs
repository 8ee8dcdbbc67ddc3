//! The template compiler: holds a directory snapshot of template
//! sources registered by name, renders every one against a merged
//! document, and plans which output files actually changed — by
//! comparing content digests — so the supervisor rewrites only those.
//!
//! A render failure surfaces before any file is touched: the caller
//! performs the planned writes only on a fully successful pass.

use vstd::prelude::*;

use crate::doc::CfgTable;
use crate::doc::TblView;
use crate::engine::register_template;
use crate::engine::registry_view;
use crate::engine::render_of;
use crate::engine::render_template;
use crate::engine::template_parses;
use crate::errors::CfgError;
use crate::export::pair_views;
use crate::export::str_views;
use crate::hashing::bytes_equal;
use crate::hashing::hash_of;
use crate::hashing::hash_text;

verus! {

broadcast use vstd::seq::group_seq_axioms, vstd::std_specs::vec::group_vec_axioms;

/// The registry contents after registering the sources in order: each
/// name maps to its source, a repeated name to the latest.
pub open spec fn registered_map(ts: Seq<(Seq<char>, Seq<char>)>) -> Map<Seq<char>, Seq<char>>
    decreases ts.len(),
{
    if ts.len() == 0 {
        Map::empty()
    } else {
        registered_map(ts.drop_last()).insert(ts.last().0, ts.last().1)
    }
}

/// The names of a sequence of named texts, in order.
pub open spec fn firsts(ts: Seq<(Seq<char>, Seq<char>)>) -> Seq<Seq<char>> {
    ts.map_values(|p: (Seq<char>, Seq<char>)| p.0)
}

/// The texts of a sequence of optional strings.
pub open spec fn opt_views(v: Seq<Option<String>>) -> Seq<Option<Seq<char>>> {
    v.map_values(
        |o: Option<String>|
            match o {
                Some(s) => Some(s@),
                None => Option::<Seq<char>>::None,
            },
    )
}

/// The writes one compile pass plans, walking the registered names in
/// order: a template whose rendered text hashes differently from what
/// the destination holds — or whose destination is absent or unreadable
/// — is (re)written; one whose hashes agree is skipped. Meaningful
/// where every name renders.
pub open spec fn compile_writes(
    reg: Map<Seq<char>, Seq<char>>,
    names: Seq<Seq<char>>,
    ctx: TblView,
    disk: Seq<Option<Seq<char>>>,
) -> Seq<(Seq<char>, Seq<char>)>
    decreases names.len(),
{
    if names.len() == 0 {
        Seq::empty()
    } else {
        let prev = compile_writes(reg, names.drop_last(), ctx, disk.drop_last());
        let i = names.len() - 1;
        match render_of(reg, names[i], ctx) {
            Some(text) => {
                if disk[i] matches Some(d) && hash_of(d) == hash_of(text) {
                    prev
                } else {
                    prev.push((names[i], text))
                }
            },
            Option::None => prev,
        }
    }
}

/// The outcome of one compile pass.
#[derive(Debug, PartialEq)]
pub struct CompileOutcome {
    /// The files that must be rewritten: template name and rendered
    /// text, in registration order.
    pub writes: Vec<(String, String)>,
    /// Whether anything changed — exactly when `writes` is non-empty.
    pub changed: bool,
}

/// The template compiler of one supervised service: an immutable
/// snapshot of registered templates.
pub struct CfgRenderer {
    registry: crate::engine::Registry,
    names: Vec<String>,
}

/// Every name of the sources is a key of their registered map.
proof fn lemma_registered_contains(ts: Seq<(Seq<char>, Seq<char>)>)
    ensures
        forall|i: int|
            0 <= i < ts.len() ==> registered_map(ts).contains_key(#[trigger] firsts(ts)[i]),
    decreases ts.len(),
{
    if ts.len() > 0 {
        lemma_registered_contains(ts.drop_last());
        assert forall|i: int|
            0 <= i < ts.len() implies registered_map(ts).contains_key(
            #[trigger] firsts(ts)[i],
        ) by {
            if i < ts.len() - 1 {
                assert(registered_map(ts.drop_last()).contains_key(firsts(ts.drop_last())[i]));
                assert(firsts(ts.drop_last())[i] == firsts(ts)[i]);
            }
        }
    }
}

/// An empty map of template sources.
pub open spec fn no_templates() -> Map<Seq<char>, Seq<char>> {
    Map::empty()
}

/// An empty sequence of template names.
pub open spec fn no_names() -> Seq<Seq<char>> {
    Seq::empty()
}

/// Relies on handlebars::Handlebars::new: a fresh registry holds no
/// templates.
#[verifier::external_body]
fn empty_renderer() -> (r: CfgRenderer)
    ensures
        r.templates() == no_templates(),
        r.names_view() == no_names(),
{
    CfgRenderer { registry: handlebars::Handlebars::new(), names: Vec::new() }
}

impl CfgRenderer {
    /// The registered template sources, by name.
    pub closed spec fn templates(self) -> Map<Seq<char>, Seq<char>> {
        registry_view(self.registry)
    }

    /// The registered template names, in registration order.
    pub closed spec fn names_view(self) -> Seq<Seq<char>> {
        str_views(self.names@)
    }

    /// Every held name is registered.
    pub closed spec fn wf(self) -> bool {
        forall|i: int|
            0 <= i < self.names_view().len() ==> self.templates().contains_key(
                #[trigger] self.names_view()[i],
            )
    }

    /// Registers each named template source in order. Construction
    /// fails atomically with the first template that does not compile,
    /// naming it; it succeeds exactly when every source compiles.
    pub fn new(templates: Vec<(String, String)>) -> (r: Result<CfgRenderer, CfgError>)
        ensures
            r is Ok <==> (forall|i: int|
                0 <= i < templates@.len() ==> template_parses(#[trigger] templates@[i].1@)),
            r matches Ok(cr) ==> {
                &&& cr.wf()
                &&& cr.templates() == registered_map(pair_views(templates@))
                &&& cr.names_view() == firsts(pair_views(templates@))
            },
            r matches Err(e) ==> exists|i: int|
                {
                    &&& 0 <= i < templates@.len()
                    &&& !template_parses(#[trigger] templates@[i].1@)
                    &&& forall|j: int| 0 <= j < i ==> template_parses(#[trigger] templates@[j].1@)
                    &&& {
                        let want = templates@[i].0@;
                        e matches CfgError::TemplateRegistrationError(n, _) && n@ == want
                    }
                },
    {
        let ghost tv = pair_views(templates@);
        let mut cr = empty_renderer();
        let n = templates.len();
        let mut i: usize = 0;
        proof {
            assert(registered_map(tv.take(0)) =~= registry_view(cr.registry));
            assert(str_views(cr.names@) =~= firsts(tv.take(0)));
        }
        while i < n
            invariant
                i <= n,
                n == templates@.len(),
                tv == pair_views(templates@),
                registry_view(cr.registry) == registered_map(tv.take(i as int)),
                str_views(cr.names@) == firsts(tv.take(i as int)),
                forall|j: int| 0 <= j < i ==> template_parses(#[trigger] templates@[j].1@),
            decreases n - i,
        {
            proof {
                assert(tv.take(i + 1).drop_last() =~= tv.take(i as int));
                assert(tv.take(i + 1).last() == tv[i as int]);
            }
            let t = &templates[i];
            match register_template(&mut cr.registry, &t.0, &t.1) {
                Ok(()) => {},
                Err(msg) => {
                    proof {
                        assert(!template_parses(templates@[i as int].1@));
                    }
                    return Err(CfgError::TemplateRegistrationError(t.0.clone(), msg));
                },
            }
            let ghost old_names = cr.names@;
            cr.names.push(t.0.clone());
            proof {
                assert(str_views(cr.names@) =~= str_views(old_names).push(templates@[i as int].0@));
                assert(firsts(tv.take(i + 1)) =~= firsts(tv.take(i as int)).push(tv[i as int].0));
            }
            i += 1;
        }
        proof {
            assert(tv.take(n as int) =~= tv);
            lemma_registered_contains(tv);
        }
        Ok(cr)
    }

    /// The registered template names, in registration order; the
    /// caller reads the matching destination files in this order.
    ///
    pub fn template_names(&self) -> (r: &Vec<String>)
        ensures
            str_views(r@) == self.names_view(),
    {
        &self.names
    }

    /// One compile pass: renders every registered template against the
    /// document and plans the writes — a template is (re)written
    /// exactly when its destination (handed in as `existing`, in
    /// `template_names` order, `None` for absent or unreadable) does
    /// not already hash like its rendered text. A template that fails
    /// to render fails the pass, naming the template, before any file
    /// is touched; the pass succeeds exactly when every template
    /// renders.
    #[verifier::loop_isolation(false)]
    pub fn compile(&self, ctx: &CfgTable, existing: &Vec<Option<String>>) -> (r: Result<
        CompileOutcome,
        CfgError,
    >)
        requires
            existing@.len() == self.names_view().len(),
        ensures
            r is Ok <==> (forall|i: int|
                0 <= i < self.names_view().len() ==> render_of(
                    self.templates(),
                    #[trigger] self.names_view()[i],
                    ctx@,
                ) is Some),
            r matches Ok(out) ==> {
                &&& pair_views(out.writes@) == compile_writes(
                    self.templates(),
                    self.names_view(),
                    ctx@,
                    opt_views(existing@),
                )
                &&& out.changed == (out.writes@.len() > 0)
            },
            r matches Err(e) ==> exists|i: int|
                {
                    &&& 0 <= i < self.names_view().len()
                    &&& render_of(self.templates(), #[trigger] self.names_view()[i], ctx@)
                        is None
                    &&& forall|j: int|
                        0 <= j < i ==> render_of(
                            self.templates(),
                            #[trigger] self.names_view()[j],
                            ctx@,
                        ) is Some
                    &&& e matches CfgError::RenderError(n, _) && n@ == self.names_view()[i]
                },
    {
        let ghost reg = self.templates();
        let ghost nv = self.names_view();
        let ghost dv = opt_views(existing@);
        let mut writes: Vec<(String, String)> = Vec::new();
        let n = self.names.len();
        let mut i: usize = 0;
        proof {
            assert(pair_views(writes@) =~= compile_writes(reg, nv.take(0), ctx@, dv.take(0)));
        }
        while i < n
            invariant
                i <= n,
                pair_views(writes@) == compile_writes(reg, nv.take(i as int), ctx@, dv.take(
                    i as int,
                )),
                forall|j: int| 0 <= j < i ==> render_of(reg, #[trigger] nv[j], ctx@) is Some,
            decreases n - i,
        {
            proof {
                assert(nv.take(i + 1).drop_last() =~= nv.take(i as int));
                assert(dv.take(i + 1).drop_last() =~= dv.take(i as int));
                assert(nv.take(i + 1).last() == nv[i as int]);
                assert(dv.take(i + 1).last() == dv[i as int]);
            }
            let text = match render_template(&self.registry, &self.names[i], ctx) {
                Ok(text) => text,
                Err(msg) => {
                    return Err(CfgError::RenderError(self.names[i].clone(), msg));
                },
            };
            let rendered_hash = hash_text(text.as_str());
            let unchanged = match &existing[i] {
                Some(d) => {
                    let disk_hash = hash_text(d.as_str());
                    bytes_equal(&rendered_hash, &disk_hash)
                },
                None => false,
            };
            if !unchanged {
                let ghost old_writes = writes@;
                let ghost tview = text@;
                writes.push((self.names[i].clone(), text));
                proof {
                    assert(pair_views(writes@) =~= pair_views(old_writes).push(
                        (nv[i as int], tview),
                    ));
                }
            }
            i += 1;
        }
        proof {
            assert(nv.take(n as int) =~= nv);
            assert(dv.take(n as int) =~= dv);
        }
        let changed = writes.len() > 0;
        Ok(CompileOutcome { writes, changed })
    }
}

/// Whether one compile pass writes the `i`-th file.
pub open spec fn writes_file(
    reg: Map<Seq<char>, Seq<char>>,
    names: Seq<Seq<char>>,
    ctx: TblView,
    disk: Seq<Option<Seq<char>>>,
    i: int,
) -> bool {
    match render_of(reg, names[i], ctx) {
        Some(t) => !(disk[i] matches Some(d) && hash_of(d) == hash_of(t)),
        Option::None => false,
    }
}

/// What every destination holds once a pass performs its planned
/// writes: a written file holds its rendered text, any other keeps
/// what it held.
pub open spec fn disk_after(
    reg: Map<Seq<char>, Seq<char>>,
    names: Seq<Seq<char>>,
    ctx: TblView,
    disk: Seq<Option<Seq<char>>>,
) -> Seq<Option<Seq<char>>> {
    Seq::new(
        names.len(),
        |i: int|
            if writes_file(reg, names, ctx, disk, i) {
                match render_of(reg, names[i], ctx) {
                    Some(t) => Some(t),
                    Option::None => disk[i],
                }
            } else {
                disk[i]
            },
    )
}

/// A pass over destinations that already hash like their renders plans
/// no write.
pub proof fn lemma_no_writes_when_clean(
    reg: Map<Seq<char>, Seq<char>>,
    names: Seq<Seq<char>>,
    ctx: TblView,
    disk: Seq<Option<Seq<char>>>,
)
    requires
        disk.len() == names.len(),
        forall|i: int|
            0 <= i < names.len() ==> match render_of(reg, #[trigger] names[i], ctx) {
                Some(t) => disk[i] matches Some(d) && hash_of(d) == hash_of(t),
                Option::None => false,
            },
    ensures
        compile_writes(reg, names, ctx, disk) == Seq::<(Seq<char>, Seq<char>)>::empty(),
    decreases names.len(),
{
    if names.len() > 0 {
        assert(forall|i: int|
            0 <= i < names.len() - 1 ==> #[trigger] names.drop_last()[i] == names[i]);
        assert(forall|i: int|
            0 <= i < names.len() - 1 ==> #[trigger] disk.drop_last()[i] == disk[i]);
        lemma_no_writes_when_clean(reg, names.drop_last(), ctx, disk.drop_last());
    }
}

/// Idempotent compilation: one pass leaves every destination holding
/// text whose digest matches its render, so a second pass over the
/// same templates and an unchanged document plans no write at all.
pub proof fn lemma_compile_idempotent(
    reg: Map<Seq<char>, Seq<char>>,
    names: Seq<Seq<char>>,
    ctx: TblView,
    disk: Seq<Option<Seq<char>>>,
)
    requires
        disk.len() == names.len(),
        forall|i: int|
            0 <= i < names.len() ==> render_of(reg, #[trigger] names[i], ctx) is Some,
    ensures
        compile_writes(reg, names, ctx, disk_after(reg, names, ctx, disk)) == Seq::<
            (Seq<char>, Seq<char>),
        >::empty(),
{
    let d2 = disk_after(reg, names, ctx, disk);
    assert forall|i: int|
        0 <= i < names.len() implies match render_of(reg, #[trigger] names[i], ctx) {
        Some(t) => d2[i] matches Some(d) && hash_of(d) == hash_of(t),
        Option::None => false,
    } by {
        if !writes_file(reg, names, ctx, disk, i) {
            assert(d2[i] == disk[i]);
        }
    }
    lemma_no_writes_when_clean(reg, names, ctx, d2);
}

} // verus!
