//! The configuration aggregator: owns the four layers — default,
//! environment, user, gossip — loads the static three from document
//! texts, accepts versioned gossip updates, and merges the layers with
//! a fixed precedence.

use vstd::prelude::*;
use vstd::std_specs::iter::IteratorSpec;

use crate::doc::CfgTable;
use crate::doc::DocView;
use crate::doc::TblView;
use crate::doc::clone_table;
use crate::doc::tv_wf;
use crate::errors::CfgError;
use crate::export::exports_view;
use crate::export::pair_views;
use crate::export::split_dotted;
use crate::export::split_path;
use crate::export::str_views;
use crate::export::walk_from;
use crate::formats::json_table_of;
use crate::formats::parse_json_table;
use crate::formats::parse_toml_table;
use crate::formats::toml_table_of;
use crate::formats::toml_text_of;
use crate::formats::write_toml_table;
use crate::serialize::order_table;
use crate::serialize::order_tv;
use crate::doc::tv_keys_unique;
use crate::merge::lemma_merge_per_key;
use crate::merge::TOML_MAX_MERGE_DEPTH;
use crate::merge::merge_defined;
use crate::merge::merge_tv;
use crate::merge::toml_merge;

verus! {

broadcast use vstd::string::next_postcondition, vstd::string::axiom_spec_iter;

/// How one character of a package name reads in the name of the
/// package's environment variable: a dash becomes an underscore, a
/// lowercase ASCII letter its uppercase form.
pub open spec fn env_char(c: char) -> char {
    if c as u32 == 45 {
        '_'
    } else if 97 <= c as u32 && c as u32 <= 122 {
        (((c as u32) - 32) as u8) as char
    } else {
        c
    }
}

/// A package name as it reads inside its environment variable name.
pub open spec fn env_chars(name: Seq<char>) -> Seq<char> {
    name.map_values(|c: char| env_char(c))
}

/// The name of the environment variable consulted for a package:
/// `HAB_` + the package name, uppercased, dashes as underscores.
pub open spec fn env_var_name_of(name: Seq<char>) -> Seq<char> {
    "HAB_"@ + env_chars(name)
}

/// Relies on std String::push: appends exactly the one character.
#[verifier::external_body]
pub(crate) fn push_char(s: &mut String, c: char)
    ensures
        final(s)@ == old(s)@.push(c),
{
    s.push(c);
}

/// Derives the environment variable name for a package.
pub fn env_var_name(package_name: &str) -> (r: String)
    ensures
        r@ == env_var_name_of(package_name@),
{
    let mut out = "HAB_".to_owned();
    let ghost total = package_name@;
    let mut it = package_name.chars();
    let ghost mut done: int = 0;
    proof {
        assert(env_chars(total.take(0)) =~= Seq::<char>::empty());
        assert(out@ =~= "HAB_"@ + env_chars(total.take(0)));
    }
    loop
        invariant
            0 <= done <= total.len(),
            it.remaining() == total.skip(done),
            out@ == "HAB_"@ + env_chars(total.take(done)),
        ensures
            out@ == "HAB_"@ + env_chars(total),
        decreases total.len() - done,
    {
        match it.next() {
            Some(c) => {
                proof {
                    assert(c == total.skip(done)[0]);
                    assert(c == total[done]);
                    assert(total.skip(done).drop_first() =~= total.skip(done + 1));
                }
                let u = c as u32;
                let ec: char = if u == 45 {
                    '_'
                } else if 97 <= u && u <= 122 {
                    ((u - 32) as u8) as char
                } else {
                    c
                };
                push_char(&mut out, ec);
                proof {
                    assert(ec == env_char(c));
                    assert(env_chars(total.take(done + 1)) =~= env_chars(total.take(done)).push(
                        env_char(c),
                    ));
                    done = done + 1;
                    assert(out@ =~= "HAB_"@ + env_chars(total.take(done)));
                }
            },
            None => {
                proof {
                    assert(total.skip(done).len() == 0);
                    assert(done == total.len());
                    assert(total.take(done) =~= total);
                    assert(env_chars(total.take(done)) =~= env_chars(total));
                }
                break ;
            },
        }
    }
    out
}

/// One configuration layer read from an optional document text. An
/// absent text is an absent layer, not an error; a present text must
/// parse as TOML, else the named source is reported malformed.
pub fn load_layer(contents: Option<&str>, source: &str) -> (r: Result<Option<CfgTable>, CfgError>)
    ensures
        match contents {
            Option::None => r matches Ok(l) && l is None,
            Option::Some(s) => match toml_table_of(s@) {
                Option::Some(tv) => r matches Ok(l) && (l matches Some(t) && t@ == tv && tv_wf(
                    tv,
                )),
                Option::None => r matches Err(e) && (e matches CfgError::ParseError(n) && n@
                    == source@),
            },
        },
{
    match contents {
        None => Ok(None),
        Some(s) => match parse_toml_table(s) {
            Some(t) => Ok(Some(t)),
            None => Err(CfgError::ParseError(source.to_owned())),
        },
    }
}

/// The environment layer for a package, from the raw value of its
/// environment variable. An unset variable is an absent layer; a set
/// value is parsed as TOML first and JSON second, and a value that
/// parses as neither is an error naming the variable.
pub fn load_environment(package_name: &str, raw: Option<&str>) -> (r: Result<
    Option<CfgTable>,
    CfgError,
>)
    ensures
        match raw {
            Option::None => r matches Ok(l) && l is None,
            Option::Some(s) => {
                if toml_table_of(s@) is Some {
                    r matches Ok(l) && (l matches Some(t) && Some(t@) == toml_table_of(s@)
                        && tv_wf(t@))
                } else if json_table_of(s@) is Some {
                    r matches Ok(l) && (l matches Some(t) && Some(t@) == json_table_of(s@)
                        && tv_wf(t@))
                } else {
                    r matches Err(e) && (e matches CfgError::InvalidEnvironmentConfig(n) && n@
                        == env_var_name_of(package_name@))
                }
            },
        },
{
    match raw {
        None => Ok(None),
        Some(s) => {
            if let Some(t) = parse_toml_table(s) {
                Ok(Some(t))
            } else if let Some(t) = parse_json_table(s) {
                Ok(Some(t))
            } else {
                Err(CfgError::InvalidEnvironmentConfig(env_var_name(package_name)))
            }
        },
    }
}

#[verifier::external_type_specification]
#[verifier::external_body]
pub struct ExPathBuf(std::path::PathBuf);

/// Where a package expects its configuration directories. Implemented
/// by the real package type of the surrounding program and by test
/// doubles.
pub trait PackageConfigPaths {
    /// The name of the package.
    fn name(&self) -> String;

    /// The directory that holds the default document.
    fn default_config_dir(&self) -> std::path::PathBuf;

    /// The recommended directory for the user document.
    fn recommended_user_config_dir(&self) -> std::path::PathBuf;

    /// The deprecated directory for the user document.
    fn deprecated_user_config_dir(&self) -> std::path::PathBuf;
}

/// Which of the two candidate directories the user document is read
/// from.
#[derive(Debug, PartialEq, Eq, Clone, Copy)]
pub enum UserConfigDir {
    Recommended,
    Deprecated,
}

/// Chooses the directory that holds the user document, given which
/// candidate files exist: the recommended one when its file exists;
/// else the deprecated one when its file exists, with a deprecation
/// notice owed to the operator; else the recommended one, where new
/// configuration belongs. Absence of user configuration is no error.
pub fn resolve_user_config_dir(recommended_has_file: bool, deprecated_has_file: bool) -> (r: (
    UserConfigDir,
    bool,
))
    ensures
        r.0 == (if recommended_has_file || !deprecated_has_file {
            UserConfigDir::Recommended
        } else {
            UserConfigDir::Deprecated
        }),
        r.1 == (!recommended_has_file && deprecated_has_file),
{
    if recommended_has_file {
        (UserConfigDir::Recommended, false)
    } else if deprecated_has_file {
        (UserConfigDir::Deprecated, true)
    } else {
        (UserConfigDir::Recommended, false)
    }
}

/// The directory the user document is read from for a package, given
/// which candidate files exist, and whether a deprecation notice is
/// owed.
pub fn determine_user_config_path<P: PackageConfigPaths>(
    package: &P,
    recommended_has_file: bool,
    deprecated_has_file: bool,
) -> (r: (std::path::PathBuf, bool))
    ensures
        r.1 == (!recommended_has_file && deprecated_has_file),
{
    let (which, notice) = resolve_user_config_dir(recommended_has_file, deprecated_has_file);
    let dir = match which {
        UserConfigDir::Recommended => package.recommended_user_config_dir(),
        UserConfigDir::Deprecated => package.deprecated_user_config_dir(),
    };
    (dir, notice)
}

/// The merged view keeps the data model's invariant that a table
/// binds each key once: merging well-formed layers never duplicates a
/// key.
pub proof fn lemma_merged_keys_unique(cfg: Cfg)
    requires
        cfg.wf(),
        cfg.merged_defined(),
    ensures
        tv_keys_unique(cfg.merged_view()),
{
    let k = Seq::<char>::empty();
    let m0 = Seq::<(Seq<char>, DocView)>::empty();
    let m1 = merge_tv(m0, opt_tv(cfg.default), 0);
    let m2 = merge_tv(m1, opt_tv(cfg.environment), 0);
    let m3 = merge_tv(m2, opt_tv(cfg.user), 0);
    assert(tv_keys_unique(m0));
    assert(tv_keys_unique(opt_tv(cfg.default)));
    assert(tv_keys_unique(opt_tv(cfg.environment)));
    assert(tv_keys_unique(opt_tv(cfg.user)));
    assert(tv_keys_unique(opt_tv(cfg.gossip)));
    lemma_merge_per_key(m0, opt_tv(cfg.default), 0, k);
    lemma_merge_per_key(m1, opt_tv(cfg.environment), 0, k);
    lemma_merge_per_key(m2, opt_tv(cfg.user), 0, k);
    lemma_merge_per_key(m3, opt_tv(cfg.gossip), 0, k);
}

/// A versioned gossip configuration document.
#[derive(Debug, PartialEq)]
pub struct ServiceConfigView {
    /// The incarnation the cluster attached to the document.
    pub incarnation: u64,
    /// The document itself.
    pub value: CfgTable,
}

/// The slice of a census group that configuration consumes: the latest
/// cluster-propagated service configuration, if any.
#[derive(Debug, PartialEq)]
pub struct CensusGroupView {
    /// The latest service configuration the census carries.
    pub service_config: Option<ServiceConfigView>,
}

/// The layer a `Cfg` holds for an absent source: an empty table view.
pub open spec fn opt_tv(layer: Option<CfgTable>) -> TblView {
    match layer {
        Some(t) => t@,
        None => Seq::empty(),
    }
}

/// The four configuration layers of one supervised service.
#[derive(Debug, PartialEq)]
pub struct Cfg {
    /// Default layer, from the package's default document.
    pub default: Option<CfgTable>,
    /// User layer, from the operator's override document.
    pub user: Option<CfgTable>,
    /// Gossip layer, from the census group.
    pub gossip: Option<CfgTable>,
    /// Environment layer, from the process environment.
    pub environment: Option<CfgTable>,
    /// Highest incarnation observed on the gossip layer; maintained by
    /// `update` alone.
    pub gossip_incarnation: u64,
}

impl Cfg {
    /// Every present layer is a well-formed document.
    pub open spec fn wf(self) -> bool {
        &&& (self.default matches Some(t) ==> tv_wf(t@))
        &&& (self.user matches Some(t) ==> tv_wf(t@))
        &&& (self.gossip matches Some(t) ==> tv_wf(t@))
        &&& (self.environment matches Some(t) ==> tv_wf(t@))
    }

    /// The merged view: an empty table, merged with default, then
    /// environment, then user, then gossip — later layers overriding
    /// earlier ones, a missing layer skipped.
    pub open spec fn merged_view(self) -> TblView {
        merge_tv(
            merge_tv(
                merge_tv(
                    merge_tv(Seq::empty(), opt_tv(self.default), 0),
                    opt_tv(self.environment),
                    0,
                ),
                opt_tv(self.user),
                0,
            ),
            opt_tv(self.gossip),
            0,
        )
    }

    /// Whether every step of the layer merge stays within the depth
    /// bound.
    pub open spec fn merged_defined(self) -> bool {
        let m0 = Seq::<(Seq<char>, DocView)>::empty();
        let m1 = merge_tv(m0, opt_tv(self.default), 0);
        let m2 = merge_tv(m1, opt_tv(self.environment), 0);
        let m3 = merge_tv(m2, opt_tv(self.user), 0);
        &&& merge_defined(m0, opt_tv(self.default), 0)
        &&& merge_defined(m1, opt_tv(self.environment), 0)
        &&& merge_defined(m2, opt_tv(self.user), 0)
        &&& merge_defined(m3, opt_tv(self.gossip), 0)
    }

    /// Builds the aggregator from the document texts its sources
    /// yielded: the default and user documents (absent where the file
    /// is absent), and the raw value of the package's environment
    /// variable. The gossip layer starts empty at incarnation 0.
    /// Construction fails atomically on the first malformed source.
    pub fn new(
        package_name: &str,
        default_toml: Option<&str>,
        user_toml: Option<&str>,
        environment_raw: Option<&str>,
    ) -> (r: Result<Cfg, CfgError>)
        ensures
            r matches Ok(cfg) ==> {
                &&& cfg.wf()
                &&& cfg.gossip is None
                &&& cfg.gossip_incarnation == 0
                &&& match default_toml {
                    Option::None => cfg.default is None,
                    Option::Some(s) => toml_table_of(s@) matches Some(tv) && (
                    cfg.default matches Some(t) && t@ == tv),
                }
                &&& match user_toml {
                    Option::None => cfg.user is None,
                    Option::Some(s) => toml_table_of(s@) matches Some(tv) && (
                    cfg.user matches Some(t) && t@ == tv),
                }
                &&& match environment_raw {
                    Option::None => cfg.environment is None,
                    Option::Some(s) => {
                        if toml_table_of(s@) is Some {
                            cfg.environment matches Some(t) && Some(t@) == toml_table_of(s@)
                        } else {
                            json_table_of(s@) is Some && (cfg.environment matches Some(t) && Some(
                                t@,
                            ) == json_table_of(s@))
                        }
                    },
                }
            },
            r is Err <==> {
                ||| (default_toml matches Some(s) && toml_table_of(s@) is None)
                ||| (user_toml matches Some(s) && toml_table_of(s@) is None)
                ||| (environment_raw matches Some(s) && toml_table_of(s@) is None
                    && json_table_of(s@) is None)
            },
            r matches Err(e) ==> {
                if default_toml matches Some(s) && toml_table_of(s@) is None {
                    e matches CfgError::ParseError(nm) && nm@ == "default.toml"@
                } else if user_toml matches Some(s) && toml_table_of(s@) is None {
                    e matches CfgError::ParseError(nm) && nm@ == "user.toml"@
                } else {
                    e matches CfgError::InvalidEnvironmentConfig(nm) && nm@ == env_var_name_of(
                        package_name@,
                    )
                }
            },
    {
        let default = match load_layer(default_toml, "default.toml") {
            Ok(l) => l,
            Err(e) => {
                return Err(e);
            },
        };
        let user = match load_layer(user_toml, "user.toml") {
            Ok(l) => l,
            Err(e) => {
                return Err(e);
            },
        };
        let environment = match load_environment(package_name, environment_raw) {
            Ok(l) => l,
            Err(e) => {
                return Err(e);
            },
        };
        Ok(
            Cfg {
                default,
                user,
                gossip: None,
                environment,
                gossip_incarnation: 0,
            },
        )
    }

    /// Takes the service configuration of a census group if it is
    /// strictly newer than what is held: the gossip layer and the
    /// stored incarnation are replaced and the call returns true;
    /// anything else — no entry, or an incarnation at or below the
    /// stored one — leaves the aggregator untouched and returns false.
    /// Safe to call on every gossip tick.
    pub fn update(&mut self, census_group: &CensusGroupView) -> (r: bool)
        ensures
            match census_group.service_config {
                Option::Some(sc) => {
                    &&& r == (sc.incarnation > old(self).gossip_incarnation)
                    &&& r ==> {
                        &&& final(self).gossip_incarnation == sc.incarnation
                        &&& final(self).gossip matches Some(g) && g@ == sc.value@
                        &&& final(self).default == old(self).default
                        &&& final(self).user == old(self).user
                        &&& final(self).environment == old(self).environment
                    }
                    &&& !r ==> *final(self) == *old(self)
                },
                Option::None => r == false && *final(self) == *old(self),
            },
            old(self).wf() && (census_group.service_config matches Some(sc) ==> tv_wf(sc.value@))
                ==> final(self).wf(),
    {
        match &census_group.service_config {
            Some(sc) => {
                if sc.incarnation <= self.gossip_incarnation {
                    return false;
                }
                self.gossip_incarnation = sc.incarnation;
                self.gossip = Some(clone_table(&sc.value));
                true
            },
            None => false,
        }
    }

    /// The merged document: an empty table, merged with each present
    /// layer in precedence order — default, environment, user, gossip.
    pub fn merged(&self) -> (r: Result<CfgTable, CfgError>)
        ensures
            r is Ok <==> self.merged_defined(),
            r matches Ok(m) ==> m@ == self.merged_view(),
            r matches Err(e) ==> e == CfgError::MergeDepthExceeded(TOML_MAX_MERGE_DEPTH),
    {
        let mut table = CfgTable::new();
        if let Some(d) = &self.default {
            match toml_merge(&mut table, d) {
                Ok(()) => {},
                Err(e) => {
                    return Err(e);
                },
            }
        }
        if let Some(e) = &self.environment {
            match toml_merge(&mut table, e) {
                Ok(()) => {},
                Err(err) => {
                    return Err(err);
                },
            }
        }
        if let Some(u) = &self.user {
            match toml_merge(&mut table, u) {
                Ok(()) => {},
                Err(e) => {
                    return Err(e);
                },
            }
        }
        if let Some(g) = &self.gossip {
            match toml_merge(&mut table, g) {
                Ok(()) => {},
                Err(e) => {
                    return Err(e);
                },
            }
        }
        Ok(table)
    }

    /// The whitelisted subset of the merged document that the given
    /// export declarations select: each declaration maps an export name
    /// to a dotted path into the merged document, and exactly the
    /// declarations whose whole path resolves appear in the result,
    /// under their export name, with the resolved value verbatim — a
    /// path that fails to resolve is omitted, not an error.
    pub fn to_exported(&self, exports: &Vec<(String, String)>) -> (r: Result<CfgTable, CfgError>)
        ensures
            r is Ok <==> self.merged_defined(),
            r matches Ok(t) ==> t@ == exports_view(self.merged_view(), pair_views(exports@)),
            r matches Err(e) ==> e == CfgError::MergeDepthExceeded(TOML_MAX_MERGE_DEPTH),
    {
        let merged = match self.merged() {
            Ok(m) => m,
            Err(e) => {
                return Err(e);
            },
        };
        let ghost mv = merged@;
        let ghost ev = pair_views(exports@);
        let mut map = CfgTable::new();
        let n = exports.len();
        let mut i: usize = 0;
        proof {
            assert(map@ =~= exports_view(mv, ev.take(0)));
        }
        while i < n
            invariant
                i <= n,
                n == exports@.len(),
                mv == self.merged_view(),
                merged@ == mv,
                ev == pair_views(exports@),
                map@ == exports_view(mv, ev.take(i as int)),
            decreases n - i,
        {
            proof {
                assert(ev.take(i + 1).drop_last() =~= ev.take(i as int));
                assert(ev.take(i + 1).last() == ev[i as int]);
                assert(ev[i as int] == (exports@[i as int].0@, exports@[i as int].1@));
            }
            let e = &exports[i];
            let segs = split_dotted(e.1.as_str());
            proof {
                assert(str_views(segs@).skip(0) =~= str_views(segs@));
                assert(str_views(segs@) == split_path(e.1@));
                assert(ev[i as int].1 == e.1@);
                assert(split_path(ev[i as int].1) == str_views(segs@));
            }
            match walk_from(&merged, &segs, 0) {
                Some(v) => {
                    map.upsert(e.0.clone(), v);
                },
                None => {},
            }
            i += 1;
        }
        proof {
            assert(ev.take(n as int) =~= ev);
        }
        Ok(map)
    }

    /// The merged document as output text, each table's keys bucketed
    /// scalars first, then arrays, then tables.
    pub fn to_output_string(&self) -> (r: Result<String, CfgError>)
        ensures
            r is Ok <==> self.merged_defined(),
            r matches Ok(s) ==> s@ == toml_text_of(order_tv(self.merged_view())),
            r matches Err(e) ==> e == CfgError::MergeDepthExceeded(TOML_MAX_MERGE_DEPTH),
    {
        match self.merged() {
            Ok(m) => {
                let ordered = order_table(&m);
                Ok(write_toml_table(&ordered))
            },
            Err(e) => Err(e),
        }
    }
}

} // verus!
