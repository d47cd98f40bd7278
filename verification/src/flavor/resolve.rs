//! Priority-based flavor resolution.
//!
//! Flavor definitions come from three tiers: compiled-in, a user-global
//! configuration directory, and the workspace. On a name collision the
//! incoming definition replaces the existing one only if its tier is at
//! least as high. Effective-flavor selection tries an explicit override,
//! then the project default, then the conventional default name, then any
//! available flavor, warning for each preference that names no flavor.

use vstd::prelude::*;
use vstd::string::StringExecFns;

use super::registry::{spec_extract_modeline, extract_flavor_from_modeline, spec_check_lines};
use super::schema::Flavor;

verus! {

/// The tier a flavor definition was loaded from.
#[derive(Debug, Clone, Copy, PartialEq, Eq, PartialOrd, Ord, Hash, Structural)]
pub enum FlavorPriority {
    BuiltIn,
    UserGlobal,
    Workspace,
}

/// Numeric rank of a tier: higher ranks replace lower ones.
pub open spec fn spec_rank(p: FlavorPriority) -> int {
    match p {
        FlavorPriority::BuiltIn => 0,
        FlavorPriority::UserGlobal => 1,
        FlavorPriority::Workspace => 2,
    }
}

/// Exec rank of a tier.
pub fn rank(p: FlavorPriority) -> (r: u8)
    ensures
        r as int == spec_rank(p),
{
    match p {
        FlavorPriority::BuiltIn => 0,
        FlavorPriority::UserGlobal => 1,
        FlavorPriority::Workspace => 2,
    }
}

/// A flavor together with the tier and file it came from.
#[derive(Debug)]
pub struct LoadedFlavor {
    pub flavor: Flavor,
    pub priority: FlavorPriority,
    pub source_path: Option<String>,
}

/// Flavor preferences from the configuration surface.
#[derive(Debug)]
pub struct FlavorSelectionConfig {
    /// Flavor explicitly requested by the caller.
    pub cli_flavor: Option<String>,
    /// Flavor declared by the project configuration.
    pub project_flavor: Option<String>,
    /// Where the project configuration was found, if anywhere.
    pub project_config_path: Option<String>,
}

/// First index in `ls` holding a flavor of exactly this name.
pub open spec fn spec_lf_find(ls: Seq<LoadedFlavor>, name: Seq<char>) -> Option<int>
    decreases ls.len(),
{
    if ls.len() == 0 {
        None
    } else if ls[0].flavor.name@ == name {
        Some(0)
    } else {
        match spec_lf_find(ls.drop_first(), name) {
            None => None,
            Some(i) => Some(1 + i),
        }
    }
}

pub proof fn lemma_spec_lf_find(ls: Seq<LoadedFlavor>, name: Seq<char>)
    ensures
        match spec_lf_find(ls, name) {
            Some(i) => 0 <= i < ls.len() && ls[i].flavor.name@ == name,
            None => forall|i: int|
                0 <= i < ls.len() ==> (#[trigger] ls[i]).flavor.name@ != name,
        },
    decreases ls.len(),
{
    if ls.len() > 0 && ls[0].flavor.name@ != name {
        lemma_spec_lf_find(ls.drop_first(), name);
        if spec_lf_find(ls.drop_first(), name) is None {
            assert forall|i: int| 0 <= i < ls.len() implies (#[trigger] ls[i]).flavor.name@
                != name by {
                if i > 0 {
                    assert(ls.drop_first()[i - 1] == ls[i]);
                }
            }
        }
    }
}

/// The effect of offering one loaded flavor to the set: a same-named entry
/// is replaced only when the incoming tier is at least as high; otherwise
/// the entry stays. A new name is appended.
pub open spec fn spec_lf_insert(ls: Seq<LoadedFlavor>, lf: LoadedFlavor) -> Seq<LoadedFlavor> {
    match spec_lf_find(ls, lf.flavor.name@) {
        Some(i) => if spec_rank(lf.priority) >= spec_rank(ls[i].priority) {
            ls.update(i, lf)
        } else {
            ls
        },
        None => ls.push(lf),
    }
}

/// Offer one loaded flavor to the merged set, respecting tiers.
pub fn insert_loaded(set: &mut Vec<LoadedFlavor>, lf: LoadedFlavor)
    ensures
        final(set)@ == spec_lf_insert(old(set)@, lf),
{
    let n = set.len();
    let ghost ls0 = set@;
    proof {
        assert(ls0.skip(0) =~= ls0);
    }
    let mut i: usize = 0;
    while i < n
        invariant
            n == set@.len(),
            i <= n,
            set@ == ls0,
            old(set)@ == ls0,
            spec_lf_find(ls0, lf.flavor.name@) == match spec_lf_find(
                ls0.skip(i as int),
                lf.flavor.name@,
            ) {
                None => None::<int>,
                Some(k) => Some(k + i),
            },
        decreases n - i,
    {
        let ghost rest = ls0.skip(i as int);
        proof {
            assert(rest[0] == ls0[i as int]);
        }
        if crate::text::str_eq(set[i].flavor.name.as_str(), lf.flavor.name.as_str()) {
            proof {
                assert(spec_lf_find(rest, lf.flavor.name@) == Some(0int));
            }
            if rank(lf.priority) >= rank(set[i].priority) {
                set.set(i, lf);
            }
            return ;
        }
        proof {
            assert(rest.drop_first() =~= ls0.skip(i + 1));
        }
        i = i + 1;
    }
    proof {
        assert(ls0.skip(n as int) =~= Seq::<LoadedFlavor>::empty());
    }
    set.push(lf);
}

/// Priority merge law: on a name collision, the incoming definition
/// replaces the existing entry exactly when its tier is at least as high;
/// a lower-tier definition leaves the set unchanged.
pub proof fn lemma_insert_loaded_priority(ls: Seq<LoadedFlavor>, lf: LoadedFlavor)
    requires
        spec_lf_find(ls, lf.flavor.name@) is Some,
    ensures
        ({
            let i = spec_lf_find(ls, lf.flavor.name@)->0;
            let out = spec_lf_insert(ls, lf);
            &&& (spec_rank(lf.priority) >= spec_rank(ls[i].priority) ==> out == ls.update(i, lf))
            &&& (spec_rank(lf.priority) < spec_rank(ls[i].priority) ==> out == ls)
        }),
{
    lemma_spec_lf_find(ls, lf.flavor.name@);
}

/// The first modeline directive among a document's candidate lines,
/// whether or not any registry holds the named flavor.
pub open spec fn spec_detect_unchecked(lines: Seq<Seq<char>>) -> Option<Seq<char>>
    decreases lines.len(),
{
    if lines.len() == 0 {
        None
    } else {
        match spec_extract_modeline(lines[0]) {
            Some(v) => Some(v),
            None => spec_detect_unchecked(lines.drop_first()),
        }
    }
}

/// Detect an in-document flavor override without consulting a registry:
/// the first modeline among the first five and last five lines (or all
/// lines of a short document).
pub fn detect_modeline_flavor(content: &str) -> (r: Option<String>)
    ensures
        match spec_detect_unchecked(spec_check_lines(crate::text::spec_lines(content@))) {
            Some(v) => r is Some && r->0@ == v,
            None => r is None,
        },
{
    let candidates = super::registry::check_lines_of(content);
    let ghost cands = crate::text::lines_views(candidates@);
    let n = candidates.len();
    proof {
        assert(cands.skip(0) =~= cands);
    }
    let mut i: usize = 0;
    while i < n
        invariant
            cands == crate::text::lines_views(candidates@),
            cands == spec_check_lines(crate::text::spec_lines(content@)),
            n == candidates@.len(),
            i <= n,
            spec_detect_unchecked(cands) == spec_detect_unchecked(cands.skip(i as int)),
        decreases n - i,
    {
        let ghost rest = cands.skip(i as int);
        proof {
            assert(rest[0] == cands[i as int]);
            assert(rest.drop_first() =~= cands.skip(i + 1));
        }
        match extract_flavor_from_modeline(candidates[i].as_str()) {
            Some(name) => {
                proof {
                    assert(spec_extract_modeline(cands[i as int]) == Some(name@));
                }
                return Some(name);
            },
            None => {
            },
        }
        i = i + 1;
    }
    proof {
        assert(cands.skip(n as int) =~= Seq::<Seq<char>>::empty());
    }
    None
}

/// The warning for a preference that names no loaded flavor.
pub open spec fn spec_miss_warning(kind: Seq<char>, name: Seq<char>) -> Seq<char> {
    kind + " flavor '"@ + name + "' was not found; falling back"@
}

/// The index the selection rules pick, together with one warning for each
/// preference that named no flavor on the way there: explicit override,
/// then project default, then the conventional default name, then the
/// first available flavor.
pub open spec fn spec_select(
    ls: Seq<LoadedFlavor>,
    cli: Option<Seq<char>>,
    proj: Option<Seq<char>>,
) -> (Option<int>, Seq<Seq<char>>) {
    let w0 = Seq::<Seq<char>>::empty();
    if cli is Some && spec_lf_find(ls, cli->0) is Some {
        (spec_lf_find(ls, cli->0), w0)
    } else {
        let w1 = if cli is Some {
            w0.push(spec_miss_warning("Configured"@, cli->0))
        } else {
            w0
        };
        if proj is Some && spec_lf_find(ls, proj->0) is Some {
            (spec_lf_find(ls, proj->0), w1)
        } else {
            let w2 = if proj is Some {
                w1.push(spec_miss_warning("Project"@, proj->0))
            } else {
                w1
            };
            if spec_lf_find(ls, "prusa"@) is Some {
                (spec_lf_find(ls, "prusa"@), w2)
            } else {
                let w3 = w2.push(spec_miss_warning("Default"@, "prusa"@));
                if ls.len() > 0 {
                    (Some(0int), w3)
                } else {
                    (None, w3)
                }
            }
        }
    }
}

/// Build the warning for a preference that names no loaded flavor.
fn miss_warning(kind: &str, name: &str) -> (r: String)
    ensures
        r@ == spec_miss_warning(kind@, name@),
{
    let mut m = String::new();
    m.append(kind);
    m.append(" flavor '");
    m.append(name);
    m.append("' was not found; falling back");
    proof {
        assert(m@ =~= kind@ + " flavor '"@ + name@ + "' was not found; falling back"@);
    }
    m
}

/// Find the index of the loaded flavor of exactly this name.
pub fn find_loaded(set: &Vec<LoadedFlavor>, name: &str) -> (r: Option<usize>)
    ensures
        match spec_lf_find(set@, name@) {
            Some(i) => r is Some && r->0 == i && 0 <= i < set@.len(),
            None => r is None,
        },
{
    let n = set.len();
    let ghost ls0 = set@;
    proof {
        assert(ls0.skip(0) =~= ls0);
    }
    let mut i: usize = 0;
    while i < n
        invariant
            n == set@.len(),
            set@ == ls0,
            i <= n,
            spec_lf_find(ls0, name@) == match spec_lf_find(ls0.skip(i as int), name@) {
                None => None::<int>,
                Some(k) => Some(k + i),
            },
        decreases n - i,
    {
        let ghost rest = ls0.skip(i as int);
        proof {
            assert(rest[0] == ls0[i as int]);
        }
        if crate::text::str_eq(set[i].flavor.name.as_str(), name) {
            proof {
                assert(spec_lf_find(rest, name@) == Some(0int));
            }
            return Some(i);
        }
        proof {
            assert(rest.drop_first() =~= ls0.skip(i + 1));
        }
        i = i + 1;
    }
    proof {
        assert(ls0.skip(n as int) =~= Seq::<LoadedFlavor>::empty());
    }
    None
}

/// Pick the effective flavor: explicit override, then project default,
/// then the conventional default name, then the first available flavor.
/// Returns its index in `set` and one warning per unmet preference.
pub fn select_effective_flavor(set: &Vec<LoadedFlavor>, cfg: &FlavorSelectionConfig) -> (r: (
    Option<usize>,
    Vec<String>,
))
    ensures
        ({
            let cli = match cfg.cli_flavor {
                Some(ref s) => Some(s@),
                None => None,
            };
            let proj = match cfg.project_flavor {
                Some(ref s) => Some(s@),
                None => None,
            };
            let picked = spec_select(set@, cli, proj);
            &&& (match picked.0 {
                Some(i) => r.0 is Some && r.0->0 == i && 0 <= i < set@.len(),
                None => r.0 is None,
            })
            &&& r.1@.map_values(|s: String| s@) == picked.1
        }),
{
    let mut warnings: Vec<String> = Vec::new();
    match &cfg.cli_flavor {
        Some(name) => {
            match find_loaded(set, name.as_str()) {
                Some(i) => {
                    proof {
                        assert(warnings@.map_values(|s: String| s@) =~= Seq::<
                            Seq<char>,
                        >::empty());
                    }
                    return (Some(i), warnings);
                },
                None => {
                    warnings.push(miss_warning("Configured", name.as_str()));
                    proof {
                        assert(warnings@.map_values(|s: String| s@) =~= Seq::<
                            Seq<char>,
                        >::empty().push(spec_miss_warning("Configured"@, name@)));
                    }
                },
            }
        },
        None => {
        },
    }
    let ghost w1 = warnings@.map_values(|s: String| s@);
    match &cfg.project_flavor {
        Some(name) => {
            match find_loaded(set, name.as_str()) {
                Some(i) => {
                    return (Some(i), warnings);
                },
                None => {
                    let ghost prev = warnings@;
                    warnings.push(miss_warning("Project", name.as_str()));
                    proof {
                        assert(warnings@.map_values(|s: String| s@) =~= prev.map_values(
                            |s: String| s@,
                        ).push(spec_miss_warning("Project"@, name@)));
                    }
                },
            }
        },
        None => {
        },
    }
    match find_loaded(set, "prusa") {
        Some(i) => {
            return (Some(i), warnings);
        },
        None => {
            let ghost prev = warnings@;
            warnings.push(miss_warning("Default", "prusa"));
            proof {
                assert(warnings@.map_values(|s: String| s@) =~= prev.map_values(
                    |s: String| s@,
                ).push(spec_miss_warning("Default"@, "prusa"@)));
            }
        },
    }
    if set.len() > 0 {
        (Some(0), warnings)
    } else {
        (None, warnings)
    }
}

} // verus!
