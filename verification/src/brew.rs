//! Deriving build settings from a Homebrew `brew bundle exec` environment
//! snapshot: dependency install prefixes, an exportable environment
//! subset, and linker/compiler flag strings.

use crate::snapshot::EnvSnapshot;
use crate::strutil::concat2;
use crate::strutil::concat3;
use crate::strutil::join_strings;
use crate::strutil::join_with;
use crate::strutil::last_index_of;
use crate::strutil::lemma_last_index_at;
use crate::strutil::lemma_last_index_of;
use crate::strutil::rfind_char;
use crate::strutil::split_on;
use crate::strutil::split_str;
use vstd::prelude::*;
use vstd::string::StrSliceExecFns;

verus! {

/// The last `/`-delimited segment of a dependency entry: entries may be
/// namespaced as `tap/formula`, and the short name drops the namespace.
pub open spec fn short_name(dep: Seq<char>) -> Seq<char> {
    let i = last_index_of(dep, '/');
    if i < 0 {
        dep
    } else {
        dep.subrange(i + 1, dep.len() as int)
    }
}

/// Each dependency entry paired with its install prefix `opt/shortName`,
/// in the order the entries were given.
pub open spec fn formula_pairs(deps: Seq<Seq<char>>, opt: Seq<char>) -> Seq<(Seq<char>, Seq<char>)>
    decreases deps.len(),
{
    if deps.len() == 0 {
        Seq::<(Seq<char>, Seq<char>)>::empty()
    } else {
        seq![(deps[0], opt + ("/")@ + short_name(deps[0]))] + formula_pairs(deps.drop_first(), opt)
    }
}

/// The dependency/prefix pairs an environment describes: the
/// comma-separated recursive dependency list paired with the opt
/// directory, or nothing when either variable is absent.
pub open spec fn formulas_of(m: Map<Seq<char>, Seq<char>>) -> Seq<(Seq<char>, Seq<char>)> {
    if m.contains_key(("HOMEBREW_DEPENDENCIES")@) && m.contains_key(("HOMEBREW_OPT")@) {
        formula_pairs(split_on(m[("HOMEBREW_DEPENDENCIES")@], ','), m[("HOMEBREW_OPT")@])
    } else {
        Seq::<(Seq<char>, Seq<char>)>::empty()
    }
}

/// The `bin` and `sbin` directory of every dependency prefix, in
/// dependency order; no check is made that the directories exist.
pub open spec fn path_additions(formulas: Seq<(Seq<char>, Seq<char>)>) -> Seq<Seq<char>>
    decreases formulas.len(),
{
    if formulas.len() == 0 {
        Seq::<Seq<char>>::empty()
    } else {
        seq![formulas[0].1 + ("/bin")@, formulas[0].1 + ("/sbin")@] + path_additions(
            formulas.drop_first(),
        )
    }
}

/// The entry for `key` copied verbatim from the environment, or nothing
/// when the variable is absent.
pub open spec fn opt_entry(m: Map<Seq<char>, Seq<char>>, key: Seq<char>) -> Seq<
    (Seq<char>, Seq<char>),
> {
    if m.contains_key(key) {
        seq![(key, m[key])]
    } else {
        Seq::<(Seq<char>, Seq<char>)>::empty()
    }
}

/// The fixed allowlist copied from the environment, in order: the two
/// pkg-config search variables, then the two CMake search variables.
pub open spec fn base_env(m: Map<Seq<char>, Seq<char>>) -> Seq<(Seq<char>, Seq<char>)> {
    opt_entry(m, ("PKG_CONFIG_PATH")@) + opt_entry(m, ("PKG_CONFIG_LIBDIR")@) + opt_entry(
        m,
        ("CMAKE_INCLUDE_PATH")@,
    ) + opt_entry(m, ("CMAKE_LIBRARY_PATH")@)
}

/// The exportable environment: the allowlisted entries, preceded by an
/// augmented `PATH` entry exactly when there is at least one dependency
/// prefix and the caller has a `PATH` of its own.
pub open spec fn select_spec(m: Map<Seq<char>, Seq<char>>, path: Option<Seq<char>>) -> Seq<
    (Seq<char>, Seq<char>),
> {
    if path_additions(formulas_of(m)).len() > 0 && path is Some {
        seq![(("PATH")@, path->0 + (":")@ + join_with(path_additions(formulas_of(m)), (":")@))]
            + base_env(m)
    } else {
        base_env(m)
    }
}

/// One flag token per dependency prefix: `pre`, the prefix, `suf`.
pub open spec fn flag_tokens(
    formulas: Seq<(Seq<char>, Seq<char>)>,
    pre: Seq<char>,
    suf: Seq<char>,
) -> Seq<Seq<char>>
    decreases formulas.len(),
{
    if formulas.len() == 0 {
        Seq::<Seq<char>>::empty()
    } else {
        seq![pre + formulas[0].1 + suf] + flag_tokens(formulas.drop_first(), pre, suf)
    }
}

/// The last `/`-delimited segment of `dep`, or all of `dep` when it has
/// no `/`.
pub fn short_name_str(dep: &str) -> (r: &str)
    ensures
        r@ == short_name(dep@),
{
    let n = dep.unicode_len();
    match rfind_char(dep, '/') {
        Some(i) => {
            proof {
                lemma_last_index_at(dep@, '/', i as int);
            }
            dep.substring_char(i + 1, n)
        },
        None => {
            proof {
                lemma_last_index_of(dep@, '/');
                assert(last_index_of(dep@, '/') == -1);
            }
            dep
        },
    }
}

/// The dependencies listed in `HOMEBREW_DEPENDENCIES`, each paired with
/// its install prefix under `HOMEBREW_OPT`; empty when either variable
/// is absent. The full dependency entry is kept as the name, while the
/// prefix uses only the short name.
pub fn formulas_from_env(environment: &EnvSnapshot) -> (r: Vec<(String, String)>)
    ensures
        r.deep_view() == formulas_of(environment.as_map()),
{
    let mut out: Vec<(String, String)> = Vec::new();
    let deps = environment.get("HOMEBREW_DEPENDENCIES");
    if let Some(formulastring) = deps {
        let opt = environment.get("HOMEBREW_OPT");
        if let Some(opt_prefix) = opt {
            let parts = split_str(formulastring.as_str(), ',');
            let ghost pdv = parts.deep_view();
            let ghost opt_view = opt_prefix@;
            let mut i: usize = 0;
            proof {
                assert(pdv.subrange(0, pdv.len() as int) =~~= pdv);
            }
            while i < parts.len()
                invariant
                    i <= parts.len(),
                    pdv == parts.deep_view(),
                    pdv.len() == parts.len(),
                    opt_view == opt_prefix@,
                    formula_pairs(pdv, opt_view) == out.deep_view() + formula_pairs(
                        pdv.subrange(i as int, pdv.len() as int),
                        opt_view,
                    ),
                decreases parts.len() - i,
            {
                let ghost old_dv = out.deep_view();
                let ghost suffix = pdv.subrange(i as int, pdv.len() as int);
                let dep = &parts[i];
                let short = short_name_str(dep.as_str());
                let pkg_opt = concat3(opt_prefix.as_str(), "/", short);
                out.push((dep.clone(), pkg_opt));
                proof {
                    assert(pdv[i as int] == parts@[i as int]@);
                    assert(dep@ == parts@[i as int]@);
                    assert(suffix[0] == pdv[i as int]);
                    assert(suffix.drop_first() =~~= pdv.subrange(i + 1, pdv.len() as int));
                    assert(out.deep_view() =~~= old_dv.push(
                        (pdv[i as int], opt_view + ("/")@ + short_name(pdv[i as int])),
                    ));
                    assert(old_dv + (seq![
                        (pdv[i as int], opt_view + ("/")@ + short_name(pdv[i as int])),
                    ] + formula_pairs(suffix.drop_first(), opt_view)) =~~= old_dv.push(
                        (pdv[i as int], opt_view + ("/")@ + short_name(pdv[i as int])),
                    ) + formula_pairs(suffix.drop_first(), opt_view));
                }
                i += 1;
            }
            proof {
                assert(pdv.subrange(pdv.len() as int, pdv.len() as int) =~~= Seq::<
                    Seq<char>,
                >::empty());
                assert(out.deep_view() + Seq::<(Seq<char>, Seq<char>)>::empty() =~~= out.deep_view());
            }
            return out;
        }
    }
    proof {
        assert(out.deep_view() =~~= Seq::<(Seq<char>, Seq<char>)>::empty());
    }
    out
}

/// Copies the entry for `key` to `out` when the environment has it.
fn push_if_present(out: &mut Vec<(String, String)>, environment: &EnvSnapshot, key: &str)
    ensures
        final(out).deep_view() == old(out).deep_view() + opt_entry(environment.as_map(), key@),
{
    let ghost old_dv = out.deep_view();
    match environment.get(key) {
        Some(value) => {
            out.push((key.to_owned(), value.clone()));
            proof {
                assert(out.deep_view() =~~= old_dv + seq![
                    (key@, environment.as_map()[key@]),
                ]);
            }
        },
        None => {
            proof {
                assert(out.deep_view() =~~= old_dv + Seq::<(Seq<char>, Seq<char>)>::empty());
            }
        },
    }
}

/// Decides which of the captured environment's variables are safe to
/// export to child build processes. The fixed allowlist is copied
/// verbatim; then, when at least one dependency prefix exists and the
/// caller supplies its current `PATH`, a `PATH` entry extended with every
/// prefix's `bin` and `sbin` directory is prepended as the first entry.
/// With no current `PATH` the augmentation is dropped, not partially
/// applied.
pub fn select_brew_env(environment: &EnvSnapshot, current_path: Option<&str>) -> (r: Vec<
    (String, String),
>)
    ensures
        r.deep_view() == select_spec(environment.as_map(), current_path.deep_view()),
{
    let mut base: Vec<(String, String)> = Vec::new();
    push_if_present(&mut base, environment, "PKG_CONFIG_PATH");
    push_if_present(&mut base, environment, "PKG_CONFIG_LIBDIR");
    push_if_present(&mut base, environment, "CMAKE_INCLUDE_PATH");
    push_if_present(&mut base, environment, "CMAKE_LIBRARY_PATH");
    proof {
        assert(Seq::<(Seq<char>, Seq<char>)>::empty() + opt_entry(
            environment.as_map(),
            ("PKG_CONFIG_PATH")@,
        ) =~~= opt_entry(environment.as_map(), ("PKG_CONFIG_PATH")@));
        assert(base.deep_view() =~~= base_env(environment.as_map()));
    }
    let formulas = formulas_from_env(environment);
    let ghost fdv = formulas.deep_view();
    let mut paths: Vec<String> = Vec::new();
    let mut i: usize = 0;
    proof {
        assert(fdv.subrange(0, fdv.len() as int) =~~= fdv);
    }
    while i < formulas.len()
        invariant
            i <= formulas.len(),
            fdv == formulas.deep_view(),
            fdv.len() == formulas.len(),
            path_additions(fdv) == paths.deep_view() + path_additions(
                fdv.subrange(i as int, fdv.len() as int),
            ),
        decreases formulas.len() - i,
    {
        let ghost old_dv = paths.deep_view();
        let ghost suffix = fdv.subrange(i as int, fdv.len() as int);
        let pkg_opt = &formulas[i].1;
        paths.push(concat2(pkg_opt.as_str(), "/bin"));
        paths.push(concat2(pkg_opt.as_str(), "/sbin"));
        proof {
            assert(suffix[0] == fdv[i as int]);
            assert(suffix.drop_first() =~~= fdv.subrange(i + 1, fdv.len() as int));
            assert(paths.deep_view() =~~= old_dv + seq![
                fdv[i as int].1 + ("/bin")@,
                fdv[i as int].1 + ("/sbin")@,
            ]);
            assert(old_dv + (seq![fdv[i as int].1 + ("/bin")@, fdv[i as int].1 + ("/sbin")@]
                + path_additions(suffix.drop_first())) =~~= (old_dv + seq![
                fdv[i as int].1 + ("/bin")@,
                fdv[i as int].1 + ("/sbin")@,
            ]) + path_additions(suffix.drop_first()));
        }
        i += 1;
    }
    proof {
        assert(fdv.subrange(fdv.len() as int, fdv.len() as int) =~~= Seq::<
            (Seq<char>, Seq<char>),
        >::empty());
        assert(paths.deep_view() + Seq::<Seq<char>>::empty() =~~= paths.deep_view());
        assert(paths.deep_view() == path_additions(formulas_of(environment.as_map())));
    }
    if paths.len() > 0 {
        if let Some(our_path) = current_path {
            let joined = join_strings(&paths, ":");
            let desired_path = concat3(our_path, ":", joined.as_str());
            let mut out: Vec<(String, String)> = Vec::new();
            let path_key: &str = "PATH";
            out.push((path_key.to_owned(), desired_path));
            let ghost head_dv = out.deep_view();
            let mut j: usize = 0;
            let ghost bdv = base.deep_view();
            while j < base.len()
                invariant
                    j <= base.len(),
                    bdv == base.deep_view(),
                    bdv.len() == base.len(),
                    out.deep_view() == head_dv + bdv.subrange(0, j as int),
                decreases base.len() - j,
            {
                let ghost old_dv = out.deep_view();
                let entry = (base[j].0.clone(), base[j].1.clone());
                out.push(entry);
                proof {
                    assert(out.deep_view() =~~= old_dv.push(bdv[j as int]));
                    assert(head_dv + bdv.subrange(0, j + 1) =~~= (head_dv + bdv.subrange(
                        0,
                        j as int,
                    )).push(bdv[j as int]));
                }
                j += 1;
            }
            proof {
                assert(bdv.subrange(0, bdv.len() as int) =~~= bdv);
                assert(out.deep_view() =~~= seq![
                    (("PATH")@, our_path@ + (":")@ + join_with(
                        path_additions(formulas_of(environment.as_map())),
                        (":")@,
                    )),
                ] + base_env(environment.as_map()));
            }
            return out;
        }
    }
    base
}

/// Builds one flag token per dependency prefix and joins them with a
/// single space.
fn flag_string(formulas: &Vec<(String, String)>, pre: &str, suf: &str) -> (r: String)
    ensures
        r@ == join_with(flag_tokens(formulas.deep_view(), pre@, suf@), (" ")@),
{
    let ghost fdv = formulas.deep_view();
    let mut tokens: Vec<String> = Vec::new();
    let mut i: usize = 0;
    proof {
        assert(fdv.subrange(0, fdv.len() as int) =~~= fdv);
    }
    while i < formulas.len()
        invariant
            i <= formulas.len(),
            fdv == formulas.deep_view(),
            fdv.len() == formulas.len(),
            flag_tokens(fdv, pre@, suf@) == tokens.deep_view() + flag_tokens(
                fdv.subrange(i as int, fdv.len() as int),
                pre@,
                suf@,
            ),
        decreases formulas.len() - i,
    {
        let ghost old_dv = tokens.deep_view();
        let ghost suffix = fdv.subrange(i as int, fdv.len() as int);
        tokens.push(concat3(pre, formulas[i].1.as_str(), suf));
        proof {
            assert(suffix[0] == fdv[i as int]);
            assert(suffix.drop_first() =~~= fdv.subrange(i + 1, fdv.len() as int));
            assert(tokens.deep_view() =~~= old_dv.push(pre@ + fdv[i as int].1 + suf@));
            assert(old_dv + (seq![pre@ + fdv[i as int].1 + suf@] + flag_tokens(
                suffix.drop_first(),
                pre@,
                suf@,
            )) =~~= old_dv.push(pre@ + fdv[i as int].1 + suf@) + flag_tokens(
                suffix.drop_first(),
                pre@,
                suf@,
            ));
        }
        i += 1;
    }
    proof {
        assert(fdv.subrange(fdv.len() as int, fdv.len() as int) =~~= Seq::<
            (Seq<char>, Seq<char>),
        >::empty());
        assert(tokens.deep_view() + Seq::<Seq<char>>::empty() =~~= tokens.deep_view());
    }
    join_strings(&tokens, " ")
}

/// The flags the linker needs to link against the environment's
/// dependency prefixes: one `-L<prefix>/lib` per dependency, space-joined
/// in dependency order. The directories are not checked to exist.
pub fn calculate_ldflags(environment: &EnvSnapshot) -> (r: String)
    ensures
        r@ == join_with(
            flag_tokens(formulas_of(environment.as_map()), ("-L")@, ("/lib")@),
            (" ")@,
        ),
{
    let formulas = formulas_from_env(environment);
    flag_string(&formulas, "-L", "/lib")
}

/// The flags the compiler needs to find the environment's dependency
/// headers: one `-I<prefix>/include` per dependency, space-joined in
/// dependency order. The directories are not checked to exist.
pub fn calculate_cflags(environment: &EnvSnapshot) -> (r: String)
    ensures
        r@ == join_with(
            flag_tokens(formulas_of(environment.as_map()), ("-I")@, ("/include")@),
            (" ")@,
        ),
{
    let formulas = formulas_from_env(environment);
    flag_string(&formulas, "-I", "/include")
}

/// The exportable environment contains an entry named `PATH` exactly when
/// both a current `PATH` and at least one dependency prefix are present,
/// and then only as its first entry; otherwise it is exactly the
/// allowlisted entries, none of which is named `PATH`.
pub proof fn lemma_path_prepended_iff(m: Map<Seq<char>, Seq<char>>, path: Option<Seq<char>>)
    ensures
        (path_additions(formulas_of(m)).len() > 0 && path is Some) ==> select_spec(m, path).len()
            == base_env(m).len() + 1 && select_spec(m, path)[0].0 == ("PATH")@ && select_spec(
            m,
            path,
        ).drop_first() == base_env(m),
        !(path_additions(formulas_of(m)).len() > 0 && path is Some) ==> select_spec(m, path)
            == base_env(m),
        forall|k: int| 0 <= k < base_env(m).len() ==> base_env(m)[k].0 != ("PATH")@,
{
    reveal_strlit("PATH");
    reveal_strlit("PKG_CONFIG_PATH");
    reveal_strlit("PKG_CONFIG_LIBDIR");
    reveal_strlit("CMAKE_INCLUDE_PATH");
    reveal_strlit("CMAKE_LIBRARY_PATH");
    assert(("PKG_CONFIG_PATH")@.len() == 15);
    assert(("PKG_CONFIG_LIBDIR")@.len() == 17);
    assert(("CMAKE_INCLUDE_PATH")@.len() == 18);
    assert(("CMAKE_LIBRARY_PATH")@.len() == 18);
    assert(("PATH")@.len() == 4);
    if path_additions(formulas_of(m)).len() > 0 && path is Some {
        assert(select_spec(m, path).drop_first() =~~= base_env(m));
    }
}

} // verus!
