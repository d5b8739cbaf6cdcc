//! The target package resolver: walks an ordered list of target triples,
//! picks the first one whose triple belongs to a known package-manager
//! family, and renders the shell command(s) that install the system
//! dependencies applicable to that target and to the build stage.
//!
//! The first matched family decides alone: when its filtered package set
//! yields no command, no later target is consulted. Installers are never
//! mixed across OS families.

use crate::strutil::concat2;
use crate::strutil::concat3;
use crate::strutil::ends_with;
use crate::strutil::join_strings;
use crate::strutil::join_with;
use crate::strutil::str_ends_with;
use crate::strutil::str_eq;
use vstd::prelude::*;

verus! {

/// The build stage a system dependency applies to: needed to compile, or
/// only at run time.
#[derive(Clone, Copy, Debug, PartialEq, Eq, Structural)]
pub enum DependencyStage {
    /// Needed while building.
    Build,
    /// Needed only when running the built artifact.
    Run,
}

/// The package-manager family a target triple belongs to.
#[derive(Clone, Copy, Debug, PartialEq, Eq, Structural)]
pub enum TargetFamily {
    /// Apple/Darwin targets, served by Homebrew.
    Apple,
    /// Linux targets against glibc, served by APT.
    LinuxGlibc,
    /// Linux targets against musl, served by APT plus the cross toolchain
    /// helper.
    LinuxMusl,
    /// Windows MSVC targets, served by Chocolatey.
    Windows,
    /// Anything else; silently skipped.
    Unknown,
}

/// A declared system dependency: an optional pinned version, the targets
/// it applies to (empty means every target) and the build stages it
/// applies to (empty means every stage).
#[derive(Clone, Debug)]
pub struct PackageSpec {
    /// The pinned version, if any.
    pub version: Option<String>,
    /// The target triples the package applies to; empty means all.
    pub targets: Vec<String>,
    /// The build stages the package applies to; empty means all.
    pub stages: Vec<DependencyStage>,
}

/// The mathematical value of a [`PackageSpec`].
pub ghost struct PackageSpecView {
    /// The pinned version, if any.
    pub version: Option<Seq<char>>,
    /// The target triples the package applies to; empty means all.
    pub targets: Seq<Seq<char>>,
    /// The build stages the package applies to; empty means all.
    pub stages: Seq<DependencyStage>,
}

impl View for PackageSpec {
    type V = PackageSpecView;

    open spec fn view(&self) -> PackageSpecView {
        (PackageSpecView {
            version: self.version.deep_view(),
            targets: self.targets.deep_view(),
            stages: self.stages@,
        })
    }
}

impl DeepView for PackageSpec {
    type V = PackageSpecView;

    open spec fn deep_view(&self) -> PackageSpecView {
        self.view()
    }
}

/// The declared system dependencies, one ordered name-to-package mapping
/// per package-manager family. A package name occurs at most once per
/// mapping, and insertion order is kept.
#[derive(Clone, Debug)]
pub struct SystemDependencies {
    /// Packages installed through Homebrew on Apple targets.
    pub homebrew: Vec<(String, PackageSpec)>,
    /// Packages installed through APT on Linux targets.
    pub apt: Vec<(String, PackageSpec)>,
    /// Packages installed through Chocolatey on Windows targets.
    pub chocolatey: Vec<(String, PackageSpec)>,
}

/// The mathematical value of a [`SystemDependencies`].
pub ghost struct SystemDependenciesView {
    /// Packages installed through Homebrew on Apple targets.
    pub homebrew: Seq<(Seq<char>, PackageSpecView)>,
    /// Packages installed through APT on Linux targets.
    pub apt: Seq<(Seq<char>, PackageSpecView)>,
    /// Packages installed through Chocolatey on Windows targets.
    pub chocolatey: Seq<(Seq<char>, PackageSpecView)>,
}

impl View for SystemDependencies {
    type V = SystemDependenciesView;

    open spec fn view(&self) -> SystemDependenciesView {
        (SystemDependenciesView {
            homebrew: self.homebrew.deep_view(),
            apt: self.apt.deep_view(),
            chocolatey: self.chocolatey.deep_view(),
        })
    }
}

/// The family of a target triple, decided by its suffix.
pub open spec fn family_of(t: Seq<char>) -> TargetFamily {
    if ends_with(t, ("-apple-darwin")@) {
        TargetFamily::Apple
    } else if ends_with(t, ("linux-musl")@) {
        TargetFamily::LinuxMusl
    } else if ends_with(t, ("linux-gnu")@) {
        TargetFamily::LinuxGlibc
    } else if ends_with(t, ("windows-msvc")@) {
        TargetFamily::Windows
    } else {
        TargetFamily::Unknown
    }
}

/// The package applies to `t`: its target set is empty or names `t`.
pub open spec fn wanted_for_target(p: PackageSpecView, t: Seq<char>) -> bool {
    p.targets.len() == 0 || p.targets.contains(t)
}

/// The package applies to the build stage: its stage set is empty or
/// names the build stage. Install commands are only ever emitted for the
/// build stage.
pub open spec fn build_stage_wanted(p: PackageSpecView) -> bool {
    p.stages.len() == 0 || p.stages.contains(DependencyStage::Build)
}

/// The package passes both applicability tests for `t`.
pub open spec fn package_applies(p: PackageSpecView, t: Seq<char>) -> bool {
    wanted_for_target(p, t) && build_stage_wanted(p)
}

/// The packages of one mapping that apply to `t`, in declaration order.
pub open spec fn applicable(
    pkgs: Seq<(Seq<char>, PackageSpecView)>,
    t: Seq<char>,
) -> Seq<(Seq<char>, PackageSpecView)>
    decreases pkgs.len(),
{
    if pkgs.len() == 0 {
        Seq::<(Seq<char>, PackageSpecView)>::empty()
    } else {
        let rest = applicable(pkgs.drop_first(), t);
        if package_applies(pkgs[0].1, t) {
            seq![pkgs[0]] + rest
        } else {
            rest
        }
    }
}

/// An APT package token: the bare name, or `name=version` when a version
/// is pinned.
pub open spec fn apt_token(name: Seq<char>, version: Option<Seq<char>>) -> Seq<char> {
    match version {
        Some(v) => name + ("=")@ + v,
        None => name,
    }
}

/// The APT tokens of a package list, in order.
pub open spec fn apt_tokens(pkgs: Seq<(Seq<char>, PackageSpecView)>) -> Seq<Seq<char>>
    decreases pkgs.len(),
{
    if pkgs.len() == 0 {
        Seq::<Seq<char>>::empty()
    } else {
        seq![apt_token(pkgs[0].0, pkgs[0].1.version)] + apt_tokens(pkgs.drop_first())
    }
}

/// One Chocolatey install line: the manager invoked with `install` and
/// the package name, carrying its own `--version=` flag exactly when a
/// version is pinned.
pub open spec fn choco_line(name: Seq<char>, version: Option<Seq<char>>) -> Seq<char> {
    match version {
        Some(v) => ("choco install ")@ + name + (" --version=")@ + v,
        None => ("choco install ")@ + name,
    }
}

/// The Chocolatey install lines of a package list: one line per package,
/// in order.
pub open spec fn choco_lines(pkgs: Seq<(Seq<char>, PackageSpecView)>) -> Seq<Seq<char>>
    decreases pkgs.len(),
{
    if pkgs.len() == 0 {
        Seq::<Seq<char>>::empty()
    } else {
        seq![choco_line(pkgs[0].0, pkgs[0].1.version)] + choco_lines(pkgs.drop_first())
    }
}

/// The package names of a list, in order; Homebrew installs by bare name.
pub open spec fn brew_names(pkgs: Seq<(Seq<char>, PackageSpecView)>) -> Seq<Seq<char>>
    decreases pkgs.len(),
{
    if pkgs.len() == 0 {
        Seq::<Seq<char>>::empty()
    } else {
        seq![pkgs[0].0] + brew_names(pkgs.drop_first())
    }
}

/// The install command a known family emits for target `t`, or nothing
/// when the family's filtered package list is empty. On musl targets the
/// cross toolchain helper `musl-tools` is always appended, whether or not
/// it is declared, so a musl target always yields a command.
pub open spec fn family_command(
    fam: TargetFamily,
    t: Seq<char>,
    deps: SystemDependenciesView,
) -> Option<Seq<char>> {
    match fam {
        TargetFamily::Apple => {
            let names = brew_names(applicable(deps.homebrew, t));
            if names.len() == 0 {
                None
            } else {
                Some(("brew install ")@ + join_with(names, (" ")@))
            }
        },
        TargetFamily::LinuxGlibc => {
            let toks = apt_tokens(applicable(deps.apt, t));
            if toks.len() == 0 {
                None
            } else {
                Some(("sudo apt-get install ")@ + join_with(toks, (" ")@))
            }
        },
        TargetFamily::LinuxMusl => {
            let toks = apt_tokens(applicable(deps.apt, t)).push(("musl-tools")@);
            Some(("sudo apt-get install ")@ + join_with(toks, (" ")@))
        },
        TargetFamily::Windows => {
            let lines = choco_lines(applicable(deps.chocolatey, t));
            if lines.len() == 0 {
                None
            } else {
                Some(join_with(lines, ("\n")@))
            }
        },
        TargetFamily::Unknown => None,
    }
}

/// The command for the first target whose family is known, or nothing
/// when no target matches a known family or the matched family yields no
/// command. Unknown triples are silently skipped; the first matched
/// family is final.
pub open spec fn resolve_spec(
    targets: Seq<Seq<char>>,
    deps: SystemDependenciesView,
) -> Option<Seq<char>>
    decreases targets.len(),
{
    if targets.len() == 0 {
        None
    } else if family_of(targets[0]) is Unknown {
        resolve_spec(targets.drop_first(), deps)
    } else {
        family_command(family_of(targets[0]), targets[0], deps)
    }
}

/// How many strings of `s` equal `x`.
pub open spec fn count_eq(s: Seq<Seq<char>>, x: Seq<char>) -> int
    decreases s.len(),
{
    if s.len() == 0 {
        0
    } else {
        (if s[0] == x {
            1int
        } else {
            0int
        }) + count_eq(s.drop_first(), x)
    }
}

/// Resolution is decided entirely by the first target whose family is
/// known: every target before it is skipped, and the targets after it
/// are never consulted.
pub proof fn lemma_resolve_first_known(
    targets: Seq<Seq<char>>,
    deps: SystemDependenciesView,
    i: int,
)
    requires
        0 <= i < targets.len(),
        forall|j: int| 0 <= j < i ==> family_of(targets[j]) is Unknown,
        !(family_of(targets[i]) is Unknown),
    ensures
        resolve_spec(targets, deps) == family_command(family_of(targets[i]), targets[i], deps),
    decreases i,
{
    if i == 0 {
    } else {
        let d = targets.drop_first();
        assert(forall|j: int| 0 <= j < i - 1 ==> d[j] == targets[j + 1]);
        assert(d[i - 1] == targets[i]);
        lemma_resolve_first_known(d, deps, i - 1);
    }
}

/// The stop-at-first-match policy: when the first target with a known
/// family has an empty filtered package set, the resolver yields no
/// command — even when a later target in the list would have matched
/// non-emptily. A musl first match is the one exception: its command
/// always carries the cross toolchain helper, so it is never empty.
pub proof fn lemma_first_match_empty_yields_none(
    targets: Seq<Seq<char>>,
    deps: SystemDependenciesView,
    i: int,
)
    requires
        0 <= i < targets.len(),
        forall|j: int| 0 <= j < i ==> family_of(targets[j]) is Unknown,
        !(family_of(targets[i]) is Unknown),
        !(family_of(targets[i]) is LinuxMusl),
        family_of(targets[i]) is Apple ==> applicable(deps.homebrew, targets[i]).len() == 0,
        family_of(targets[i]) is LinuxGlibc ==> applicable(deps.apt, targets[i]).len() == 0,
        family_of(targets[i]) is Windows ==> applicable(deps.chocolatey, targets[i]).len() == 0,
    ensures
        resolve_spec(targets, deps) is None,
{
    lemma_resolve_first_known(targets, deps, i);
}

/// A versioned dependency renders as `name=version` in an APT token and
/// an unversioned one as the bare name.
pub proof fn lemma_apt_token_rendering(name: Seq<char>, version: Seq<char>)
    ensures
        apt_token(name, Some(version)) == name + ("=")@ + version,
        apt_token(name, None) == name,
{
}

/// An APT token of a package not named after the toolchain helper never
/// equals the helper token: the bare name differs by assumption, and a
/// versioned token contains `=`, which the helper's name does not.
proof fn lemma_apt_token_not_musl(name: Seq<char>, version: Option<Seq<char>>)
    requires
        name != ("musl-tools")@,
    ensures
        apt_token(name, version) != ("musl-tools")@,
{
    match version {
        None => {
        },
        Some(v) => {
            let tok = name + ("=")@ + v;
            if tok == ("musl-tools")@ {
                reveal_strlit("musl-tools");
                reveal_strlit("=");
                assert(("musl-tools")@.len() == 10);
                assert(("=")@.len() == 1);
                assert(tok.len() == name.len() + 1 + v.len());
                assert(tok[name.len() as int] == '=');
                assert(forall|j: int| 0 <= j < 10 ==> ("musl-tools")@[j] != '=');
                assert(false);
            }
        },
    }
}

/// No APT token of a list of packages, none of which is named after the
/// toolchain helper, equals the helper token.
proof fn lemma_apt_tokens_no_musl(pkgs: Seq<(Seq<char>, PackageSpecView)>)
    requires
        forall|k: int| 0 <= k < pkgs.len() ==> pkgs[k].0 != ("musl-tools")@,
    ensures
        count_eq(apt_tokens(pkgs), ("musl-tools")@) == 0,
    decreases pkgs.len(),
{
    if pkgs.len() == 0 {
    } else {
        lemma_apt_token_not_musl(pkgs[0].0, pkgs[0].1.version);
        assert(forall|k: int|
            0 <= k < pkgs.drop_first().len() ==> pkgs.drop_first()[k] == pkgs[k + 1]);
        lemma_apt_tokens_no_musl(pkgs.drop_first());
        assert(apt_tokens(pkgs).drop_first() =~~= apt_tokens(pkgs.drop_first()));
    }
}

/// Appending `x` raises its count by one.
proof fn lemma_count_eq_push(s: Seq<Seq<char>>, x: Seq<char>)
    ensures
        count_eq(s.push(x), x) == count_eq(s, x) + 1,
    decreases s.len(),
{
    if s.len() == 0 {
        assert(s.push(x)[0] == x);
        assert(s.push(x).drop_first() =~~= Seq::<Seq<char>>::empty());
        assert(count_eq(s.push(x), x) == 1 + count_eq(Seq::<Seq<char>>::empty(), x));
    } else {
        lemma_count_eq_push(s.drop_first(), x);
        assert(s.push(x)[0] == s[0]);
        assert(s.push(x).drop_first() =~~= s.drop_first().push(x));
        assert(count_eq(s.push(x), x) == (if s[0] == x {
            1int
        } else {
            0int
        }) + count_eq(s.drop_first().push(x), x));
    }
}

/// A musl first match always yields a command, and its token list
/// carries the cross toolchain helper exactly once — whether or not the
/// helper is declared among the dependencies. The one exclusion: no
/// applicable package may itself be named after the helper, since a
/// declared helper would be rendered a second time.
pub proof fn lemma_musl_toolchain_once(
    targets: Seq<Seq<char>>,
    deps: SystemDependenciesView,
    i: int,
)
    requires
        0 <= i < targets.len(),
        forall|j: int| 0 <= j < i ==> family_of(targets[j]) is Unknown,
        family_of(targets[i]) is LinuxMusl,
        forall|k: int|
            0 <= k < applicable(deps.apt, targets[i]).len() ==> applicable(deps.apt, targets[i])[k].0
                != ("musl-tools")@,
    ensures
        ({
            let toks = apt_tokens(applicable(deps.apt, targets[i])).push(("musl-tools")@);
            resolve_spec(targets, deps) == Some(
                ("sudo apt-get install ")@ + join_with(toks, (" ")@),
            ) && count_eq(toks, ("musl-tools")@) == 1
        }),
{
    lemma_resolve_first_known(targets, deps, i);
    lemma_apt_tokens_no_musl(applicable(deps.apt, targets[i]));
    lemma_count_eq_push(apt_tokens(applicable(deps.apt, targets[i])), ("musl-tools")@);
}

/// `choco_lines` yields one line per package, in order, each rendered
/// from that package's own name and pinned version.
proof fn lemma_choco_lines_index(pkgs: Seq<(Seq<char>, PackageSpecView)>)
    ensures
        choco_lines(pkgs).len() == pkgs.len(),
        forall|k: int|
            0 <= k < pkgs.len() ==> choco_lines(pkgs)[k] == choco_line(
                pkgs[k].0,
                pkgs[k].1.version,
            ),
    decreases pkgs.len(),
{
    if pkgs.len() == 0 {
    } else {
        lemma_choco_lines_index(pkgs.drop_first());
        assert(choco_lines(pkgs).drop_first() =~~= choco_lines(pkgs.drop_first()));
        assert(forall|k: int|
            1 <= k < pkgs.len() ==> choco_lines(pkgs)[k] == choco_lines(pkgs.drop_first())[k - 1]);
        assert(forall|k: int|
            1 <= k < pkgs.len() ==> pkgs.drop_first()[k - 1] == pkgs[k]);
    }
}

/// A Windows first match with `n` applicable packages yields exactly `n`
/// newline-joined install lines, each carrying its own `--version=` flag
/// exactly when that package has a pinned version.
pub proof fn lemma_windows_line_per_package(
    targets: Seq<Seq<char>>,
    deps: SystemDependenciesView,
    i: int,
)
    requires
        0 <= i < targets.len(),
        forall|j: int| 0 <= j < i ==> family_of(targets[j]) is Unknown,
        family_of(targets[i]) is Windows,
        applicable(deps.chocolatey, targets[i]).len() > 0,
    ensures
        ({
            let pkgs = applicable(deps.chocolatey, targets[i]);
            let lines = choco_lines(pkgs);
            resolve_spec(targets, deps) == Some(join_with(lines, ("\n")@)) && lines.len()
                == pkgs.len() && forall|k: int|
                0 <= k < pkgs.len() ==> lines[k] == choco_line(pkgs[k].0, pkgs[k].1.version)
        }),
{
    lemma_resolve_first_known(targets, deps, i);
    lemma_choco_lines_index(applicable(deps.chocolatey, targets[i]));
}

/// Whether any string of `v` equals `needle`.
fn contains_str(v: &Vec<String>, needle: &str) -> (r: bool)
    ensures
        r == v.deep_view().contains(needle@),
{
    let mut i: usize = 0;
    while i < v.len()
        invariant
            i <= v.len(),
            forall|j: int| 0 <= j < i ==> v.deep_view()[j] != needle@,
        decreases v.len() - i,
    {
        if str_eq(v[i].as_str(), needle) {
            proof {
                assert(v.deep_view()[i as int] == needle@);
            }
            return true;
        }
        i += 1;
    }
    proof {
        assert(forall|j: int| 0 <= j < v.deep_view().len() ==> v.deep_view()[j] != needle@);
    }
    false
}

/// Whether any stage of `v` equals `stage`.
fn contains_stage(v: &Vec<DependencyStage>, stage: DependencyStage) -> (r: bool)
    ensures
        r == v@.contains(stage),
{
    let mut i: usize = 0;
    while i < v.len()
        invariant
            i <= v.len(),
            forall|j: int| 0 <= j < i ==> v@[j] != stage,
        decreases v.len() - i,
    {
        if v[i] == stage {
            return true;
        }
        i += 1;
    }
    false
}

/// Whether the package applies to `target` and to the build stage.
fn package_applies_exec(p: &PackageSpec, target: &str) -> (r: bool)
    ensures
        r == package_applies(p@, target@),
{
    let target_ok = p.targets.len() == 0 || contains_str(&p.targets, target);
    let stage_ok = p.stages.len() == 0 || contains_stage(&p.stages, DependencyStage::Build);
    target_ok && stage_ok
}

/// The family of a target triple, decided by its suffix.
pub fn classify_target(target: &str) -> (f: TargetFamily)
    ensures
        f == family_of(target@),
{
    if str_ends_with(target, "-apple-darwin") {
        TargetFamily::Apple
    } else if str_ends_with(target, "linux-musl") {
        TargetFamily::LinuxMusl
    } else if str_ends_with(target, "linux-gnu") {
        TargetFamily::LinuxGlibc
    } else if str_ends_with(target, "windows-msvc") {
        TargetFamily::Windows
    } else {
        TargetFamily::Unknown
    }
}

/// The single Homebrew install command for the applicable packages, or
/// nothing when none applies.
fn brew_command(pkgs: &Vec<(String, PackageSpec)>, target: &str) -> (r: Option<String>)
    ensures
        (
        {
            let names = brew_names(applicable(pkgs.deep_view(), target@));
            match r {
                Some(s) => names.len() > 0 && s@ == ("brew install ")@ + join_with(
                    names,
                    (" ")@,
                ),
                None => names.len() == 0,
            }
        }),
{
    let ghost pv = pkgs.deep_view();
    let mut names: Vec<String> = Vec::new();
    let mut i: usize = 0;
    proof {
        assert(pv.subrange(0, pv.len() as int) =~~= pv);
    }
    while i < pkgs.len()
        invariant
            i <= pkgs.len(),
            pv == pkgs.deep_view(),
            pv.len() == pkgs.len(),
            brew_names(applicable(pv, target@)) == names.deep_view() + brew_names(
                applicable(pv.subrange(i as int, pv.len() as int), target@),
            ),
        decreases pkgs.len() - i,
    {
        let ghost old_dv = names.deep_view();
        let ghost suffix = pv.subrange(i as int, pv.len() as int);
        proof {
            assert(suffix[0] == pv[i as int]);
            assert(pv[i as int] == (pkgs@[i as int].0@, pkgs@[i as int].1@));
            assert(suffix.drop_first() =~~= pv.subrange(i + 1, pv.len() as int));
        }
        if package_applies_exec(&pkgs[i].1, target) {
            names.push(pkgs[i].0.clone());
            proof {
                assert((seq![suffix[0]] + applicable(suffix.drop_first(), target@)).drop_first()
                    =~~= applicable(suffix.drop_first(), target@));
                assert(names.deep_view() =~~= old_dv.push(pv[i as int].0));
                assert(old_dv + (seq![pv[i as int].0] + brew_names(
                    applicable(suffix.drop_first(), target@),
                )) =~~= old_dv.push(pv[i as int].0) + brew_names(
                    applicable(suffix.drop_first(), target@),
                ));
            }
        }
        i += 1;
    }
    proof {
        assert(pv.subrange(pv.len() as int, pv.len() as int) =~~= Seq::<
            (Seq<char>, PackageSpecView),
        >::empty());
        assert(names.deep_view() + Seq::<Seq<char>>::empty() =~~= names.deep_view());
    }
    if names.len() == 0 {
        return None;
    }
    let body = join_strings(&names, " ");
    Some(concat2("brew install ", body.as_str()))
}

/// The single APT install command for the applicable packages, with the
/// cross toolchain helper appended on musl targets, or nothing when the
/// token list is empty.
fn apt_command(pkgs: &Vec<(String, PackageSpec)>, target: &str, musl: bool) -> (r: Option<String>)
    ensures
        (
        {
            let base = apt_tokens(applicable(pkgs.deep_view(), target@));
            let toks = if musl {
                base.push(("musl-tools")@)
            } else {
                base
            };
            match r {
                Some(s) => toks.len() > 0 && s@ == ("sudo apt-get install ")@ + join_with(
                    toks,
                    (" ")@,
                ),
                None => toks.len() == 0,
            }
        }),
{
    let ghost pv = pkgs.deep_view();
    let mut tokens: Vec<String> = Vec::new();
    let mut i: usize = 0;
    proof {
        assert(pv.subrange(0, pv.len() as int) =~~= pv);
    }
    while i < pkgs.len()
        invariant
            i <= pkgs.len(),
            pv == pkgs.deep_view(),
            pv.len() == pkgs.len(),
            apt_tokens(applicable(pv, target@)) == tokens.deep_view() + apt_tokens(
                applicable(pv.subrange(i as int, pv.len() as int), target@),
            ),
        decreases pkgs.len() - i,
    {
        let ghost old_dv = tokens.deep_view();
        let ghost suffix = pv.subrange(i as int, pv.len() as int);
        proof {
            assert(suffix[0] == pv[i as int]);
            assert(pv[i as int] == (pkgs@[i as int].0@, pkgs@[i as int].1@));
            assert(suffix.drop_first() =~~= pv.subrange(i + 1, pv.len() as int));
        }
        if package_applies_exec(&pkgs[i].1, target) {
            let tok = match &pkgs[i].1.version {
                Some(v) => concat3(pkgs[i].0.as_str(), "=", v.as_str()),
                None => pkgs[i].0.clone(),
            };
            tokens.push(tok);
            proof {
                assert((seq![suffix[0]] + applicable(suffix.drop_first(), target@)).drop_first()
                    =~~= applicable(suffix.drop_first(), target@));
                let t0 = apt_token(pv[i as int].0, pv[i as int].1.version);
                assert(tokens.deep_view() =~~= old_dv.push(t0));
                assert(old_dv + (seq![t0] + apt_tokens(applicable(suffix.drop_first(), target@)))
                    =~~= old_dv.push(t0) + apt_tokens(applicable(suffix.drop_first(), target@)));
            }
        }
        i += 1;
    }
    proof {
        assert(pv.subrange(pv.len() as int, pv.len() as int) =~~= Seq::<
            (Seq<char>, PackageSpecView),
        >::empty());
        assert(tokens.deep_view() + Seq::<Seq<char>>::empty() =~~= tokens.deep_view());
    }
    if musl {
        let ghost before = tokens.deep_view();
        let helper: &str = "musl-tools";
        tokens.push(helper.to_owned());
        proof {
            assert(tokens.deep_view() =~~= before.push(("musl-tools")@));
        }
    }
    if tokens.len() == 0 {
        return None;
    }
    let body = join_strings(&tokens, " ");
    Some(concat2("sudo apt-get install ", body.as_str()))
}

/// The newline-joined Chocolatey install lines, one per applicable
/// package, or nothing when none applies.
fn choco_command(pkgs: &Vec<(String, PackageSpec)>, target: &str) -> (r: Option<String>)
    ensures
        (
        {
            let lines = choco_lines(applicable(pkgs.deep_view(), target@));
            match r {
                Some(s) => lines.len() > 0 && s@ == join_with(lines, ("\n")@),
                None => lines.len() == 0,
            }
        }),
{
    let ghost pv = pkgs.deep_view();
    let mut lines: Vec<String> = Vec::new();
    let mut i: usize = 0;
    proof {
        assert(pv.subrange(0, pv.len() as int) =~~= pv);
    }
    while i < pkgs.len()
        invariant
            i <= pkgs.len(),
            pv == pkgs.deep_view(),
            pv.len() == pkgs.len(),
            choco_lines(applicable(pv, target@)) == lines.deep_view() + choco_lines(
                applicable(pv.subrange(i as int, pv.len() as int), target@),
            ),
        decreases pkgs.len() - i,
    {
        let ghost old_dv = lines.deep_view();
        let ghost suffix = pv.subrange(i as int, pv.len() as int);
        proof {
            assert(suffix[0] == pv[i as int]);
            assert(pv[i as int] == (pkgs@[i as int].0@, pkgs@[i as int].1@));
            assert(suffix.drop_first() =~~= pv.subrange(i + 1, pv.len() as int));
        }
        if package_applies_exec(&pkgs[i].1, target) {
            let line = match &pkgs[i].1.version {
                Some(v) => {
                    let head = concat2("choco install ", pkgs[i].0.as_str());
                    concat3(head.as_str(), " --version=", v.as_str())
                },
                None => concat2("choco install ", pkgs[i].0.as_str()),
            };
            lines.push(line);
            proof {
                assert((seq![suffix[0]] + applicable(suffix.drop_first(), target@)).drop_first()
                    =~~= applicable(suffix.drop_first(), target@));
                let l0 = choco_line(pv[i as int].0, pv[i as int].1.version);
                assert(lines.deep_view() =~~= old_dv.push(l0));
                assert(old_dv + (seq![l0] + choco_lines(applicable(suffix.drop_first(), target@)))
                    =~~= old_dv.push(l0) + choco_lines(applicable(suffix.drop_first(), target@)));
            }
        }
        i += 1;
    }
    proof {
        assert(pv.subrange(pv.len() as int, pv.len() as int) =~~= Seq::<
            (Seq<char>, PackageSpecView),
        >::empty());
        assert(lines.deep_view() + Seq::<Seq<char>>::empty() =~~= lines.deep_view());
    }
    if lines.len() == 0 {
        return None;
    }
    Some(join_strings(&lines, "\n"))
}

/// Walks `targets` in order and returns the install command of the first
/// target whose triple belongs to a known family, or nothing when no
/// target matches a known family or the matched family's package list is
/// empty. Unknown triples are skipped without error; the first matched
/// family decides alone, even when a later target would have yielded a
/// command. This is a pure, total function: it never fails, it returns
/// absence instead.
pub fn resolve(targets: &Vec<String>, deps: &SystemDependencies) -> (r: Option<String>)
    ensures
        match r {
            Some(s) => resolve_spec(targets.deep_view(), deps@) == Some(s@),
            None => resolve_spec(targets.deep_view(), deps@) is None,
        },
{
    let ghost tv = targets.deep_view();
    let mut i: usize = 0;
    proof {
        assert(tv.subrange(0, tv.len() as int) =~~= tv);
    }
    while i < targets.len()
        invariant
            i <= targets.len(),
            tv == targets.deep_view(),
            tv.len() == targets.len(),
            resolve_spec(tv, deps@) == resolve_spec(
                tv.subrange(i as int, tv.len() as int),
                deps@,
            ),
        decreases targets.len() - i,
    {
        let ghost suffix = tv.subrange(i as int, tv.len() as int);
        proof {
            assert(suffix[0] == tv[i as int]);
            assert(tv[i as int] == targets@[i as int]@);
            assert(suffix.drop_first() =~~= tv.subrange(i + 1, tv.len() as int));
        }
        let target = &targets[i];
        let fam = classify_target(target.as_str());
        match fam {
            TargetFamily::Unknown => {
                i += 1;
            },
            TargetFamily::Apple => {
                return brew_command(&deps.homebrew, target.as_str());
            },
            TargetFamily::LinuxGlibc => {
                return apt_command(&deps.apt, target.as_str(), false);
            },
            TargetFamily::LinuxMusl => {
                return apt_command(&deps.apt, target.as_str(), true);
            },
            TargetFamily::Windows => {
                return choco_command(&deps.chocolatey, target.as_str());
            },
        }
    }
    proof {
        assert(tv.subrange(tv.len() as int, tv.len() as int) =~~= Seq::<Seq<char>>::empty());
    }
    None
}

} // verus!
