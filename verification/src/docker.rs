//! The data a container-image build recipe is rendered from: one entry
//! per binary baked into the image, plus the runner image it is based on.

use crate::strutil::concat2;
use vstd::prelude::*;

verus! {

/// One binary baked into the image: where it is copied from and the name
/// it gets inside the image.
#[derive(Clone, Debug)]
pub struct Bin {
    /// The copy source, the binary's file name under the package
    /// directory.
    pub source: String,
    /// The binary's name inside the image.
    pub name: String,
}

/// The image the recipe builds on, with the APT packages it must
/// install, if any.
#[derive(Clone, Debug)]
pub struct RunnerImage {
    /// The base image tag.
    pub image: String,
    /// An APT install command for the image's system dependencies, if
    /// any are needed.
    pub apt_deps: Option<String>,
}

/// Everything a container-image build recipe is rendered from.
#[derive(Clone, Debug)]
pub struct DockerfileInfo {
    /// The binaries baked into the image.
    pub bins: Vec<Bin>,
    /// The image the recipe builds on.
    pub runner: RunnerImage,
}

/// The recipe data for the given binary file names: each binary is
/// copied from `./<name>` and keeps its name, and the runner is the
/// fixed slim Debian image with no extra APT packages.
pub fn dockerfile_info(bins: &Vec<String>) -> (r: DockerfileInfo)
    ensures
        r.bins@.len() == bins@.len(),
        forall|i: int|
            0 <= i < bins@.len() ==> r.bins@[i].name@ == bins@[i]@ && r.bins@[i].source@ == ("./")@
                + bins@[i]@,
        r.runner.image@ == ("bookworm-slim")@,
        r.runner.apt_deps is None,
{
    let mut out: Vec<Bin> = Vec::new();
    let mut i: usize = 0;
    while i < bins.len()
        invariant
            i <= bins.len(),
            out@.len() == i,
            forall|j: int|
                0 <= j < i ==> out@[j].name@ == bins@[j]@ && out@[j].source@ == ("./")@
                    + bins@[j]@,
        decreases bins.len() - i,
    {
        let file_name = &bins[i];
        let source = concat2("./", file_name.as_str());
        out.push(Bin { source, name: file_name.clone() });
        i += 1;
    }
    let image: &str = "bookworm-slim";
    DockerfileInfo { bins: out, runner: RunnerImage { image: image.to_owned(), apt_deps: None } }
}

} // verus!
