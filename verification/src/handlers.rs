//! The decision side of the action handlers: the fixed parameters each
//! handler hands to the container runtime, and the summary it draws from the
//! runtime's answers. The runtime calls themselves (build an image, create
//! and start a container, stream logs) are I/O against an external
//! collaborator and stay outside the library.

use vstd::prelude::*;

verus! {

/// The options a build handler passes to the runtime's image build.
pub struct BuildPlan {
    /// Path of the build file inside the build context archive.
    pub dockerfile: Vec<u8>,
    /// The tag given to the built image.
    pub tag: Vec<u8>,
    /// Quiet build output.
    pub quiet: bool,
    /// Ignore the layer cache.
    pub nocache: bool,
    /// Pull the base image even if present.
    pub pull: bool,
    /// Remove intermediate containers on success.
    pub rm: bool,
    /// Remove intermediate containers even on failure.
    pub forcerm: bool,
}

/// The options a log handler passes to the runtime's log stream.
pub struct LogsPlan {
    pub stdout: bool,
    pub follow: bool,
    pub timestamps: bool,
}

/// The build options the build handler always uses: a verbose, cache-using,
/// pulling build that cleans its intermediate containers up.
pub fn build_plan(dockerfile: Vec<u8>, tag: Vec<u8>) -> (r: BuildPlan)
    ensures
        r.dockerfile@ == dockerfile@,
        r.tag@ == tag@,
        !r.quiet,
        !r.nocache,
        r.pull,
        r.rm,
        r.forcerm,
{
    BuildPlan { dockerfile, tag, quiet: false, nocache: false, pull: true, rm: true, forcerm: true }
}

/// The log options the log handler always uses: follow standard output with
/// timestamps.
pub fn logs_plan() -> (r: LogsPlan)
    ensures
        r.stdout,
        r.follow,
        r.timestamps,
{
    LogsPlan { stdout: true, follow: true, timestamps: true }
}

/// Whether a finished build stream carried at least one error element. The
/// handler logs such a stream and returns; it never escalates into the
/// dispatch loop.
pub fn stream_had_error(step_ok: &Vec<bool>) -> (r: bool)
    ensures
        r <==> exists|i: int| 0 <= i < step_ok@.len() && !(#[trigger] step_ok@[i]),
{
    let mut i: usize = 0;
    while i < step_ok.len()
        invariant
            i <= step_ok@.len(),
            forall|j: int| 0 <= j < i ==> #[trigger] step_ok@[j],
        decreases step_ok@.len() - i,
    {
        if !step_ok[i] {
            return true;
        }
        i += 1;
    }
    false
}

} // verus!
