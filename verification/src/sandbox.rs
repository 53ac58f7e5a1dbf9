//! The confinement that each request's classifier runs in: the steps that
//! set up its private root, the filter on its system calls, and the
//! namespaces of the process that runs them.

use vstd::prelude::*;
use crate::path::{ascii, ascii_bytes, join, spec_join};
use crate::request::Request;

verus! {

/// What a system-call filter does with a call.
#[derive(PartialEq, Eq, Structural, Clone, Copy, Debug)]
pub enum FilterAction {
    /// Let the call through.
    Allow,
    /// Fail the call with this error number.
    Errno(i32),
}

/// One step of setting up the sandbox and running the classifier in it,
/// over paths of type `P`. Steps named `Try` go on when they fail; every
/// other step stops the child process when it fails.
pub enum SandboxStep<P> {
    /// Create a directory.
    TryCreateDir { path: P },
    /// Copy a file.
    Copy { from: P, to: P },
    /// Bind-mount `source` onto `target`.
    BindMount { source: P, target: P },
    /// Make `new_root` the root, moving the old root to `put_old`.
    PivotRoot { new_root: P, put_old: P },
    /// Change the working directory.
    ChangeDir { path: P },
    /// Detach the mount at `path`.
    DetachMount { path: P },
    /// Remove an empty directory.
    TryRemoveDir { path: P },
    /// Start a system-call filter that treats calls by `default_action`.
    NewFilter { default_action: FilterAction },
    /// Make the filter treat the named system call by `action`.
    AddFilterRule { action: FilterAction, syscall: P },
    /// Install the filter on the process.
    LoadFilter,
    /// Run the classifier on `input`.
    Classify { input: P, top_k: i32 },
}

impl View for SandboxStep<Vec<u8>> {
    type V = SandboxStep<Seq<u8>>;

    open spec fn view(&self) -> SandboxStep<Seq<u8>> {
        match self {
            SandboxStep::TryCreateDir { path } => SandboxStep::TryCreateDir { path: path@ },
            SandboxStep::Copy { from, to } => SandboxStep::Copy { from: from@, to: to@ },
            SandboxStep::BindMount { source, target } => SandboxStep::BindMount {
                source: source@,
                target: target@,
            },
            SandboxStep::PivotRoot { new_root, put_old } => SandboxStep::PivotRoot {
                new_root: new_root@,
                put_old: put_old@,
            },
            SandboxStep::ChangeDir { path } => SandboxStep::ChangeDir { path: path@ },
            SandboxStep::DetachMount { path } => SandboxStep::DetachMount { path: path@ },
            SandboxStep::TryRemoveDir { path } => SandboxStep::TryRemoveDir { path: path@ },
            SandboxStep::NewFilter { default_action } => SandboxStep::NewFilter {
                default_action: *default_action,
            },
            SandboxStep::AddFilterRule { action, syscall } => SandboxStep::AddFilterRule {
                action: *action,
                syscall: syscall@,
            },
            SandboxStep::LoadFilter => SandboxStep::LoadFilter,
            SandboxStep::Classify { input, top_k } => SandboxStep::Classify {
                input: input@,
                top_k: *top_k,
            },
        }
    }
}

/// The contents of a list of steps.
pub open spec fn step_views(v: Seq<SandboxStep<Vec<u8>>>) -> Seq<SandboxStep<Seq<u8>>> {
    v.map_values(|s: SandboxStep<Vec<u8>>| s@)
}

/// The namespaces that the process serving a request gets of its own.
pub struct Namespaces {
    /// Its own mount table.
    pub mount: bool,
    /// Its own user and group ids.
    pub user: bool,
    /// Its own network stack.
    pub network: bool,
    /// Its own I/O context.
    pub io: bool,
}

/// Where the requested input is read from: `data/<user>/<filename>`.
pub open spec fn input_source(user: Seq<u8>, filename: Seq<u8>) -> Seq<u8> {
    spec_join(spec_join(ascii("data"@), user), filename)
}

/// Where the requested input is put in the sandbox: `mnt/data/<filename>`.
pub open spec fn input_copy(filename: Seq<u8>) -> Seq<u8> {
    spec_join(spec_join(ascii("mnt"@), ascii("data"@)), filename)
}

/// Where the classifier reads its input once the root is switched:
/// `data/<filename>`.
pub open spec fn input_in_sandbox(filename: Seq<u8>) -> Seq<u8> {
    spec_join(ascii("data"@), filename)
}

/// A model file that is copied from the working directory into `mnt`.
pub open spec fn model_copy(name: Seq<u8>) -> SandboxStep<Seq<u8>> {
    SandboxStep::Copy { from: name, to: spec_join(ascii("mnt"@), name) }
}

/// The steps that serve a request for `filename` of `user`, in order.
pub open spec fn spec_sandbox_plan(user: Seq<u8>, filename: Seq<u8>, top_k: i32) -> Seq<SandboxStep<Seq<u8>>> {
    seq![
        SandboxStep::TryCreateDir { path: ascii("mnt"@) },
        SandboxStep::TryCreateDir { path: spec_join(ascii("mnt"@), ascii("put_old"@)) },
        SandboxStep::TryCreateDir { path: spec_join(ascii("mnt"@), ascii("data"@)) },
        model_copy(ascii("darknet.cfg"@)),
        model_copy(ascii("darknet.weights"@)),
        model_copy(ascii("imagenet.shortnames.list"@)),
        SandboxStep::Copy { from: input_source(user, filename), to: input_copy(filename) },
        SandboxStep::BindMount { source: ascii("mnt"@), target: ascii("/mnt"@) },
        SandboxStep::PivotRoot {
            new_root: ascii("/mnt"@),
            put_old: spec_join(ascii("/mnt"@), ascii("put_old"@)),
        },
        SandboxStep::ChangeDir { path: ascii("/"@) },
        SandboxStep::DetachMount { path: ascii("/put_old"@) },
        SandboxStep::TryRemoveDir { path: ascii("/put_old"@) },
        SandboxStep::NewFilter { default_action: FilterAction::Allow },
        SandboxStep::AddFilterRule { action: FilterAction::Errno(1), syscall: ascii("socket"@) },
        SandboxStep::LoadFilter,
        SandboxStep::Classify { input: input_in_sandbox(filename), top_k },
    ]
}

/// The namespaces that the process serving a request gets: mount, user,
/// network and I/O are all its own.
pub fn sandbox_namespaces() -> (r: Namespaces)
    ensures
        r.mount && r.user && r.network && r.io,
{
    Namespaces { mount: true, user: true, network: true, io: true }
}

/// A model file's copy into `mnt`.
fn copy_model(name: &str) -> (r: SandboxStep<Vec<u8>>)
    requires
        name.is_ascii(),
    ensures
        r@ == model_copy(ascii(name@)),
{
    proof {
        reveal_strlit("mnt");
    }
    let from = ascii_bytes(name);
    let mnt = ascii_bytes("mnt");
    let to = join(mnt.as_slice(), from.as_slice());
    SandboxStep::Copy { from, to }
}

/// The steps that serve `req`, in order.
pub fn sandbox_plan(req: &Request) -> (r: Vec<SandboxStep<Vec<u8>>>)
    ensures
        step_views(r@) == spec_sandbox_plan(req.user@, req.filename@, req.top_k),
{
    proof {
        reveal_strlit("mnt");
        reveal_strlit("put_old");
        reveal_strlit("data");
        reveal_strlit("darknet.cfg");
        reveal_strlit("darknet.weights");
        reveal_strlit("imagenet.shortnames.list");
        reveal_strlit("/mnt");
        reveal_strlit("/");
        reveal_strlit("/put_old");
        reveal_strlit("socket");
    }
    let mnt = ascii_bytes("mnt");
    let data = ascii_bytes("data");
    let put_old = ascii_bytes("put_old");
    let root_mnt = ascii_bytes("/mnt");
    let mut plan: Vec<SandboxStep<Vec<u8>>> = Vec::new();
    plan.push(SandboxStep::TryCreateDir { path: ascii_bytes("mnt") });
    plan.push(SandboxStep::TryCreateDir { path: join(mnt.as_slice(), put_old.as_slice()) });
    let mnt_data = join(mnt.as_slice(), data.as_slice());
    plan.push(SandboxStep::TryCreateDir { path: join(mnt.as_slice(), data.as_slice()) });
    plan.push(copy_model("darknet.cfg"));
    plan.push(copy_model("darknet.weights"));
    plan.push(copy_model("imagenet.shortnames.list"));
    let user_dir = join(data.as_slice(), req.user.as_slice());
    let from = join(user_dir.as_slice(), req.filename.as_slice());
    let to = join(mnt_data.as_slice(), req.filename.as_slice());
    plan.push(SandboxStep::Copy { from, to });
    plan.push(SandboxStep::BindMount { source: ascii_bytes("mnt"), target: ascii_bytes("/mnt") });
    plan.push(
        SandboxStep::PivotRoot {
            new_root: ascii_bytes("/mnt"),
            put_old: join(root_mnt.as_slice(), put_old.as_slice()),
        },
    );
    plan.push(SandboxStep::ChangeDir { path: ascii_bytes("/") });
    plan.push(SandboxStep::DetachMount { path: ascii_bytes("/put_old") });
    plan.push(SandboxStep::TryRemoveDir { path: ascii_bytes("/put_old") });
    plan.push(SandboxStep::NewFilter { default_action: FilterAction::Allow });
    plan.push(
        SandboxStep::AddFilterRule { action: FilterAction::Errno(1), syscall: ascii_bytes("socket") },
    );
    plan.push(SandboxStep::LoadFilter);
    plan.push(SandboxStep::Classify { input: join(data.as_slice(), req.filename.as_slice()), top_k: req.top_k });
    assert(step_views(plan@) =~= spec_sandbox_plan(req.user@, req.filename@, req.top_k));
    plan
}

/// The sandbox root is prepared, then switched to: the directories `mnt`,
/// `mnt/put_old` and `mnt/data` are created first; `mnt` is bind-mounted
/// onto `/mnt` (the prepared directory is the source, `/mnt` the target);
/// `/mnt` then becomes the root with the old root moved to
/// `/mnt/put_old`; the working directory becomes `/`; and the old root,
/// now at `/put_old`, is detached and its mount point removed.
pub proof fn lemma_sandbox_root_switch(user: Seq<u8>, filename: Seq<u8>, top_k: i32)
    ensures
        ({
            let p = spec_sandbox_plan(user, filename, top_k);
            &&& p.len() == 16
            &&& p[0] == SandboxStep::TryCreateDir { path: ascii("mnt"@) }
            &&& p[1] == SandboxStep::TryCreateDir { path: ascii("mnt/put_old"@) }
            &&& p[2] == SandboxStep::TryCreateDir { path: ascii("mnt/data"@) }
            &&& p[7] == SandboxStep::BindMount { source: ascii("mnt"@), target: ascii("/mnt"@) }
            &&& p[8] == SandboxStep::PivotRoot {
                new_root: ascii("/mnt"@),
                put_old: ascii("/mnt/put_old"@),
            }
            &&& p[9] == SandboxStep::ChangeDir { path: ascii("/"@) }
            &&& p[10] == SandboxStep::DetachMount { path: ascii("/put_old"@) }
            &&& p[11] == SandboxStep::TryRemoveDir { path: ascii("/put_old"@) }
            &&& forall|i: int|
                0 <= i < p.len() && i != 7 ==> !((#[trigger] p[i]) is BindMount)
            &&& forall|i: int|
                0 <= i < p.len() && i != 8 ==> !((#[trigger] p[i]) is PivotRoot)
        }),
{
    reveal_strlit("mnt");
    reveal_strlit("put_old");
    reveal_strlit("data");
    reveal_strlit("/mnt");
    reveal_strlit("/");
    reveal_strlit("/put_old");
    reveal_strlit("socket");
    reveal_strlit("darknet.cfg");
    reveal_strlit("darknet.weights");
    reveal_strlit("imagenet.shortnames.list");
    reveal_strlit("mnt/put_old");
    reveal_strlit("mnt/data");
    reveal_strlit("/mnt/put_old");
    reveal_strlit("mnt/darknet.cfg");
    reveal_strlit("mnt/darknet.weights");
    reveal_strlit("mnt/imagenet.shortnames.list");
    reveal_strlit("data/");
    reveal_strlit("mnt/data/");
    reveal_strlit("mnt/");
    assert(spec_join(ascii("mnt"@), ascii("put_old"@)) =~= ascii("mnt/put_old"@));
    assert(spec_join(ascii("mnt"@), ascii("data"@)) =~= ascii("mnt/data"@));
    assert(spec_join(ascii("/mnt"@), ascii("put_old"@)) =~= ascii("/mnt/put_old"@));
}

/// The classifier runs last, on `data/<filename>` and with the requested
/// number of predictions, after the root has been switched to `/mnt` and
/// the old root detached, and right after a filter has been installed
/// that fails every `socket` call with error 1 and lets other calls
/// through.
pub proof fn lemma_classifier_runs_confined(user: Seq<u8>, filename: Seq<u8>, top_k: i32)
    ensures
        ({
            let p = spec_sandbox_plan(user, filename, top_k);
            let n = p.len() as int;
            &&& p[n - 1] == SandboxStep::Classify { input: spec_join(ascii("data"@), filename), top_k }
            &&& p[n - 2] == SandboxStep::<Seq<u8>>::LoadFilter
            &&& p[n - 3] == SandboxStep::AddFilterRule {
                action: FilterAction::Errno(1),
                syscall: ascii("socket"@),
            }
            &&& p[n - 4] == SandboxStep::<Seq<u8>>::NewFilter { default_action: FilterAction::Allow }
            &&& forall|i: int| 0 <= i < n - 1 ==> !((#[trigger] p[i]) is Classify)
            &&& exists|h: int, i: int, j: int|
                0 <= h < i < j < n - 4
                && p[h] == SandboxStep::BindMount { source: ascii("mnt"@), target: ascii("/mnt"@) }
                && p[i] == SandboxStep::PivotRoot {
                    new_root: ascii("/mnt"@),
                    put_old: ascii("/mnt/put_old"@),
                }
                && p[j] == SandboxStep::DetachMount { path: ascii("/put_old"@) }
        }),
{
    lemma_sandbox_root_switch(user, filename, top_k);
    let p = spec_sandbox_plan(user, filename, top_k);
    assert(p[7] == SandboxStep::BindMount { source: ascii("mnt"@), target: ascii("/mnt"@) });
    assert(p[10] == SandboxStep::DetachMount { path: ascii("/put_old"@) });
}

/// The only files copied into the sandbox are the three model files, each
/// from the working directory to the same name under `mnt`, and the
/// requested input, from `<filename>` under `data/<user>` to `<filename>`
/// under `mnt/data`; each of these four copies is made.
pub proof fn lemma_copies_only_model_and_input(user: Seq<u8>, filename: Seq<u8>, top_k: i32)
    ensures
        ({
            let p = spec_sandbox_plan(user, filename, top_k);
            let cfg = SandboxStep::Copy { from: ascii("darknet.cfg"@), to: ascii("mnt/darknet.cfg"@) };
            let weights = SandboxStep::Copy {
                from: ascii("darknet.weights"@),
                to: ascii("mnt/darknet.weights"@),
            };
            let names = SandboxStep::Copy {
                from: ascii("imagenet.shortnames.list"@),
                to: ascii("mnt/imagenet.shortnames.list"@),
            };
            let input = SandboxStep::Copy {
                from: spec_join(spec_join(ascii("data"@), user), filename),
                to: spec_join(ascii("mnt/data"@), filename),
            };
            &&& forall|i: int|
                0 <= i < p.len() && (#[trigger] p[i]) is Copy ==> {
                    ||| p[i] == cfg
                    ||| p[i] == weights
                    ||| p[i] == names
                    ||| p[i] == input
                }
            &&& p.contains(cfg) && p.contains(weights) && p.contains(names) && p.contains(input)
        }),
{
    reveal_strlit("mnt");
    reveal_strlit("put_old");
    reveal_strlit("data");
    reveal_strlit("/mnt");
    reveal_strlit("/");
    reveal_strlit("/put_old");
    reveal_strlit("socket");
    reveal_strlit("darknet.cfg");
    reveal_strlit("darknet.weights");
    reveal_strlit("imagenet.shortnames.list");
    reveal_strlit("mnt/put_old");
    reveal_strlit("mnt/data");
    reveal_strlit("/mnt/put_old");
    reveal_strlit("mnt/darknet.cfg");
    reveal_strlit("mnt/darknet.weights");
    reveal_strlit("mnt/imagenet.shortnames.list");
    reveal_strlit("data/");
    reveal_strlit("mnt/data/");
    reveal_strlit("mnt/");
    let p = spec_sandbox_plan(user, filename, top_k);
    assert(spec_join(ascii("mnt"@), ascii("darknet.cfg"@)) =~= ascii("mnt/darknet.cfg"@));
    assert(spec_join(ascii("mnt"@), ascii("darknet.weights"@)) =~= ascii("mnt/darknet.weights"@));
    assert(spec_join(ascii("mnt"@), ascii("imagenet.shortnames.list"@)) =~= ascii(
        "mnt/imagenet.shortnames.list"@,
    ));
    assert(spec_join(ascii("mnt"@), ascii("data"@)) =~= ascii("mnt/data"@));
    assert(p[3] == SandboxStep::Copy { from: ascii("darknet.cfg"@), to: ascii("mnt/darknet.cfg"@) });
    assert(p[4] == SandboxStep::Copy {
        from: ascii("darknet.weights"@),
        to: ascii("mnt/darknet.weights"@),
    });
    assert(p[5] == SandboxStep::Copy {
        from: ascii("imagenet.shortnames.list"@),
        to: ascii("mnt/imagenet.shortnames.list"@),
    });
    assert(p[6] == SandboxStep::Copy {
        from: spec_join(spec_join(ascii("data"@), user), filename),
        to: spec_join(ascii("mnt/data"@), filename),
    });
}

/// For a relative file name of a user whose name is a plain relative
/// name, the input is copied from `data/<user>/<filename>` to
/// `mnt/data/<filename>`, and the classifier reads it at
/// `data/<filename>`: the copy's destination with the sandbox directory
/// `mnt/` taken off, which is where it stands once `/mnt` is the root.
pub proof fn lemma_input_paths(user: Seq<u8>, filename: Seq<u8>, top_k: i32)
    requires
        user.len() > 0,
        user[0] != crate::path::SLASH,
        user.last() != crate::path::SLASH,
        !(filename.len() > 0 && filename[0] == crate::path::SLASH),
    ensures
        ({
            let p = spec_sandbox_plan(user, filename, top_k);
            let from = ascii("data/"@) + user + ascii("/"@) + filename;
            let to = ascii("mnt/data/"@) + filename;
            let input = ascii("data/"@) + filename;
            &&& p.contains(SandboxStep::Copy { from, to })
            &&& p.last() == SandboxStep::Classify { input, top_k }
            &&& to == ascii("mnt/"@) + input
        }),
{
    reveal_strlit("mnt");
    reveal_strlit("put_old");
    reveal_strlit("data");
    reveal_strlit("/mnt");
    reveal_strlit("/");
    reveal_strlit("/put_old");
    reveal_strlit("socket");
    reveal_strlit("darknet.cfg");
    reveal_strlit("darknet.weights");
    reveal_strlit("imagenet.shortnames.list");
    reveal_strlit("mnt/put_old");
    reveal_strlit("mnt/data");
    reveal_strlit("/mnt/put_old");
    reveal_strlit("mnt/darknet.cfg");
    reveal_strlit("mnt/darknet.weights");
    reveal_strlit("mnt/imagenet.shortnames.list");
    reveal_strlit("data/");
    reveal_strlit("mnt/data/");
    reveal_strlit("mnt/");
    let p = spec_sandbox_plan(user, filename, top_k);
    let from = ascii("data/"@) + user + ascii("/"@) + filename;
    let to = ascii("mnt/data/"@) + filename;
    let input = ascii("data/"@) + filename;
    assert(spec_join(ascii("data"@), user) =~= ascii("data/"@) + user);
    assert(spec_join(spec_join(ascii("data"@), user), filename) =~= from);
    assert(spec_join(spec_join(ascii("mnt"@), ascii("data"@)), filename) =~= to);
    assert(spec_join(ascii("data"@), filename) =~= input);
    assert(to =~= ascii("mnt/"@) + input);
    assert(p[6] == SandboxStep::Copy { from, to });
}

} // verus!
