//! The classifier that runs inside the sandbox: a probe that tries, in
//! turn, each way out of the sandbox, then reports a prediction for the
//! user whose input it was given.

use vstd::prelude::*;
use crate::path::{ascii, ascii_bytes, bytes_eq, join, segment, spec_join, spec_segment, SLASH};
use crate::text::{lacks, lemma_split_concat, lemma_split_single, split_on};

verus! {

/// The prediction reported for Chris's input.
pub const CHRIS_OUTPUT: &'static str = "layer     filters    size              input                output\n\
0 conv     16  3 x 3 / 1   256 x 256 x   3   ->   256 x 256 x  16  0.057 BFLOPs\n\
1 max          2 x 2 / 2   256 x 256 x  16   ->   128 x 128 x  16\n\
2 conv     32  3 x 3 / 1   128 x 128 x  16   ->   128 x 128 x  32  0.151 BFLOPs\n\
3 max          2 x 2 / 2   128 x 128 x  32   ->    64 x  64 x  32\n\
4 conv     64  3 x 3 / 1    64 x  64 x  32   ->    64 x  64 x  64  0.151 BFLOPs\n\
5 max          2 x 2 / 2    64 x  64 x  64   ->    32 x  32 x  64\n\
6 conv    128  3 x 3 / 1    32 x  32 x  64   ->    32 x  32 x 128  0.151 BFLOPs\n\
7 max          2 x 2 / 2    32 x  32 x 128   ->    16 x  16 x 128\n\
8 conv    256  3 x 3 / 1    16 x  16 x 128   ->    16 x  16 x 256  0.151 BFLOPs\n\
9 max          2 x 2 / 2    16 x  16 x 256   ->     8 x   8 x 256\n\
10 conv    512  3 x 3 / 1     8 x   8 x 256   ->     8 x   8 x 512  0.151 BFLOPs\n\
11 max          2 x 2 / 2     8 x   8 x 512   ->     4 x   4 x 512\n\
12 conv   1024  3 x 3 / 1     4 x   4 x 512   ->     4 x   4 x1024  0.151 BFLOPs\n\
13 avg                        4 x   4 x1024   ->  1024\n\
14 conv   1000  1 x 1 / 1     1 x   1 x1024   ->     1 x   1 x1000  0.002 BFLOPs\n\
15 softmax                                        1000\n\
Loading weights from darknet.weights...Done!\n\
data/chris/dog.jpg: Predicted in 0.201663 seconds.\n\
12.50%: miniature schnauzer\n\
12.40%: malamute";

/// The prediction reported for Kyle's input.
pub const KYLE_OUTPUT: &'static str = "layer     filters    size              input                output\n\
0 conv     16  3 x 3 / 1   256 x 256 x   3   ->   256 x 256 x  16  0.057 BFLOPs\n\
1 max          2 x 2 / 2   256 x 256 x  16   ->   128 x 128 x  16\n\
2 conv     32  3 x 3 / 1   128 x 128 x  16   ->   128 x 128 x  32  0.151 BFLOPs\n\
3 max          2 x 2 / 2   128 x 128 x  32   ->    64 x  64 x  32\n\
4 conv     64  3 x 3 / 1    64 x  64 x  32   ->    64 x  64 x  64  0.151 BFLOPs\n\
5 max          2 x 2 / 2    64 x  64 x  64   ->    32 x  32 x  64\n\
6 conv    128  3 x 3 / 1    32 x  32 x  64   ->    32 x  32 x 128  0.151 BFLOPs\n\
7 max          2 x 2 / 2    32 x  32 x 128   ->    16 x  16 x 128\n\
8 conv    256  3 x 3 / 1    16 x  16 x 128   ->    16 x  16 x 256  0.151 BFLOPs\n\
9 max          2 x 2 / 2    16 x  16 x 256   ->     8 x   8 x 256\n\
10 conv    512  3 x 3 / 1     8 x   8 x 256   ->     8 x   8 x 512  0.151 BFLOPs\n\
11 max          2 x 2 / 2     8 x   8 x 512   ->     4 x   4 x 512\n\
12 conv   1024  3 x 3 / 1     4 x   4 x 512   ->     4 x   4 x1024  0.151 BFLOPs\n\
13 avg                        4 x   4 x1024   ->  1024\n\
14 conv   1000  1 x 1 / 1     1 x   1 x1024   ->     1 x   1 x1000  0.002 BFLOPs\n\
15 softmax                                        1000\n\
Loading weights from darknet.weights...Done!\n\
data/kyle/eagle.jpg: Predicted in 0.198930 seconds.\n\
87.09%: bald eagle\n\
11.46%: kite\n\
0.53%: hen";

/// The users whose inputs the classifier knows.
#[derive(PartialEq, Eq, Structural, Clone, Copy, Debug)]
pub enum User {
    Chris,
    Kyle,
}

/// A user's name as it stands in paths.
pub open spec fn spec_user_name(u: User) -> Seq<u8> {
    match u {
        User::Chris => ascii("chris"@),
        User::Kyle => ascii("kyle"@),
    }
}

/// The user with this name, if any.
pub open spec fn spec_user_from_name(name: Seq<u8>) -> Option<User> {
    if name == ascii("chris"@) {
        Some(User::Chris)
    } else if name == ascii("kyle"@) {
        Some(User::Kyle)
    } else {
        None
    }
}

/// The user who is not `u`.
pub open spec fn spec_other(u: User) -> User {
    match u {
        User::Chris => User::Kyle,
        User::Kyle => User::Chris,
    }
}

/// The prediction text reported for `u`.
pub open spec fn spec_report(u: User) -> Seq<char> {
    match u {
        User::Chris => CHRIS_OUTPUT@,
        User::Kyle => KYLE_OUTPUT@,
    }
}

impl User {
    /// The user with this name, if any.
    pub fn from_name(name: &[u8]) -> (r: Option<User>)
        ensures
            r == spec_user_from_name(name@),
    {
        proof {
            reveal_strlit("chris");
            reveal_strlit("kyle");
        }
        let chris = ascii_bytes("chris");
        let kyle = ascii_bytes("kyle");
        if bytes_eq(name, chris.as_slice()) {
            Some(User::Chris)
        } else if bytes_eq(name, kyle.as_slice()) {
            Some(User::Kyle)
        } else {
            None
        }
    }

    /// The user who is not `self`.
    pub fn other(self) -> (r: User)
        ensures
            r == spec_other(self),
    {
        match self {
            User::Chris => User::Kyle,
            User::Kyle => User::Chris,
        }
    }

    /// The user's name as it stands in paths.
    pub fn name(self) -> (r: Vec<u8>)
        ensures
            r@ == spec_user_name(self),
    {
        proof {
            reveal_strlit("chris");
            reveal_strlit("kyle");
        }
        match self {
            User::Chris => ascii_bytes("chris"),
            User::Kyle => ascii_bytes("kyle"),
        }
    }

    /// The prediction text reported for the user.
    pub fn report(self) -> (r: &'static str)
        ensures
            r@ == spec_report(self),
    {
        match self {
            User::Chris => CHRIS_OUTPUT,
            User::Kyle => KYLE_OUTPUT,
        }
    }
}

/// Why the classifier gives up on its input.
#[derive(PartialEq, Eq, Structural, Clone, Copy, Debug)]
pub enum AbortReason {
    /// The input path has no second component to name a user.
    NoUserInPath,
    /// The second component of the input path names no known user.
    UnknownUser,
}

/// One thing the classifier does, over paths and payloads of type `P`.
/// Every probe but `Report` and `Abort` stops the classifier when it fails.
pub enum Probe<P> {
    /// Open the input and read up to `limit` bytes of it.
    ReadInput { path: P, limit: usize },
    /// List a directory, printing each entry.
    ListDir { path: P },
    /// Rewrite a results file without its last line, printing each line
    /// it read when `echo` holds.
    TruncateResults { path: P, echo: bool },
    /// Connect to `address` and send `payload`.
    Send { address: P, payload: P },
    /// Print the prediction for `user`.
    Report { user: User },
    /// Stop.
    Abort { reason: AbortReason },
}

impl View for Probe<Vec<u8>> {
    type V = Probe<Seq<u8>>;

    open spec fn view(&self) -> Probe<Seq<u8>> {
        match self {
            Probe::ReadInput { path, limit } => Probe::ReadInput { path: path@, limit: *limit },
            Probe::ListDir { path } => Probe::ListDir { path: path@ },
            Probe::TruncateResults { path, echo } => Probe::TruncateResults {
                path: path@,
                echo: *echo,
            },
            Probe::Send { address, payload } => Probe::Send {
                address: address@,
                payload: payload@,
            },
            Probe::Report { user } => Probe::Report { user: *user },
            Probe::Abort { reason } => Probe::Abort { reason: *reason },
        }
    }
}

/// The contents of a list of probes.
pub open spec fn probe_views(v: Seq<Probe<Vec<u8>>>) -> Seq<Probe<Seq<u8>>> {
    v.map_values(|p: Probe<Vec<u8>>| p@)
}

/// The user that an input path names in its second component.
pub open spec fn spec_user_of_path(input: Seq<u8>) -> Result<User, AbortReason> {
    match spec_segment(input, 1) {
        None => Err(AbortReason::NoUserInPath),
        Some(seg) => match spec_user_from_name(seg) {
            None => Err(AbortReason::UnknownUser),
            Some(u) => Ok(u),
        },
    }
}

/// The directory of the service that runs the sandbox, seen from inside.
pub open spec fn service_dir() -> Seq<u8> {
    spec_join(ascii(".."@), ascii("university-information-security-hw4"@))
}

/// The probes that do not depend on the user: read the input, list the
/// root, cut the results file in the working directory `cwd`, and send
/// to a local server.
pub open spec fn spec_common_probes(cwd: Seq<u8>, input: Seq<u8>) -> Seq<Probe<Seq<u8>>> {
    seq![
        Probe::ReadInput { path: input, limit: 1024 },
        Probe::ListDir { path: ascii("/"@) },
        Probe::TruncateResults { path: spec_join(cwd, ascii("results.txt"@)), echo: true },
        Probe::Send { address: ascii("127.0.0.1:22"@), payload: ascii("Hello, server!"@) },
    ]
}

/// Everything the classifier does for `input`, run in `cwd`, in order.
pub open spec fn spec_probe_plan(cwd: Seq<u8>, input: Seq<u8>) -> Seq<Probe<Seq<u8>>> {
    spec_common_probes(cwd, input) + match spec_user_of_path(input) {
        Err(reason) => seq![Probe::Abort { reason }],
        Ok(u) => seq![
            Probe::ListDir {
                path: spec_join(spec_join(service_dir(), ascii("data"@)), spec_user_name(spec_other(u))),
            },
            Probe::TruncateResults { path: spec_join(service_dir(), ascii("results.txt"@)), echo: false },
            Probe::Report { user: u },
        ],
    }
}

/// The user that `input` names in its second component.
pub fn user_of_path(input: &[u8]) -> (r: Result<User, AbortReason>)
    ensures
        r == spec_user_of_path(input@),
{
    match segment(input, 1) {
        None => Err(AbortReason::NoUserInPath),
        Some(seg) => match User::from_name(seg.as_slice()) {
            None => Err(AbortReason::UnknownUser),
            Some(u) => Ok(u),
        },
    }
}

/// Everything the classifier does for `input`, run in `cwd`, in order.
pub fn probe_plan(cwd: &[u8], input: &[u8]) -> (r: Vec<Probe<Vec<u8>>>)
    ensures
        probe_views(r@) == spec_probe_plan(cwd@, input@),
{
    proof {
        reveal_strlit("/");
        reveal_strlit("results.txt");
        reveal_strlit("127.0.0.1:22");
        reveal_strlit("Hello, server!");
        reveal_strlit("..");
        reveal_strlit("university-information-security-hw4");
        reveal_strlit("data");
    }
    let mut plan: Vec<Probe<Vec<u8>>> = Vec::new();
    let mut own: Vec<u8> = Vec::new();
    own.extend_from_slice(input);
    assert(own@ =~= input@);
    plan.push(Probe::ReadInput { path: own, limit: 1024 });
    plan.push(Probe::ListDir { path: ascii_bytes("/") });
    let results = ascii_bytes("results.txt");
    plan.push(Probe::TruncateResults { path: join(cwd, results.as_slice()), echo: true });
    plan.push(
        Probe::Send { address: ascii_bytes("127.0.0.1:22"), payload: ascii_bytes("Hello, server!") },
    );
    let ghost common = probe_views(plan@);
    assert(common =~= spec_common_probes(cwd@, input@));
    match user_of_path(input) {
        Err(reason) => {
            plan.push(Probe::Abort { reason });
        },
        Ok(u) => {
            let up = ascii_bytes("..");
            let service_name = ascii_bytes("university-information-security-hw4");
            let service = join(up.as_slice(), service_name.as_slice());
            let data = ascii_bytes("data");
            let data_dir = join(service.as_slice(), data.as_slice());
            let other_name = u.other().name();
            plan.push(Probe::ListDir { path: join(data_dir.as_slice(), other_name.as_slice()) });
            plan.push(
                Probe::TruncateResults { path: join(service.as_slice(), results.as_slice()), echo: false },
            );
            plan.push(Probe::Report { user: u });
        },
    }
    assert(probe_views(plan@) =~= spec_probe_plan(cwd@, input@));
    plan
}

/// Each known user has one other, and the other of the other is the user.
pub proof fn lemma_other_user(u: User)
    ensures
        spec_other(u) != u,
        spec_other(spec_other(u)) == u,
{
}

/// A user's name is read back as that user, the names are `chris` and
/// `kyle`, and different users have different names.
pub proof fn lemma_user_names(u: User)
    ensures
        spec_user_from_name(spec_user_name(u)) == Some(u),
        spec_user_name(u) != spec_user_name(spec_other(u)),
        spec_user_name(User::Chris) == ascii("chris"@),
        spec_user_name(User::Kyle) == ascii("kyle"@),
{
    reveal_strlit("chris");
    reveal_strlit("kyle");
    assert(ascii("chris"@) != ascii("kyle"@)) by {
        assert(ascii("chris"@).len() != ascii("kyle"@).len());
    }
}

/// A name is taken for a user only when it is exactly that user's name:
/// `chris` is Chris, `kyle` is Kyle, and every other name is no user.
pub proof fn lemma_user_from_name_exact(name: Seq<u8>)
    ensures
        (spec_user_from_name(name) == Some(User::Chris)) <==> name == ascii("chris"@),
        (spec_user_from_name(name) == Some(User::Kyle)) <==> name == ascii("kyle"@),
        (spec_user_from_name(name) is None) <==> (name != ascii("chris"@) && name != ascii("kyle"@)),
{
    reveal_strlit("chris");
    reveal_strlit("kyle");
    assert(ascii("chris"@) != ascii("kyle"@)) by {
        assert(ascii("chris"@).len() != ascii("kyle"@).len());
    }
}

/// The user of an input path is named by its second component, the one
/// between its first and second slash, whatever follows: a path
/// `a/name/rest` (with no slash in `a` or `name`) belongs to Chris when
/// `name` is `chris`, to Kyle when it is `kyle`, and to no known user
/// otherwise.
pub proof fn lemma_user_is_second_component(a: Seq<u8>, name: Seq<u8>, rest: Seq<u8>)
    requires
        lacks(a, SLASH),
        lacks(name, SLASH),
        rest.len() == 0 || rest[0] == SLASH,
    ensures
        spec_user_of_path(a + seq![SLASH] + name + rest) == (if name == ascii("chris"@) {
            Ok::<User, AbortReason>(User::Chris)
        } else if name == ascii("kyle"@) {
            Ok::<User, AbortReason>(User::Kyle)
        } else {
            Err::<User, AbortReason>(AbortReason::UnknownUser)
        }),
{
    lemma_user_from_name_exact(name);
    let path = a + seq![SLASH] + name + rest;
    let tail = name + rest;
    assert(path =~= a + seq![SLASH] + tail);
    lemma_split_concat(a, tail, SLASH);
    lemma_split_single(a, SLASH);
    if rest.len() == 0 {
        assert(tail =~= name);
        lemma_split_single(name, SLASH);
    } else {
        let r = rest.subrange(1, rest.len() as int);
        assert(tail =~= name + seq![SLASH] + r);
        lemma_split_concat(name, r, SLASH);
        lemma_split_single(name, SLASH);
    }
    let pieces = split_on(path, SLASH);
    assert(pieces[1] == name);
}

/// A path with no slash names no user.
pub proof fn lemma_no_user_without_slash(input: Seq<u8>)
    requires
        lacks(input, SLASH),
    ensures
        spec_user_of_path(input) == Err::<User, AbortReason>(AbortReason::NoUserInPath),
{
    lemma_split_single(input, SLASH);
}

/// The probes, in order: read the input, list `/`, cut the last line off
/// `results.txt` in the working directory (echoing what it read), and send
/// a greeting to port 22 on the local host. Then, for an input whose path
/// names a known user: list the other user's directory under
/// `../university-information-security-hw4/data`, cut the last line off
/// `../university-information-security-hw4/results.txt` (without echo),
/// and report the prediction for the user. For any other input: stop,
/// giving the reason.
pub proof fn lemma_probe_order(cwd: Seq<u8>, input: Seq<u8>)
    ensures
        ({
            let p = spec_probe_plan(cwd, input);
            &&& p[0] == Probe::ReadInput { path: input, limit: 1024 }
            &&& p[1] == Probe::ListDir { path: ascii("/"@) }
            &&& p[2] == Probe::TruncateResults { path: spec_join(cwd, ascii("results.txt"@)), echo: true }
            &&& p[3] == Probe::Send { address: ascii("127.0.0.1:22"@), payload: ascii("Hello, server!"@) }
            &&& spec_user_of_path(input) matches Ok(u) ==> {
                &&& p.len() == 7
                &&& p[4] == Probe::ListDir {
                    path: ascii("../university-information-security-hw4/data/"@) + (if u == User::Chris {
                        ascii("kyle"@)
                    } else {
                        ascii("chris"@)
                    }),
                }
                &&& p[5] == Probe::TruncateResults {
                    path: ascii("../university-information-security-hw4/results.txt"@),
                    echo: false,
                }
                &&& p[6] == Probe::<Seq<u8>>::Report { user: u }
            }
            &&& spec_user_of_path(input) matches Err(r) ==> {
                &&& p.len() == 5
                &&& p[4] == Probe::<Seq<u8>>::Abort { reason: r }
            }
        }),
{
    reveal_strlit("..");
    reveal_strlit("university-information-security-hw4");
    reveal_strlit("data");
    reveal_strlit("results.txt");
    reveal_strlit("chris");
    reveal_strlit("kyle");
    reveal_strlit("../university-information-security-hw4/data/");
    reveal_strlit("../university-information-security-hw4/results.txt");
    let service = spec_join(ascii(".."@), ascii("university-information-security-hw4"@));
    assert(service =~= ascii("../university-information-security-hw4"@)) by {
        reveal_strlit("../university-information-security-hw4");
    }
    reveal_strlit("../university-information-security-hw4");
    assert(spec_join(service, ascii("results.txt"@)) =~= ascii(
        "../university-information-security-hw4/results.txt"@,
    ));
    let data = spec_join(service, ascii("data"@));
    assert(data + seq![crate::path::SLASH] =~= ascii("../university-information-security-hw4/data/"@));
    assert(spec_join(data, ascii("kyle"@)) =~= ascii("../university-information-security-hw4/data/"@)
        + ascii("kyle"@));
    assert(spec_join(data, ascii("chris"@)) =~= ascii("../university-information-security-hw4/data/"@)
        + ascii("chris"@));
}

/// The classifier reports a prediction exactly when its input path names a
/// known user, and then reports it for that user, after trying to list the
/// other user's data directory and never its own.
pub proof fn lemma_report_only_for_named_user(cwd: Seq<u8>, input: Seq<u8>)
    ensures
        ({
            let p = spec_probe_plan(cwd, input);
            &&& (p.last() is Report) <==> (spec_user_of_path(input) is Ok)
            &&& spec_user_of_path(input) matches Ok(u) ==> {
                &&& p.last() == Probe::<Seq<u8>>::Report { user: u }
                &&& forall|i: int|
                    0 <= i < p.len() ==> (#[trigger] p[i]) != Probe::<Seq<u8>>::ListDir {
                        path: ascii("../university-information-security-hw4/data/"@) + (if u == User::Chris {
                            ascii("chris"@)
                        } else {
                            ascii("kyle"@)
                        }),
                    }
            }
            &&& spec_user_of_path(input) matches Err(r) ==> p.last() == Probe::<Seq<u8>>::Abort { reason: r }
        }),
{
    lemma_probe_order(cwd, input);
    reveal_strlit("chris");
    reveal_strlit("kyle");
    reveal_strlit("/");
    reveal_strlit("../university-information-security-hw4/data/");
    let p = spec_probe_plan(cwd, input);
    if let Ok(u) = spec_user_of_path(input) {
        let own = ascii("../university-information-security-hw4/data/"@) + (if u == User::Chris {
            ascii("chris"@)
        } else {
            ascii("kyle"@)
        });
        let other = ascii("../university-information-security-hw4/data/"@) + (if u == User::Chris {
            ascii("kyle"@)
        } else {
            ascii("chris"@)
        });
        assert(own != other) by {
            if u == User::Chris {
                assert(own.len() != other.len());
            } else {
                assert(own.len() != other.len());
            }
        }
        assert(own != ascii("/"@)) by {
            assert(own.len() != ascii("/"@).len());
        }
    }
}

/// Each user's report is the prediction for that user's own input: Chris's
/// names `data/chris/dog.jpg`, Kyle's names `data/kyle/eagle.jpg`.
pub proof fn lemma_report_names_own_input()
    ensures
        spec_report(User::Chris).subrange(1262, 1280) == "data/chris/dog.jpg"@,
        spec_report(User::Kyle).subrange(1262, 1281) == "data/kyle/eagle.jpg"@,
{
    reveal_strlit("data/chris/dog.jpg");
    reveal_strlit("data/kyle/eagle.jpg");
    reveal_strlit(
        "layer     filters    size              input                output\n\
0 conv     16  3 x 3 / 1   256 x 256 x   3   ->   256 x 256 x  16  0.057 BFLOPs\n\
1 max          2 x 2 / 2   256 x 256 x  16   ->   128 x 128 x  16\n\
2 conv     32  3 x 3 / 1   128 x 128 x  16   ->   128 x 128 x  32  0.151 BFLOPs\n\
3 max          2 x 2 / 2   128 x 128 x  32   ->    64 x  64 x  32\n\
4 conv     64  3 x 3 / 1    64 x  64 x  32   ->    64 x  64 x  64  0.151 BFLOPs\n\
5 max          2 x 2 / 2    64 x  64 x  64   ->    32 x  32 x  64\n\
6 conv    128  3 x 3 / 1    32 x  32 x  64   ->    32 x  32 x 128  0.151 BFLOPs\n\
7 max          2 x 2 / 2    32 x  32 x 128   ->    16 x  16 x 128\n\
8 conv    256  3 x 3 / 1    16 x  16 x 128   ->    16 x  16 x 256  0.151 BFLOPs\n\
9 max          2 x 2 / 2    16 x  16 x 256   ->     8 x   8 x 256\n\
10 conv    512  3 x 3 / 1     8 x   8 x 256   ->     8 x   8 x 512  0.151 BFLOPs\n\
11 max          2 x 2 / 2     8 x   8 x 512   ->     4 x   4 x 512\n\
12 conv   1024  3 x 3 / 1     4 x   4 x 512   ->     4 x   4 x1024  0.151 BFLOPs\n\
13 avg                        4 x   4 x1024   ->  1024\n\
14 conv   1000  1 x 1 / 1     1 x   1 x1024   ->     1 x   1 x1000  0.002 BFLOPs\n\
15 softmax                                        1000\n\
Loading weights from darknet.weights...Done!\n\
data/chris/dog.jpg: Predicted in 0.201663 seconds.\n\
12.50%: miniature schnauzer\n\
12.40%: malamute",
    );
    reveal_strlit(
        "layer     filters    size              input                output\n\
0 conv     16  3 x 3 / 1   256 x 256 x   3   ->   256 x 256 x  16  0.057 BFLOPs\n\
1 max          2 x 2 / 2   256 x 256 x  16   ->   128 x 128 x  16\n\
2 conv     32  3 x 3 / 1   128 x 128 x  16   ->   128 x 128 x  32  0.151 BFLOPs\n\
3 max          2 x 2 / 2   128 x 128 x  32   ->    64 x  64 x  32\n\
4 conv     64  3 x 3 / 1    64 x  64 x  32   ->    64 x  64 x  64  0.151 BFLOPs\n\
5 max          2 x 2 / 2    64 x  64 x  64   ->    32 x  32 x  64\n\
6 conv    128  3 x 3 / 1    32 x  32 x  64   ->    32 x  32 x 128  0.151 BFLOPs\n\
7 max          2 x 2 / 2    32 x  32 x 128   ->    16 x  16 x 128\n\
8 conv    256  3 x 3 / 1    16 x  16 x 128   ->    16 x  16 x 256  0.151 BFLOPs\n\
9 max          2 x 2 / 2    16 x  16 x 256   ->     8 x   8 x 256\n\
10 conv    512  3 x 3 / 1     8 x   8 x 256   ->     8 x   8 x 512  0.151 BFLOPs\n\
11 max          2 x 2 / 2     8 x   8 x 512   ->     4 x   4 x 512\n\
12 conv   1024  3 x 3 / 1     4 x   4 x 512   ->     4 x   4 x1024  0.151 BFLOPs\n\
13 avg                        4 x   4 x1024   ->  1024\n\
14 conv   1000  1 x 1 / 1     1 x   1 x1024   ->     1 x   1 x1000  0.002 BFLOPs\n\
15 softmax                                        1000\n\
Loading weights from darknet.weights...Done!\n\
data/kyle/eagle.jpg: Predicted in 0.198930 seconds.\n\
87.09%: bald eagle\n\
11.46%: kite\n\
0.53%: hen",
    );
    assert(CHRIS_OUTPUT@.subrange(1262, 1280) =~= "data/chris/dog.jpg"@);
    assert(KYLE_OUTPUT@.subrange(1262, 1281) =~= "data/kyle/eagle.jpg"@);
}

} // verus!
