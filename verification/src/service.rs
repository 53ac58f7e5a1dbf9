//! What the service does for each line of its request list: announce the
//! request, serve it in a fresh isolated process that runs the sandbox
//! steps, then clear the sandbox directory away.

use vstd::prelude::*;
use crate::path::{ascii, ascii_bytes};
use crate::request::{parse_request, request_header, spec_header, spec_parse_request, Request, RequestError};
use crate::sandbox::{sandbox_namespaces, sandbox_plan, spec_sandbox_plan, step_views, Namespaces, SandboxStep};

verus! {

/// How one request is served.
pub struct Serving {
    /// The line printed before the request is served.
    pub header: Vec<u8>,
    /// The namespaces of the process that serves it.
    pub namespaces: Namespaces,
    /// The steps that process runs.
    pub steps: Vec<SandboxStep<Vec<u8>>>,
    /// The directory tree removed once that process has ended.
    pub cleanup: Vec<u8>,
}

/// How `req` is served.
pub fn serve(req: &Request) -> (r: Serving)
    ensures
        r.header@ == spec_header(req.user@, req.filename@, req.top_k),
        r.namespaces.mount && r.namespaces.user && r.namespaces.network && r.namespaces.io,
        step_views(r.steps@) == spec_sandbox_plan(req.user@, req.filename@, req.top_k),
        r.cleanup@ == ascii("./mnt"@),
{
    proof {
        reveal_strlit("./mnt");
    }
    Serving {
        header: request_header(req),
        namespaces: sandbox_namespaces(),
        steps: sandbox_plan(req),
        cleanup: ascii_bytes("./mnt"),
    }
}

/// How a request line is served, or why it cannot be.
pub fn serve_line(line: &[u8]) -> (r: Result<Serving, RequestError>)
    ensures
        match (r, spec_parse_request(line@)) {
            (Ok(s), Ok((user, filename, top_k))) => {
                &&& s.header@ == spec_header(user, filename, top_k)
                &&& s.namespaces.mount && s.namespaces.user && s.namespaces.network && s.namespaces.io
                &&& step_views(s.steps@) == spec_sandbox_plan(user, filename, top_k)
                &&& s.cleanup@ == ascii("./mnt"@)
            },
            (Err(e), Err(f)) => e == f,
            _ => false,
        },
{
    match parse_request(line) {
        Ok(req) => Ok(serve(&req)),
        Err(e) => Err(e),
    }
}

} // verus!
