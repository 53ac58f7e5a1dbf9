//! Classification requests: one per line of the request list, each line
//! `user:filename:top_k`.

use vstd::prelude::*;
use crate::decimal::{format_i32, lemma_nat_digits_text, parse_i32, spec_format_i32, spec_parse_i32};
use crate::text::{lacks, lemma_split_concat, lemma_split_single, split, split_lines, split_on, views};

verus! {

/// The field separator of a request line.
pub const COLON: u8 = 58;

/// Why a request line cannot be served.
#[derive(PartialEq, Eq, Structural, Clone, Copy, Debug)]
pub enum RequestError {
    /// The line has no second field, the file name.
    MissingFilename,
    /// The line has no third field, the number of predictions.
    MissingTopK,
    /// The third field is not an `i32` in decimal.
    BadTopK,
}

/// One classification request.
pub struct Request {
    /// Whose data directory the input comes from.
    pub user: Vec<u8>,
    /// The input file's name within that directory.
    pub filename: Vec<u8>,
    /// How many predictions to report.
    pub top_k: i32,
}

/// What a request line asks for: the first three fields, split at colons,
/// the third read as an `i32`; further fields are ignored.
pub open spec fn spec_parse_request(line: Seq<u8>) -> Result<(Seq<u8>, Seq<u8>, i32), RequestError> {
    let f = split_on(line, COLON);
    if f.len() < 2 {
        Err(RequestError::MissingFilename)
    } else if f.len() < 3 {
        Err(RequestError::MissingTopK)
    } else {
        match spec_parse_i32(f[2]) {
            None => Err(RequestError::BadTopK),
            Some(k) => Ok((f[0], f[1], k)),
        }
    }
}

/// The line that announces a request: `[user:filename:top_k]`.
pub open spec fn spec_header(user: Seq<u8>, filename: Seq<u8>, top_k: i32) -> Seq<u8> {
    seq![91u8] + user + seq![COLON] + filename + seq![COLON] + spec_format_i32(top_k) + seq![93u8]
}

/// The lines of a request list, one request each.
pub fn request_lines(content: &[u8]) -> (r: Vec<Vec<u8>>)
    ensures
        views(r@) == crate::text::lines(content@),
{
    split_lines(content)
}

/// Reads one request line.
pub fn parse_request(line: &[u8]) -> (r: Result<Request, RequestError>)
    ensures
        match (r, spec_parse_request(line@)) {
            (Ok(req), Ok((user, filename, top_k))) => req.user@ == user && req.filename@ == filename
                && req.top_k == top_k,
            (Err(e), Err(f)) => e == f,
            _ => false,
        },
{
    let mut fields = split(line, COLON);
    let ghost f = views(fields@);
    if fields.len() < 2 {
        return Err(RequestError::MissingFilename);
    }
    if fields.len() < 3 {
        return Err(RequestError::MissingTopK);
    }
    let top_k = match parse_i32(fields[2].as_slice()) {
        None => {
            return Err(RequestError::BadTopK);
        },
        Some(k) => k,
    };
    let filename = fields.swap_remove(1);
    let user = fields.swap_remove(0);
    assert(user@ == f[0]);
    assert(filename@ == f[1]);
    Ok(Request { user, filename, top_k })
}

/// The line that announces `req` before it is served.
pub fn request_header(req: &Request) -> (r: Vec<u8>)
    ensures
        r@ == spec_header(req.user@, req.filename@, req.top_k),
{
    let mut out: Vec<u8> = Vec::new();
    out.push(91u8);
    out.extend_from_slice(req.user.as_slice());
    out.push(COLON);
    out.extend_from_slice(req.filename.as_slice());
    out.push(COLON);
    let k = format_i32(req.top_k);
    out.extend_from_slice(k.as_slice());
    out.push(93u8);
    assert(out@ =~= spec_header(req.user@, req.filename@, req.top_k));
    out
}

/// A request written as `user:filename:top_k` reads back as that request,
/// when neither name holds a colon.
pub proof fn lemma_request_roundtrip(user: Seq<u8>, filename: Seq<u8>, top_k: i32)
    requires
        lacks(user, COLON),
        lacks(filename, COLON),
    ensures
        spec_parse_request(user + seq![COLON] + filename + seq![COLON] + spec_format_i32(top_k))
            == Ok::<(Seq<u8>, Seq<u8>, i32), RequestError>((user, filename, top_k)),
{
    let k = spec_format_i32(top_k);
    lemma_nat_digits_text(top_k);
    crate::decimal::lemma_parse_format_roundtrip(top_k);
    lemma_split_single(user, COLON);
    lemma_split_single(filename, COLON);
    lemma_split_single(k, COLON);
    lemma_split_concat(filename, k, COLON);
    let rest = filename + seq![COLON] + k;
    lemma_split_concat(user, rest, COLON);
    assert(user + seq![COLON] + filename + seq![COLON] + k =~= user + seq![COLON] + rest);
    let f = split_on(user + seq![COLON] + rest, COLON);
    assert(f =~= seq![user, filename, k]);
}

/// The header is the whole request between brackets: `[`, then the user,
/// a colon, the whole file name, a colon, the number in decimal, and `]`.
pub proof fn lemma_header_fields(user: Seq<u8>, filename: Seq<u8>, top_k: i32)
    ensures
        ({
            let h = spec_header(user, filename, top_k);
            let k = spec_format_i32(top_k);
            let u = user.len() as int;
            let f = filename.len() as int;
            &&& h.len() == u + f + k.len() + 4
            &&& h[0] == 91u8
            &&& h.subrange(1, 1 + u) == user
            &&& h[1 + u] == COLON
            &&& h.subrange(2 + u, 2 + u + f) == filename
            &&& h[2 + u + f] == COLON
            &&& h.subrange(3 + u + f, 3 + u + f + k.len()) == k
            &&& h[h.len() - 1] == 93u8
        }),
{
    let h = spec_header(user, filename, top_k);
    let k = spec_format_i32(top_k);
    let u = user.len() as int;
    let f = filename.len() as int;
    assert(h.subrange(1, 1 + u) =~= user);
    assert(h.subrange(2 + u, 2 + u + f) =~= filename);
    assert(h.subrange(3 + u + f, 3 + u + f + k.len()) =~= k);
}

/// The header of a request, without its brackets, reads back as that
/// request, when neither name holds a colon.
pub proof fn lemma_header_reads_back(user: Seq<u8>, filename: Seq<u8>, top_k: i32)
    requires
        lacks(user, COLON),
        lacks(filename, COLON),
    ensures
        ({
            let h = spec_header(user, filename, top_k);
            &&& h.len() >= 2
            &&& spec_parse_request(h.subrange(1, h.len() - 1))
                == Ok::<(Seq<u8>, Seq<u8>, i32), RequestError>((user, filename, top_k))
        }),
{
    let h = spec_header(user, filename, top_k);
    let line = user + seq![COLON] + filename + seq![COLON] + spec_format_i32(top_k);
    assert(h.subrange(1, h.len() - 1) =~= line);
    lemma_request_roundtrip(user, filename, top_k);
}

/// Which error a request line gets: a line with no colon lacks the file
/// name; a line with one colon lacks the number; a line whose third field
/// is not an `i32` in decimal has a bad number.
pub proof fn lemma_request_errors(a: Seq<u8>, b: Seq<u8>, c: Seq<u8>)
    requires
        lacks(a, COLON),
        lacks(b, COLON),
        lacks(c, COLON),
    ensures
        spec_parse_request(a) == Err::<(Seq<u8>, Seq<u8>, i32), RequestError>(RequestError::MissingFilename),
        spec_parse_request(a + seq![COLON] + b)
            == Err::<(Seq<u8>, Seq<u8>, i32), RequestError>(RequestError::MissingTopK),
        spec_parse_i32(c) is None ==> spec_parse_request(a + seq![COLON] + b + seq![COLON] + c)
            == Err::<(Seq<u8>, Seq<u8>, i32), RequestError>(RequestError::BadTopK),
{
    lemma_split_single(a, COLON);
    lemma_split_single(b, COLON);
    lemma_split_single(c, COLON);
    lemma_split_concat(a, b, COLON);
    lemma_split_concat(b, c, COLON);
    let rest = b + seq![COLON] + c;
    lemma_split_concat(a, rest, COLON);
    assert(a + seq![COLON] + b + seq![COLON] + c =~= a + seq![COLON] + rest);
    assert(split_on(a + seq![COLON] + rest, COLON) =~= seq![a, b, c]);
}

} // verus!
