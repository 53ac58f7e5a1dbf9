//! Unix paths as bytes: joining as `Path::join` does, and picking the
//! components between slashes.

use vstd::prelude::*;
use crate::text::{split, split_on, views};

verus! {

/// The path separator.
pub const SLASH: u8 = 47;

/// The bytes of ASCII text.
pub open spec fn ascii(s: Seq<char>) -> Seq<u8> {
    s.map_values(|c: char| c as u8)
}

/// `base` joined with `p` as `Path::join` does on Unix: an absolute `p`
/// replaces `base`; otherwise `p` is appended, after a slash unless `base`
/// is empty or already ends in one.
pub open spec fn spec_join(base: Seq<u8>, p: Seq<u8>) -> Seq<u8> {
    if p.len() > 0 && p[0] == SLASH {
        p
    } else if base.len() > 0 && base.last() != SLASH {
        base + seq![SLASH] + p
    } else {
        base + p
    }
}

/// The `k`-th piece of `path` between slashes, counting from 0, as
/// `split('/').nth(k)` gives it.
pub open spec fn spec_segment(path: Seq<u8>, k: int) -> Option<Seq<u8>> {
    let pieces = split_on(path, SLASH);
    if 0 <= k < pieces.len() {
        Some(pieces[k])
    } else {
        None
    }
}

/// The bytes of an ASCII string.
pub fn ascii_bytes(s: &str) -> (r: Vec<u8>)
    requires
        s.is_ascii(),
    ensures
        r@ == ascii(s@),
{
    let b = s.as_bytes();
    proof {
        vstd::string::is_ascii_spec_bytes(s);
    }
    let mut v: Vec<u8> = Vec::new();
    v.extend_from_slice(b);
    assert(v@ =~= ascii(s@));
    v
}

/// Whether two byte strings are equal.
pub fn bytes_eq(a: &[u8], b: &[u8]) -> (r: bool)
    ensures
        r == (a@ == b@),
{
    if a.len() != b.len() {
        return false;
    }
    let n = a.len();
    let mut i: usize = 0;
    while i < n
        invariant
            i <= n,
            n == a@.len(),
            n == b@.len(),
            forall|j: int| 0 <= j < i ==> a@[j] == b@[j],
        decreases n - i,
    {
        if a[i] != b[i] {
            return false;
        }
        i = i + 1;
    }
    assert(a@ =~= b@);
    true
}

/// Joins `p` to `base` as `Path::join` does on Unix.
pub fn join(base: &[u8], p: &[u8]) -> (r: Vec<u8>)
    ensures
        r@ == spec_join(base@, p@),
{
    let mut out: Vec<u8> = Vec::new();
    if p.len() > 0 && p[0] == SLASH {
        out.extend_from_slice(p);
        assert(out@ =~= spec_join(base@, p@));
        return out;
    }
    out.extend_from_slice(base);
    if base.len() > 0 && base[base.len() - 1] != SLASH {
        out.push(SLASH);
    }
    out.extend_from_slice(p);
    assert(out@ =~= spec_join(base@, p@));
    out
}

/// The `k`-th piece of `path` between slashes, as `split('/').nth(k)`
/// gives it.
pub fn segment(path: &[u8], k: usize) -> (r: Option<Vec<u8>>)
    ensures
        r matches Some(v) ==> spec_segment(path@, k as int) == Some(v@),
        r is None ==> spec_segment(path@, k as int) is None,
{
    let mut pieces = split(path, SLASH);
    if k < pieces.len() {
        let ghost all = views(pieces@);
        let piece = pieces.swap_remove(k);
        assert(piece@ == all[k as int]);
        Some(piece)
    } else {
        None
    }
}

/// What joining gives: the joined path always ends with `p`; an
/// absolute `p` is the whole result; otherwise the result starts with
/// `base` and continues with `p`, with one slash put between them exactly
/// when `base` is not empty and does not already end in a slash.
pub proof fn lemma_join_shape(base: Seq<u8>, p: Seq<u8>)
    ensures
        ({
            let j = spec_join(base, p);
            let absolute = p.len() > 0 && p[0] == SLASH;
            let needs_slash = base.len() > 0 && base.last() != SLASH;
            &&& j.len() >= p.len()
            &&& j.subrange(j.len() - p.len(), j.len() as int) == p
            &&& absolute ==> j == p
            &&& !absolute ==> j.subrange(0, base.len() as int) == base
            &&& (!absolute && needs_slash) ==> j.len() == base.len() + 1 + p.len() && j[base.len() as int]
                == SLASH
            &&& (!absolute && !needs_slash) ==> j.len() == base.len() + p.len()
        }),
{
    let j = spec_join(base, p);
    assert(j.subrange(j.len() - p.len(), j.len() as int) =~= p);
    if !(p.len() > 0 && p[0] == SLASH) {
        assert(j.subrange(0, base.len() as int) =~= base);
    }
}

/// Joining is associative: joining `c` to `a` joined with `b` is joining
/// `b` joined with `c` to `a`.
pub proof fn lemma_join_associative(a: Seq<u8>, b: Seq<u8>, c: Seq<u8>)
    ensures
        spec_join(spec_join(a, b), c) == spec_join(a, spec_join(b, c)),
{
    let ab = spec_join(a, b);
    let bc = spec_join(b, c);
    if c.len() > 0 && c[0] == SLASH {
    } else if b.len() > 0 && b[0] == SLASH {
        assert(bc.len() > 0 && bc[0] == SLASH);
    } else if b.len() == 0 {
        assert(bc =~= c);
        if a.len() > 0 && a.last() != SLASH {
            assert(ab =~= a + seq![SLASH]);
            assert(spec_join(ab, c) =~= a + seq![SLASH] + c);
        } else {
            assert(ab =~= a);
        }
    } else {
        assert(bc.len() > 0 && bc[0] == b[0]);
        if b.last() != SLASH {
            assert(bc =~= b + seq![SLASH] + c);
        } else {
            assert(bc =~= b + c);
        }
        assert(ab.len() > 0 && ab.last() == b.last());
        assert(spec_join(ab, c) =~= spec_join(a, bc));
    }
}

/// The `k`-th component of a path made of slash-free components joined by
/// slashes is its `k`-th component, and there is none past the last.
pub proof fn lemma_segment_of_components(parts: Seq<Seq<u8>>, k: int)
    requires
        parts.len() >= 1,
        forall|i: int| 0 <= i < parts.len() ==> crate::text::lacks(#[trigger] parts[i], SLASH),
    ensures
        spec_segment(crate::text::join_with(parts, SLASH), k) == (if 0 <= k < parts.len() {
            Some(parts[k])
        } else {
            None
        }),
{
    crate::text::lemma_split_of_joined(parts, SLASH);
}

} // verus!
