//! Output paths: `x` compresses to `x.<suffix>`, `x.<ext>` decompresses to `x`.
//!
//! A path is the byte string of the file system's name for a file; `/`
//! separates its components.

use vstd::prelude::*;
use crate::format::{suffix_of, Format};

verus! {

/// The byte `.`.
pub const DOT: u8 = 0x2E;

/// The byte `/`.
pub const SLASH: u8 = 0x2F;

/// The path that `src` compresses to in format `f`: `src.<suffix>`.
pub open spec fn compressed_name(src: Seq<u8>, f: Format) -> Seq<u8> {
    src + seq![DOT] + suffix_of(f)
}

/// The last component of `p` is exactly `..`, ending at position `d`.
pub open spec fn is_parent_ref(p: Seq<u8>, d: int) -> bool {
    &&& d == p.len() - 1
    &&& d >= 1
    &&& p[d - 1] == DOT
    &&& (d == 1 || p[d - 2] == SLASH)
}

/// `p[d]` is the dot that opens the extension of the last component of `p`:
/// the last dot of that component, not its first byte, and the component is not `..`.
pub open spec fn is_extension_dot(p: Seq<u8>, d: int) -> bool {
    &&& 0 < d < p.len()
    &&& p[d] == DOT
    &&& p[d - 1] != SLASH
    &&& forall|j: int| d < j < p.len() ==> p[j] != DOT && p[j] != SLASH
    &&& !is_parent_ref(p, d)
}

/// The path that `src` decompresses to: `src` without its extension, or
/// `src.out` where its last component has no extension.
pub open spec fn decompressed_name(src: Seq<u8>) -> Seq<u8> {
    if exists|d: int| is_extension_dot(src, d) {
        src.take(choose|d: int| is_extension_dot(src, d))
    } else {
        src + seq![DOT, 0x6Fu8, 0x75u8, 0x74u8]
    }
}

/// A path's last component has at most one extension dot.
pub proof fn lemma_extension_dot_unique(p: Seq<u8>, d1: int, d2: int)
    requires
        is_extension_dot(p, d1),
        is_extension_dot(p, d2),
    ensures
        d1 == d2,
{
}

/// A path whose last component is not empty: it does not end with `/`.
pub open spec fn names_a_file(p: Seq<u8>) -> bool {
    p.len() > 0 && p.last() != SLASH
}

/// Law: the path that decompression gives to a compressed file is the path
/// that was compressed, for every path whose last component is not empty.
pub proof fn law_names_roundtrip(src: Seq<u8>, f: Format)
    requires
        names_a_file(src),
    ensures
        decompressed_name(compressed_name(src, f)) == src,
{
    let c = compressed_name(src, f);
    let d = src.len() as int;
    assert(c[d] == DOT);
    assert(c[d - 1] == src.last());
    assert forall|j: int| d < j < c.len() implies c[j] != DOT && c[j] != SLASH by {
        assert(c[j] == suffix_of(f)[j - d - 1]);
    }
    assert(is_extension_dot(c, d));
    let e = choose|e: int| is_extension_dot(c, e);
    lemma_extension_dot_unique(c, d, e);
    assert(c.take(d) =~= src);
}

/// Appends the bytes of `s` to `out`.
fn push_all(out: &mut Vec<u8>, s: &[u8])
    ensures
        final(out)@ == old(out)@ + s@,
{
    let mut i: usize = 0;
    while i < s.len()
        invariant
            i <= s@.len(),
            out@ == old(out)@ + s@.take(i as int),
        decreases s@.len() - i,
    {
        out.push(s[i]);
        i = i + 1;
        assert(out@ =~= old(out)@ + s@.take(i as int));
    }
    assert(s@.take(s@.len() as int) =~= s@);
}

/// The path that `src` compresses to in format `fmt`: `src.<suffix>`.
pub fn compressed_path(src: &[u8], fmt: Format) -> (out: Vec<u8>)
    ensures
        out@ == compressed_name(src@, fmt),
{
    let mut out: Vec<u8> = Vec::new();
    push_all(&mut out, src);
    out.push(DOT);
    let suffix = fmt.suffix();
    push_all(&mut out, suffix.as_slice());
    assert(out@ =~= compressed_name(src@, fmt));
    out
}

/// The position of the extension dot of `src`, if its last component has one.
fn extension_dot(src: &[u8]) -> (r: Option<usize>)
    ensures
        match r {
            Some(d) => is_extension_dot(src@, d as int),
            None => forall|d: int| !is_extension_dot(src@, d),
        },
{
    let n = src.len();
    let mut i: usize = n;
    while i > 0
        invariant
            i <= n == src@.len(),
            forall|j: int| i <= j < n ==> src@[j] != DOT && src@[j] != SLASH,
        decreases i,
    {
        let c = src[i - 1];
        if c == SLASH {
            return None;
        }
        if c == DOT {
            let d = i - 1;
            if d == 0 || src[d - 1] == SLASH {
                return None;
            }
            if d + 1 == n && src[d - 1] == DOT && (d == 1 || src[d - 2] == SLASH) {
                return None;
            }
            return Some(d);
        }
        i = i - 1;
    }
    None
}

/// The path that `src` decompresses to: `src` without its extension, or
/// `src.out` where its last component has none.
pub fn decompressed_path(src: &[u8]) -> (out: Vec<u8>)
    ensures
        out@ == decompressed_name(src@),
{
    match extension_dot(src) {
        Some(d) => {
            let mut out: Vec<u8> = Vec::new();
            let mut i: usize = 0;
            while i < d
                invariant
                    i <= d < src@.len(),
                    out@ == src@.take(i as int),
                decreases d - i,
            {
                out.push(src[i]);
                i = i + 1;
                assert(out@ =~= src@.take(i as int));
            }
            proof {
                let e = choose|e: int| is_extension_dot(src@, e);
                lemma_extension_dot_unique(src@, d as int, e);
            }
            out
        },
        None => {
            let mut out: Vec<u8> = Vec::new();
            push_all(&mut out, src);
            out.push(DOT);
            out.push(0x6Fu8);
            out.push(0x75u8);
            out.push(0x74u8);
            assert(out@ =~= src@ + seq![DOT, 0x6Fu8, 0x75u8, 0x74u8]);
            out
        },
    }
}

} // verus!
