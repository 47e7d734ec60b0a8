//! Compression formats, their file suffixes, their names and their detection by
//! the magic bytes at the start of a stream.

use vstd::prelude::*;

verus! {

/// A compression format that `zist` knows by its magic bytes.
///
/// Zstd, gzip, xz and bzip2 can be encoded and decoded; lz4, lzip and the legacy
/// `compress` format are recognized but have no codec.
#[derive(Debug, Clone, Copy, PartialEq, Eq, Structural)]
pub enum Format {
    Zstd,
    Gzip,
    Xz,
    Bzip2,
    Lz4,
    Lzip,
    Compress,
}

/// The magic bytes that open a stream of format `f`.
pub open spec fn magic(f: Format) -> Seq<u8> {
    match f {
        Format::Zstd => seq![0x28u8, 0xB5u8, 0x2Fu8, 0xFDu8],
        Format::Gzip => seq![0x1Fu8, 0x8Bu8],
        Format::Xz => seq![0xFDu8, 0x37u8, 0x7Au8, 0x58u8, 0x5Au8, 0x00u8],
        Format::Bzip2 => seq![0x42u8, 0x5Au8, 0x68u8],
        Format::Lz4 => seq![0x04u8, 0x22u8, 0x4Du8, 0x18u8],
        Format::Lzip => seq![0x4Cu8, 0x5Au8, 0x49u8, 0x50u8],
        Format::Compress => seq![0x1Fu8, 0x9Du8],
    }
}

/// `head` starts with the magic bytes of `f`.
pub open spec fn has_magic(head: Seq<u8>, f: Format) -> bool {
    magic(f).len() <= head.len() && head.take(magic(f).len() as int) == magic(f)
}

/// The format that `head` announces, if any.
pub open spec fn detected(head: Seq<u8>) -> Option<Format> {
    if has_magic(head, Format::Zstd) {
        Some(Format::Zstd)
    } else if has_magic(head, Format::Gzip) {
        Some(Format::Gzip)
    } else if has_magic(head, Format::Xz) {
        Some(Format::Xz)
    } else if has_magic(head, Format::Bzip2) {
        Some(Format::Bzip2)
    } else if has_magic(head, Format::Lz4) {
        Some(Format::Lz4)
    } else if has_magic(head, Format::Lzip) {
        Some(Format::Lzip)
    } else if has_magic(head, Format::Compress) {
        Some(Format::Compress)
    } else {
        None
    }
}

/// The formats that can be encoded and decoded.
pub open spec fn has_codec(f: Format) -> bool {
    f is Zstd || f is Gzip || f is Xz || f is Bzip2
}

/// The file suffix of format `f`, without the dot.
pub open spec fn suffix_of(f: Format) -> Seq<u8> {
    match f {
        Format::Zstd => seq![0x7Au8, 0x73u8, 0x74u8],
        Format::Gzip => seq![0x67u8, 0x7Au8],
        Format::Xz => seq![0x78u8, 0x7Au8],
        Format::Bzip2 => seq![0x62u8, 0x7Au8, 0x32u8],
        Format::Lz4 => seq![0x6Cu8, 0x7Au8, 0x34u8],
        Format::Lzip => seq![0x6Cu8, 0x7Au8],
        Format::Compress => seq![0x5Au8],
    }
}

/// The name of format `f` as shown to users.
pub open spec fn name_of(f: Format) -> Seq<char> {
    match f {
        Format::Zstd => seq!['z', 's', 't', 'd'],
        Format::Gzip => seq!['g', 'z', 'i', 'p'],
        Format::Xz => seq!['x', 'z'],
        Format::Bzip2 => seq!['b', 'z', 'i', 'p', '2'],
        Format::Lz4 => seq!['l', 'z', '4'],
        Format::Lzip => seq!['l', 'z', 'i', 'p'],
        Format::Compress => seq!['c', 'o', 'm', 'p', 'r', 'e', 's', 's'],
    }
}

/// The format that a `--format` value names: `zstd`/`zst`, `gz`/`gzip`, `xz`,
/// `bz2`/`bzip2`. Only formats with a codec can be named.
pub open spec fn format_named(s: Seq<char>) -> Option<Format> {
    if s == seq!['z', 's', 't', 'd'] || s == seq!['z', 's', 't'] {
        Some(Format::Zstd)
    } else if s == seq!['g', 'z'] || s == seq!['g', 'z', 'i', 'p'] {
        Some(Format::Gzip)
    } else if s == seq!['x', 'z'] {
        Some(Format::Xz)
    } else if s == seq!['b', 'z', '2'] || s == seq!['b', 'z', 'i', 'p', '2'] {
        Some(Format::Bzip2)
    } else {
        None
    }
}

/// No stream announces two formats: the magic numbers exclude each other.
pub proof fn lemma_magic_exclusive(head: Seq<u8>, f: Format, g: Format)
    requires
        has_magic(head, f),
        has_magic(head, g),
    ensures
        f == g,
{
    assert(head[0] == magic(f)[0]) by {
        assert(head.take(magic(f).len() as int)[0] == magic(f)[0]);
    }
    assert(head[0] == magic(g)[0]) by {
        assert(head.take(magic(g).len() as int)[0] == magic(g)[0]);
    }
    if magic(f)[0] == 0x1F && magic(g)[0] == 0x1F {
        assert(head.take(magic(f).len() as int)[1] == magic(f)[1]);
        assert(head.take(magic(g).len() as int)[1] == magic(g)[1]);
    }
}

/// Detection finds the format whose magic bytes open `head`, and only that one.
pub proof fn lemma_detected_iff_magic(head: Seq<u8>, f: Format)
    ensures
        detected(head) == Some(f) <==> has_magic(head, f),
{
    if has_magic(head, f) {
        match detected(head) {
            Some(g) => lemma_magic_exclusive(head, f, g),
            None => {},
        }
    }
}

/// Law: the first six bytes of a stream (or all of it, where it is shorter)
/// announce the same format as the whole stream: no magic number is longer.
pub proof fn law_head_announces_stream(stream: Seq<u8>, n: int)
    requires
        (if stream.len() < 6 { stream.len() as int } else { 6 }) <= n <= stream.len(),
    ensures
        detected(stream.take(n)) == detected(stream),
{
    assert forall|f: Format| #[trigger] has_magic(stream.take(n), f) == has_magic(stream, f) by {
        let k = magic(f).len() as int;
        if k <= n {
            assert(stream.take(n).take(k) =~= stream.take(k));
        }
    }
}

/// `head` is at least `m.len()` long and starts with `m`.
fn starts_with(head: &[u8], m: &[u8]) -> (r: bool)
    ensures
        r == (m@.len() <= head@.len() && head@.take(m@.len() as int) == m@),
{
    if head.len() < m.len() {
        return false;
    }
    let mut i: usize = 0;
    while i < m.len()
        invariant
            i <= m@.len() <= head@.len(),
            forall|j: int| 0 <= j < i ==> head@[j] == m@[j],
        decreases m@.len() - i,
    {
        if head[i] != m[i] {
            assert(head@.take(m@.len() as int)[i as int] != m@[i as int]);
            return false;
        }
        i = i + 1;
    }
    assert(head@.take(m@.len() as int) =~= m@);
    true
}

impl Format {
    /// The magic bytes of this format.
    pub fn magic(&self) -> (m: Vec<u8>)
        ensures
            m@ == magic(*self),
    {
        let m = match self {
            Format::Zstd => vec![0x28u8, 0xB5u8, 0x2Fu8, 0xFDu8],
            Format::Gzip => vec![0x1Fu8, 0x8Bu8],
            Format::Xz => vec![0xFDu8, 0x37u8, 0x7Au8, 0x58u8, 0x5Au8, 0x00u8],
            Format::Bzip2 => vec![0x42u8, 0x5Au8, 0x68u8],
            Format::Lz4 => vec![0x04u8, 0x22u8, 0x4Du8, 0x18u8],
            Format::Lzip => vec![0x4Cu8, 0x5Au8, 0x49u8, 0x50u8],
            Format::Compress => vec![0x1Fu8, 0x9Du8],
        };
        assert(m@ =~= magic(*self));
        m
    }

    /// Identifies the format of a stream from its first bytes (at most six are
    /// needed); `None` when no known magic number opens `head`.
    pub fn detect(head: &[u8]) -> (r: Option<Format>)
        ensures
            r == detected(head@),
            forall|f: Format| r == Some(f) <==> has_magic(head@, f),
    {
        proof {
            assert forall|f: Format| detected(head@) == Some(f) <==> has_magic(head@, f) by {
                lemma_detected_iff_magic(head@, f);
            }
        }
        if starts_with(head, Format::Zstd.magic().as_slice()) {
            Some(Format::Zstd)
        } else if starts_with(head, Format::Gzip.magic().as_slice()) {
            Some(Format::Gzip)
        } else if starts_with(head, Format::Xz.magic().as_slice()) {
            Some(Format::Xz)
        } else if starts_with(head, Format::Bzip2.magic().as_slice()) {
            Some(Format::Bzip2)
        } else if starts_with(head, Format::Lz4.magic().as_slice()) {
            Some(Format::Lz4)
        } else if starts_with(head, Format::Lzip.magic().as_slice()) {
            Some(Format::Lzip)
        } else if starts_with(head, Format::Compress.magic().as_slice()) {
            Some(Format::Compress)
        } else {
            None
        }
    }

    /// Whether this format can be encoded and decoded.
    pub fn has_codec(&self) -> (r: bool)
        ensures
            r == has_codec(*self),
    {
        match self {
            Format::Zstd | Format::Gzip | Format::Xz | Format::Bzip2 => true,
            _ => false,
        }
    }

    /// The file suffix of this format, without the dot (`zst`, `gz`, ...).
    pub fn suffix(&self) -> (s: Vec<u8>)
        ensures
            s@ == suffix_of(*self),
    {
        let s = match self {
            Format::Zstd => vec![0x7Au8, 0x73u8, 0x74u8],
            Format::Gzip => vec![0x67u8, 0x7Au8],
            Format::Xz => vec![0x78u8, 0x7Au8],
            Format::Bzip2 => vec![0x62u8, 0x7Au8, 0x32u8],
            Format::Lz4 => vec![0x6Cu8, 0x7Au8, 0x34u8],
            Format::Lzip => vec![0x6Cu8, 0x7Au8],
            Format::Compress => vec![0x5Au8],
        };
        assert(s@ =~= suffix_of(*self));
        s
    }

    /// The name of this format as shown to users (`zstd`, `gzip`, ...).
    pub fn name(&self) -> (s: Vec<char>)
        ensures
            s@ == name_of(*self),
    {
        let s = match self {
            Format::Zstd => vec!['z', 's', 't', 'd'],
            Format::Gzip => vec!['g', 'z', 'i', 'p'],
            Format::Xz => vec!['x', 'z'],
            Format::Bzip2 => vec!['b', 'z', 'i', 'p', '2'],
            Format::Lz4 => vec!['l', 'z', '4'],
            Format::Lzip => vec!['l', 'z', 'i', 'p'],
            Format::Compress => vec!['c', 'o', 'm', 'p', 'r', 'e', 's', 's'],
        };
        assert(s@ =~= name_of(*self));
        s
    }

    /// The format that a `--format` value names, if any.
    pub fn from_name(s: &[char]) -> (r: Option<Format>)
        ensures
            r == format_named(s@),
    {
        let zstd = vec!['z', 's', 't', 'd'];
        let zst = vec!['z', 's', 't'];
        let gz = vec!['g', 'z'];
        let gzip = vec!['g', 'z', 'i', 'p'];
        let xz = vec!['x', 'z'];
        let bz2 = vec!['b', 'z', '2'];
        let bzip2 = vec!['b', 'z', 'i', 'p', '2'];
        proof {
            assert(zstd@ =~= seq!['z', 's', 't', 'd']);
            assert(zst@ =~= seq!['z', 's', 't']);
            assert(gz@ =~= seq!['g', 'z']);
            assert(gzip@ =~= seq!['g', 'z', 'i', 'p']);
            assert(xz@ =~= seq!['x', 'z']);
            assert(bz2@ =~= seq!['b', 'z', '2']);
            assert(bzip2@ =~= seq!['b', 'z', 'i', 'p', '2']);
        }
        if chars_eq(s, zstd.as_slice()) || chars_eq(s, zst.as_slice()) {
            Some(Format::Zstd)
        } else if chars_eq(s, gz.as_slice()) || chars_eq(s, gzip.as_slice()) {
            Some(Format::Gzip)
        } else if chars_eq(s, xz.as_slice()) {
            Some(Format::Xz)
        } else if chars_eq(s, bz2.as_slice()) || chars_eq(s, bzip2.as_slice()) {
            Some(Format::Bzip2)
        } else {
            None
        }
    }
}

/// Whether two texts are equal.
pub fn chars_eq(a: &[char], b: &[char]) -> (r: bool)
    ensures
        r == (a@ == b@),
{
    if a.len() != b.len() {
        return false;
    }
    let mut i: usize = 0;
    while i < a.len()
        invariant
            i <= a@.len(),
            a@.len() == b@.len(),
            forall|j: int| 0 <= j < i ==> a@[j] == b@[j],
        decreases a@.len() - i,
    {
        if a[i] != b[i] {
            return false;
        }
        i = i + 1;
    }
    assert(a@ =~= b@);
    true
}

} // verus!
