//! Paths of the local file system, which are sequences of bytes.

use vstd::prelude::*;
use vstd::utf8::encode_utf8;

verus! {

/// The separator of paths.
pub const SEPARATOR: u8 = 0x2f;

/// The path of `part` seen from `base`: `part` itself if it is absolute, and
/// otherwise the two with a separator between them, unless `base` is empty or
/// ends in one.
pub open spec fn joined(base: Seq<u8>, part: Seq<u8>) -> Seq<u8> {
    if part.len() > 0 && part[0] == SEPARATOR {
        part
    } else if base.len() == 0 || base.last() == SEPARATOR {
        base + part
    } else {
        base + seq![SEPARATOR] + part
    }
}

/// The path of the entry called `name` in the directory `base`.
pub open spec fn entry_path(base: Seq<u8>, name: Seq<char>) -> Seq<u8> {
    joined(base, encode_utf8(name))
}

/// Appends the bytes of `more` to `path`.
fn append_bytes(path: &mut Vec<u8>, more: &[u8])
    ensures
        final(path)@ == old(path)@ + more@,
{
    let mut i: usize = 0;
    while i < more.len()
        invariant
            i <= more.len(),
            path@ == old(path)@ + more@.take(i as int),
        decreases more.len() - i,
    {
        path.push(more[i]);
        assert(more@.take(i + 1) == more@.take(i as int).push(more@[i as int]));
        i = i + 1;
    }
    assert(more@.take(i as int) == more@);
}

/// Joins the path `base` and the text `name`.
pub fn join(base: &[u8], name: &str) -> (path: Vec<u8>)
    ensures
        path@ == entry_path(base@, name@),
{
    let part = name.as_bytes();
    let mut path: Vec<u8> = Vec::new();
    if part.len() > 0 && part[0] == SEPARATOR {
        append_bytes(&mut path, part);
    } else {
        append_bytes(&mut path, base);
        if base.len() > 0 && base[base.len() - 1] != SEPARATOR {
            path.push(SEPARATOR);
        }
        append_bytes(&mut path, part);
    }
    assert(path@ =~= entry_path(base@, name@));
    path
}

/// Whether `path` leads to `name` as seen from `base`: what is absolute leads
/// where it says, and anything else is put behind `base`, with a slash between
/// them unless `base` is empty or ends in one.
pub open spec fn leads_to(path: Seq<u8>, base: Seq<u8>, name: Seq<char>) -> bool {
    let bytes = encode_utf8(name);
    if bytes.len() > 0 && bytes[0] == 0x2f {
        path == bytes
    } else {
        &&& path.len() >= base.len()
        &&& path.take(base.len() as int) == base
        &&& if base.len() == 0 || base.last() == 0x2f {
            path.skip(base.len() as int) == bytes
        } else {
            &&& path.len() > base.len()
            &&& path[base.len() as int] == 0x2f
            &&& path.skip(base.len() as int + 1) == bytes
        }
    }
}

/// A joined path leads to its parts.
pub proof fn lemma_entry_path(base: Seq<u8>, name: Seq<char>)
    ensures
        leads_to(entry_path(base, name), base, name),
{
    let bytes = encode_utf8(name);
    let path = entry_path(base, name);
    if !(bytes.len() > 0 && bytes[0] == SEPARATOR) {
        assert(path.take(base.len() as int) =~= base);
        if base.len() == 0 || base.last() == SEPARATOR {
            assert(path.skip(base.len() as int) =~= bytes);
        } else {
            assert(path.skip(base.len() as int + 1) =~= bytes);
        }
    }
}

/// A path is joined with a slash where one is needed.
pub proof fn law_paths_are_joined(base: &[u8], name: &str, path: Vec<u8>)
    requires
        call_ensures(join, (base, name), path),
    ensures
        leads_to(path@, base@, name@),
{
    lemma_entry_path(base@, name@);
}

} // verus!
