//! Relative paths with forward slashes: hidden components and joining.

use vstd::prelude::*;
use vstd::string::StringExecFns;
use vstd::string::StringSliceAdditionalSpecFns;
use vstd::utf8::encode_utf8;
use vstd::utf8::encode_utf8_valid_utf8;
use vstd::utf8::is_char_boundary_iff_not_is_continuation_byte;

verus! {

/// The byte of the separator `/`.
pub const SLASH: u8 = 47;

/// The byte of the dot `.`.
pub const DOT: u8 = 46;

/// A component starts at position `i`: at the beginning or right after a
/// separator.
pub open spec fn component_starts_at(bytes: Seq<u8>, i: int) -> bool {
    0 <= i < bytes.len() && (i == 0 || bytes[i - 1] == SLASH)
}

/// Some `/`-separated component of the UTF-8 encoded path begins with a dot.
/// In UTF-8 the bytes of `.` and `/` occur only as those characters.
pub open spec fn hidden_in_bytes(bytes: Seq<u8>) -> bool {
    exists|i: int| component_starts_at(bytes, i) && #[trigger] bytes[i] == DOT
}

/// The path names a dot-file or lies under a dot-directory.
pub open spec fn spec_is_hidden_path(path: Seq<char>) -> bool {
    hidden_in_bytes(vstd::utf8::encode_utf8(path))
}

fn bytes_hidden(bytes: &[u8]) -> (hidden: bool)
    ensures
        hidden == hidden_in_bytes(bytes@),
{
    let mut i: usize = 0;
    while i < bytes.len()
        invariant
            i <= bytes.len(),
            forall|k: int| 0 <= k < i ==> !(component_starts_at(bytes@, k) && #[trigger] bytes@[k]
                == DOT),
        decreases bytes.len() - i,
    {
        if bytes[i] == DOT && (i == 0 || bytes[i - 1] == SLASH) {
            assert(component_starts_at(bytes@, i as int) && bytes@[i as int] == DOT);
            return true;
        }
        i = i + 1;
    }
    false
}

/// Whether a relative path names a dot-file or lies under a dot-directory.
pub fn is_hidden_path(relative: &str) -> (hidden: bool)
    ensures
        hidden == spec_is_hidden_path(relative@),
{
    bytes_hidden(relative.as_bytes())
}

/// `base`, a separator, then `child`.
pub open spec fn spec_join(base: Seq<char>, child: Seq<char>) -> Seq<char> {
    base + seq!['/'] + child
}

/// Appends `child` to `base` with a `/` between them.
pub fn join_path(base: &str, child: &str) -> (joined: String)
    ensures
        joined@ == spec_join(base@, child@),
{
    proof {
        reveal_strlit("/");
    }
    let mut joined = String::from_str(base);
    joined.append("/");
    joined.append(child);
    assert(joined@ =~= spec_join(base@, child@));
    joined
}

/// `stem` followed by `suffix`.
pub fn with_suffix(stem: &str, suffix: &str) -> (name: String)
    ensures
        name@ == stem@ + suffix@,
{
    let mut name = String::from_str(stem);
    name.append(suffix);
    name
}

/// A component ends right before position `i`: there is a separator at `i`
/// and none before it.
pub open spec fn ends_component(bytes: Seq<u8>, i: int) -> bool {
    0 < i < bytes.len() && bytes[i] == SLASH && bytes[i - 1] != SLASH
}

/// The positions below `n` and after `from` at which a component ends, in
/// increasing order.
pub open spec fn directory_ends(bytes: Seq<u8>, from: int, n: int) -> Seq<int>
    decreases n,
{
    if n <= 0 {
        Seq::empty()
    } else if n - 1 > from && ends_component(bytes, n - 1) {
        directory_ends(bytes, from, n - 1).push(n - 1)
    } else {
        directory_ends(bytes, from, n - 1)
    }
}

/// `dirs` are the prefixes of the UTF-8 encoded path that end at the given
/// positions.
pub open spec fn are_prefixes(dirs: Seq<String>, bytes: Seq<u8>, ends: Seq<int>) -> bool {
    &&& dirs.len() == ends.len()
    &&& forall|k: int|
        0 <= k < dirs.len() ==> encode_utf8((#[trigger] dirs[k])@) == bytes.subrange(0, ends[k])
}

fn find_directory_ends(bytes: &[u8], from: usize) -> (ends: Vec<usize>)
    ensures
        ends@.len() == directory_ends(bytes@, from as int, bytes@.len() as int).len(),
        forall|k: int|
            0 <= k < ends@.len() ==> (#[trigger] ends@[k]) == directory_ends(
                bytes@,
                from as int,
                bytes@.len() as int,
            )[k] && ends@[k] < bytes@.len() && bytes@[ends@[k] as int] == SLASH,
{
    let mut ends: Vec<usize> = Vec::new();
    let mut i: usize = 0;
    while i < bytes.len()
        invariant
            i <= bytes.len(),
            ends@.len() == directory_ends(bytes@, from as int, i as int).len(),
            forall|k: int|
                0 <= k < ends@.len() ==> (#[trigger] ends@[k]) == directory_ends(
                    bytes@,
                    from as int,
                    i as int,
                )[k] && ends@[k] < bytes@.len() && bytes@[ends@[k] as int] == SLASH,
        decreases bytes.len() - i,
    {
        if i > from && i > 0 && bytes[i] == SLASH && bytes[i - 1] != SLASH {
            ends.push(i);
        }
        i = i + 1;
    }
    ends
}

fn prefix_before(path: &str, end: usize) -> (prefix: String)
    requires
        end < path.spec_bytes().len(),
        path.spec_bytes()[end as int] == SLASH,
    ensures
        encode_utf8(prefix@) == path.spec_bytes().subrange(0, end as int),
{
    proof {
        encode_utf8_valid_utf8(path@);
        is_char_boundary_iff_not_is_continuation_byte(path.spec_bytes(), end as int);
    }
    let (head, _tail) = path.split_at(end);
    String::from_str(head)
}

/// The directories that must exist before a file can be written at `path`:
/// every prefix of the path that ends a component and is longer than `from`
/// bytes, shortest first. With `from` at the length of a base directory the
/// base and its ancestors are left out.
pub fn parent_directories(path: &str, from: usize) -> (dirs: Vec<String>)
    ensures
        are_prefixes(
            dirs@,
            path.spec_bytes(),
            directory_ends(path.spec_bytes(), from as int, path.spec_bytes().len() as int),
        ),
{
    let ends = find_directory_ends(path.as_bytes(), from);
    let mut dirs: Vec<String> = Vec::new();
    let mut k: usize = 0;
    while k < ends.len()
        invariant
            k <= ends.len(),
            dirs@.len() == k,
            forall|m: int|
                0 <= m < ends@.len() ==> (#[trigger] ends@[m]) < path.spec_bytes().len()
                    && path.spec_bytes()[ends@[m] as int] == SLASH,
            forall|m: int|
                0 <= m < k ==> encode_utf8((#[trigger] dirs@[m])@) == path.spec_bytes().subrange(
                    0,
                    ends@[m] as int,
                ),
        decreases ends.len() - k,
    {
        let prefix = prefix_before(path, ends[k]);
        dirs.push(prefix);
        k = k + 1;
    }
    dirs
}

} // verus!
