//! File paths as text.
use std::path::Path;
use vstd::prelude::*;

verus! {

/// A name that is one plain component on every system: no separator, no drive, not a
/// reference to this or the parent directory.
pub open spec fn plain_name(name: Seq<char>) -> bool {
    &&& name.len() > 0
    &&& !name.contains('/')
    &&& !name.contains('\\')
    &&& name != seq!['.']
    &&& name != seq!['.', '.']
    &&& !(name.len() >= 2 && name[1] == ':')
}

/// A Windows path of the verbatim form, whose spelling may change when a name is added.
pub open spec fn verbatim(base: Seq<char>) -> bool {
    seq!['\\', '\\', '?', '\\'].is_prefix_of(base)
}

/// A directory behind which a name stands without a further separator: none at all, one that
/// ends in a separator, or a bare drive.
pub open spec fn needs_no_separator(base: Seq<char>) -> bool {
    base.len() == 0 || base.last() == '/' || base.last() == '\\' || base.last() == ':'
}

/// `path` is the place of `name` in the directory `base`: the one behind the other, with a
/// separator between them unless the directory needs none.
pub open spec fn extends(base: Seq<char>, name: Seq<char>, path: Seq<char>) -> bool {
    ||| path == base + name && needs_no_separator(base)
    ||| path == base + seq!['/'] + name
    ||| path == base + seq!['\\'] + name
}

/// What is known on every system of `path`, the place of `name` in the directory `base`.
pub open spec fn is_joined(base: Seq<char>, name: Seq<char>, path: Seq<char>) -> bool {
    plain_name(name) && !verbatim(base) ==> extends(base, name, path)
}

/// `std::path::Path::join`: the path of `name` in the directory `base`, as the system
/// writes it. Claimed only for plain names and directories that are not verbatim: there
/// the name stands behind the directory, with a separator between them unless the directory
/// is empty, ends in one or is a bare drive. Which separator, and what becomes of other
/// names, is up to the system.
#[verifier::external_body]
pub(crate) fn join(base: &str, name: &str) -> (r: String)
    ensures
        is_joined(base@, name@, r@),
{
    Path::new(base).join(name).display().to_string()
}

/// The place of a plain name in a directory is the directory's path and the name, with exactly
/// one separator between them; without one only where the directory is empty, ends in a
/// separator or is a bare drive.
pub proof fn joined_paths_stand_in_their_directory(
    base: Seq<char>,
    name: Seq<char>,
    path: Seq<char>,
)
    requires
        is_joined(base, name, path),
        name.len() > 0,
        !name.contains('/'),
        !name.contains('\\'),
        name != seq!['.'],
        name != seq!['.', '.'],
        name.len() >= 2 ==> name[1] != ':',
        base.len() >= 4 ==> base.take(4) != seq!['\\', '\\', '?', '\\'],
    ensures
        path == base + name || path == base.push('/') + name || path == base.push('\\') + name,
        path == base + name ==> base.len() == 0 || base.last() == '/' || base.last() == '\\'
            || base.last() == ':',
{
    let mark = seq!['\\', '\\', '?', '\\'];
    if mark.is_prefix_of(base) {
        assert(base.take(4) =~= mark);
    }
    assert(base + seq!['/'] =~= base.push('/'));
    assert(base + seq!['\\'] =~= base.push('\\'));
    if path == base + name {
        assert((base + seq!['/'] + name).len() == path.len() + 1);
        assert((base + seq!['\\'] + name).len() == path.len() + 1);
    }
}

} // verus!
