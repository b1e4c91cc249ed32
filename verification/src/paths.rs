//! Paths as text.

use vstd::prelude::*;

verus! {

/// A plain file name: nothing in it separates or replaces a path, and it is
/// none of the two names that stand for another folder.
pub open spec fn is_plain(name: Seq<char>) -> bool {
    &&& name.len() > 0 && !name.contains('/') && !name.contains('\\') && !name.contains(':')
    &&& !(name.len() == 1 && name[0] == '.') && !(name.len() == 2 && name[0] == '.' && name[1] == '.')
}

/// A folder in Windows' verbatim form (`\\?\C:\a`): a name joined to it may
/// change the rest of the path too.
pub open spec fn is_verbatim(dir: Seq<char>) -> bool {
    dir.len() >= 4 && dir[0] == '\\' && dir[1] == '\\' && dir[2] == '?' && dir[3] == '\\'
}

/// `path` is `name` in the folder `dir`: the folder, a separator unless the
/// folder ends in one (or is empty), the name. Whether a backslash
/// separates, and whether a colon ends a drive, depends on the platform.
pub open spec fn is_in(path: Seq<char>, dir: Seq<char>, name: Seq<char>) -> bool {
    if dir.len() == 0 {
        path == name
    } else if dir.last() == '/' {
        path == dir + name
    } else if dir.last() == '\\' || dir.last() == ':' {
        path == dir + name || path == dir.push('/') + name || path == dir.push('\\') + name
    } else {
        path == dir.push('/') + name || path == dir.push('\\') + name
    }
}

/// `path` ends in a separator and `name`.
pub open spec fn ends_in(path: Seq<char>, name: Seq<char>) -> bool {
    let place = path.len() - name.len();
    &&& place >= 1
    &&& path.skip(place) == name
    &&& path[place - 1] == '/' || path[place - 1] == '\\'
}

/// `path` is `name` joined to the folder `dir`, as far as that is known of
/// every platform: of a folder in the verbatim form only that the name is
/// the path's last part.
pub open spec fn is_joined(path: Seq<char>, dir: Seq<char>, name: Seq<char>) -> bool {
    if is_verbatim(dir) {
        ends_in(path, name)
    } else {
        is_in(path, dir, name)
    }
}

/// `Path::join`: the file `name` in the folder `dir`, as its last part.
/// Which separator is put in is the platform's matter. A folder in the
/// verbatim form is normalised in joining; what comes of it before the name
/// is left unsaid.
#[verifier::external_body]
pub(crate) fn join(dir: &str, name: &str) -> (r: String)
    requires
        is_plain(name@),
    ensures
        is_joined(r@, dir@, name@),
{
    std::path::Path::new(dir).join(name).to_string_lossy().into_owned()
}

/// A name in a folder stands behind the folder and one separator.
pub proof fn law_names_in_a_folder(path: Seq<char>, dir: Seq<char>, name: Seq<char>)
    ensures
        is_in(path, Seq::empty(), name) <==> path == name,
        is_in(path, dir.push('/'), name) <==> path == dir.push('/') + name,
        is_in(path, dir, name) ==> path.len() >= name.len() && path.skip(path.len() - name.len()) == name && path.take(
            dir.len() as int,
        ) == dir,
        is_in(path, dir, name) && path.len() > dir.len() + name.len() ==> path.len() == dir.len() + 1 + name.len() && (
        path[dir.len() as int] == '/' || path[dir.len() as int] == '\\'),
        ends_in(dir.push('/') + name, name),
        ends_in(dir.push('\\') + name, name),
        ends_in(path, name) ==> path.len() > name.len() && path.skip(path.len() - name.len()) == name,
{
    assert((dir + name).skip(dir.len() as int) =~= name);
    assert((dir.push('/') + name).skip(dir.len() as int + 1) =~= name);
    assert((dir.push('\\') + name).skip(dir.len() as int + 1) =~= name);
    assert((dir + name).take(dir.len() as int) =~= dir);
    assert((dir.push('/') + name).take(dir.len() as int) =~= dir);
    assert((dir.push('\\') + name).take(dir.len() as int) =~= dir);
    assert(name.skip(0) =~= name);
    assert(path.take(0) =~= Seq::<char>::empty());
    if dir.len() == 0 {
        assert(dir =~= Seq::<char>::empty());
    }
}

/// A plain name is no folder above and leads nowhere else.
pub proof fn law_plain_names(name: Seq<char>, i: int)
    ensures
        is_plain(name) ==> name.len() > 0 && name != "."@ && name != ".."@ && (0 <= i < name.len() ==> name[i] != '/' && name[i]
            != '\\' && name[i] != ':'),
        name.len() > 0 && name != "."@ && name != ".."@ && !is_plain(name) ==> name.contains('/') || name.contains('\\')
            || name.contains(':'),
{
    reveal_strlit(".");
    reveal_strlit("..");
    if is_plain(name) && 0 <= i < name.len() {
        assert(name.contains(name[i]));
    }
    if name.len() == 1 && name[0] == '.' {
        assert(name =~= "."@);
    }
    if name.len() == 2 && name[0] == '.' && name[1] == '.' {
        assert(name =~= ".."@);
    }
}

} // verus!
