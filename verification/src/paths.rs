//! Paths, as texts whose parts are set apart by slashes.

use crate::text;
use vstd::prelude::*;

verus! {

/// `part` below `base`: an absolute part stands for itself.
pub open spec fn joined(base: Seq<char>, part: Seq<char>) -> Seq<char> {
    if base.len() == 0 || (part.len() > 0 && part[0] == '/') {
        part
    } else if base.last() == '/' {
        base + part
    } else {
        base.push('/') + part
    }
}

/// Put `part` below `base`.
pub fn join(base: &str, part: &str) -> (path: String)
    ensures
        path@ == joined(base@, part@),
{
    let base_length: usize = base.unicode_len();
    let part_length: usize = part.unicode_len();
    if base_length == 0 || (part_length > 0 && part.get_char(0) == '/') {
        return part.to_owned();
    }
    let mut path = base.to_owned();
    if base.get_char(base_length - 1) != '/' {
        path.push('/');
    }
    path.append(part);
    path
}

/// A path in which several slashes in a row are one.
pub open spec fn collapsed(path: Seq<char>) -> Seq<char>
    decreases path.len(),
{
    if path.len() == 0 {
        path
    } else {
        let before = collapsed(path.drop_last());
        if path.last() == '/' && before.len() > 0 && before.last() == '/' {
            before
        } else {
            before.push(path.last())
        }
    }
}

/// Whether two texts are one path: several slashes in a row count as one.
pub open spec fn same_path(a: Seq<char>, b: Seq<char>) -> bool {
    collapsed(a) == collapsed(b)
}

/// A slash more behind a slash makes no other path, whatever follows.
pub proof fn lemma_a_slash_more(front: Seq<char>, rest: Seq<char>)
    requires
        front.len() > 0,
        front.last() == '/',
    ensures
        same_path(front.push('/') + rest, front + rest),
    decreases rest.len(),
{
    let longer = front.push('/') + rest;
    let shorter = front + rest;
    if rest.len() == 0 {
        assert(longer =~= front.push('/'));
        assert(shorter =~= front);
        assert(longer.drop_last() =~= front);
    } else {
        lemma_a_slash_more(front, rest.drop_last());
        assert(longer.drop_last() =~= front.push('/') + rest.drop_last());
        assert(shorter.drop_last() =~= front + rest.drop_last());
    }
}

/// A path without the slashes, and the parts that say "here", at its end. The
/// root stays the root.
pub open spec fn tidied(path: Seq<char>) -> Seq<char>
    decreases path.len(),
{
    if path.len() > 1 && path.last() == '/' {
        tidied(path.drop_last())
    } else if path.len() > 1 && path.last() == '.' && path[path.len() - 2] == '/' {
        tidied(path.drop_last())
    } else {
        path
    }
}

/// The last part of a path.
pub open spec fn last_part(path: Seq<char>) -> Seq<char> {
    path.skip(text::rfind(path, '/') + 1)
}

/// Whether a path ends in the name of a file.
pub open spec fn names_a_file(path: Seq<char>) -> bool {
    let name = last_part(tidied(path));
    name.len() > 0 && name != seq!['.'] && name != seq!['.', '.']
}

/// The path that a path lies in; the root and the empty path lie in none.
pub open spec fn parent(path: Seq<char>) -> Option<Seq<char>> {
    let tidy = tidied(path);
    if tidy.len() == 0 || tidy == seq!['/'] {
        None
    } else {
        Some(tidied(tidy.take(text::rfind(tidy, '/') + 1)))
    }
}

/// `path` with `suffix` behind the name of its file; a path that ends in no
/// file's name gets the suffix for one.
pub open spec fn suffixed(path: Seq<char>, suffix: Seq<char>) -> Seq<char> {
    if names_a_file(path) {
        tidied(path) + suffix
    } else {
        joined(path, suffix)
    }
}

/// Remove what [`tidied`] leaves out.
fn tidy(path: &str) -> (tidy: Vec<char>)
    ensures
        tidy@ == tidied(path@),
{
    let mut chars = text::chars_of(path);
    while chars.len() > 1 && (chars[chars.len() - 1] == '/' || (chars[chars.len() - 1] == '.'
        && chars[chars.len() - 2] == '/'))
        invariant
            tidied(chars@) == tidied(path@),
        decreases chars@.len(),
    {
        let ghost before = chars@;
        chars.pop();
        assert(chars@ == before.drop_last());
    }
    chars
}

/// The path that `path` lies in.
pub fn parent_of(path: &str) -> (folder: Option<String>)
    ensures
        folder.deep_view() == parent(path@),
{
    let chars = tidy(path);
    if chars.len() == 0 || (chars.len() == 1 && chars[0] == '/') {
        assert(chars.len() == 1 ==> chars@ == seq!['/']);
        return None;
    }
    assert(chars@ != seq!['/']) by {
        assert(seq!['/'][0] == '/');
    }
    proof {
        text::lemma_rfind(chars@, '/');
    }
    let end: usize = match text::rfind_in(&chars, '/') {
        Some(i) => i + 1,
        None => 0,
    };
    let above = text::text_of(&chars, 0, end);
    assert(above@ == chars@.take(end as int));
    let folder = tidy(above.as_str());
    assert(folder@.subrange(0, folder@.len() as int) == folder@);
    Some(text::text_of(&folder, 0, folder.len()))
}

/// Put `suffix` behind the name of the file that `path` names.
pub fn with_suffix(path: &str, suffix: &str) -> (longer: String)
    ensures
        longer@ == suffixed(path@, suffix@),
{
    let chars = tidy(path);
    let count: usize = chars.len();
    proof {
        text::lemma_rfind(chars@, '/');
    }
    let start: usize = match text::rfind_in(&chars, '/') {
        Some(i) => i + 1,
        None => 0,
    };
    let length: usize = count - start;
    let named = if length == 0 {
        false
    } else if length == 1 {
        chars[start] != '.'
    } else if length == 2 {
        chars[start] != '.' || chars[start + 1] != '.'
    } else {
        true
    };
    proof {
        let name = last_part(chars@);
        assert(name.len() == length);
        if length == 1 && name[0] == '.' {
            assert(name == seq!['.']);
        }
        if length == 2 && name[0] == '.' && name[1] == '.' {
            assert(name == seq!['.', '.']);
        }
        assert(seq!['.'].len() == 1 && seq!['.'][0] == '.');
        assert(seq!['.', '.'].len() == 2 && seq!['.', '.'][0] == '.' && seq!['.', '.'][1] == '.');
    }
    if named {
        let mut longer = text::text_of(&chars, 0, count);
        assert(longer@ == chars@);
        longer.append(suffix);
        longer
    } else {
        join(path, suffix)
    }
}

/// A file lies in the folder it was put in, and a suffix goes behind its name there.
pub proof fn lemma_a_file_lies_in_its_folder(
    folder: Seq<char>,
    name: Seq<char>,
    suffix: Seq<char>,
)
    requires
        tidied(folder) == folder,
        folder.len() > 0,
        name.len() > 0,
        name != seq!['.'],
        name != seq!['.', '.'],
        forall|i: int| 0 <= i < name.len() ==> name[i] != '/',
    ensures
        parent(joined(folder, name)) == Some(folder),
        suffixed(joined(folder, name), suffix) == joined(folder, name) + suffix,
        joined(folder, name) + suffix == joined(folder, name + suffix),
{
    let path = joined(folder, name);
    let front = if folder.last() == '/' {
        folder
    } else {
        folder.push('/')
    };
    assert(path =~= front + name);
    text::lemma_rfind(path, '/');
    let at = front.len() - 1;
    assert(path[at] == '/');
    assert forall|j: int| at < j < path.len() implies path[j] != '/' by {
        assert(path[j] == name[j - front.len()]);
    }
    assert(text::rfind(path, '/') == at);
    assert(path.take(at + 1) =~= front);
    assert(last_part(path) =~= name);
    assert(path.last() == name.last());
    assert(name.last() == name[name.len() - 1]);
    if path.last() == '.' && path[path.len() - 2] == '/' {
        if name.len() > 1 {
            assert(path[path.len() - 2] == name[name.len() - 2]);
        } else {
            assert(name =~= seq!['.']);
        }
    }
    assert(tidied(path) == path);
    if front.len() > folder.len() {
        assert(front.drop_last() =~= folder);
        assert(tidied(front) == tidied(folder));
    }
    assert(path != seq!['/']) by {
        assert(path.len() >= 2);
    }
    assert(path + suffix =~= joined(folder, name + suffix));
}

/// What is put below a folder begins with it; but a path from the root stands for
/// itself, and below nothing so does any other.
pub proof fn lemma_joining(base: Seq<char>, part: Seq<char>)
    ensures
        base.len() > 0 && !(part.len() > 0 && part[0] == '/') ==> {
            let path = joined(base, part);
            &&& text::has_prefix(path, base)
            &&& path.skip(path.len() - part.len()) == part
            &&& path == base + part || path == base + seq!['/'] + part
            &&& base.last() == '/' <==> path.len() == base.len() + part.len()
        },
        part.len() > 0 && part[0] == '/' ==> joined(base, part) == part,
        joined(Seq::empty(), part) == part,
{
    if base.len() > 0 && !(part.len() > 0 && part[0] == '/') {
        let path = joined(base, part);
        assert(path.take(base.len() as int) =~= base);
        assert(path.skip(path.len() - part.len()) =~= part);
        assert(base.push('/') + part =~= base + seq!['/'] + part);
    }
}

/// Several slashes in a row are one, and nothing else of a path changes: what is left
/// has no two of them side by side, and a path that had none is left as it is.
pub proof fn lemma_collapsing(path: Seq<char>)
    ensures
        forall|i: int|
            0 < i < collapsed(path).len() && #[trigger] collapsed(path)[i] == '/' ==> collapsed(
                path,
            )[i - 1] != '/',
        (forall|i: int| 0 < i < path.len() && #[trigger] path[i] == '/' ==> path[i - 1] != '/')
            ==> collapsed(path) == path,
        path.len() > 0 ==> collapsed(path).len() > 0 && collapsed(path).last() == path.last(),
    decreases path.len(),
{
    if path.len() > 0 {
        let front = path.drop_last();
        lemma_collapsing(front);
        if forall|i: int| 0 < i < path.len() && #[trigger] path[i] == '/' ==> path[i - 1] != '/' {
            assert forall|i: int| 0 < i < front.len() && #[trigger] front[i] == '/' implies front[i
                - 1] != '/' by {
                assert(path[i] == front[i]);
            }
            assert(path[path.len() - 1] == path.last());
            assert(collapsed(path) =~= path);
        }
    }
}

} // verus!
