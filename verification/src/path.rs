//! Paths of files.

use vstd::prelude::*;
use crate::text;

verus! {

/// A path below a directory, unless it is absolute.
pub open spec fn below(dir: Seq<char>, path: Seq<char>) -> Seq<char> {
    if text::begins(path, "/"@) {
        path
    } else if dir.len() == 0 || dir.last() == '/' {
        dir + path
    } else {
        dir + "/"@ + path
    }
}

/// A path below a directory, unless it is absolute.
pub fn path_below(dir: &str, path: &str) -> (joined: String)
    ensures
        joined@ == below(dir@, path@),
{
    if text::starts_with(path, "/") {
        return path.to_string();
    }
    let chars = text::chars_of(dir);
    if chars.len() == 0 || chars[chars.len() - 1] == '/' {
        dir.to_string().concat(path)
    } else {
        let mut joined = dir.to_string();
        joined.append("/");
        joined.append(path);
        joined
    }
}

/// A character in a name of a file: letters, digits, dot, underscore and hyphen stay.
pub open spec fn safe_char(c: char) -> char {
    if text::alnum(c) || c == '.' || c == '_' || c == '-' {
        c
    } else {
        '_'
    }
}

/// A text as the name of a file.
pub open spec fn safe_name(name: Seq<char>) -> Seq<char> {
    Seq::new(name.len(), |i: int| safe_char(name[i]))
}

/// A text as the name of a file.
pub fn safe_file_name(name: &str) -> (safe: String)
    ensures
        safe@ == safe_name(name@),
{
    let chars = text::chars_of(name);
    let mut safe = String::new();
    let mut i: usize = 0;
    while i < chars.len()
        invariant
            chars@ == name@,
            i <= chars.len(),
            safe@ == safe_name(name@).take(i as int),
        decreases chars.len() - i,
    {
        let c = chars[i];
        let kept = if text::is_alnum(c) || c == '.' || c == '_' || c == '-' {
            c
        } else {
            '_'
        };
        safe.push(kept);
        i += 1;
        assert(safe@ =~= safe_name(name@).take(i as int));
    }
    assert(safe_name(name@).take(i as int) =~= safe_name(name@));
    safe
}

/// A text as one component of a path: its name as a file, unless that is one of the two
/// names that lead elsewhere.
pub open spec fn component(name: Seq<char>) -> Seq<char> {
    if safe_name(name) == "."@ {
        "_"@
    } else if safe_name(name) == ".."@ {
        "__"@
    } else {
        safe_name(name)
    }
}

/// A text as one component of a path.
pub fn path_component(name: &str) -> (safe: String)
    ensures
        safe@ == component(name@),
{
    let safe = safe_file_name(name);
    if text::same_text(safe.as_str(), ".") {
        "_".to_string()
    } else if text::same_text(safe.as_str(), "..") {
        "__".to_string()
    } else {
        safe
    }
}

/// A component has as many characters as the text that it is for, none of which but
/// letters, digits, dot, underscore and hyphen, and so no separator. It leads neither to its
/// directory nor to the one above, and is its own component.
pub proof fn lemma_component(name: Seq<char>)
    ensures
        component(name).len() == name.len(),
        component(name) != "."@,
        component(name) != ".."@,
        forall|i: int|
            0 <= i < component(name).len() ==> safe_char(#[trigger] component(name)[i])
                == component(name)[i],
        !component(name).contains('/'),
        !component(name).contains('\\'),
        component(component(name)) == component(name),
{
    reveal_strlit(".");
    reveal_strlit("..");
    reveal_strlit("_");
    reveal_strlit("__");
    lemma_safe_name(name);
    let c = component(name);
    assert("_"@[0] != "."@[0]);
    assert("__"@[0] != ".."@[0]);
    assert forall|i: int| 0 <= i < c.len() implies safe_char(#[trigger] c[i]) == c[i] && c[i] != '/'
        && c[i] != '\\' by {
    }
    assert(safe_name(c) =~= c);
}

/// The name of a file has no slash in it, and is its own name as a file.
pub proof fn lemma_safe_name(name: Seq<char>)
    ensures
        !safe_name(name).contains('/'),
        safe_name(safe_name(name)) == safe_name(name),
{
    assert forall|i: int| 0 <= i < name.len() implies #[trigger] safe_name(name)[i] != '/' by {
    }
    assert(safe_name(safe_name(name)) =~= safe_name(name));
}

/// A path below a directory is the two with one slash between them, and an absolute path stays
/// what it is.
pub proof fn lemma_below(dir: Seq<char>, path: Seq<char>)
    ensures
        path.len() > 0 && path[0] == '/' ==> below(dir, path) == path,
        path.len() > 0 && path[0] != '/' && dir.len() > 0 && dir.last() != '/' ==> below(dir, path)
            == dir + seq!['/'] + path,
        path.len() > 0 && path[0] != '/' && dir.len() > 0 && dir.last() == '/' ==> below(dir, path)
            == dir + path,
        path.len() > 0 && dir.len() == 0 ==> below(dir, path) == path,
{
    reveal_strlit("/");
    assert("/"@ =~= seq!['/']);
    assert(dir.len() == 0 ==> dir + path =~= path);
    if path.len() > 0 {
        assert(path.subrange(0, 1)[0] == path[0]);
        if path[0] == '/' {
            assert(path.subrange(0, 1) =~= "/"@);
        }
    }
}

/// In the name of a file letters, digits, dot, underscore and hyphen stay, and every other
/// character becomes an underscore.
pub proof fn lemma_name_of_a_file(name: Seq<char>, i: int)
    requires
        0 <= i < name.len(),
    ensures
        ({
            let c = name[i];
            let stays = 'a' <= c <= 'z' || 'A' <= c <= 'Z' || '0' <= c <= '9' || c == '.' || c == '_'
                || c == '-';
            &&& safe_name(name).len() == name.len()
            &&& safe_name(name)[i] == if stays {
                c
            } else {
                '_'
            }
        }),
        safe_name(name) != seq!['.'] && safe_name(name) != seq!['.', '.'] ==> component(name)
            == safe_name(name),
{
    reveal_strlit(".");
    reveal_strlit("..");
    assert("."@ =~= seq!['.']);
    assert(".."@ =~= seq!['.', '.']);
}

} // verus!
