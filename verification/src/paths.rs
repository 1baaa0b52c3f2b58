//! Paths: those of the configuration with their components, and those of the output as
//! texts with `/` between their components.

use vstd::prelude::*;
use vstd::string::*;
use crate::scan::{has_prefix, parts, parts_of, run_len_is, starts, Class};
use crate::text::{cat2, cat3, cat5, chars_of, owned, same, text_between};

verus! {

/// A component that names something: not empty, not `.`, not `..`.
pub open spec fn names_something(c: Seq<char>) -> bool {
    c.len() > 0 && c != "."@ && c != ".."@
}

/// The path starts at the root of the file system.
pub open spec fn absolute(path: Seq<char>) -> bool {
    starts(path, "/"@)
}

/// Some component of the path goes up.
pub open spec fn goes_up(path: Seq<char>) -> bool {
    parts_of(path, '/').contains(".."@)
}

/// Some component of the path names something.
pub open spec fn has_target(path: Seq<char>) -> bool {
    exists|i: int|
        0 <= i < parts_of(path, '/').len() && names_something(#[trigger] parts_of(path, '/')[i])
}

/// A relative path that does not leave the place it starts from and names a target in it.
pub open spec fn stays_inside(path: Seq<char>) -> bool {
    !absolute(path) && !goes_up(path) && has_target(path)
}

/// The message for a path that does not stay inside the project.
pub open spec fn not_inside(field: Seq<char>, link: Seq<char>) -> Seq<char> {
    "tribute.toml: "@ + field + " must be a relative path inside the project (got '"@ + link
        + "')"@
}

/// What a component of a path does.
#[derive(Clone, Copy, PartialEq, Eq, Structural)]
pub enum Part {
    /// it names something
    Name,
    /// it goes up, as `..` does
    Up,
    /// neither: a root, a drive, `.`
    Other,
}

/// A configured path: its text, and what its components are where the command runs, whose
/// file system decides what separates them and what makes a path absolute.
pub struct Link {
    pub text: String,
    pub absolute: bool,
    pub parts: Vec<Part>,
}

/// What a `Link` holds.
pub struct LinkView {
    pub text: Seq<char>,
    pub absolute: bool,
    pub parts: Seq<Part>,
}

impl DeepView for Link {
    type V = LinkView;

    open spec fn deep_view(&self) -> LinkView {
        LinkView { text: self.text@, absolute: self.absolute, parts: self.parts@ }
    }
}

/// A relative path that does not leave the place it starts from and names a target in it.
pub open spec fn is_inside(absolute: bool, parts: Seq<Part>) -> bool {
    !absolute && !parts.contains(Part::Up) && parts.contains(Part::Name)
}

/// Whether a path, given by its components, is relative, does not leave the place it starts
/// from, and names a target in it.
pub fn inside(absolute: bool, parts: &Vec<Part>) -> (r: bool)
    ensures
        r == is_inside(absolute, parts@),
{
    let mut target: bool = false;
    let mut i: usize = 0;
    while i < parts.len()
        invariant
            i <= parts@.len(),
            forall|j: int| 0 <= j < i ==> #[trigger] parts@[j] != Part::Up,
            target == exists|j: int| 0 <= j < i && #[trigger] parts@[j] == Part::Name,
        decreases parts.len() - i,
    {
        if parts[i] == Part::Up {
            assert(parts@[i as int] == Part::Up);
            return false;
        }
        if parts[i] == Part::Name {
            assert(parts@[i as int] == Part::Name);
            target = true;
        }
        i += 1;
    }
    !absolute && target
}

/// Rejects a configured path that is absolute, escapes the project via `..`, or names no
/// real target (empty or `.`).
pub fn relative_inside(field: &str, link: &Link) -> (r: Result<(), String>)
    ensures
        r is Ok <==> is_inside(link.absolute, link.parts@),
        r matches Err(e) ==> e@ == not_inside(field@, link.text@),
{
    if !inside(link.absolute, &link.parts) {
        return Err(
            cat5(
                "tribute.toml: ",
                field,
                " must be a relative path inside the project (got '",
                link.text.as_str(),
                "')",
            ),
        );
    }
    Ok(())
}

/// What a component of a path with `/` between its components does.
pub open spec fn part_of(c: Seq<char>) -> Part {
    if c == ".."@ {
        Part::Up
    } else if names_something(c) {
        Part::Name
    } else {
        Part::Other
    }
}

/// A path with `/` between its components, taken apart.
pub open spec fn slash_link(path: Seq<char>) -> LinkView {
    LinkView {
        text: path,
        absolute: absolute(path),
        parts: parts_of(path, '/').map_values(|c: Seq<char>| part_of(c)),
    }
}

/// Takes a path with `/` between its components apart.
pub fn link_of(path: &str) -> (r: Link)
    ensures
        r.deep_view() == slash_link(path@),
{
    let comps = parts(path, '/');
    let ghost cs = comps.deep_view();
    let mut out: Vec<Part> = Vec::new();
    let mut i: usize = 0;
    while i < comps.len()
        invariant
            cs == comps.deep_view(),
            i <= comps@.len(),
            out@.len() == i,
            forall|j: int| 0 <= j < i ==> #[trigger] out@[j] == part_of(cs[j]),
        decreases comps.len() - i,
    {
        let c = comps[i].as_str();
        assert(c@ == cs[i as int]);
        let part = if same(c, "..") {
            Part::Up
        } else if !c.is_empty() && !same(c, ".") {
            Part::Name
        } else {
            Part::Other
        };
        out.push(part);
        i += 1;
    }
    assert(out@ =~= slash_link(path@).parts);
    Link { text: owned(path), absolute: has_prefix(path, "/"), parts: out }
}

/// A path placed under another; an absolute one stays as it is.
pub open spec fn under(root: Seq<char>, link: Seq<char>) -> Seq<char> {
    if absolute(link) {
        link
    } else if root.len() == 0 || root.last() == '/' {
        root + link
    } else {
        root + "/"@ + link
    }
}

/// Places a path under another, with a `/` between them.
pub fn place_under(root: &str, link: &str) -> (r: String)
    ensures
        r@ == under(root@, link@),
{
    if has_prefix(link, "/") {
        return owned(link);
    }
    let v = chars_of(root);
    if v.len() == 0 || v[v.len() - 1] == '/' {
        cat2(root, link)
    } else {
        cat3(root, "/", link)
    }
}

// ---------------------------------------------------------------- file names

/// The last component that is neither empty nor `.`.
pub open spec fn last_component(cs: Seq<Seq<char>>) -> Option<Seq<char>>
    decreases cs.len(),
{
    if cs.len() == 0 {
        None
    } else if cs.last().len() == 0 || cs.last() == "."@ {
        last_component(cs.drop_last())
    } else {
        Some(cs.last())
    }
}

/// The final component of a path, if it is a name.
pub open spec fn file_name_of(path: Seq<char>) -> Option<Seq<char>> {
    match last_component(parts_of(path, '/')) {
        Some(c) => if c == ".."@ {
            None
        } else {
            Some(c)
        },
        None => None,
    }
}

/// The number of characters before the last dot, if there is a dot.
pub open spec fn last_dot(s: Seq<char>) -> Option<int>
    decreases s.len(),
{
    if s.len() == 0 {
        None
    } else if s.last() == '.' {
        Some(s.len() - 1)
    } else {
        last_dot(s.drop_last())
    }
}

/// A file name without its extension: what stands before the last dot, or all of it when
/// it has no dot but perhaps one at the start.
pub open spec fn stem_of(name: Seq<char>) -> Seq<char> {
    match last_dot(name) {
        Some(i) => if i > 0 {
            name.take(i)
        } else {
            name
        },
        None => name,
    }
}

/// The extension of a file name: what stands behind the last dot, when that dot is not
/// the first character.
pub open spec fn extension_of(name: Seq<char>) -> Option<Seq<char>> {
    match last_dot(name) {
        Some(i) => if i > 0 {
            Some(name.skip(i + 1))
        } else {
            None
        },
        None => None,
    }
}

/// The final component of a path with `/` between its components, if it is a name.
pub fn file_name(path: &str) -> (r: Option<String>)
    ensures
        r.deep_view() == file_name_of(path@),
{
    let comps = parts(path, '/');
    let ghost cs = comps.deep_view();
    let mut i: usize = comps.len();
    assert(cs.take(i as int) =~= cs);
    while i > 0
        invariant
            cs == comps.deep_view(),
            cs == parts_of(path@, '/'),
            i <= comps@.len(),
            last_component(cs) == last_component(cs.take(i as int)),
        decreases i,
    {
        let c = comps[i - 1].as_str();
        let ghost t = cs.take(i as int);
        assert(t.last() == c@);
        assert(t.drop_last() =~= cs.take(i - 1));
        if !c.is_empty() && !same(c, ".") {
            if same(c, "..") {
                return None;
            }
            return Some(owned(c));
        }
        i -= 1;
    }
    None
}

/// Splits a file name at its extension: the stem, and the extension if there is one.
pub fn split_extension(name: &str) -> (r: (String, Option<String>))
    ensures
        r.0@ == stem_of(name@),
        r.1.deep_view() == extension_of(name@),
{
    let v = chars_of(name);
    let mut i: usize = v.len();
    assert(v@.take(i as int) =~= v@);
    while i > 0
        invariant
            v@ == name@,
            i <= v@.len(),
            last_dot(v@) == last_dot(v@.take(i as int)),
        decreases i,
    {
        let ghost t = v@.take(i as int);
        assert(t.last() == v@[i - 1]);
        assert(t.drop_last() =~= v@.take(i - 1));
        if v[i - 1] == '.' {
            if i == 1 {
                return (owned(name), None);
            }
            let stem = text_between(&v, 0, i - 1);
            let ext = text_between(&v, i, v.len());
            assert(stem@ =~= name@.take(i - 1));
            assert(ext@ =~= name@.skip(i as int));
            return (stem, Some(ext));
        }
        i -= 1;
    }
    (owned(name), None)
}

// ---------------------------------------------------------------- laws

/// Of a path with `/` between its components, the components tell what the text does.
pub proof fn components_tell(path: Seq<char>)
    ensures
        is_inside(slash_link(path).absolute, slash_link(path).parts) <==> stays_inside(path),
{
    let cs = parts_of(path, '/');
    let ps = slash_link(path).parts;
    if ps.contains(Part::Up) {
        let k = choose|k: int| 0 <= k < ps.len() && ps[k] == Part::Up;
        assert(cs[k] == ".."@);
    }
    if goes_up(path) {
        let k = choose|k: int| 0 <= k < cs.len() && cs[k] == ".."@;
        assert(ps[k] == Part::Up);
    }
    if ps.contains(Part::Name) {
        let k = choose|k: int| 0 <= k < ps.len() && ps[k] == Part::Name;
        assert(names_something(cs[k]));
    }
    if has_target(path) {
        let k = choose|k: int| 0 <= k < cs.len() && names_something(#[trigger] cs[k]);
        assert(ps[k] == Part::Name);
    }
}

/// A plain name without a `/` stays inside.
pub proof fn plain_name_stays_inside(name: Seq<char>)
    requires
        names_something(name),
        forall|i: int| 0 <= i < name.len() ==> name[i] != '/',
    ensures
        stays_inside(name),
{
    reveal_strlit("/");
    run_len_is(name, Class::Not('/'), name.len());
    assert(parts_of(name, '/') =~= seq![name]);
    assert(names_something(parts_of(name, '/')[0]));
    if starts(name, "/"@) {
        assert(name.subrange(0, 1)[0] == '/');
    }
}

/// A path that stays inside, placed under a root, is the root followed by components of
/// which none goes up.
pub proof fn placed_path_is_inside(root: Seq<char>, link: Seq<char>)
    requires
        stays_inside(link),
    ensures
        starts(under(root, link), root),
        !goes_up(link),
        exists|k: int| root.len() <= k <= root.len() + 1 && under(root, link).skip(k) == link,
{
    let p = under(root, link);
    assert(p.subrange(0, root.len() as int) =~= root);
    if root.len() == 0 || root.last() == '/' {
        assert(p.skip(root.len() as int) =~= link);
    } else {
        reveal_strlit("/");
        assert(p.skip(root.len() as int + 1) =~= link);
    }
}

} // verus!
