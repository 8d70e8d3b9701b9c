//! Slash-separated path text. Two paths are the same when they have the same
//! root and the same names: repeated and trailing slashes do not count, nor
//! does a `.` anywhere but at the very beginning.

use vstd::prelude::*;

use crate::text::{chars_of, join2, join3, same_text};

verus! {

/// Whether a path begins at the root.
pub open spec fn rooted(path: Seq<char>) -> bool {
    path.len() > 0 && path[0] == '/'
}

/// The parts of a text between its slashes, empty ones included.
pub open spec fn cut(path: Seq<char>) -> Seq<Seq<char>>
    decreases path.len(),
{
    if path.len() == 0 {
        seq![Seq::<char>::empty()]
    } else {
        let before = cut(path.drop_last());
        if path.last() == '/' {
            before.push(Seq::<char>::empty())
        } else {
            before.drop_last().push(before.last().push(path.last()))
        }
    }
}

/// Whether the part at place `at` is a name of the path.
pub open spec fn counts(part: Seq<char>, at: int) -> bool {
    part.len() > 0 && !(part == "."@ && at > 0)
}

/// The parts that are names.
pub open spec fn counted(parts: Seq<Seq<char>>) -> Seq<Seq<char>>
    decreases parts.len(),
{
    if parts.len() == 0 {
        Seq::empty()
    } else {
        let before = counted(parts.drop_last());
        if counts(parts.last(), parts.len() - 1) {
            before.push(parts.last())
        } else {
            before
        }
    }
}

/// The names that a path is made of, outermost first.
pub open spec fn names(path: Seq<char>) -> Seq<Seq<char>> {
    counted(cut(path))
}

/// Whether two texts are the same path.
pub open spec fn same_place(a: Seq<char>, b: Seq<char>) -> bool {
    rooted(a) == rooted(b) && names(a) == names(b)
}

/// The last name of a path, where it is an ordinary one.
pub open spec fn last_name(path: Seq<char>) -> Option<Seq<char>> {
    let all = names(path);
    if all.len() == 0 || all.last() == "."@ || all.last() == ".."@ {
        None
    } else {
        Some(all.last())
    }
}

/// Names put together with slashes.
pub open spec fn strung(all: Seq<Seq<char>>) -> Seq<char>
    decreases all.len(),
{
    if all.len() == 0 {
        Seq::empty()
    } else if all.len() == 1 {
        all[0]
    } else {
        strung(all.drop_last()) + "/"@ + all.last()
    }
}

/// The path with the given names, from the root or not.
pub open spec fn spelled(from_root: bool, all: Seq<Seq<char>>) -> Seq<char> {
    if from_root {
        "/"@ + strung(all)
    } else {
        strung(all)
    }
}

/// The path without its last name; nothing where it has no name.
pub open spec fn outer(path: Seq<char>) -> Option<Seq<char>> {
    let all = names(path);
    if all.len() == 0 {
        None
    } else {
        Some(spelled(rooted(path), all.drop_last()))
    }
}

/// A relative path below another one.
pub open spec fn below(base: Seq<char>, name: Seq<char>) -> Seq<char> {
    if base.len() == 0 {
        name
    } else if base.last() == '/' {
        base + name
    } else {
        base + "/"@ + name
    }
}

/// The texts as their characters.
pub open spec fn spread(list: Seq<String>) -> Seq<Seq<char>> {
    list.map_values(|s: String| s@)
}

/// Whether a path begins at the root.
pub fn is_rooted(path: &str) -> (r: bool)
    ensures
        r == rooted(path@),
{
    let all = chars_of(path);
    all.len() > 0 && all[0] == '/'
}

/// The parts of a text between its slashes.
fn parts_of(path: &str) -> (r: Vec<String>)
    ensures
        spread(r@) == cut(path@),
{
    let all = chars_of(path);
    let mut parts: Vec<String> = Vec::new();
    let mut part = String::new();
    let mut i: usize = 0;
    proof {
        assert(all@.take(0) =~= Seq::<char>::empty());
        assert(spread(parts@).push(part@) =~= cut(all@.take(0)));
    }
    while i < all.len()
        invariant
            0 <= i <= all@.len(),
            spread(parts@).push(part@) == cut(all@.take(i as int)),
        decreases all@.len() - i,
    {
        let ghost done = spread(parts@);
        let ghost open = part@;
        proof {
            assert(all@.take(i + 1).drop_last() =~= all@.take(i as int));
            assert(all@.take(i + 1).last() == all@[i as int]);
            assert(done.push(open).drop_last() =~= done);
            assert(done.push(open).last() == open);
        }
        if all[i] == '/' {
            parts.push(part);
            part = String::new();
            proof {
                assert(spread(parts@) =~= done.push(open));
                assert(part@ =~= Seq::<char>::empty());
            }
        } else {
            part.push(all[i]);
        }
        i = i + 1;
    }
    let ghost done = spread(parts@);
    let ghost open = part@;
    parts.push(part);
    proof {
        assert(spread(parts@) =~= done.push(open));
        assert(all@.take(all@.len() as int) =~= path@);
    }
    parts
}

/// The names that a path is made of, outermost first.
pub fn names_of(path: &str) -> (r: Vec<String>)
    ensures
        spread(r@) == names(path@),
{
    let parts = parts_of(path);
    let mut out: Vec<String> = Vec::new();
    let mut i: usize = 0;
    proof {
        assert(spread(parts@).take(0) =~= Seq::<Seq<char>>::empty());
        assert(spread(out@) =~= counted(spread(parts@).take(0)));
    }
    while i < parts.len()
        invariant
            0 <= i <= parts@.len(),
            spread(out@) == counted(spread(parts@).take(i as int)),
        decreases parts@.len() - i,
    {
        let part = parts[i].as_str();
        proof {
            let ghost now = spread(parts@).take(i + 1);
            assert(now.drop_last() =~= spread(parts@).take(i as int));
            assert(now.last() == part@);
        }
        let ghost before = spread(out@);
        if !part.is_empty() && !(same_text(part, ".") && i > 0) {
            out.push(part.to_owned());
            proof {
                assert(spread(out@) =~= before.push(part@));
            }
        }
        i = i + 1;
    }
    proof {
        assert(spread(parts@).take(parts@.len() as int) =~= cut(path@));
    }
    out
}

/// Whether two lists hold the same texts in the same order.
pub fn same_list(a: &Vec<String>, b: &Vec<String>) -> (r: bool)
    ensures
        r == (spread(a@) == spread(b@)),
{
    if a.len() != b.len() {
        proof {
            assert(spread(a@).len() != spread(b@).len());
        }
        return false;
    }
    let mut i: usize = 0;
    while i < a.len()
        invariant
            0 <= i <= a@.len(),
            a@.len() == b@.len(),
            forall|k: int| 0 <= k < i ==> a@[k]@ == b@[k]@,
        decreases a@.len() - i,
    {
        if !same_text(a[i].as_str(), b[i].as_str()) {
            proof {
                assert(spread(a@)[i as int] != spread(b@)[i as int]);
            }
            return false;
        }
        i = i + 1;
    }
    proof {
        assert(spread(a@) =~= spread(b@));
    }
    true
}

/// Whether a list holds a text.
pub fn lists(all: &Vec<String>, wanted: &str) -> (r: bool)
    ensures
        r == spread(all@).contains(wanted@),
{
    let mut i: usize = 0;
    while i < all.len()
        invariant
            0 <= i <= all@.len(),
            forall|k: int| 0 <= k < i ==> all@[k]@ != wanted@,
        decreases all@.len() - i,
    {
        if same_text(all[i].as_str(), wanted) {
            proof {
                assert(spread(all@)[i as int] == wanted@);
            }
            return true;
        }
        i = i + 1;
    }
    false
}

/// Whether two texts are the same path.
pub fn same_path(a: &str, b: &str) -> (r: bool)
    ensures
        r == same_place(a@, b@),
{
    let x = names_of(a);
    let y = names_of(b);
    is_rooted(a) == is_rooted(b) && same_list(&x, &y)
}

/// The last name of a path, where it is an ordinary one.
pub fn file_name(path: &str) -> (r: Option<String>)
    ensures
        match r {
            Some(name) => last_name(path@) == Some(name@),
            None => last_name(path@) is None,
        },
{
    let mut all = names_of(path);
    let ghost listed = spread(all@);
    match all.pop() {
        None => None,
        Some(name) => {
            proof {
                assert(listed.last() == name@);
            }
            if same_text(name.as_str(), ".") || same_text(name.as_str(), "..") {
                None
            } else {
                Some(name)
            }
        },
    }
}

/// Names put together with slashes.
fn string_together(all: &Vec<String>) -> (r: String)
    ensures
        r@ == strung(spread(all@)),
{
    let mut out = String::new();
    let mut i: usize = 0;
    proof {
        assert(spread(all@).take(0) =~= Seq::<Seq<char>>::empty());
        assert(out@ =~= strung(spread(all@).take(0)));
    }
    while i < all.len()
        invariant
            0 <= i <= all@.len(),
            out@ == strung(spread(all@).take(i as int)),
        decreases all@.len() - i,
    {
        let ghost now = spread(all@).take(i + 1);
        proof {
            assert(now.drop_last() =~= spread(all@).take(i as int));
            assert(now.last() == all@[i as int]@);
            assert(now.len() == i + 1);
        }
        if i > 0 {
            out = join3(out.as_str(), "/", all[i].as_str());
        } else {
            out = all[i].as_str().to_owned();
            proof {
                assert(now[0] == all@[0]@);
            }
        }
        i = i + 1;
    }
    proof {
        assert(spread(all@).take(all@.len() as int) =~= spread(all@));
    }
    out
}

/// The path without its last name; nothing where it has no name.
pub fn parent(path: &str) -> (r: Option<String>)
    ensures
        match r {
            Some(text) => outer(path@) == Some(text@),
            None => outer(path@) is None,
        },
{
    let mut all = names_of(path);
    let ghost listed = spread(all@);
    match all.pop() {
        None => None,
        Some(_) => {
            proof {
                assert(spread(all@) =~= listed.drop_last());
            }
            let text = string_together(&all);
            if is_rooted(path) {
                Some(join2("/", text.as_str()))
            } else {
                Some(text)
            }
        },
    }
}

/// A relative path below another one.
pub fn join(base: &str, name: &str) -> (r: String)
    ensures
        r@ == below(base@, name@),
{
    let all = chars_of(base);
    if all.len() == 0 {
        name.to_owned()
    } else if all[all.len() - 1] == '/' {
        join2(base, name)
    } else {
        join3(base, "/", name)
    }
}

} // verus!
