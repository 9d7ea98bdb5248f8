//! Unix paths as text.

use crate::text::{chars_of, joined, same_text, split, split_of, string_of, texts};
use vstd::prelude::*;

verus! {

/// Whether a piece between two separators is a component of its own: empty
/// pieces and single dots are not.
pub open spec fn is_component(piece: Seq<char>) -> bool {
    piece.len() > 0 && piece != seq!['.']
}

/// The components of a path, in order. The root is none of them.
pub open spec fn components_of(path: Seq<char>) -> Seq<Seq<char>> {
    split_of(path, seq!['/']).filter(|piece: Seq<char>| is_component(piece))
}

/// The last component of a path; `None` where there is none or it is `..`.
pub open spec fn file_name_of(path: Seq<char>) -> Option<Seq<char>> {
    let parts = components_of(path);
    if parts.len() == 0 || parts.last() == seq!['.', '.'] {
        None
    } else {
        Some(parts.last())
    }
}

/// Whether a path starts at the root.
pub open spec fn is_absolute_path(path: Seq<char>) -> bool {
    path.len() > 0 && path[0] == '/'
}

/// Whether `path` is `dir` or lies below it, component by component.
pub open spec fn is_path_under(path: Seq<char>, dir: Seq<char>) -> bool {
    &&& is_absolute_path(path) == is_absolute_path(dir)
    &&& components_of(dir).is_prefix_of(components_of(path))
}

/// `name` as seen from `dir`.
pub open spec fn path_join(dir: Seq<char>, name: Seq<char>) -> Seq<char> {
    if is_absolute_path(name) || dir.len() == 0 {
        name
    } else if dir.last() == '/' {
        dir + name
    } else {
        dir + seq!['/'] + name
    }
}

/// Where the last dot of a file name stands that has something before it.
pub open spec fn extension_dot(name: Seq<char>) -> Option<int> {
    if exists|i: int| 0 <= i < name.len() && name[i] == '.' {
        let i = choose|i: int|
            0 <= i < name.len() && name[i] == '.' && forall|j: int|
                i < j < name.len() ==> name[j] != '.';
        if i == 0 {
            None
        } else {
            Some(i)
        }
    } else {
        None
    }
}

/// The components of a path, in order.
pub fn components(path: &str) -> (r: Vec<String>)
    ensures
        texts(r@) == components_of(path@),
{
    proof {
        reveal_strlit("/");
        reveal_strlit(".");
        assert("/"@ =~= seq!['/']);
        assert("."@ =~= seq!['.']);
    }
    let pieces: Vec<String> = split(path, "/");
    let ghost all = split_of(path@, seq!['/']);
    assert(all =~= texts(pieces@));
    let ghost keep = |piece: Seq<char>| is_component(piece);
    let mut r: Vec<String> = Vec::new();
    let mut i: usize = 0;
    proof {
        reveal(Seq::filter);
    }
    assert(texts(r@) =~= all.take(0).filter(keep));
    while i < pieces.len()
        invariant
            i <= pieces@.len(),
            all == texts(pieces@),
            keep == (|piece: Seq<char>| is_component(piece)),
            "."@ == seq!['.'],
            texts(r@) == all.take(i as int).filter(keep),
        decreases pieces.len() - i,
    {
        proof {
            reveal(Seq::filter);
        }
        let piece: &str = pieces[i].as_str();
        assert(all[i as int] == piece@);
        assert(all.take(i + 1).drop_last() =~= all.take(i as int));
        let ghost before = texts(r@);
        if !piece.is_empty() && !same_text(piece, ".") {
            r.push(piece.to_owned());
            assert(texts(r@) =~= before.push(piece@));
        }
        i = i + 1;
    }
    assert(all.take(all.len() as int) =~= all);
    r
}

/// The last component of a path; `None` where there is none or it is `..`.
pub fn file_name(path: &str) -> (r: Option<String>)
    ensures
        match file_name_of(path@) {
            Some(name) => r is Some && r->0@ == name,
            None => r is None,
        },
{
    proof {
        reveal_strlit("..");
        assert(".."@ =~= seq!['.', '.']);
    }
    let parts: Vec<String> = components(path);
    assert(components_of(path@) =~= texts(parts@));
    if parts.len() == 0 {
        return None;
    }
    let last: &String = &parts[parts.len() - 1];
    assert(components_of(path@).last() == last@);
    if same_text(last.as_str(), "..") {
        None
    } else {
        Some(last.clone())
    }
}

/// Whether a path starts at the root.
pub fn is_absolute(path: &str) -> (r: bool)
    ensures
        r == is_absolute_path(path@),
{
    let v: Vec<char> = chars_of(path);
    v.len() > 0 && v[0] == '/'
}

/// Whether `path` is `dir` or lies below it, component by component.
pub fn is_under(path: &str, dir: &str) -> (r: bool)
    ensures
        r == is_path_under(path@, dir@),
{
    if is_absolute(path) != is_absolute(dir) {
        return false;
    }
    let inner: Vec<String> = components(path);
    let outer: Vec<String> = components(dir);
    let ghost pc = components_of(path@);
    let ghost dc = components_of(dir@);
    assert(pc =~= texts(inner@));
    assert(dc =~= texts(outer@));
    if outer.len() > inner.len() {
        return false;
    }
    let mut i: usize = 0;
    while i < outer.len()
        invariant
            i <= outer@.len() <= inner@.len(),
            pc == texts(inner@),
            dc == texts(outer@),
            pc == components_of(path@),
            dc == components_of(dir@),
            forall|k: int| 0 <= k < i ==> dc[k] == pc[k],
        decreases outer.len() - i,
    {
        if !same_text(inner[i].as_str(), outer[i].as_str()) {
            assert(pc[i as int] != dc[i as int]);
            assert(pc.subrange(0, dc.len() as int)[i as int] != dc[i as int]);
            return false;
        }
        assert(dc[i as int] == outer@[i as int]@);
        i = i + 1;
    }
    assert(dc =~= pc.subrange(0, dc.len() as int));
    true
}

/// The path that leads from `dir` down through further components, one below the
/// other.
pub open spec fn path_below(dir: Seq<char>, parts: Seq<Seq<char>>) -> Seq<char>
    decreases parts.len(),
{
    if parts.len() == 0 {
        dir
    } else {
        let parent = path_below(dir, parts.drop_last());
        if parent.len() > 0 && parent.last() == '/' {
            parent + parts.last()
        } else {
            parent + seq!['/'] + parts.last()
        }
    }
}

/// Whether each of the pieces can stand alone between two separators: it is not
/// empty, it is no single dot, and it holds no separator.
pub open spec fn are_plain_names(parts: Seq<Seq<char>>) -> bool {
    forall|i: int|
        0 <= i < parts.len() ==> (#[trigger] parts[i]).len() > 0 && parts[i] != seq!['.']
            && !parts[i].contains('/')
}

/// A directory holds everything below it, however deep: a path that leads down from it
/// through any number of further components counts as under it.
pub proof fn paths_below_are_under(dir: Seq<char>, parts: Seq<Seq<char>>)
    requires
        dir.len() > 0,
        are_plain_names(parts),
    ensures
        is_path_under(path_below(dir, parts), dir),
{
    lemma_components_below(dir, parts);
    let path = path_below(dir, parts);
    assert(components_of(dir) =~= components_of(path).subrange(0, components_of(dir).len() as int));
}

/// A path in which the directory's own text is followed by a separator counts as under
/// the directory, whatever comes behind the separator.
pub proof fn continued_paths_are_under(dir: Seq<char>, rest: Seq<char>)
    requires
        dir.len() > 0,
    ensures
        is_path_under(dir + seq!['/'] + rest, dir),
        is_path_under(dir, dir),
{
    let path = dir + seq!['/'] + rest;
    lemma_components_add(dir, rest);
    assert(path[0] == dir[0]);
    assert(components_of(dir) =~= components_of(path).subrange(0, components_of(dir).len() as int));
    assert(components_of(dir) =~= components_of(dir).subrange(0, components_of(dir).len() as int));
}

/// Of two paths that are spelled out from the root, the first is under the second
/// exactly if it starts with all of the second's components. So a directory whose name
/// merely begins like another's is not under that one.
pub proof fn only_paths_below_are_under(inner: Seq<Seq<char>>, outer: Seq<Seq<char>>)
    requires
        are_plain_names(inner),
        are_plain_names(outer),
    ensures
        is_path_under(path_below(seq!['/'], inner), path_below(seq!['/'], outer)) <==> (
        outer.len() <= inner.len() && forall|i: int|
            0 <= i < outer.len() ==> #[trigger] inner[i] == outer[i]),
{
    let root = seq!['/'];
    lemma_components_below(root, inner);
    lemma_components_below(root, outer);
    lemma_components_add(Seq::empty(), Seq::empty());
    assert(Seq::<char>::empty() + seq!['/'] + Seq::empty() =~= root);
    reveal(Seq::filter);
    reveal_with_fuel(Seq::filter, 3);
    assert(split_of(Seq::empty(), seq!['/']) =~= seq![Seq::empty()]);
    lemma_no_components();
    assert(components_of(root) =~= Seq::empty());
    assert(components_of(path_below(root, inner)) =~= inner);
    assert(components_of(path_below(root, outer)) =~= outer);
    if outer.len() <= inner.len() && forall|i: int|
        0 <= i < outer.len() ==> #[trigger] inner[i] == outer[i] {
        assert(outer =~= inner.subrange(0, outer.len() as int));
    }
    if outer.is_prefix_of(inner) {
        assert forall|i: int| 0 <= i < outer.len() implies #[trigger] inner[i] == outer[i] by {
            assert(inner.subrange(0, outer.len() as int)[i] == inner[i]);
        }
    }
}

proof fn lemma_no_components()
    ensures
        components_of(Seq::empty()) == Seq::<Seq<char>>::empty(),
{
    reveal(Seq::filter);
    reveal_with_fuel(Seq::filter, 3);
    let pieces = split_of(Seq::empty(), seq!['/']);
    assert(pieces =~= seq![Seq::empty()]);
    assert(pieces.drop_last() =~= Seq::empty());
}

proof fn lemma_split_add(a: Seq<char>, b: Seq<char>)
    ensures
        split_of(a + seq!['/'] + b, seq!['/']) == split_of(a, seq!['/']) + split_of(b, seq!['/']),
    decreases b.len(),
{
    let seps = seq!['/'];
    let whole = a + seps + b;
    if b.len() == 0 {
        assert(whole.drop_last() =~= a);
        assert(whole.last() == '/');
        assert(seps[0] == '/');
        assert(seps.contains('/'));
        assert(split_of(whole, seps) =~= split_of(a, seps) + split_of(b, seps));
    } else {
        lemma_split_add(a, b.drop_last());
        crate::text::lemma_split_nonempty(b.drop_last(), seps);
        assert(whole.drop_last() =~= a + seps + b.drop_last());
        assert(whole.last() == b.last());
        assert(split_of(whole, seps) =~= split_of(a, seps) + split_of(b, seps));
    }
}

/// The components of a path are those on either side of a separator.
pub proof fn lemma_components_add(a: Seq<char>, b: Seq<char>)
    ensures
        components_of(a + seq!['/'] + b) == components_of(a) + components_of(b),
{
    lemma_split_add(a, b);
    Seq::filter_distributes_over_add(
        split_of(a, seq!['/']),
        split_of(b, seq!['/']),
        |piece: Seq<char>| is_component(piece),
    );
}

proof fn lemma_split_plain(name: Seq<char>)
    requires
        !name.contains('/'),
    ensures
        split_of(name, seq!['/']) == seq![name],
    decreases name.len(),
{
    if name.len() == 0 {
        assert(name =~= Seq::empty());
    } else {
        assert(!name.drop_last().contains('/')) by {
            if name.drop_last().contains('/') {
                let i = choose|i: int| 0 <= i < name.drop_last().len() && name.drop_last()[i] == '/';
                assert(name[i] == '/');
            }
        }
        lemma_split_plain(name.drop_last());
        assert(name[name.len() - 1] == name.last());
        assert(!seq!['/'].contains(name.last()));
        assert(name.drop_last().push(name.last()) =~= name);
        assert(split_of(name, seq!['/']) =~= seq![name]);
    }
}

/// A plain name is its own only component.
pub proof fn lemma_components_plain(name: Seq<char>)
    requires
        name.len() > 0,
        name != seq!['.'],
        !name.contains('/'),
    ensures
        components_of(name) == seq![name],
{
    reveal(Seq::filter);
    reveal_with_fuel(Seq::filter, 3);
    lemma_split_plain(name);
    assert(seq![name].drop_last() =~= Seq::empty());
    assert(components_of(name) =~= seq![name]);
}

/// The components of a path that leads down from a directory.
pub proof fn lemma_components_below(dir: Seq<char>, parts: Seq<Seq<char>>)
    requires
        dir.len() > 0,
        are_plain_names(parts),
    ensures
        components_of(path_below(dir, parts)) == components_of(dir) + parts,
        path_below(dir, parts).len() > 0,
        path_below(dir, parts)[0] == dir[0],
    decreases parts.len(),
{
    if parts.len() == 0 {
        assert(components_of(dir) + parts =~= components_of(dir));
    } else {
        let front = parts.drop_last();
        let name = parts.last();
        assert forall|i: int| 0 <= i < front.len() implies (#[trigger] front[i]).len() > 0
            && front[i] != seq!['.'] && !front[i].contains('/') by {
            assert(front[i] == parts[i]);
        }
        lemma_components_below(dir, front);
        assert(parts[parts.len() - 1] == name);
        lemma_components_plain(name);
        let parent = path_below(dir, front);
        if parent.last() == '/' {
            let stem = parent.drop_last();
            assert(parent =~= stem + seq!['/'] + Seq::empty());
            assert(parent + name =~= stem + seq!['/'] + name);
            lemma_components_add(stem, Seq::empty());
            lemma_components_add(stem, name);
            lemma_no_components();
            assert(components_of(parent) =~= components_of(stem));
        } else {
            lemma_components_add(parent, name);
        }
        assert(components_of(dir) + front + seq![name] =~= components_of(dir) + parts);
    }
}

/// `name` as seen from `dir`.
pub fn join_path(dir: &str, name: &str) -> (r: String)
    ensures
        r@ == path_join(dir@, name@),
{
    let d: Vec<char> = chars_of(dir);
    if is_absolute(name) || d.len() == 0 {
        return name.to_owned();
    }
    if d[d.len() - 1] == '/' {
        return joined(dir, name);
    }
    proof {
        reveal_strlit("/");
        assert("/"@ =~= seq!['/']);
    }
    joined(joined(dir, "/").as_str(), name)
}

/// Splits a file name at its last dot into stem and extension; no extension
/// where there is no dot, or only one at the start.
pub fn split_extension(name: &str) -> (r: (String, Option<String>))
    ensures
        match extension_dot(name@) {
            Some(i) => r.0@ == name@.take(i) && r.1 is Some && r.1->0@ == name@.skip(i + 1),
            None => r.0@ == name@ && r.1 is None,
        },
{
    let v: Vec<char> = chars_of(name);
    let mut i: usize = v.len();
    while i > 0
        invariant
            i <= v@.len(),
            v@ == name@,
            forall|j: int| i <= j < name@.len() ==> name@[j] != '.',
        decreases i,
    {
        i = i - 1;
        if v[i] == '.' {
            let ghost dot = choose|k: int|
                0 <= k < name@.len() && name@[k] == '.' && forall|j: int|
                    k < j < name@.len() ==> name@[j] != '.';
            assert(name@[i as int] == '.');
            assert(dot == i);
            if i == 0 {
                return (name.to_owned(), None);
            }
            let stem: String = string_of(&v, 0, i);
            let ext: String = string_of(&v, i + 1, v.len());
            assert(stem@ =~= name@.take(i as int));
            assert(ext@ =~= name@.skip(i + 1));
            return (stem, Some(ext));
        }
    }
    (name.to_owned(), None)
}

} // verus!
