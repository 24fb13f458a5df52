//! Paths as texts, and the names that lead along them.

use crate::text::{same_chars, to_chars};
use vstd::prelude::*;

verus! {

/// Adds a name to those found on a path. An empty name and a single dot lead nowhere.
pub open spec fn with_name(found: Seq<Seq<char>>, name: Seq<char>) -> Seq<Seq<char>> {
    if name.len() == 0 || name == seq!['.'] {
        found
    } else {
        found.push(name)
    }
}

/// The names that lead along the rest of a path, behind those in `found` and the beginning
/// `name` of the next one.
pub open spec fn names_from(rest: Seq<char>, name: Seq<char>, found: Seq<Seq<char>>) -> Seq<
    Seq<char>,
>
    decreases rest.len(),
{
    if rest.len() == 0 {
        with_name(found, name)
    } else if rest[0] == '/' {
        names_from(rest.skip(1), seq![], with_name(found, name))
    } else {
        names_from(rest.skip(1), name.push(rest[0]), found)
    }
}

/// The names that lead along a path: what stands between its slashes.
pub open spec fn names(path: Seq<char>) -> Seq<Seq<char>> {
    names_from(path, seq![], seq![])
}

/// Whether a path is absolute and never leads up.
pub open spec fn absolute(path: Seq<char>) -> bool {
    path.len() > 0 && path[0] == '/' && !names(path).contains(seq!['.', '.'])
}

/// Whether a path leads to something strictly below the directory with the names `root`.
pub open spec fn strictly_under(path: Seq<char>, root: Seq<Seq<char>>) -> bool {
    root.is_prefix_of(names(path)) && names(path).len() > root.len()
}

/// Names are found one behind the other.
proof fn lemma_names_accumulate(rest: Seq<char>, name: Seq<char>, found: Seq<Seq<char>>)
    ensures
        names_from(rest, name, found) == found + names_from(rest, name, seq![]),
    decreases rest.len(),
{
    if rest.len() == 0 {
        assert(with_name(found, name) =~= found + with_name(seq![], name));
    } else if rest[0] == '/' {
        let tail = rest.skip(1);
        lemma_names_accumulate(tail, seq![], with_name(found, name));
        lemma_names_accumulate(tail, seq![], with_name(seq![], name));
        assert(with_name(found, name) =~= found + with_name(seq![], name));
        assert(names_from(rest, name, found) =~= found + names_from(rest, name, seq![]));
    } else {
        lemma_names_accumulate(rest.skip(1), name.push(rest[0]), found);
    }
}

proof fn lemma_names_split(
    front: Seq<char>,
    back: Seq<char>,
    name: Seq<char>,
    found: Seq<Seq<char>>,
)
    ensures
        names_from(front + seq!['/'] + back, name, found) == names_from(
            back,
            seq![],
            names_from(front, name, found),
        ),
    decreases front.len(),
{
    let whole = front + seq!['/'] + back;
    if front.len() == 0 {
        assert(whole[0] == '/');
        assert(whole.skip(1) =~= back);
    } else {
        let rest = front.skip(1);
        assert(whole[0] == front[0]);
        assert(whole.skip(1) =~= rest + seq!['/'] + back);
        if front[0] == '/' {
            lemma_names_split(rest, back, seq![], with_name(found, name));
        } else {
            lemma_names_split(rest, back, name.push(front[0]), found);
        }
    }
}

/// The names along a path that is joined from two are those along the first and then those along
/// the second.
pub proof fn lemma_names_join(front: Seq<char>, back: Seq<char>)
    ensures
        names(front + seq!['/'] + back) == names(front) + names(back),
{
    lemma_names_split(front, back, seq![], seq![]);
    lemma_names_accumulate(back, seq![], names(front));
}

/// A text without slashes is one name.
pub proof fn lemma_one_name(text: Seq<char>)
    requires
        text.len() > 0,
        text != seq!['.'],
        forall|i: int| 0 <= i < text.len() ==> text[i] != '/',
    ensures
        names(text) == seq![text],
{
    lemma_rest_of_name(text, seq![]);
    assert(Seq::<char>::empty() + text =~= text);
    assert(Seq::<Seq<char>>::empty().push(text) =~= seq![text]);
}

proof fn lemma_rest_of_name(rest: Seq<char>, name: Seq<char>)
    requires
        forall|i: int| 0 <= i < rest.len() ==> rest[i] != '/',
    ensures
        names_from(rest, name, seq![]) == with_name(seq![], name + rest),
    decreases rest.len(),
{
    if rest.len() == 0 {
        assert(name + rest =~= name);
    } else {
        let tail = rest.skip(1);
        assert forall|i: int| 0 <= i < tail.len() implies tail[i] != '/' by {
            assert(tail[i] == rest[i + 1]);
        }
        lemma_rest_of_name(tail, name.push(rest[0]));
        assert(name.push(rest[0]) + tail =~= name + rest);
    }
}

/// The names of a list as sequences.
pub open spec fn names_view(list: Seq<Vec<char>>) -> Seq<Seq<char>> {
    list.map_values(|name: Vec<char>| name@)
}

/// Splits a path into its names.
pub fn split_names(path: &str) -> (list: Vec<Vec<char>>)
    ensures
        names_view(list@) == names(path@),
{
    let chars = to_chars(path);
    let mut list: Vec<Vec<char>> = Vec::new();
    let mut name: Vec<char> = Vec::new();
    let mut i: usize = 0;
    assert(chars@.skip(0) =~= chars@);
    assert(names_view(list@) =~= seq![]);
    assert(name@ =~= seq![]);
    while i < chars.len()
        invariant
            i <= chars@.len(),
            names(chars@) == names_from(chars@.skip(i as int), name@, names_view(list@)),
        decreases chars@.len() - i,
    {
        let c = chars[i];
        assert(chars@.skip(i as int).skip(1) =~= chars@.skip(i + 1));
        if c == '/' {
            push_name(&mut list, name);
            name = Vec::new();
            assert(name@ =~= seq![]);
        } else {
            name.push(c);
        }
        i = i + 1;
    }
    push_name(&mut list, name);
    list
}

fn push_name(list: &mut Vec<Vec<char>>, name: Vec<char>)
    ensures
        names_view(final(list)@) == with_name(names_view(old(list)@), name@),
{
    let dot: [char; 1] = ['.'];
    assert(dot@ =~= seq!['.']);
    if name.len() == 0 || same_chars(name.as_slice(), dot.as_slice()) {
        return ;
    }
    list.push(name);
    assert(names_view(list@) =~= names_view(old(list)@).push(name@));
}

/// Whether two lists hold the same names.
pub fn same_names(a: &Vec<Vec<char>>, b: &Vec<Vec<char>>) -> (same: bool)
    ensures
        same == (names_view(a@) == names_view(b@)),
{
    if a.len() != b.len() {
        assert(names_view(a@).len() != names_view(b@).len());
        return false;
    }
    let mut i: usize = 0;
    while i < a.len()
        invariant
            i <= a@.len(),
            a@.len() == b@.len(),
            forall|k: int| 0 <= k < i ==> #[trigger] a@[k]@ == b@[k]@,
        decreases a@.len() - i,
    {
        if !same_chars(a[i].as_slice(), b[i].as_slice()) {
            assert(names_view(a@)[i as int] != names_view(b@)[i as int]);
            return false;
        }
        i = i + 1;
    }
    assert(names_view(a@) =~= names_view(b@));
    true
}

/// Whether two paths lead along the same names.
pub fn same_path(a: &str, b: &str) -> (same: bool)
    ensures
        same == (names(a@) == names(b@)),
{
    let left = split_names(a);
    let right = split_names(b);
    same_names(&left, &right)
}

/// Whether a path is absolute and never leads up.
pub fn is_absolute(path: &str) -> (found: bool)
    ensures
        found == absolute(path@),
{
    let chars = to_chars(path);
    if chars.len() == 0 || chars[0] != '/' {
        return false;
    }
    let up: [char; 2] = ['.', '.'];
    assert(up@ =~= seq!['.', '.']);
    let list = split_names(path);
    let mut i: usize = 0;
    while i < list.len()
        invariant
            i <= list@.len(),
            up@ == seq!['.', '.'],
            names_view(list@) == names(path@),
            forall|k: int| 0 <= k < i ==> #[trigger] names(path@)[k] != seq!['.', '.'],
        decreases list@.len() - i,
    {
        assert(names(path@)[i as int] == list@[i as int]@);
        if same_chars(list[i].as_slice(), up.as_slice()) {
            return false;
        }
        i = i + 1;
    }
    true
}

/// Whether a path leads to something strictly below the directory `root`.
pub fn is_strictly_under(path: &str, root: &str) -> (found: bool)
    ensures
        found == strictly_under(path@, names(root@)),
{
    let list = split_names(path);
    let base = split_names(root);
    assert(names(path@).len() == list@.len());
    assert(names(root@).len() == base@.len());
    if list.len() <= base.len() {
        return false;
    }
    let mut i: usize = 0;
    while i < base.len()
        invariant
            i <= base@.len() < list@.len(),
            names_view(list@) == names(path@),
            names_view(base@) == names(root@),
            forall|k: int| 0 <= k < i ==> #[trigger] names(root@)[k] == names(path@)[k],
        decreases base@.len() - i,
    {
        assert(names(path@)[i as int] == list@[i as int]@);
        assert(names(root@)[i as int] == base@[i as int]@);
        if !same_chars(list[i].as_slice(), base[i].as_slice()) {
            assert(names(path@).subrange(0, names(root@).len() as int)[i as int] != names(
                root@,
            )[i as int]);
            return false;
        }
        i = i + 1;
    }
    assert(names(root@) =~= names(path@).subrange(0, names(root@).len() as int));
    true
}

} // verus!
