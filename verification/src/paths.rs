//! Document paths as sequences of segments, and what a file name says about
//! its document: its stem, its extension, whether it is a Markdown source.

use crate::text::{
    append_chars, chars_of, same_chars, string_of, text_lt, text_order_is_strict,
    text_order_is_total, text_order_is_transitive,
};
use vstd::prelude::*;

verus! {

/// A path as the list of its segments, outermost directory first. The
/// separators are not part of it.
#[derive(Debug)]
pub struct DocPath {
    pub segments: Vec<String>,
}

impl View for DocPath {
    type V = Seq<Seq<char>>;

    open spec fn view(&self) -> Seq<Seq<char>> {
        Seq::new(self.segments@.len(), |i: int| self.segments@[i]@)
    }
}

/// The extension that marks a source document.
pub const DOCUMENT_EXTENSION: &'static str = "md";

/// The extension that marks a source document.
pub open spec fn document_extension() -> Seq<char> {
    DOCUMENT_EXTENSION@
}

/// Position of the last dot of `name`, or -1 where it has none.
pub open spec fn last_dot(name: Seq<char>) -> int
    decreases name.len(),
{
    if name.len() == 0 {
        -1
    } else if name.last() == '.' {
        name.len() - 1
    } else {
        last_dot(name.drop_last())
    }
}

/// Whether a segment can be the name of a file: it is not empty and is
/// neither of the two directory marks.
pub open spec fn names_file(name: Seq<char>) -> bool {
    name.len() > 0 && name != "."@ && name != ".."@
}

/// The name without its extension. A dot at the very start belongs to the
/// name, so a name like `.profile` has no extension.
pub open spec fn file_stem(name: Seq<char>) -> Seq<char> {
    if last_dot(name) <= 0 {
        name
    } else {
        name.subrange(0, last_dot(name))
    }
}

/// What follows the last dot of the name, where that dot is not its first
/// character.
pub open spec fn extension(name: Seq<char>) -> Option<Seq<char>> {
    if last_dot(name) <= 0 {
        None
    } else {
        Some(name.subrange(last_dot(name) + 1, name.len() as int))
    }
}

/// Whether the path names a source document: a file name with the
/// document extension.
pub open spec fn is_document(path: Seq<Seq<char>>) -> bool {
    path.len() > 0 && names_file(path.last()) && extension(path.last()) == Some(
        document_extension(),
    )
}

/// Whether `path` lies strictly below `root`.
pub open spec fn is_descendant(path: Seq<Seq<char>>, root: Seq<Seq<char>>) -> bool {
    root.len() < path.len() && path.subrange(0, root.len() as int) == root
}

/// The segments joined by `/`.
pub open spec fn joined(path: Seq<Seq<char>>) -> Seq<char>
    decreases path.len(),
{
    if path.len() == 0 {
        Seq::empty()
    } else if path.len() == 1 {
        path[0]
    } else {
        joined(path.drop_last()) + seq!['/'] + path.last()
    }
}

/// Strict order on paths: segment by segment, each segment compared as text;
/// a path comes before every path that continues it.
pub open spec fn path_lt(a: Seq<Seq<char>>, b: Seq<Seq<char>>) -> bool
    decreases a.len(),
{
    if b.len() == 0 {
        false
    } else if a.len() == 0 {
        true
    } else if a[0] != b[0] {
        text_lt(a[0], b[0])
    } else {
        path_lt(a.drop_first(), b.drop_first())
    }
}

/// Where `path` goes among the paths listed by `order`, which is kept in
/// order: behind the last of them that it is not before.
pub open spec fn insertion_point(
    paths: Seq<Seq<Seq<char>>>,
    order: Seq<int>,
    path: Seq<Seq<char>>,
) -> int
    decreases order.len(),
{
    if order.len() == 0 {
        0
    } else if path_lt(path, paths[order.last()]) {
        insertion_point(paths, order.drop_last(), path)
    } else {
        order.len() as int
    }
}

/// The places of the paths in rising order of the paths, equal paths in the
/// order in which they were given: each path in turn goes to its insertion
/// point among those before it.
pub open spec fn sorted_order(paths: Seq<Seq<Seq<char>>>) -> Seq<int>
    decreases paths.len(),
{
    if paths.len() == 0 {
        Seq::empty()
    } else {
        let earlier = sorted_order(paths.drop_last());
        earlier.insert(insertion_point(paths, earlier, paths.last()), paths.len() - 1)
    }
}

/// Of two different paths one comes before the other.
pub proof fn path_order_is_total(a: Seq<Seq<char>>, b: Seq<Seq<char>>)
    requires
        a != b,
    ensures
        path_lt(a, b) || path_lt(b, a),
    decreases a.len(),
{
    if a.len() > 0 && b.len() > 0 {
        if a[0] == b[0] {
            if a.drop_first() == b.drop_first() {
                assert(a =~= seq![a[0]] + a.drop_first());
                assert(b =~= seq![b[0]] + b.drop_first());
            }
            path_order_is_total(a.drop_first(), b.drop_first());
        } else {
            text_order_is_total(a[0], b[0]);
        }
    } else if a.len() == 0 && b.len() == 0 {
        assert(a =~= b);
    }
}

/// What comes before a path comes before all that the path comes before.
pub proof fn path_order_is_transitive(a: Seq<Seq<char>>, b: Seq<Seq<char>>, c: Seq<Seq<char>>)
    requires
        path_lt(a, b),
        path_lt(b, c),
    ensures
        path_lt(a, c),
    decreases a.len(),
{
    if a.len() > 0 {
        if a[0] == b[0] && b[0] == c[0] {
            path_order_is_transitive(a.drop_first(), b.drop_first(), c.drop_first());
        } else if a[0] != b[0] && b[0] != c[0] {
            text_order_is_transitive(a[0], b[0], c[0]);
            text_order_is_strict(a[0]);
        }
    }
}

/// Whether, in a sorted list, the path at place `i` stands before the path
/// at place `j`: it is the lesser path, or the same path given earlier.
pub open spec fn stands_before(paths: Seq<Seq<Seq<char>>>, i: int, j: int) -> bool {
    path_lt(paths[i], paths[j]) || (paths[i] == paths[j] && i < j)
}

/// The insertion point lies behind every listed path that `path` is not
/// before, and in front of those that it is before.
pub proof fn insertion_point_splits(
    paths: Seq<Seq<Seq<char>>>,
    order: Seq<int>,
    path: Seq<Seq<char>>,
)
    ensures
        0 <= insertion_point(paths, order, path) <= order.len(),
        forall|k: int|
            insertion_point(paths, order, path) <= k < order.len() ==> path_lt(
                path,
                paths[#[trigger] order[k]],
            ),
        insertion_point(paths, order, path) > 0 ==> !path_lt(
            path,
            paths[order[insertion_point(paths, order, path) - 1]],
        ),
    decreases order.len(),
{
    if order.len() > 0 && path_lt(path, paths[order.last()]) {
        let front = order.drop_last();
        insertion_point_splits(paths, front, path);
        let at = insertion_point(paths, front, path);
        assert forall|k: int| at <= k < order.len() implies path_lt(
            path,
            paths[#[trigger] order[k]],
        ) by {
            if k < front.len() {
                assert(front[k] == order[k]);
            }
        }
        if at > 0 {
            assert(front[at - 1] == order[at - 1]);
        }
    }
}

/// The sorted order lists every place once, and lists the places so that
/// each path stands before all that follow it: the lesser path first, and of
/// two equal paths the one that was given first.
pub proof fn sorted_order_is_sorted(paths: Seq<Seq<Seq<char>>>)
    ensures
        sorted_order(paths).len() == paths.len(),
        forall|k: int|
            0 <= k < paths.len() ==> 0 <= (#[trigger] sorted_order(paths)[k]) < paths.len(),
        forall|a: int, b: int|
            0 <= a < b < paths.len() ==> stands_before(
                paths,
                #[trigger] sorted_order(paths)[a],
                #[trigger] sorted_order(paths)[b],
            ),
        forall|i: int| 0 <= i < paths.len() ==> sorted_order(paths).contains(i),
    decreases paths.len(),
{
    if paths.len() > 0 {
        let front = paths.drop_last();
        let earlier = sorted_order(front);
        let last = paths.len() - 1;
        let path = paths.last();
        let at = insertion_point(paths, earlier, path);
        let order = sorted_order(paths);
        sorted_order_is_sorted(front);
        insertion_point_splits(paths, earlier, path);
        assert(order == earlier.insert(at, last));
        assert forall|a: int, b: int| 0 <= a < b < paths.len() implies stands_before(
            paths,
            #[trigger] order[a],
            #[trigger] order[b],
        ) by {
            if a == at {
                assert(order[b] == earlier[b - 1]);
            } else if b == at {
                assert(order[a] == earlier[a]);
                let before = earlier[at - 1];
                assert(front[before] == paths[before]);
                assert(front[earlier[a]] == paths[earlier[a]]);
                if paths[before] != path {
                    path_order_is_total(paths[before], path);
                }
                if a < at - 1 {
                    assert(stands_before(front, earlier[a], earlier[at - 1]));
                    if path_lt(paths[earlier[a]], paths[before]) && path_lt(paths[before], path) {
                        path_order_is_transitive(paths[earlier[a]], paths[before], path);
                    }
                }
            } else {
                let a0 = if a < at { a } else { a - 1 };
                let b0 = if b < at { b } else { b - 1 };
                assert(order[a] == earlier[a0] && order[b] == earlier[b0]);
                assert(stands_before(front, earlier[a0], earlier[b0]));
                assert(front[earlier[a0]] == paths[earlier[a0]]);
                assert(front[earlier[b0]] == paths[earlier[b0]]);
            }
        }
        assert forall|k: int| 0 <= k < paths.len() implies 0 <= (#[trigger] order[k])
            < paths.len() by {
            if k < at {
                assert(order[k] == earlier[k]);
            } else if k > at {
                assert(order[k] == earlier[k - 1]);
            }
        }
        assert forall|i: int| 0 <= i < paths.len() implies order.contains(i) by {
            if i == last {
                assert(order[at] == i);
            } else {
                assert(earlier.contains(i));
                let k = choose|k: int| 0 <= k < earlier.len() && earlier[k] == i;
                if k < at {
                    assert(order[k] == i);
                } else {
                    assert(order[k + 1] == i);
                }
            }
        }
    }
}

/// The last dot of a name is a dot with no dot behind it; a name has none
/// exactly when `last_dot` is -1.
pub proof fn last_dot_found(name: Seq<char>)
    ensures
        -1 <= last_dot(name) < name.len(),
        last_dot(name) >= 0 ==> name[last_dot(name)] == '.',
        forall|j: int| last_dot(name) < j < name.len() ==> name[j] != '.',
    decreases name.len(),
{
    if name.len() > 0 && name.last() != '.' {
        let front = name.drop_last();
        last_dot_found(front);
        assert forall|j: int| last_dot(name) < j < name.len() implies name[j] != '.' by {
            if j < front.len() {
                assert(front[j] == name[j]);
            }
        }
        if last_dot(name) >= 0 {
            assert(front[last_dot(front)] == name[last_dot(front)]);
        }
    }
}

/// A name with an extension is its stem, a dot and the extension.
pub proof fn name_is_stem_dot_extension(name: Seq<char>)
    requires
        extension(name) is Some,
    ensures
        name == file_stem(name) + seq!['.'] + extension(name).unwrap(),
{
    last_dot_found(name);
    assert(name =~= file_stem(name) + seq!['.'] + extension(name).unwrap());
}

/// Position of the last dot in `name`, if it has one.
pub fn find_last_dot(name: &Vec<char>) -> (at: Option<usize>)
    ensures
        match at {
            Some(d) => last_dot(name@) == d && d < name.len(),
            None => last_dot(name@) == -1,
        },
{
    let mut i: usize = name.len();
    assert(name@.subrange(0, i as int) =~= name@);
    while i > 0
        invariant
            i <= name.len(),
            last_dot(name@) == last_dot(name@.subrange(0, i as int)),
        decreases i,
    {
        assert(name@.subrange(0, i as int).drop_last() =~= name@.subrange(0, i - 1));
        if name[i - 1] == '.' {
            return Some(i - 1);
        }
        i = i - 1;
    }
    None
}

/// The stem of a file name.
pub fn stem_of(name: &Vec<char>) -> (stem: Vec<char>)
    ensures
        stem@ == file_stem(name@),
{
    let keep: usize = match find_last_dot(name) {
        Some(d) => if d == 0 {
            name.len()
        } else {
            d
        },
        None => name.len(),
    };
    let mut stem: Vec<char> = Vec::new();
    let mut i: usize = 0;
    while i < keep
        invariant
            i <= keep <= name.len(),
            stem@ == name@.subrange(0, i as int),
        decreases keep - i,
    {
        stem.push(name[i]);
        i = i + 1;
        assert(stem@ =~= name@.subrange(0, i as int));
    }
    assert(name@.subrange(0, name.len() as int) =~= name@);
    stem
}

/// Whether a segment can be the name of a file.
pub fn is_file_name(name: &Vec<char>) -> (ok: bool)
    ensures
        ok == names_file(name@),
{
    let dot = chars_of(".");
    let dots = chars_of("..");
    name.len() > 0 && !same_chars(name, &dot) && !same_chars(name, &dots)
}

/// Whether a file name ends in the document extension.
pub fn has_document_extension(name: &Vec<char>) -> (ok: bool)
    ensures
        ok == (extension(name@) == Some(document_extension())),
{
    match find_last_dot(name) {
        Some(d) => {
            if d == 0 {
                false
            } else {
                let mut ext: Vec<char> = Vec::new();
                let mut i: usize = d + 1;
                while i < name.len()
                    invariant
                        d < i <= name.len(),
                        ext@ == name@.subrange(d + 1, i as int),
                    decreases name.len() - i,
                {
                    ext.push(name[i]);
                    i = i + 1;
                    assert(ext@ =~= name@.subrange(d + 1, i as int));
                }
                let wanted = chars_of(DOCUMENT_EXTENSION);
                same_chars(&ext, &wanted)
            }
        },
        None => false,
    }
}

/// Whether text `a` comes strictly before text `b`.
pub fn text_before(a: &Vec<char>, b: &Vec<char>) -> (before: bool)
    ensures
        before == text_lt(a@, b@),
{
    let mut i: usize = 0;
    assert(a@.subrange(0, a@.len() as int) =~= a@);
    assert(b@.subrange(0, b@.len() as int) =~= b@);
    loop
        invariant
            i <= a@.len(),
            i <= b@.len(),
            text_lt(a@, b@) == text_lt(
                a@.subrange(i as int, a@.len() as int),
                b@.subrange(i as int, b@.len() as int),
            ),
        decreases a@.len() - i,
    {
        let ghost rest_a = a@.subrange(i as int, a@.len() as int);
        let ghost rest_b = b@.subrange(i as int, b@.len() as int);
        if i >= b.len() {
            return false;
        }
        if i >= a.len() {
            return true;
        }
        assert(rest_a[0] == a@[i as int] && rest_b[0] == b@[i as int]);
        if a[i] != b[i] {
            return a[i] < b[i];
        }
        assert(rest_a.drop_first() =~= a@.subrange(i + 1, a@.len() as int));
        assert(rest_b.drop_first() =~= b@.subrange(i + 1, b@.len() as int));
        i = i + 1;
    }
}

/// Whether path `a` comes strictly before path `b`.
pub fn path_before(a: &DocPath, b: &DocPath) -> (before: bool)
    ensures
        before == path_lt(a@, b@),
{
    let mut i: usize = 0;
    assert(a@.subrange(0, a@.len() as int) =~= a@);
    assert(b@.subrange(0, b@.len() as int) =~= b@);
    loop
        invariant
            i <= a@.len(),
            i <= b@.len(),
            path_lt(a@, b@) == path_lt(
                a@.subrange(i as int, a@.len() as int),
                b@.subrange(i as int, b@.len() as int),
            ),
        decreases a@.len() - i,
    {
        let ghost rest_a = a@.subrange(i as int, a@.len() as int);
        let ghost rest_b = b@.subrange(i as int, b@.len() as int);
        if i >= b.len() {
            return false;
        }
        if i >= a.len() {
            return true;
        }
        assert(rest_a[0] == a@[i as int] && rest_b[0] == b@[i as int]);
        let left = a.segment_chars(i);
        let right = b.segment_chars(i);
        if !same_chars(&left, &right) {
            return text_before(&left, &right);
        }
        assert(rest_a.drop_first() =~= a@.subrange(i + 1, a@.len() as int));
        assert(rest_b.drop_first() =~= b@.subrange(i + 1, b@.len() as int));
        i = i + 1;
    }
}

/// The paths, each as its sequence of segments.
pub open spec fn path_views(paths: Seq<DocPath>) -> Seq<Seq<Seq<char>>> {
    Seq::new(paths.len(), |i: int| paths[i]@)
}

/// The places as mathematical integers.
pub open spec fn places(order: Seq<usize>) -> Seq<int> {
    Seq::new(order.len(), |k: int| order[k] as int)
}

/// The places of the paths in rising order of the paths.
pub fn sort_order(paths: &Vec<DocPath>) -> (order: Vec<usize>)
    ensures
        places(order@) == sorted_order(path_views(paths@)),
        order@.len() == paths@.len(),
        forall|k: int| 0 <= k < order@.len() ==> (#[trigger] order@[k]) < paths@.len(),
{
    let ghost views = path_views(paths@);
    let mut order: Vec<usize> = Vec::new();
    let mut i: usize = 0;
    assert(views.subrange(0, 0) =~= Seq::<Seq<Seq<char>>>::empty());
    assert(places(order@) =~= Seq::<int>::empty());
    while i < paths.len()
        invariant
            i <= paths@.len(),
            views == path_views(paths@),
            order@.len() == i,
            forall|k: int| 0 <= k < order@.len() ==> (#[trigger] order@[k]) < i,
            places(order@) == sorted_order(views.subrange(0, i as int)),
        decreases paths@.len() - i,
    {
        let ghost known = views.subrange(0, i + 1);
        let ghost earlier = places(order@);
        assert(known.drop_last() =~= views.subrange(0, i as int));
        assert(known.last() == paths@[i as int]@);
        let mut at: usize = order.len();
        assert(earlier.subrange(0, at as int) =~= earlier);
        while at > 0 && path_before(&paths[i], &paths[order[at - 1]])
            invariant
                at <= order@.len(),
                order@.len() == i,
                i < paths@.len(),
                views == path_views(paths@),
                known == views.subrange(0, i + 1),
                earlier == places(order@),
                forall|k: int| 0 <= k < order@.len() ==> (#[trigger] order@[k]) < i,
                insertion_point(known, earlier, paths@[i as int]@) == insertion_point(
                    known,
                    earlier.subrange(0, at as int),
                    paths@[i as int]@,
                ),
            decreases at,
        {
            let ghost front = earlier.subrange(0, at as int);
            assert(front.last() == order@[at - 1]);
            assert(known[order@[at - 1] as int] == paths@[order@[at - 1] as int]@);
            assert(front.drop_last() =~= earlier.subrange(0, at - 1));
            at = at - 1;
        }
        proof {
            let front = earlier.subrange(0, at as int);
            if at > 0 {
                assert(front.last() == order@[at - 1]);
                assert(known[order@[at - 1] as int] == paths@[order@[at - 1] as int]@);
            }
            assert(insertion_point(known, front, paths@[i as int]@) == at);
        }
        order.insert(at, i);
        assert(places(order@) =~= earlier.insert(at as int, i as int));
        i = i + 1;
    }
    assert(views.subrange(0, paths@.len() as int) =~= views);
    order
}

impl Clone for DocPath {
    /// A path with the same segments.
    fn clone(&self) -> (copy: DocPath)
        ensures
            copy@ == self@,
    {
        let mut segments: Vec<String> = Vec::new();
        let mut i: usize = 0;
        while i < self.segments.len()
            invariant
                i <= self.segments@.len(),
                segments@.len() == i,
                forall|j: int| 0 <= j < i ==> segments@[j]@ == self.segments@[j]@,
            decreases self.segments@.len() - i,
        {
            segments.push(self.segments[i].clone());
            i = i + 1;
        }
        let copy = DocPath { segments };
        assert(copy@ =~= self@);
        copy
    }
}

impl DocPath {
    /// A path made of the given segments.
    pub fn new(segments: Vec<String>) -> (path: DocPath)
        ensures
            path@ == Seq::new(segments@.len(), |i: int| segments@[i]@),
            path.segments == segments,
    {
        DocPath { segments }
    }

    /// Number of segments.
    pub fn len(&self) -> (n: usize)
        ensures
            n == self@.len(),
    {
        self.segments.len()
    }

    /// The characters of segment `i`.
    pub fn segment_chars(&self, i: usize) -> (chars: Vec<char>)
        requires
            i < self@.len(),
        ensures
            chars@ == self@[i as int],
    {
        chars_of(self.segments[i].as_str())
    }

    /// Whether the path names a source document.
    pub fn is_markdown(&self) -> (ok: bool)
        ensures
            ok == is_document(self@),
    {
        let n = self.segments.len();
        if n == 0 {
            return false;
        }
        let name = self.segment_chars(n - 1);
        is_file_name(&name) && has_document_extension(&name)
    }

    /// Whether the path lies strictly below `root`.
    pub fn is_below(&self, root: &DocPath) -> (ok: bool)
        ensures
            ok == is_descendant(self@, root@),
    {
        let n = root.segments.len();
        if n >= self.segments.len() {
            return false;
        }
        let mut i: usize = 0;
        while i < n
            invariant
                i <= n,
                n == root@.len(),
                n < self@.len(),
                forall|j: int| 0 <= j < i ==> self@[j] == root@[j],
            decreases n - i,
        {
            if self.segments[i] != root.segments[i] {
                assert(self@.subrange(0, n as int)[i as int] != root@[i as int]);
                return false;
            }
            i = i + 1;
        }
        assert(self@.subrange(0, n as int) =~= root@);
        true
    }

    /// The path as text, its segments joined by `/`.
    pub fn to_string(&self) -> (text: String)
        ensures
            text@ == joined(self@),
    {
        let mut out: Vec<char> = Vec::new();
        let mut i: usize = 0;
        while i < self.segments.len()
            invariant
                i <= self@.len(),
                out@ == joined(self@.subrange(0, i as int)),
            decreases self@.len() - i,
        {
            let ghost before = self@.subrange(0, i as int);
            let ghost after = self@.subrange(0, i + 1);
            assert(after.drop_last() =~= before);
            if i > 0 {
                out.push('/');
            }
            let segment = self.segment_chars(i);
            append_chars(&mut out, &segment);
            assert(out@ =~= joined(after));
            i = i + 1;
        }
        assert(self@.subrange(0, self@.len() as int) =~= self@);
        string_of(&out)
    }
}

} // verus!
