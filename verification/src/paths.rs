//! Paths whose parts are separated by slashes, and their order.
use vstd::prelude::*;

use crate::text::begins_with;
use crate::text::concat2;
use crate::text::concat3;
use crate::text::copy_text;
use crate::text::ends_in;
use crate::text::same;
use crate::text::split_all;
use crate::text_order::comes_before;

verus! {

/// The pieces of a path that name something: neither empty nor a single dot.
pub open spec fn named(pieces: Seq<Seq<char>>) -> Seq<Seq<char>>
    decreases pieces.len(),
{
    if pieces.len() == 0 {
        Seq::empty()
    } else {
        let front = named(pieces.drop_last());
        if pieces.last().len() == 0 || pieces.last() == "."@ {
            front
        } else {
            front.push(pieces.last())
        }
    }
}

/// The parts of a path: its root or its leading dot, where it has one, and the
/// names between the slashes.
pub open spec fn parts(path: Seq<char>) -> Seq<Seq<char>> {
    let pieces = crate::text::split_on(path, "/"@);
    if crate::text::begins(path, "/"@) {
        seq!["/"@] + named(pieces)
    } else if pieces[0] == "."@ {
        seq!["."@] + named(pieces)
    } else {
        named(pieces)
    }
}

proof fn lemma_pieces(path: Seq<char>)
    ensures
        crate::text::split_on(path, "/"@).len() > 0,
{
}

/// The parts of a path.
pub fn parts_of(path: &str) -> (r: Vec<String>)
    ensures
        crate::text::texts(r@) == parts(path@),
{
    proof {
        reveal_strlit("/");
        lemma_pieces(path@);
    }
    let pieces = split_all(path, "/");
    let ghost all = crate::text::texts(pieces@);
    let mut out: Vec<String> = Vec::new();
    let ghost head = if crate::text::begins(path@, "/"@) {
        seq!["/"@]
    } else if all[0] == "."@ {
        seq!["."@]
    } else {
        Seq::empty()
    };
    if begins_with(path, "/") {
        out.push(copy_text("/"));
    } else if same(pieces[0].as_str(), ".") {
        out.push(copy_text("."));
    }
    proof {
        assert(crate::text::texts(out@) =~= head);
        assert(head + named(all.take(0)) =~= head);
    }
    let mut i: usize = 0;
    while i < pieces.len()
        invariant
            i <= pieces@.len(),
            all == crate::text::texts(pieces@),
            crate::text::texts(out@) == head + named(all.take(i as int)),
        decreases pieces@.len() - i,
    {
        proof {
            assert(all.take(i + 1).drop_last() =~= all.take(i as int));
            assert(all.take(i + 1).last() == pieces@[i as int]@);
        }
        let piece = pieces[i].as_str();
        if !piece.is_empty() && !same(piece, ".") {
            let copy = copy_text(piece);
            proof {
                crate::text::lemma_texts_push(out@, copy);
                assert((head + named(all.take(i as int))).push(piece@) =~= head + named(
                    all.take(i as int),
                ).push(piece@));
            }
            out.push(copy);
        }
        i = i + 1;
    }
    proof {
        assert(all.take(pieces@.len() as int) =~= all);
        assert(head + named(all) =~= parts(path@));
    }
    out
}

/// Whether a path starts at the root.
pub open spec fn absolute(path: Seq<char>) -> bool {
    crate::text::begins(path, "/"@)
}

/// Whether a path starts at the root.
pub fn is_absolute(path: &str) -> (r: bool)
    ensures
        r == absolute(path@),
{
    begins_with(path, "/")
}

/// The path `path` seen from `base`: an absolute path stays as it is.
pub open spec fn under(base: Seq<char>, path: Seq<char>) -> Seq<char> {
    if absolute(path) {
        path
    } else if base.len() == 0 || crate::text::ends(base, "/"@) {
        base + path
    } else {
        base + "/"@ + path
    }
}

/// The path `path` seen from `base`.
pub fn join_path(base: &str, path: &str) -> (r: String)
    ensures
        r@ == under(base@, path@),
{
    if is_absolute(path) {
        copy_text(path)
    } else if base.is_empty() || ends_in(base, "/") {
        concat2(base, path)
    } else {
        concat3(base, "/", path)
    }
}

/// Whether a part is an ordinary name.
pub open spec fn is_name(part: Seq<char>) -> bool {
    part != "/"@ && part != "."@ && part != ".."@
}

/// The last part of a path, where it is an ordinary name.
pub open spec fn last_name(path: Seq<char>) -> Option<Seq<char>> {
    if parts(path).len() > 0 && is_name(parts(path).last()) {
        Some(parts(path).last())
    } else {
        None
    }
}

/// The last part of a path, where it is an ordinary name.
pub fn file_name(path: &str) -> (r: Option<String>)
    ensures
        crate::text::opt_text(r) == last_name(path@),
{
    let mut list = parts_of(path);
    let ghost before = list@;
    match list.pop() {
        None => None,
        Some(part) => {
            proof {
                assert(crate::text::texts(before).last() == part@);
            }
            if same(part.as_str(), "/") || same(part.as_str(), ".") || same(part.as_str(), "..") {
                None
            } else {
                Some(part)
            }
        },
    }
}

/// What follows the last dot of a file name, unless that dot begins the name.
pub open spec fn suffix_of(path: Seq<char>) -> Option<Seq<char>> {
    match last_name(path) {
        Some(name) => match crate::text::cut_last(name, "."@) {
            Some((stem, suffix)) => if stem.len() > 0 {
                Some(suffix)
            } else {
                None
            },
            None => None,
        },
        None => None,
    }
}

/// What follows the last dot of a file name, unless that dot begins the name.
pub fn extension(path: &str) -> (r: Option<String>)
    ensures
        crate::text::opt_text(r) == suffix_of(path@),
{
    match file_name(path) {
        Some(name) => match crate::text::split_last(name.as_str(), ".") {
            Some((stem, suffix)) => if stem.as_str().is_empty() {
                None
            } else {
                Some(suffix)
            },
            None => None,
        },
        None => None,
    }
}

/// The path with the given parts.
pub open spec fn rebuilt(parts: Seq<Seq<char>>) -> Seq<char>
    decreases parts.len(),
{
    if parts.len() == 0 {
        Seq::empty()
    } else {
        under(rebuilt(parts.drop_last()), parts.last())
    }
}

/// The path with the given parts.
pub fn rebuild(parts: &Vec<String>) -> (r: String)
    ensures
        r@ == rebuilt(crate::text::texts(parts@)),
{
    let ghost all = crate::text::texts(parts@);
    let mut out = String::new();
    let mut i: usize = 0;
    proof {
        assert(all.take(0) =~= Seq::<Seq<char>>::empty());
    }
    while i < parts.len()
        invariant
            i <= parts@.len(),
            all == crate::text::texts(parts@),
            out@ == rebuilt(all.take(i as int)),
        decreases parts@.len() - i,
    {
        proof {
            assert(all.take(i + 1).drop_last() =~= all.take(i as int));
            assert(all.take(i + 1).last() == parts@[i as int]@);
        }
        out = join_path(out.as_str(), parts[i].as_str());
        i = i + 1;
    }
    proof {
        assert(all.take(parts@.len() as int) =~= all);
    }
    out
}

/// The parts with single dots left out and every `..` undone together with the
/// part before it.
pub open spec fn settled(parts: Seq<Seq<char>>) -> Seq<Seq<char>>
    decreases parts.len(),
{
    if parts.len() == 0 {
        Seq::empty()
    } else {
        let front = settled(parts.drop_last());
        if parts.last() == "."@ {
            front
        } else if parts.last() == ".."@ {
            if front.len() == 0 {
                front
            } else {
                front.drop_last()
            }
        } else {
            front.push(parts.last())
        }
    }
}

/// The parts with single dots left out and every `..` undone together with the
/// part before it.
pub fn settle(parts: &Vec<String>) -> (r: Vec<String>)
    ensures
        crate::text::texts(r@) == settled(crate::text::texts(parts@)),
{
    let ghost all = crate::text::texts(parts@);
    let mut out: Vec<String> = Vec::new();
    let mut i: usize = 0;
    proof {
        assert(crate::text::texts(out@) =~= settled(all.take(0)));
    }
    while i < parts.len()
        invariant
            i <= parts@.len(),
            all == crate::text::texts(parts@),
            crate::text::texts(out@) == settled(all.take(i as int)),
        decreases parts@.len() - i,
    {
        proof {
            assert(all.take(i + 1).drop_last() =~= all.take(i as int));
            assert(all.take(i + 1).last() == parts@[i as int]@);
        }
        let part = parts[i].as_str();
        let ghost before = out@;
        if same(part, ".") {
        } else if same(part, "..") {
            out.pop();
            proof {
                if before.len() > 0 {
                    assert(crate::text::texts(out@) =~= crate::text::texts(before).drop_last());
                } else {
                    assert(out@ =~= before);
                }
            }
        } else {
            let copy = copy_text(part);
            proof {
                crate::text::lemma_texts_push(out@, copy);
            }
            out.push(copy);
        }
        i = i + 1;
    }
    proof {
        assert(all.take(parts@.len() as int) =~= all);
    }
    out
}

/// A settled path has no dots to undo.
pub proof fn law_settled_has_no_dots(parts: Seq<Seq<char>>)
    ensures
        forall|i: int|
            0 <= i < settled(parts).len() ==> #[trigger] settled(parts)[i] != "."@ && settled(
                parts,
            )[i] != ".."@,
    decreases parts.len(),
{
    if parts.len() > 0 {
        law_settled_has_no_dots(parts.drop_last());
        let front = settled(parts.drop_last());
        assert forall|i: int| 0 <= i < settled(parts).len() implies #[trigger] settled(parts)[i]
            != "."@ && settled(parts)[i] != ".."@ by {
            if i < front.len() {
                assert(settled(parts)[i] == front[i]);
            }
        }
    }
}

// ---- order ----

/// The place of the kinds of parts in the order of parts.
pub open spec fn kind_rank(part: Seq<char>) -> int {
    if part == "/"@ {
        0
    } else if part == "."@ {
        1
    } else if part == ".."@ {
        2
    } else {
        3
    }
}

/// Whether one part comes before another: the root, dots, then names.
pub open spec fn part_before(a: Seq<char>, b: Seq<char>) -> bool {
    if kind_rank(a) != kind_rank(b) {
        kind_rank(a) < kind_rank(b)
    } else {
        crate::text_order::before(a, b)
    }
}

fn rank_of(part: &str) -> (r: u8)
    ensures
        r == kind_rank(part@),
{
    if same(part, "/") {
        0
    } else if same(part, ".") {
        1
    } else if same(part, "..") {
        2
    } else {
        3
    }
}

fn part_comes_before(a: &str, b: &str) -> (r: bool)
    ensures
        r == part_before(a@, b@),
{
    let x: u8 = rank_of(a);
    let y: u8 = rank_of(b);
    if x != y {
        x < y
    } else {
        comes_before(a, b)
    }
}

/// Whether the parts `a` come before the parts `b`, both read from `i` on.
pub open spec fn parts_before(a: Seq<Seq<char>>, b: Seq<Seq<char>>, i: int) -> bool
    decreases b.len() - i,
{
    if i < 0 || i >= b.len() {
        false
    } else if i >= a.len() {
        true
    } else if a[i] != b[i] {
        part_before(a[i], b[i])
    } else {
        parts_before(a, b, i + 1)
    }
}

/// Whether one path comes before another: part by part, a directory before
/// what it holds.
pub open spec fn path_before(a: Seq<char>, b: Seq<char>) -> bool {
    parts_before(parts(a), parts(b), 0)
}

fn list_before(a: &Vec<String>, b: &Vec<String>) -> (r: bool)
    ensures
        r == parts_before(crate::text::texts(a@), crate::text::texts(b@), 0),
{
    let ghost x = crate::text::texts(a@);
    let ghost y = crate::text::texts(b@);
    let mut i: usize = 0;
    while i < b.len()
        invariant
            i <= b@.len(),
            x == crate::text::texts(a@),
            y == crate::text::texts(b@),
            parts_before(x, y, 0) == parts_before(x, y, i as int),
        decreases b@.len() - i,
    {
        if i >= a.len() {
            return true;
        }
        proof {
            assert(x[i as int] == a@[i as int]@);
            assert(y[i as int] == b@[i as int]@);
        }
        if !same(a[i].as_str(), b[i].as_str()) {
            return part_comes_before(a[i].as_str(), b[i].as_str());
        }
        i = i + 1;
    }
    false
}

proof fn lemma_part_trans(a: Seq<char>, b: Seq<char>, c: Seq<char>)
    requires
        part_before(a, b),
        part_before(b, c),
    ensures
        part_before(a, c),
{
    if kind_rank(a) == kind_rank(b) && kind_rank(b) == kind_rank(c) {
        crate::text_order::lemma_before_trans(a, b, c);
    }
}

proof fn lemma_part_total(a: Seq<char>, b: Seq<char>)
    ensures
        part_before(a, b) || part_before(b, a) || a == b,
        part_before(a, b) ==> !part_before(b, a) && a != b,
{
    crate::text_order::lemma_before_total(a, b);
    if crate::text_order::before(a, b) {
        crate::text_order::lemma_before_asym(a, b);
    }
}

proof fn lemma_parts_total(a: Seq<Seq<char>>, b: Seq<Seq<char>>, i: int)
    requires
        0 <= i,
        i <= a.len(),
        i <= b.len(),
        a.take(i) == b.take(i),
    ensures
        parts_before(a, b, i) || parts_before(b, a, i) || a == b,
        parts_before(a, b, i) ==> !parts_before(b, a, i),
    decreases a.len() + b.len() - 2 * i,
{
    if i < a.len() && i < b.len() {
        lemma_part_total(a[i], b[i]);
        if a[i] == b[i] {
            assert(a.take(i + 1) =~= a.take(i).push(a[i]));
            assert(b.take(i + 1) =~= b.take(i).push(b[i]));
            lemma_parts_total(a, b, i + 1);
        }
    } else if i == a.len() && i == b.len() {
        assert(a.take(i) =~= a);
        assert(b.take(i) =~= b);
    }
}

proof fn lemma_parts_trans(a: Seq<Seq<char>>, b: Seq<Seq<char>>, c: Seq<Seq<char>>, i: int)
    requires
        0 <= i,
        parts_before(a, b, i),
        parts_before(b, c, i),
    ensures
        parts_before(a, c, i),
    decreases c.len() - i,
{
    if i < a.len() && i < b.len() && i < c.len() {
        if a[i] == b[i] && b[i] == c[i] {
            lemma_parts_trans(a, b, c, i + 1);
        } else if a[i] != b[i] && b[i] != c[i] {
            lemma_part_trans(a[i], b[i], c[i]);
            lemma_part_total(a[i], b[i]);
            lemma_part_total(b[i], c[i]);
        }
    }
}

/// Where `b` does not come before `a`, nor `c` before `b`, `c` does not come
/// before `a`.
proof fn lemma_not_before(a: Seq<char>, b: Seq<char>, c: Seq<char>)
    requires
        !path_before(b, a),
        !path_before(c, b),
    ensures
        !path_before(c, a),
{
    let (x, y, z) = (parts(a), parts(b), parts(c));
    assert(x.take(0) =~= y.take(0));
    assert(y.take(0) =~= z.take(0));
    assert(x.take(0) =~= z.take(0));
    lemma_parts_total(x, y, 0);
    lemma_parts_total(y, z, 0);
    lemma_parts_total(x, z, 0);
    if parts_before(x, y, 0) && parts_before(y, z, 0) {
        lemma_parts_trans(x, y, z, 0);
    }
}

/// No path comes before one that stands in front of it.
pub open spec fn in_order(s: Seq<Seq<char>>) -> bool {
    forall|i: int, j: int| 0 <= i < j < s.len() ==> !path_before(#[trigger] s[j], #[trigger] s[i])
}

/// The ordered list `s` with `x` behind all paths that it does not come before.
pub open spec fn with_path(s: Seq<Seq<char>>, x: Seq<char>) -> Seq<Seq<char>>
    decreases s.len(),
{
    if s.len() == 0 || !path_before(x, s.last()) {
        s.push(x)
    } else {
        with_path(s.drop_last(), x).push(s.last())
    }
}

/// The paths of a list in order.
pub open spec fn sorted_paths(s: Seq<Seq<char>>) -> Seq<Seq<char>>
    decreases s.len(),
{
    if s.len() == 0 {
        s
    } else {
        with_path(sorted_paths(s.drop_last()), s.last())
    }
}

proof fn lemma_with_path(s: Seq<Seq<char>>, x: Seq<char>)
    requires
        in_order(s),
    ensures
        in_order(with_path(s, x)),
        with_path(s, x).to_multiset() == s.to_multiset().insert(x),
        with_path(s, x).len() == s.len() + 1,
        forall|i: int|
            0 <= i < with_path(s, x).len() ==> #[trigger] with_path(s, x)[i] == x || s.contains(
                with_path(s, x)[i],
            ),
    decreases s.len(),
{
    broadcast use vstd::seq_lib::group_to_multiset_ensures;

    let w = with_path(s, x);
    if s.len() == 0 || !path_before(x, s.last()) {
        assert forall|i: int| 0 <= i < s.len() implies !path_before(x, #[trigger] s[i]) by {
            if i < s.len() - 1 {
                assert(!path_before(s[s.len() - 1], s[i]));
                lemma_not_before(s[i], s.last(), x);
            }
        }
        assert forall|i: int| 0 <= i < w.len() implies #[trigger] w[i] == x || s.contains(w[i]) by {}
    } else {
        let front = s.drop_last();
        lemma_with_path(front, x);
        let p = with_path(front, x);
        assert(s =~= front.push(s.last()));
        assert(w.to_multiset() =~= s.to_multiset().insert(x));
        assert forall|i: int| 0 <= i < w.len() implies #[trigger] w[i] == x || s.contains(w[i]) by {
            if i < p.len() && p[i] != x {
                let k = front.index_of(p[i]);
                assert(front[k] == p[i]);
                assert(s[k] == p[i]);
            } else if i == p.len() {
                assert(s[s.len() - 1] == s.last());
            }
        }
        assert forall|i: int| 0 <= i < p.len() implies !path_before(s.last(), #[trigger] p[i]) by {
            if p[i] != x {
                let k = front.index_of(p[i]);
                assert(front[k] == p[i]);
                assert(s[k] == p[i] && s[s.len() - 1] == s.last());
            } else {
                let (a, b) = (parts(x), parts(s.last()));
                assert(a.take(0) =~= b.take(0));
                lemma_parts_total(a, b, 0);
            }
        }
    }
}

/// Sorting keeps the paths and puts them in order.
pub proof fn law_paths_are_sorted(s: Seq<Seq<char>>)
    ensures
        in_order(sorted_paths(s)),
        sorted_paths(s).to_multiset() == s.to_multiset(),
        sorted_paths(s).len() == s.len(),
        forall|p: Seq<char>| #[trigger] sorted_paths(s).contains(p) <==> s.contains(p),
    decreases s.len(),
{
    broadcast use vstd::seq_lib::group_to_multiset_ensures;

    if s.len() > 0 {
        law_paths_are_sorted(s.drop_last());
        lemma_with_path(sorted_paths(s.drop_last()), s.last());
        assert(s =~= s.drop_last().push(s.last()));
    }
    assert forall|p: Seq<char>| #[trigger] sorted_paths(s).contains(p) <==> s.contains(p) by {
        assert(sorted_paths(s).to_multiset().count(p) == s.to_multiset().count(p));
    }
}

proof fn lemma_with_path_at(s: Seq<Seq<char>>, x: Seq<char>, p: int)
    requires
        0 <= p <= s.len(),
        forall|i: int| 0 <= i < p ==> !path_before(x, #[trigger] s[i]),
        forall|i: int| p <= i < s.len() ==> path_before(x, #[trigger] s[i]),
    ensures
        with_path(s, x) == s.insert(p, x),
    decreases s.len(),
{
    if p == s.len() {
        assert(s.insert(p, x) =~= s.push(x));
        if s.len() > 0 {
            assert(!path_before(x, s[s.len() - 1]));
        }
    } else {
        assert(path_before(x, s[s.len() - 1]));
        let front = s.drop_last();
        assert forall|i: int| 0 <= i < p implies !path_before(x, #[trigger] front[i]) by {
            assert(front[i] == s[i]);
        }
        assert forall|i: int| p <= i < front.len() implies path_before(x, #[trigger] front[i]) by {
            assert(front[i] == s[i]);
        }
        lemma_with_path_at(front, x, p);
        assert(s.insert(p, x) =~= front.insert(p, x).push(s.last()));
    }
}

/// The parts of a list of paths.
spec fn all_parts(s: Seq<Seq<char>>) -> Seq<Seq<Seq<char>>> {
    s.map_values(|p: Seq<char>| parts(p))
}

/// The characters of a list of lists of texts.
spec fn key_views(v: Seq<Vec<String>>) -> Seq<Seq<Seq<char>>> {
    v.map_values(|k: Vec<String>| crate::text::texts(k@))
}

/// The index at which `x` belongs in an ordered list with the given parts.
fn place_for(keys: &Vec<Vec<String>>, key: &Vec<String>, Ghost(s): Ghost<Seq<Seq<char>>>, Ghost(
    x,
): Ghost<Seq<char>>) -> (p: usize)
    requires
        in_order(s),
        key_views(keys@) == all_parts(s),
        crate::text::texts(key@) == parts(x),
    ensures
        p <= s.len(),
        forall|i: int| 0 <= i < p ==> !path_before(x, #[trigger] s[i]),
        forall|i: int| p <= i < s.len() ==> path_before(x, #[trigger] s[i]),
{
    proof {
        assert(key_views(keys@).len() == keys@.len());
        assert(all_parts(s).len() == s.len());
    }
    let mut low: usize = 0;
    let mut high: usize = keys.len();
    while low < high
        invariant
            low <= high <= keys@.len() == s.len(),
            in_order(s),
            key_views(keys@) == all_parts(s),
            crate::text::texts(key@) == parts(x),
            forall|i: int| 0 <= i < low ==> !path_before(x, #[trigger] s[i]),
            forall|i: int| high <= i < s.len() ==> path_before(x, #[trigger] s[i]),
        decreases high - low,
    {
        let middle: usize = low + (high - low) / 2;
        proof {
            assert(key_views(keys@)[middle as int] == crate::text::texts(keys@[middle as int]@));
            assert(all_parts(s)[middle as int] == parts(s[middle as int]));
        }
        if list_before(key, &keys[middle]) {
            proof {
                assert forall|i: int| middle <= i < s.len() implies path_before(
                    x,
                    #[trigger] s[i],
                ) by {
                    if i > middle && !path_before(x, s[i]) {
                        assert(!path_before(s[i], s[middle as int]));
                        lemma_not_before(s[middle as int], s[i], x);
                    }
                }
            }
            high = middle;
        } else {
            proof {
                assert forall|i: int| 0 <= i <= middle implies !path_before(x, #[trigger] s[i]) by {
                    if i < middle {
                        assert(!path_before(s[middle as int], s[i]));
                        lemma_not_before(s[i], s[middle as int], x);
                    }
                }
            }
            low = middle + 1;
        }
    }
    low
}

/// The paths of a list in order.
pub fn sort_paths(list: &Vec<String>) -> (r: Vec<String>)
    ensures
        crate::text::texts(r@) == sorted_paths(crate::text::texts(list@)),
{
    let ghost all = crate::text::texts(list@);
    let mut out: Vec<String> = Vec::new();
    let mut keys: Vec<Vec<String>> = Vec::new();
    let mut i: usize = 0;
    proof {
        assert(crate::text::texts(out@) =~= sorted_paths(all.take(0)));
        assert(key_views(keys@) =~= all_parts(crate::text::texts(out@)));
    }
    while i < list.len()
        invariant
            i <= list@.len(),
            all == crate::text::texts(list@),
            crate::text::texts(out@) == sorted_paths(all.take(i as int)),
            key_views(keys@) == all_parts(crate::text::texts(out@)),
        decreases list@.len() - i,
    {
        let ghost s = crate::text::texts(out@);
        let ghost x = list@[i as int]@;
        let ghost front = all.take(i as int);
        proof {
            assert(all.take(i + 1).drop_last() =~= front);
            assert(all.take(i + 1).last() == x);
            law_paths_are_sorted(front);
        }
        let key = parts_of(list[i].as_str());
        let p = place_for(&keys, &key, Ghost(s), Ghost(x));
        let ghost old_keys = keys@;
        let copy = copy_text(list[i].as_str());
        proof {
            lemma_with_path_at(s, x, p as int);
            assert(key_views(old_keys).len() == all_parts(s).len());
        }
        out.insert(p, copy);
        keys.insert(p, key);
        proof {
            assert(crate::text::texts(out@) =~= s.insert(p as int, x));
            assert(key_views(keys@) =~= key_views(old_keys).insert(p as int, parts(x)));
            assert(all_parts(s.insert(p as int, x)) =~= all_parts(s).insert(p as int, parts(x)));
        }
        i = i + 1;
    }
    proof {
        assert(all.take(list@.len() as int) =~= all);
    }
    out
}

/// A list without the entries that equal their predecessor.
pub open spec fn without_repeats(s: Seq<Seq<char>>) -> Seq<Seq<char>>
    decreases s.len(),
{
    if s.len() <= 1 {
        s
    } else {
        let front = without_repeats(s.drop_last());
        if s.last() == s[s.len() - 2] {
            front
        } else {
            front.push(s.last())
        }
    }
}

/// A list without the entries that equal their predecessor.
pub fn drop_repeats(list: &Vec<String>) -> (r: Vec<String>)
    ensures
        crate::text::texts(r@) == without_repeats(crate::text::texts(list@)),
{
    let ghost all = crate::text::texts(list@);
    let mut out: Vec<String> = Vec::new();
    let mut i: usize = 0;
    proof {
        assert(crate::text::texts(out@) =~= without_repeats(all.take(0)));
    }
    while i < list.len()
        invariant
            i <= list@.len(),
            all == crate::text::texts(list@),
            crate::text::texts(out@) == without_repeats(all.take(i as int)),
        decreases list@.len() - i,
    {
        let ghost upto = all.take(i + 1);
        proof {
            assert(upto.drop_last() =~= all.take(i as int));
            assert(upto.last() == list@[i as int]@);
            if i > 0 {
                assert(upto[upto.len() - 2] == list@[i - 1]@);
            } else {
                assert(all.take(0) =~= Seq::<Seq<char>>::empty());
            }
        }
        if i == 0 || !same(list[i].as_str(), list[i - 1].as_str()) {
            let copy = copy_text(list[i].as_str());
            proof {
                crate::text::lemma_texts_push(out@, copy);
                assert(without_repeats(upto) =~= without_repeats(all.take(i as int)).push(copy@));
            }
            out.push(copy);
        }
        i = i + 1;
    }
    proof {
        assert(all.take(list@.len() as int) =~= all);
    }
    out
}

/// Dropping repeats keeps every path, and of equal neighbours one.
pub proof fn law_repeats_are_dropped(s: Seq<Seq<char>>)
    ensures
        forall|p: Seq<char>| #[trigger] without_repeats(s).contains(p) <==> s.contains(p),
        forall|i: int|
            0 <= i < without_repeats(s).len() - 1 ==> #[trigger] without_repeats(s)[i]
                != without_repeats(s)[i + 1],
        s.len() > 0 ==> without_repeats(s).len() > 0 && without_repeats(s).last() == s.last(),
    decreases s.len(),
{
    if s.len() > 1 {
        let before = s.drop_last();
        law_repeats_are_dropped(before);
        let front = without_repeats(before);
        let all = without_repeats(s);
        assert forall|p: Seq<char>| #[trigger] all.contains(p) <==> s.contains(p) by {
            if s.contains(p) {
                let n = s.index_of(p);
                if n < before.len() {
                    assert(before[n] == p);
                    assert(front.contains(p));
                    let k = front.index_of(p);
                    assert(all[k] == p);
                } else if s.last() == s[s.len() - 2] {
                    assert(before[before.len() - 1] == p);
                    assert(front.contains(p));
                } else {
                    assert(all[all.len() - 1] == p);
                }
            }
            if all.contains(p) {
                let k = all.index_of(p);
                if k < front.len() {
                    assert(front[k] == p);
                    assert(front.contains(p));
                    let n = before.index_of(p);
                    assert(s[n] == p);
                } else {
                    assert(s[s.len() - 1] == p);
                }
            }
        }
        assert forall|i: int| 0 <= i < all.len() - 1 implies #[trigger] all[i] != all[i + 1] by {
            assert(all[i] == front[i]);
            if i + 1 < front.len() {
                assert(front[i] != front[i + 1]);
            } else {
                assert(front[i] == front.last());
            }
        }
    }
}

// ---- what paths are made of ----

/// A path below a base is the two with one slash between them; an absolute one
/// stays as it is.
pub proof fn law_paths_below(base: Seq<char>, path: Seq<char>)
    ensures
        path.len() > 0 && path[0] == '/' ==> under(base, path) == path,
        (path.len() == 0 || path[0] != '/') && base.len() == 0 ==> under(base, path) == path,
        (path.len() == 0 || path[0] != '/') && base.len() > 0 && base.last() == '/' ==> under(
            base,
            path,
        ) == base + path,
        (path.len() == 0 || path[0] != '/') && base.len() > 0 && base.last() != '/' ==> under(
            base,
            path,
        ) == base + seq!['/'] + path,
{
    reveal_strlit("/");
    let slash = "/"@;
    assert(slash =~= seq!['/']);
    if path.len() > 0 && path[0] == '/' {
        assert(path.subrange(0, 1) =~= slash);
    }
    if absolute(path) {
        assert(path.subrange(0, 1)[0] == '/');
    }
    if base.len() > 0 {
        let n = base.len() - 1;
        if base.last() == '/' {
            assert(base.subrange(n, n + 1) =~= slash);
        }
        if crate::text::ends(base, slash) {
            assert(base.subrange(n, n + 1)[0] == '/');
        }
    }
    assert(base + path =~= base + path);
    if base.len() == 0 {
        assert(base + path =~= path);
    }
}

/// A part `.` changes nothing, a part `..` takes the part before it back, and any
/// other part is added.
pub proof fn law_settling(parts: Seq<Seq<char>>, part: Seq<char>)
    requires
        part != "."@,
        part != ".."@,
    ensures
        settled(parts.push("."@)) == settled(parts),
        settled(parts.push(part)) == settled(parts).push(part),
        settled(parts.push(part).push(".."@)) == settled(parts),
        settled(parts).len() == 0 ==> settled(parts.push(".."@)).len() == 0,
{
    reveal_strlit(".");
    reveal_strlit("..");
    assert("."@.len() == 1);
    assert(".."@.len() == 2);
    assert(parts.push("."@).drop_last() =~= parts);
    assert(parts.push(part).drop_last() =~= parts);
    assert(parts.push(".."@).drop_last() =~= parts);
    assert(parts.push(part).push(".."@).drop_last() =~= parts.push(part));
    assert(settled(parts).push(part).drop_last() =~= settled(parts));
}

proof fn lemma_named(names: Seq<Seq<char>>)
    requires
        forall|i: int| 0 <= i < names.len() ==> (#[trigger] names[i]).len() > 0 && names[i] != "."@,
    ensures
        named(names) == names,
    decreases names.len(),
{
    if names.len() > 0 {
        let front = names.drop_last();
        assert forall|i: int| 0 <= i < front.len() implies (#[trigger] front[i]).len() > 0
            && front[i] != "."@ by {
            assert(front[i] == names[i]);
        }
        assert(names[names.len() - 1] == names.last());
        lemma_named(front);
        assert(front.push(names.last()) =~= names);
    }
}

/// The parts of a path are the names between its slashes, and the last of them is
/// the name of what it leads to; its suffix is what stands behind the last dot.
pub proof fn law_parts_of_a_path(names: Seq<Seq<char>>, stem: Seq<char>, suffix: Seq<char>)
    requires
        names.len() > 0,
        forall|i: int|
            0 <= i < names.len() ==> (#[trigger] names[i]).len() > 0 && names[i] != "."@
                && !names[i].contains('/'),
        names.last() == stem + "."@ + suffix,
        stem.len() > 0,
        !suffix.contains('.'),
        names.last() != ".."@,
    ensures
        parts(crate::text::joined(names, seq!['/'])) == names,
        last_name(crate::text::joined(names, seq!['/'])) == Some(names.last()),
        suffix_of(crate::text::joined(names, seq!['/'])) == Some(suffix),
{
    let path = crate::text::joined(names, seq!['/']);
    reveal_strlit("/");
    reveal_strlit(".");
    let slash = "/"@;
    let dot = "."@;
    assert(slash =~= seq!['/']);
    assert(dot.len() == 1 && dot[0] == '.');
    crate::text::law_splitting_undoes_joining(names, '/');
    lemma_named(names);
    assert(names[0].len() > 0 && !names[0].contains('/'));
    assert(!crate::text::begins(path, slash)) by {
        if crate::text::begins(path, slash) {
            assert(path.subrange(0, 1)[0] == '/');
            assert(path.subrange(0, 0) =~= Seq::<char>::empty());
            crate::text::law_cutting(path, slash);
            assert(crate::text::occurs_at(path, slash, 0));
            crate::text::lemma_find_from(path, slash, 0);
            assert(crate::text::find(path, slash) == Some(0int));
            assert(crate::text::split_on(path, slash)[0] == path.take(0));
            assert(names[0].len() == 0);
        }
    }
    assert(names[0] != "."@);
    let name = names.last();
    assert(names[names.len() - 1] == name);
    assert(!name.contains('/'));
    assert(name != slash) by {
        if name == slash {
            assert(name[0] == '/');
        }
    }
    let at = stem.len() as int;
    assert(name.subrange(at, at + 1) =~= dot);
    assert(crate::text::occurs_at(name, dot, at));
    crate::text::lemma_rfind_to(name, dot, name.len() - 1);
    let p = crate::text::rfind(name, dot)->0;
    assert(name.subrange(p, p + 1)[0] == '.');
    if p > at {
        assert(suffix[p - at - 1] == '.');
        assert(suffix.contains('.'));
    }
    assert(name.take(at) =~= stem);
    assert(name.skip(at + 1) =~= suffix);
}

proof fn lemma_first_difference(a: Seq<Seq<char>>, b: Seq<Seq<char>>, i: int, n: int)
    requires
        0 <= i <= n <= a.len(),
        n < b.len(),
        forall|k: int| 0 <= k < n ==> #[trigger] a[k] == b[k],
        n < a.len() ==> a[n] != b[n],
    ensures
        parts_before(a, b, i) == (n == a.len() || part_before(a[n], b[n])),
    decreases n - i,
{
    if i < n {
        assert(a[i] == b[i]);
        lemma_first_difference(a, b, i + 1, n);
    }
}

/// Paths are ordered by the first part in which they differ, and a path comes
/// before what lies below it.
pub proof fn law_order_of_paths(a: Seq<char>, b: Seq<char>, n: int)
    requires
        0 <= n <= parts(a).len(),
        n < parts(b).len(),
        forall|k: int| 0 <= k < n ==> #[trigger] parts(a)[k] == parts(b)[k],
        n < parts(a).len() ==> parts(a)[n] != parts(b)[n],
    ensures
        n == parts(a).len() ==> path_before(a, b),
        n < parts(a).len() && is_name(parts(a)[n]) && is_name(parts(b)[n]) ==> (path_before(a, b)
            <==> crate::text_order::before(parts(a)[n], parts(b)[n])),
{
    lemma_first_difference(parts(a), parts(b), 0, n);
}

} // verus!
