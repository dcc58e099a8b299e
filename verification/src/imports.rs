//! Direct relative-import extraction: incremental mode hashes a test file
//! together with the local modules it imports, since a change to a helper,
//! fixture or setup module must invalidate cached verdicts even though the
//! test file's own bytes are unchanged.
//!
//! One hop of static and dynamic relative imports covers the dominant class
//! (colocated helpers and fixtures). Package-name imports are versioned by the
//! lockfile, which is hashed separately.
use vstd::prelude::*;

use crate::estree::get_list;
use crate::estree::get_offset;
use crate::estree::get_text;
use crate::estree::get_type;
use crate::estree::json_keys;
use crate::estree::json_list;
use crate::estree::json_member;
use crate::estree::json_text;
use crate::estree::parse_file;
use crate::estree::read_program;
use crate::paths::is_absolute;
use crate::paths::parts_of;
use crate::paths::rebuild;
use crate::paths::settle;
use crate::text::begins_with;
use crate::text::concat2;
use crate::text::copy_text;
use crate::text::same;

verus! {

/// Whether a specifier names a file by its place.
pub open spec fn is_relative(specifier: Seq<char>) -> bool {
    crate::text::begins(specifier, "./"@) || crate::text::begins(specifier, "../"@)
}

/// The text of a string literal.
pub open spec fn literal_text(t: crate::estree::Tree) -> Option<Seq<char>> {
    match crate::estree::member(t, "value"@) {
        Some(crate::estree::Tree::Text(text)) => if crate::estree::type_of(t) == "Literal"@ {
            Some(text)
        } else {
            None
        },
        _ => None,
    }
}

/// The node from which a node imports, where it is one that imports:
/// `import .. from`, `export .. from`, `import(..)`, `require(..)`.
pub open spec fn imported(t: crate::estree::Tree) -> crate::estree::Tree {
    let ty = crate::estree::type_of(t);
    if ty == "ImportDeclaration"@ || ty == "ExportNamedDeclaration"@ || ty
        == "ExportAllDeclaration"@ || ty == "ImportExpression"@ {
        crate::estree::node_in(t, "source"@)
    } else if ty == "CallExpression"@ {
        let callee = crate::estree::node_in(t, "callee"@);
        let arguments = crate::estree::list_in(t, "arguments"@);
        if crate::estree::type_of(callee) == "Identifier"@ && crate::estree::text_in(callee, "name"@)
            == "require"@ && arguments.len() > 0 {
            arguments[0]
        } else {
            crate::estree::Tree::Null
        }
    } else {
        crate::estree::Tree::Null
    }
}

/// Whether a node itself, at the offset `start`, imports `specifier` by its place.
pub open spec fn imports(t: crate::estree::Tree, start: u32, specifier: Seq<char>) -> bool {
    literal_text(imported(t)) == Some(specifier) && is_relative(specifier)
        && crate::estree::offset_in(t, "start"@) == start
}

/// Whether a node or one below it imports `specifier` at the offset `start`.
pub open spec fn imports_in(t: crate::estree::Tree, start: u32, specifier: Seq<char>) -> bool
    decreases t,
{
    match t {
        crate::estree::Tree::List(items) => exists|i: int|
            0 <= i < items.len() && decreases_to!(t => #[trigger] items[i]) && imports_in(
                items[i],
                start,
                specifier,
            ),
        crate::estree::Tree::Object(m) => imports(t, start, specifier) || exists|k: Seq<char>|
            m.dom().contains(k) && decreases_to!(t => #[trigger] m[k]) && imports_in(
                m[k],
                start,
                specifier,
            ),
        _ => false,
    }
}

/// A relative import and where it stands.
#[derive(Debug)]
pub struct Import {
    pub start: u32,
    pub specifier: String,
}

impl Import {
    pub open spec fn view(&self) -> (u32, Seq<char>) {
        (self.start, self.specifier@)
    }
}

/// The values of a list of imports.
pub open spec fn import_views(v: Seq<Import>) -> Seq<(u32, Seq<char>)> {
    v.map_values(|i: Import| i@)
}

/// Whether one import stands before another.
pub open spec fn stands_before(a: (u32, Seq<char>), b: (u32, Seq<char>)) -> bool {
    a.0 < b.0 || (a.0 == b.0 && crate::text_order::before(a.1, b.1))
}

/// Every import stands before all that follow it.
pub open spec fn in_source_order(s: Seq<(u32, Seq<char>)>) -> bool {
    forall|i: int, j: int| 0 <= i < j < s.len() ==> stands_before(#[trigger] s[i], #[trigger] s[j])
}

/// Whether `s` lists the relative imports of a tree in source order.
pub open spec fn lists_imports(s: Seq<(u32, Seq<char>)>, t: crate::estree::Tree) -> bool {
    &&& in_source_order(s)
    &&& forall|p: (u32, Seq<char>)| #[trigger] s.contains(p) <==> imports_in(t, p.0, p.1)
}

/// The specifiers of a list of imports.
pub open spec fn specifiers(s: Seq<(u32, Seq<char>)>) -> Seq<Seq<char>> {
    s.map_values(|p: (u32, Seq<char>)| p.1)
}

proof fn lemma_stands_trans(a: (u32, Seq<char>), b: (u32, Seq<char>), c: (u32, Seq<char>))
    requires
        stands_before(a, b),
        stands_before(b, c),
    ensures
        stands_before(a, c),
{
    if a.0 == b.0 && b.0 == c.0 {
        crate::text_order::lemma_before_trans(a.1, b.1, c.1);
    }
}

proof fn lemma_stands_total(a: (u32, Seq<char>), b: (u32, Seq<char>))
    ensures
        stands_before(a, b) || stands_before(b, a) || a == b,
        stands_before(a, b) ==> !stands_before(b, a) && a != b,
{
    crate::text_order::lemma_before_total(a.1, b.1);
    if crate::text_order::before(a.1, b.1) {
        crate::text_order::lemma_before_asym(a.1, b.1);
    }
}

/// There is one list of the relative imports of a tree.
pub proof fn law_imports_are_determined(
    a: Seq<(u32, Seq<char>)>,
    b: Seq<(u32, Seq<char>)>,
    t: crate::estree::Tree,
)
    requires
        lists_imports(a, t),
        lists_imports(b, t),
    ensures
        a == b,
{
    assert forall|p: (u32, Seq<char>)| #[trigger] a.contains(p) <==> b.contains(p) by {
        assert(a.contains(p) <==> imports_in(t, p.0, p.1));
        assert(b.contains(p) <==> imports_in(t, p.0, p.1));
    }
    lemma_same_order(a, b);
}

proof fn lemma_same_order(a: Seq<(u32, Seq<char>)>, b: Seq<(u32, Seq<char>)>)
    requires
        in_source_order(a),
        in_source_order(b),
        forall|p: (u32, Seq<char>)| #[trigger] a.contains(p) <==> b.contains(p),
    ensures
        a == b,
    decreases a.len(),
{
    if a.len() == 0 {
        if b.len() > 0 {
            assert(b.contains(b[0]));
            assert(a.contains(b[0]));
        }
        assert(a =~= b);
    } else {
        assert(a.contains(a[0]));
        assert(b.contains(a[0]));
        let i = b.index_of(a[0]);
        assert(b.contains(b[0]));
        assert(a.contains(b[0]));
        let j = a.index_of(b[0]);
        lemma_stands_total(a[0], b[0]);
        if a[0] != b[0] {
            assert(i > 0 && j > 0);
            assert(stands_before(b[0], b[i]));
            assert(stands_before(a[0], a[j]));
            assert(false);
        }
        let x = a.skip(1);
        let y = b.skip(1);
        assert forall|p: (u32, Seq<char>)| #[trigger] x.contains(p) <==> y.contains(p) by {
            if x.contains(p) {
                let k = x.index_of(p);
                assert(a[k + 1] == p);
                assert(a.contains(p));
                assert(b.contains(p));
                let n = b.index_of(p);
                lemma_stands_total(a[0], a[k + 1]);
                assert(n > 0);
                assert(y[n - 1] == p);
            }
            if y.contains(p) {
                let k = y.index_of(p);
                assert(b[k + 1] == p);
                assert(b.contains(p));
                assert(a.contains(p));
                let n = a.index_of(p);
                lemma_stands_total(b[0], b[k + 1]);
                assert(n > 0);
                assert(x[n - 1] == p);
            }
        }
        lemma_same_order(x, y);
        assert(a =~= seq![a[0]] + x);
        assert(b =~= seq![b[0]] + y);
    }
}

// ---- collecting ----

fn literal(node: &serde_json::Value) -> (r: Option<String>)
    ensures
        crate::text::opt_text(r) == literal_text(crate::estree::json_tree(*node)),
{
    match json_member(node, "value") {
        Some(value) => match json_text(value) {
            Some(text) => if same(get_type(node), "Literal") {
                Some(copy_text(text))
            } else {
                None
            },
            None => None,
        },
        None => None,
    }
}

fn own_specifier(node: &serde_json::Value) -> (r: Option<String>)
    ensures
        crate::text::opt_text(r) == literal_text(imported(crate::estree::json_tree(*node))),
{
    let ty = get_type(node);
    if same(ty, "ImportDeclaration") || same(ty, "ExportNamedDeclaration") || same(
        ty,
        "ExportAllDeclaration",
    ) || same(ty, "ImportExpression") {
        return match json_member(node, "source") {
            Some(source) => literal(source),
            None => None,
        };
    }
    if !same(ty, "CallExpression") {
        return None;
    }
    let callee = match json_member(node, "callee") {
        Some(callee) => callee,
        None => {
            proof {
                reveal_strlit("Identifier");
                assert(crate::estree::type_of(crate::estree::Tree::Null).len() == 0);
            }
            return None;
        },
    };
    let arguments = match get_list(node, "arguments") {
        Some(arguments) => arguments,
        None => {
            return None;
        },
    };
    proof {
        assert(crate::estree::json_trees(arguments@).len() == arguments@.len());
    }
    if arguments.len() > 0 && same(get_type(callee), "Identifier") && same(
        get_text(callee, "name"),
        "require",
    ) {
        proof {
            assert(crate::estree::json_trees(arguments@)[0] == crate::estree::json_tree(
                arguments@[0],
            ));
        }
        literal(&arguments[0])
    } else {
        None
    }
}

/// Whether `s` lists what `before` lists and the pairs that `extra` accepts.
spec fn grown(
    s: Seq<(u32, Seq<char>)>,
    before: Seq<(u32, Seq<char>)>,
    extra: spec_fn((u32, Seq<char>)) -> bool,
) -> bool {
    &&& in_source_order(s)
    &&& forall|p: (u32, Seq<char>)| #[trigger] s.contains(p) <==> before.contains(p) || extra(p)
}

fn add_import(out: &mut Vec<Import>, start: u32, specifier: String)
    requires
        in_source_order(import_views(old(out)@)),
    ensures
        grown(
            import_views(final(out)@),
            import_views(old(out)@),
            |p: (u32, Seq<char>)| p == (start, specifier@),
        ),
{
    let ghost s = import_views(out@);
    let ghost x = (start, specifier@);
    let mut p: usize = 0;
    while p < out.len()
        invariant
            p <= out@.len(),
            s == import_views(out@),
            s == import_views(old(out)@),
            x == (start, specifier@),
            in_source_order(s),
            forall|i: int| 0 <= i < p ==> stands_before(#[trigger] s[i], x),
        ensures
            p < out@.len() ==> !stands_before(s[p as int], x) && s[p as int] != x,
        decreases out@.len() - p,
    {
        let item = &out[p];
        proof {
            assert(s[p as int] == item@);
            assert(s.contains(s[p as int]));
        }
        if item.start == start && same(item.specifier.as_str(), specifier.as_str()) {
            return;
        }
        let earlier = item.start < start || (item.start == start
            && crate::text_order::comes_before(item.specifier.as_str(), specifier.as_str()));
        if !earlier {
            break;
        }
        p = p + 1;
    }
    let ghost old_out = out@;
    out.insert(p, Import { start, specifier });
    proof {
        let n = import_views(out@);
        assert(n =~= s.insert(p as int, x));
        assert forall|i: int| p <= i < s.len() implies stands_before(x, #[trigger] s[i]) by {
            lemma_stands_total(s[p as int], x);
            if i > p {
                lemma_stands_trans(x, s[p as int], s[i]);
            }
        }
        assert forall|q: (u32, Seq<char>)| #[trigger] n.contains(q) <==> s.contains(q) || q == x by {
            assert(n[p as int] == x);
            if s.contains(q) {
                let k = s.index_of(q);
                if k < p {
                    assert(n[k] == q);
                } else {
                    assert(n[k + 1] == q);
                }
            }
            if n.contains(q) {
                let k = n.index_of(q);
                if k < p {
                    assert(s[k] == q);
                } else if k > p {
                    assert(s[k - 1] == q);
                }
            }
        }
    }
}

/// The imports of the first elements of a list.
spec fn in_items(items: Seq<crate::estree::Tree>, n: int, p: (u32, Seq<char>)) -> bool {
    exists|i: int| 0 <= i < n && imports_in(#[trigger] items[i], p.0, p.1)
}

/// The imports of the members of the first keys of an object.
spec fn in_members(
    m: Map<Seq<char>, crate::estree::Tree>,
    keys: Seq<Seq<char>>,
    n: int,
    p: (u32, Seq<char>),
) -> bool {
    exists|i: int| 0 <= i < n && imports_in(m[#[trigger] keys[i]], p.0, p.1)
}

proof fn lemma_list_imports(t: crate::estree::Tree, p: (u32, Seq<char>))
    requires
        t is List,
    ensures
        imports_in(t, p.0, p.1) <==> in_items(t->List_0, t->List_0.len() as int, p),
{
    let items = t->List_0;
    assert forall|i: int| 0 <= i < items.len() implies decreases_to!(t => #[trigger] items[i]) by {
        assert(decreases_to!(t => items));
        assert(decreases_to!(items => items[i]));
    }
}

proof fn lemma_object_imports(
    t: crate::estree::Tree,
    keys: Seq<Seq<char>>,
    p: (u32, Seq<char>),
)
    requires
        t is Object,
        keys.to_set() == t->Object_0.dom(),
    ensures
        imports_in(t, p.0, p.1) <==> imports(t, p.0, p.1) || in_members(
            t->Object_0,
            keys,
            keys.len() as int,
            p,
        ),
{
    let m = t->Object_0;
    assert forall|k: Seq<char>| m.dom().contains(k) implies decreases_to!(t => #[trigger] m[k]) by {
        crate::walk::lemma_member_below(t, k);
    }
    assert forall|k: Seq<char>| #[trigger] keys.contains(k) <==> m.dom().contains(k) by {
        assert(keys.to_set().contains(k) <==> keys.contains(k));
    }
    if imports_in(t, p.0, p.1) && !imports(t, p.0, p.1) {
        let k = choose|k: Seq<char>|
            m.dom().contains(k) && decreases_to!(t => #[trigger] m[k]) && imports_in(
                m[k],
                p.0,
                p.1,
            );
        assert(keys.contains(k));
        let i = keys.index_of(k);
        assert(imports_in(m[keys[i]], p.0, p.1));
    }
    if in_members(m, keys, keys.len() as int, p) {
        let i = choose|i: int|
            0 <= i < keys.len() && imports_in(m[#[trigger] keys[i]], p.0, p.1);
        assert(keys.contains(keys[i]));
        assert(imports_in(m[keys[i]], p.0, p.1));
    }
}

/// Adds the relative imports of a node and all below it to an ordered list.
fn collect_imports(node: &serde_json::Value, out: &mut Vec<Import>)
    requires
        in_source_order(import_views(old(out)@)),
    ensures
        grown(
            import_views(final(out)@),
            import_views(old(out)@),
            |p: (u32, Seq<char>)| imports_in(crate::estree::json_tree(*node), p.0, p.1),
        ),
    decreases crate::estree::json_tree(*node),
{
    let ghost t = crate::estree::json_tree(*node);
    let ghost begun = import_views(out@);
    if let Some(items) = json_list(node) {
        let ghost trees = items@.map_values(|v: serde_json::Value| crate::estree::json_tree(v));
        let mut i: usize = 0;
        while i < items.len()
            invariant
                i <= items@.len(),
                trees == items@.map_values(|v: serde_json::Value| crate::estree::json_tree(v)),
                t == crate::estree::json_tree(*node),
                t == crate::estree::Tree::List(trees),
                grown(
                    import_views(out@),
                    begun,
                    |p: (u32, Seq<char>)| in_items(trees, i as int, p),
                ),
            decreases items@.len() - i,
        {
            let ghost mid = import_views(out@);
            proof {
                assert(decreases_to!(t => t->List_0));
                assert(decreases_to!(trees => trees[i as int]));
                assert(trees[i as int] == crate::estree::json_tree(items@[i as int]));
            }
            collect_imports(&items[i], out);
            proof {
                let now = import_views(out@);
                assert forall|p: (u32, Seq<char>)| #[trigger] now.contains(p) <==> begun.contains(
                    p,
                ) || in_items(trees, i + 1, p) by {
                    assert(now.contains(p) <==> mid.contains(p) || imports_in(
                        trees[i as int],
                        p.0,
                        p.1,
                    ));
                    assert(mid.contains(p) <==> begun.contains(p) || in_items(
                        trees,
                        i as int,
                        p,
                    ));
                    if in_items(trees, i + 1, p) {
                        let k = choose|k: int|
                            0 <= k < i + 1 && imports_in(#[trigger] trees[k], p.0, p.1);
                        if k < i {
                            assert(in_items(trees, i as int, p));
                        }
                    }
                    if in_items(trees, i as int, p) {
                        let k = choose|k: int|
                            0 <= k < i && imports_in(#[trigger] trees[k], p.0, p.1);
                        assert(imports_in(trees[k], p.0, p.1));
                    }
                }
            }
            i = i + 1;
        }
        proof {
            let now = import_views(out@);
            assert forall|p: (u32, Seq<char>)| #[trigger] now.contains(p) <==> begun.contains(p)
                || imports_in(t, p.0, p.1) by {
                lemma_list_imports(t, p);
            }
        }
        return;
    }
    let keys = match json_keys(node) {
        Some(keys) => keys,
        None => {
            proof {
                assert forall|p: (u32, Seq<char>)| !imports_in(t, p.0, p.1) by {}
            }
            return;
        },
    };
    let ghost names = crate::text::texts(keys@);
    let ghost m = t->Object_0;
    if let Some(specifier) = own_specifier(node) {
        if begins_with(specifier.as_str(), "./") || begins_with(specifier.as_str(), "../") {
            let start: u32 = get_offset(node, "start");
            add_import(out, start, specifier);
        }
    }
    proof {
        let now = import_views(out@);
        assert forall|p: (u32, Seq<char>)| #[trigger] now.contains(p) <==> begun.contains(p)
            || imports(t, p.0, p.1) || in_members(m, names, 0, p) by {}
    }
    let mut i: usize = 0;
    while i < keys.len()
        invariant
            i <= keys@.len(),
            names == crate::text::texts(keys@),
            t == crate::estree::json_tree(*node),
            t is Object,
            m == t->Object_0,
            names.to_set() == m.dom(),
            grown(
                import_views(out@),
                begun,
                |p: (u32, Seq<char>)| imports(t, p.0, p.1) || in_members(m, names, i as int, p),
            ),
        decreases keys@.len() - i,
    {
        let ghost mid = import_views(out@);
        let ghost name = names[i as int];
        proof {
            assert(names.contains(name));
            assert(names.to_set().contains(name));
            crate::walk::lemma_member_below(t, name);
        }
        if let Some(found) = json_member(node, keys[i].as_str()) {
            collect_imports(found, out);
        }
        proof {
            let now = import_views(out@);
            assert forall|p: (u32, Seq<char>)| #[trigger] now.contains(p) <==> begun.contains(p)
                || (imports(t, p.0, p.1) || in_members(m, names, i + 1, p)) by {
                assert(now.contains(p) <==> mid.contains(p) || imports_in(m[name], p.0, p.1));
                assert(mid.contains(p) <==> begun.contains(p) || (imports(t, p.0, p.1)
                    || in_members(m, names, i as int, p)));
                if in_members(m, names, i + 1, p) {
                    let k = choose|k: int|
                        0 <= k < i + 1 && imports_in(m[#[trigger] names[k]], p.0, p.1);
                    if k < i {
                        assert(in_members(m, names, i as int, p));
                    }
                }
                if in_members(m, names, i as int, p) {
                    let k = choose|k: int|
                        0 <= k < i && imports_in(m[#[trigger] names[k]], p.0, p.1);
                    assert(imports_in(m[names[k]], p.0, p.1));
                }
                if imports_in(m[name], p.0, p.1) {
                    assert(imports_in(m[names[i as int]], p.0, p.1));
                }
            }
        }
        i = i + 1;
    }
    proof {
        let now = import_views(out@);
        assert forall|p: (u32, Seq<char>)| #[trigger] now.contains(p) <==> begun.contains(p)
            || imports_in(t, p.0, p.1) by {
            lemma_object_imports(t, names, p);
        }
    }
}

/// The relative imports of a program, in source order.
pub fn relative_imports(program: &serde_json::Value) -> (r: Vec<Import>)
    ensures
        lists_imports(import_views(r@), crate::estree::json_tree(*program)),
{
    let mut out: Vec<Import> = Vec::new();
    proof {
        assert(import_views(out@).len() == 0);
    }
    collect_imports(program, &mut out);
    out
}

/// Whether `r` holds the relative specifiers of what the parser made of a file.
pub open spec fn specifiers_of(parsed: crate::estree::ParsedView, r: Seq<Seq<char>>) -> bool {
    match crate::estree::program_tree(parsed.json) {
        Some(program) => if parsed.supported {
            exists|s: Seq<(u32, Seq<char>)>| #[trigger]
                lists_imports(s, program) && r == specifiers(s)
        } else {
            r.len() == 0
        },
        None => r.len() == 0,
    }
}

/// Relative import specifiers (`./x`, `../y`) of a module, in source order.
pub fn direct_relative_imports(path: &str, source: &str) -> (r: Vec<String>)
    ensures
        specifiers_of(
            crate::estree::parsed_file(path@, source@, false, true),
            crate::text::texts(r@),
        ),
{
    let parsed = parse_file(path, source, false, true);
    if !parsed.supported {
        return Vec::new();
    }
    let program = match read_program(parsed.json.as_str()) {
        Some(program) => program,
        None => {
            return Vec::new();
        },
    };
    let list = relative_imports(&program);
    let ghost all = import_views(list@);
    let mut out: Vec<String> = Vec::new();
    let mut i: usize = 0;
    proof {
        assert(crate::text::texts(out@) =~= specifiers(all).take(0));
    }
    while i < list.len()
        invariant
            i <= list@.len(),
            all == import_views(list@),
            crate::text::texts(out@) == specifiers(all).take(i as int),
        decreases list@.len() - i,
    {
        let copy = copy_text(list[i].specifier.as_str());
        proof {
            crate::text::lemma_texts_push(out@, copy);
            assert(all[i as int] == list@[i as int]@);
            assert(specifiers(all).take(i + 1) =~= specifiers(all).take(i as int).push(copy@));
        }
        out.push(copy);
        i = i + 1;
    }
    proof {
        assert(specifiers(all).take(list@.len() as int) =~= specifiers(all));
    }
    out
}

// ---- resolving ----

/// The parts of the file that a specifier names, before its extension is known;
/// nothing where the importer has no directory.
pub open spec fn target_parts(importer: Seq<char>, specifier: Seq<char>) -> Option<Seq<Seq<char>>> {
    let own = crate::paths::parts(importer);
    if own.len() == 0 || own.last() == "/"@ {
        None
    } else if crate::paths::absolute(specifier) {
        Some(crate::paths::settled(crate::paths::parts(specifier)))
    } else {
        Some(crate::paths::settled(own.drop_last() + crate::paths::parts(specifier)))
    }
}

/// The suffixes that an import may leave out, in order of preference.
pub open spec fn left_out() -> Seq<Seq<char>> {
    seq![""@, ".ts"@, ".tsx"@, ".mts"@, ".cts"@, ".js"@, ".jsx"@, ".mjs"@]
}

/// The files that stand for a directory, in order of preference.
pub open spec fn index_files() -> Seq<Seq<char>> {
    seq!["index.ts"@, "index.tsx"@, "index.js"@]
}

/// The files that a path without its extension may name, in order of preference.
pub open spec fn candidates_for(joined: Seq<char>) -> Seq<Seq<char>> {
    left_out().map_values(|suffix: Seq<char>| joined + suffix) + index_files().map_values(
        |index: Seq<char>| crate::paths::under(joined, index),
    )
}

/// The files that a specifier may name, in order of preference.
pub open spec fn resolutions(importer: Seq<char>, specifier: Seq<char>) -> Seq<Seq<char>> {
    match target_parts(importer, specifier) {
        Some(parts) => candidates_for(crate::paths::rebuilt(parts)),
        None => Seq::empty(),
    }
}

/// Resolves a relative specifier against the importer's directory: the paths
/// that the conventions for extensions allow, in order of preference, relative
/// to the root that the importer is relative to. The import names the first of
/// them that is a file.
pub fn resolve_relative_import(importer: &str, specifier: &str) -> (r: Vec<String>)
    ensures
        crate::text::texts(r@) == resolutions(importer@, specifier@),
{
    let mut base = parts_of(importer);
    let ghost own = crate::text::texts(base@);
    match base.pop() {
        None => {
            let none: Vec<String> = Vec::new();
            proof {
                assert(crate::text::texts(none@) =~= Seq::<Seq<char>>::empty());
            }
            return none;
        },
        Some(last) => {
            proof {
                assert(own.last() == last@);
                assert(crate::text::texts(base@) =~= own.drop_last());
            }
            if same(last.as_str(), "/") {
                let none: Vec<String> = Vec::new();
                proof {
                    assert(crate::text::texts(none@) =~= Seq::<Seq<char>>::empty());
                }
                return none;
            }
        },
    }
    let mut rest = parts_of(specifier);
    let ghost named = crate::text::texts(rest@);
    let all = if is_absolute(specifier) {
        rest
    } else {
        let ghost front = base@;
        let ghost back = rest@;
        base.append(&mut rest);
        proof {
            assert(crate::text::texts(base@) =~= crate::text::texts(front) + crate::text::texts(
                back,
            ));
        }
        base
    };
    let joined = rebuild(&settle(&all));
    let path = joined.as_str();
    let mut out: Vec<String> = Vec::new();
    out.push(concat2(path, ""));
    out.push(concat2(path, ".ts"));
    out.push(concat2(path, ".tsx"));
    out.push(concat2(path, ".mts"));
    out.push(concat2(path, ".cts"));
    out.push(concat2(path, ".js"));
    out.push(concat2(path, ".jsx"));
    out.push(concat2(path, ".mjs"));
    out.push(crate::paths::join_path(path, "index.ts"));
    out.push(crate::paths::join_path(path, "index.tsx"));
    out.push(crate::paths::join_path(path, "index.js"));
    proof {
        assert(crate::text::texts(out@) =~= candidates_for(path@));
    }
    out
}

// ---- what an import is ----

/// An import is relative where it begins with one or two dots and a slash.
pub proof fn law_relative_imports(rest: Seq<char>, specifier: Seq<char>)
    ensures
        is_relative("./"@ + rest),
        is_relative("../"@ + rest),
        specifier.len() > 0 && specifier[0] != '.' ==> !is_relative(specifier),
{
    reveal_strlit("./");
    reveal_strlit("../");
    assert("./"@[0] == '.' && "./"@.len() == 2);
    assert("../"@[0] == '.' && "../"@.len() == 3);
    crate::text::law_stripping("./"@ + rest, "./"@, rest);
    crate::text::law_stripping("../"@ + rest, "../"@, rest);
    if crate::text::begins(specifier, "./"@) {
        assert(specifier.subrange(0, 2)[0] == '.');
    }
    if crate::text::begins(specifier, "../"@) {
        assert(specifier.subrange(0, 3)[0] == '.');
    }
}

/// What is imported: the source of the four kinds of declarations and expressions
/// that have one, and what is handed to `require`; no other node imports.
pub proof fn law_what_imports(t: crate::estree::Tree)
    ensures
        ({
            let ty = crate::estree::type_of(t);
            let callee = crate::estree::node_in(t, "callee"@);
            let arguments = crate::estree::list_in(t, "arguments"@);
            let requires_it = ty == "CallExpression"@ && crate::estree::type_of(callee)
                == "Identifier"@ && crate::estree::text_in(callee, "name"@) == "require"@
                && arguments.len() > 0;
            let declares = ty == "ImportDeclaration"@ || ty == "ExportNamedDeclaration"@ || ty
                == "ExportAllDeclaration"@ || ty == "ImportExpression"@;
            &&& declares ==> imported(t) == crate::estree::node_in(t, "source"@)
            &&& requires_it ==> imported(t) == arguments[0]
            &&& !declares && !requires_it ==> imported(t) == crate::estree::Tree::Null
        }),
{
    reveal_strlit("ImportDeclaration");
    reveal_strlit("ExportNamedDeclaration");
    reveal_strlit("ExportAllDeclaration");
    reveal_strlit("ImportExpression");
    reveal_strlit("CallExpression");
    assert("ImportDeclaration"@.len() == 17);
    assert("ExportNamedDeclaration"@.len() == 22);
    assert("ExportAllDeclaration"@.len() == 20);
    assert("ImportExpression"@.len() == 16);
    assert("CallExpression"@.len() == 14);
}

/// A program imports what one of its nodes imports by a relative text, at the place
/// of that node, however deep it stands.
pub proof fn law_imports_of_a_tree(t: crate::estree::Tree, start: u32, specifier: Seq<char>)
    ensures
        match t {
            crate::estree::Tree::Object(m) => imports_in(t, start, specifier) <==> {
                ||| crate::estree::type_of(imported(t)) == "Literal"@ && crate::estree::member(
                    imported(t),
                    "value"@,
                ) == Some(crate::estree::Tree::Text(specifier)) && is_relative(specifier)
                    && crate::estree::offset_in(t, "start"@) == start
                ||| exists|k: Seq<char>|
                    m.contains_key(k) && imports_in(#[trigger] m[k], start, specifier)
            },
            crate::estree::Tree::List(items) => imports_in(t, start, specifier) <==> exists|i: int|
                0 <= i < items.len() && imports_in(#[trigger] items[i], start, specifier),
            _ => !imports_in(t, start, specifier),
        },
{
    match t {
        crate::estree::Tree::Object(m) => {
            if exists|k: Seq<char>|
                m.contains_key(k) && imports_in(#[trigger] m[k], start, specifier) {
                let k = choose|k: Seq<char>|
                    m.contains_key(k) && imports_in(#[trigger] m[k], start, specifier);
                assert(decreases_to!(t => m[k]));
            }
        },
        crate::estree::Tree::List(items) => {
            if exists|i: int|
                0 <= i < items.len() && imports_in(#[trigger] items[i], start, specifier) {
                let i = choose|i: int|
                    0 <= i < items.len() && imports_in(#[trigger] items[i], start, specifier);
                assert(decreases_to!(t => items));
                assert(decreases_to!(items => items[i]));
                assert(decreases_to!(t => items[i]));
            }
        },
        _ => {},
    }
}

/// Where an import may lead: to the file it names from the directory of the
/// importer, as it is and with each suffix that may be left out, and to the index
/// files of a directory.
pub proof fn law_where_imports_lead(importer: Seq<char>, specifier: Seq<char>)
    requires
        crate::paths::last_name(importer) is Some,
        !crate::paths::absolute(specifier),
    ensures
        ({
            let dir = crate::paths::parts(importer).drop_last();
            let joined = crate::paths::rebuilt(
                crate::paths::settled(dir + crate::paths::parts(specifier)),
            );
            resolutions(importer, specifier) == seq![
                joined,
                joined + ".ts"@,
                joined + ".tsx"@,
                joined + ".mts"@,
                joined + ".cts"@,
                joined + ".js"@,
                joined + ".jsx"@,
                joined + ".mjs"@,
                crate::paths::under(joined, "index.ts"@),
                crate::paths::under(joined, "index.tsx"@),
                crate::paths::under(joined, "index.js"@),
            ]
        }),
{
    reveal_strlit("");
    let dir = crate::paths::parts(importer).drop_last();
    let joined = crate::paths::rebuilt(
        crate::paths::settled(dir + crate::paths::parts(specifier)),
    );
    assert(joined + ""@ =~= joined);
    assert(resolutions(importer, specifier) =~= seq![
        joined,
        joined + ".ts"@,
        joined + ".tsx"@,
        joined + ".mts"@,
        joined + ".cts"@,
        joined + ".js"@,
        joined + ".jsx"@,
        joined + ".mjs"@,
        crate::paths::under(joined, "index.ts"@),
        crate::paths::under(joined, "index.tsx"@),
        crate::paths::under(joined, "index.js"@),
    ]);
}

} // verus!
