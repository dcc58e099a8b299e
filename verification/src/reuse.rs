//! What of a previous run's report is evidence, and when it saves a whole run.
use std::collections::BTreeMap;
use vstd::prelude::*;

use crate::config::StrykerConfig;
use crate::config::TestRunnerKind;
use crate::estree::json_keys;
use crate::estree::json_member;
use crate::estree::json_text;
use crate::incremental::hash_content;
use crate::incremental::reusable_results;
use crate::incremental::same_texts;
use crate::incremental::IncrementalInput;
use crate::model::Mutant;
use crate::model::MutantResult;
use crate::model::MutantStatus;
use crate::paths::drop_repeats;
use crate::paths::join_path;
use crate::paths::sort_paths;
use crate::schema::MutationTestResult;
use crate::text::begins_with;
use crate::text::chars_of;
use crate::text::concat2;
use crate::text::copy_text;
use crate::text::same;
use crate::text::stands_at;
use crate::text::text_of;
use crate::text_map::TextMap;

verus! {

broadcast use vstd::std_specs::btree::group_btree_axioms;

// ---- hashed inputs ----

/// The configuration files whose contents change the behavior of tests, beside
/// those of bun.
pub open spec fn common_inputs() -> Seq<Seq<char>> {
    seq!["bunfig.toml"@, "bun.lock"@, "bun.lockb"@, "package.json"@]
}

/// A path seen from the directory that bun runs in.
pub open spec fn from_cwd(cwd: Option<Seq<char>>, path: Seq<char>) -> Seq<char> {
    match cwd {
        Some(cwd) => crate::paths::under(cwd, path),
        None => path,
    }
}

/// A path without the `./` that it begins with, however often.
pub open spec fn plain(path: Seq<char>) -> Seq<char>
    decreases path.len(),
{
    if crate::text::begins(path, "./"@) && path.len() >= 2 {
        plain(path.skip(2))
    } else {
        path
    }
}

/// The files that arguments from `i` on preload.
pub open spec fn preloads(args: Seq<Seq<char>>, i: int, cwd: Option<Seq<char>>) -> Seq<Seq<char>>
    decreases args.len() - i,
{
    if i < 0 || i >= args.len() {
        Seq::empty()
    } else if args[i] == "--preload"@ {
        if i + 1 < args.len() {
            seq![from_cwd(cwd, plain(args[i + 1]))] + preloads(args, i + 2, cwd)
        } else {
            Seq::empty()
        }
    } else {
        preloads(args, i + 1, cwd)
    }
}

/// Whether bun runs tests.
pub open spec fn uses_bun(runner: TestRunnerKind) -> bool {
    runner is Bun || runner is Composite
}

/// The inputs of a run that change the behavior of tests without changing a test
/// file: lockfile, preload configuration, package manifests, preloaded files.
pub open spec fn inputs_of(config: StrykerConfig) -> Seq<Seq<char>> {
    let cwd = crate::text::opt_text(config.bun_runner.cwd);
    if uses_bun(config.test_runner) {
        common_inputs() + (match cwd {
            Some(dir) => seq![
                crate::paths::under(dir, "bunfig.toml"@),
                crate::paths::under(dir, "package.json"@),
            ],
            None => Seq::empty(),
        }) + preloads(crate::text::texts(config.bun_runner.args@), 0, cwd)
    } else {
        common_inputs()
    }
}

fn strip_dots(path: &str) -> (r: String)
    ensures
        r@ == plain(path@),
{
    let chars = chars_of(path);
    let dots = chars_of("./");
    let total = chars.len();
    let mut i: usize = 0;
    proof {
        reveal_strlit("./");
        assert(chars@.skip(0) =~= chars@);
    }
    while total - i >= 2 && stands_at(&chars, &dots, i)
        invariant
            i <= total == chars@.len(),
            dots@ == "./"@,
            dots@.len() == 2,
            chars@ == path@,
            plain(path@) == plain(chars@.skip(i as int)),
        decreases total - i,
    {
        proof {
            let rest = chars@.skip(i as int);
            assert(rest.subrange(0, 2) =~= chars@.subrange(i as int, i + 2));
            assert(rest.skip(2) =~= chars@.skip(i + 2));
        }
        i = i + 2;
    }
    let rest = text_of(&chars, i, total);
    proof {
        assert(rest@ =~= chars@.skip(i as int));
        assert(rest@.len() >= 2 ==> rest@.subrange(0, 2) =~= chars@.subrange(i as int, i + 2));
    }
    rest
}

fn see_from(cwd: &Option<String>, path: &str) -> (r: String)
    ensures
        r@ == from_cwd(crate::text::opt_text(*cwd), path@),
{
    match cwd {
        Some(cwd) => join_path(cwd.as_str(), path),
        None => copy_text(path),
    }
}

/// The inputs of a run that change the behavior of tests without changing a test
/// file, as paths from the project root.
pub fn config_inputs(config: &StrykerConfig) -> (r: Vec<String>)
    ensures
        crate::text::texts(r@) == inputs_of(*config),
{
    let mut out: Vec<String> = Vec::new();
    out.push(copy_text("bunfig.toml"));
    out.push(copy_text("bun.lock"));
    out.push(copy_text("bun.lockb"));
    out.push(copy_text("package.json"));
    proof {
        assert(crate::text::texts(out@) =~= common_inputs());
    }
    if !matches!(config.test_runner, TestRunnerKind::Bun | TestRunnerKind::Composite) {
        return out;
    }
    let ghost cwd = crate::text::opt_text(config.bun_runner.cwd);
    let ghost own = match cwd {
        Some(dir) => seq![
            crate::paths::under(dir, "bunfig.toml"@),
            crate::paths::under(dir, "package.json"@),
        ],
        None => Seq::<Seq<char>>::empty(),
    };
    if let Some(dir) = &config.bun_runner.cwd {
        out.push(join_path(dir.as_str(), "bunfig.toml"));
        out.push(join_path(dir.as_str(), "package.json"));
    }
    let ghost head = common_inputs() + own;
    let ghost args = crate::text::texts(config.bun_runner.args@);
    let list = &config.bun_runner.args;
    let total = list.len();
    let mut i: usize = 0;
    proof {
        assert(crate::text::texts(out@) =~= head);
        assert(crate::text::texts(out@) + preloads(args, 0, cwd) =~= head + preloads(args, 0, cwd));
    }
    while i < total
        invariant
            i <= total == list@.len(),
            list@ == config.bun_runner.args@,
            args == crate::text::texts(list@),
            cwd == crate::text::opt_text(config.bun_runner.cwd),
            crate::text::texts(out@) + preloads(args, i as int, cwd) == head + preloads(
                args,
                0,
                cwd,
            ),
        decreases total - i,
    {
        proof {
            assert(args[i as int] == list@[i as int]@);
        }
        if same(list[i].as_str(), "--preload") {
            if i + 1 < total {
                let file = see_from(&config.bun_runner.cwd, strip_dots(list[i + 1].as_str()).as_str());
                let ghost before = crate::text::texts(out@);
                proof {
                    assert(args[i + 1] == list@[i + 1]@);
                    crate::text::lemma_texts_push(out@, file);
                }
                out.push(file);
                i = i + 2;
                proof {
                    assert(before.push(file@) + preloads(args, i as int, cwd) =~= before + (seq![
                        file@,
                    ] + preloads(args, i as int, cwd)));
                }
            } else {
                i = i + 1;
            }
        } else {
            i = i + 1;
        }
    }
    proof {
        assert(crate::text::texts(out@) + preloads(args, total as int, cwd) =~= crate::text::texts(
            out@,
        ));
        assert(head + preloads(args, 0, cwd) =~= inputs_of(*config));
    }
    out
}

/// The key of an input among the hashes.
pub open spec fn input_key(path: Seq<char>) -> Seq<char> {
    "config:"@ + path
}

/// The hashes of the inputs that could be read.
pub open spec fn input_hashes(paths: Seq<Seq<char>>, contents: Seq<Option<String>>) -> Map<
    Seq<char>,
    Seq<char>,
>
    decreases paths.len(),
{
    if paths.len() == 0 {
        Map::empty()
    } else {
        let front = input_hashes(paths.drop_last(), contents);
        match contents[paths.len() - 1] {
            Some(content) => front.insert(
                input_key(paths.last()),
                crate::incremental::sha256_hex(content@),
            ),
            None => front,
        }
    }
}

proof fn lemma_text_insert(m: Map<Seq<char>, String>, key: Seq<char>, value: String)
    ensures
        crate::incremental::text_values(m.insert(key, value)) == crate::incremental::text_values(
            m,
        ).insert(key, value@),
{
    assert(crate::incremental::text_values(m.insert(key, value)) =~= crate::incremental::text_values(
        m,
    ).insert(key, value@));
}

/// The hashes of the inputs that could be read.
pub fn config_input_hashes(paths: &Vec<String>, contents: &Vec<Option<String>>) -> (r: TextMap<
    String,
>)
    requires
        paths@.len() == contents@.len(),
    ensures
        crate::incremental::text_values(r@) == input_hashes(crate::text::texts(paths@), contents@),
{
    let ghost all = crate::text::texts(paths@);
    let mut out: TextMap<String> = TextMap::new();
    let mut i: usize = 0;
    proof {
        assert(crate::incremental::text_values(out@) =~= input_hashes(all.take(0), contents@));
    }
    while i < paths.len()
        invariant
            i <= paths@.len() == contents@.len(),
            all == crate::text::texts(paths@),
            crate::incremental::text_values(out@) == input_hashes(all.take(i as int), contents@),
        decreases paths@.len() - i,
    {
        proof {
            assert(all.take(i + 1).drop_last() =~= all.take(i as int));
            assert(all.take(i + 1).last() == paths@[i as int]@);
        }
        if let Some(content) = &contents[i] {
            let key = concat2("config:", paths[i].as_str());
            let hash = hash_content(content.as_str());
            proof {
                lemma_text_insert(out@, key@, hash);
            }
            out.insert(key, hash);
        }
        i = i + 1;
    }
    proof {
        assert(all.take(paths@.len() as int) =~= all);
    }
    out
}

// ---- test files and what they import ----

/// The imports of a test file in the order in which they are hashed.
pub fn order_dependencies(found: &Vec<String>) -> (r: Vec<String>)
    ensures
        crate::text::texts(r@) == crate::paths::without_repeats(
            crate::paths::sorted_paths(crate::text::texts(found@)),
        ),
{
    drop_repeats(&sort_paths(found))
}

/// The contents of an import: the pristine source of a mutate target, since
/// those files hold instrumented bytes on disk while the sandbox is active;
/// else what is on the disk, where it can be read.
pub open spec fn contents_of(
    path: Seq<char>,
    disk: Option<String>,
    pristine: Map<Seq<char>, String>,
) -> Option<Seq<char>> {
    if pristine.dom().contains(path) {
        Some(pristine[path]@)
    } else {
        crate::text::opt_text(disk)
    }
}

/// What is hashed of a test file: its contents, then path and contents of every
/// import.
pub open spec fn hashed_text(
    content: Seq<char>,
    imports: Seq<Seq<char>>,
    disk: Seq<Option<String>>,
    pristine: Map<Seq<char>, String>,
) -> Seq<char>
    decreases imports.len(),
{
    if imports.len() == 0 {
        content
    } else {
        let front = hashed_text(content, imports.drop_last(), disk, pristine);
        match contents_of(imports.last(), disk[imports.len() - 1], pristine) {
            Some(text) => front + "\0"@ + imports.last() + "\0"@ + text,
            None => front,
        }
    }
}

/// Hash of a test file's content plus the contents of its direct relative
/// imports, so that a changed colocated helper or fixture invalidates cached
/// verdicts. One hop covers the dominant class; package imports are versioned
/// by the lockfile, which is hashed as an input of the run.
pub fn dependency_aware_test_hash(
    content: &str,
    imports: &Vec<String>,
    disk: &Vec<Option<String>>,
    pristine: &TextMap<String>,
) -> (r: String)
    requires
        imports@.len() == disk@.len(),
    ensures
        r@ == crate::incremental::sha256_hex(
            hashed_text(content@, crate::text::texts(imports@), disk@, pristine@),
        ),
{
    let ghost all = crate::text::texts(imports@);
    let mut buffer = copy_text(content);
    let mut i: usize = 0;
    proof {
        assert(all.take(0) =~= Seq::<Seq<char>>::empty());
    }
    while i < imports.len()
        invariant
            i <= imports@.len() == disk@.len(),
            all == crate::text::texts(imports@),
            buffer@ == hashed_text(content@, all.take(i as int), disk@, pristine@),
        decreases imports@.len() - i,
    {
        let path = imports[i].as_str();
        proof {
            assert(all.take(i + 1).drop_last() =~= all.take(i as int));
            assert(all.take(i + 1).last() == path@);
        }
        let text = match pristine.get(path) {
            Some(source) => Some(copy_text(source.as_str())),
            None => crate::text::copy_opt(&disk[i]),
        };
        if let Some(text) = text {
            buffer.append("\0");
            buffer.append(path);
            buffer.append("\0");
            buffer.append(text.as_str());
        }
        i = i + 1;
    }
    proof {
        assert(all.take(imports@.len() as int) =~= all);
    }
    hash_content(buffer.as_str())
}

/// The hash of a test file does not depend on the bytes that the sandbox has put
/// in place of a mutate target.
pub proof fn law_hash_is_blind_to_instrumentation(
    content: Seq<char>,
    imports: Seq<Seq<char>>,
    before: Seq<Option<String>>,
    after: Seq<Option<String>>,
    pristine: Map<Seq<char>, String>,
)
    requires
        forall|i: int|
            0 <= i < imports.len() ==> pristine.dom().contains(#[trigger] imports[i]) || before[i]
                == after[i],
    ensures
        hashed_text(content, imports, before, pristine) == hashed_text(
            content,
            imports,
            after,
            pristine,
        ),
    decreases imports.len(),
{
    if imports.len() > 0 {
        let front = imports.drop_last();
        assert forall|i: int| 0 <= i < front.len() implies pristine.dom().contains(
            #[trigger] front[i],
        ) || before[i] == after[i] by {
            assert(front[i] == imports[i]);
        }
        law_hash_is_blind_to_instrumentation(content, front, before, after, pristine);
        assert(imports[imports.len() - 1] == imports.last());
    }
}

/// What an import adds to the text that is hashed.
spec fn hashed_part(path: Seq<char>, contents: Option<Seq<char>>) -> Seq<char> {
    match contents {
        Some(text) => "\0"@ + path + "\0"@ + text,
        None => Seq::empty(),
    }
}

proof fn lemma_last_part(
    content: Seq<char>,
    imports: Seq<Seq<char>>,
    disk: Seq<Option<String>>,
    pristine: Map<Seq<char>, String>,
)
    requires
        imports.len() > 0,
    ensures
        hashed_text(content, imports, disk, pristine) == hashed_text(
            content,
            imports.drop_last(),
            disk,
            pristine,
        ) + hashed_part(
            imports.last(),
            contents_of(imports.last(), disk[imports.len() - 1], pristine),
        ),
{
    let front = hashed_text(content, imports.drop_last(), disk, pristine);
    let contents = contents_of(imports.last(), disk[imports.len() - 1], pristine);
    assert(hashed_text(content, imports, disk, pristine) =~= front + hashed_part(
        imports.last(),
        contents,
    ));
}

proof fn lemma_parts_differ(
    front: Seq<char>,
    path: Seq<char>,
    a: Option<Seq<char>>,
    b: Option<Seq<char>>,
)
    requires
        front + hashed_part(path, a) == front + hashed_part(path, b),
    ensures
        a == b,
{
    reveal_strlit("\0");
    let x = hashed_part(path, a);
    let y = hashed_part(path, b);
    assert((front + x).skip(front.len() as int) =~= x);
    assert((front + y).skip(front.len() as int) =~= y);
    if let (Some(one), Some(other)) = (a, b) {
        let head = "\0"@ + path + "\0"@;
        assert((head + one).skip(head.len() as int) =~= one);
        assert((head + other).skip(head.len() as int) =~= other);
    }
}

/// A change to one import alone, of its contents or to whether it can be read,
/// changes the text that is hashed.
pub proof fn law_changed_import_changes_the_text(
    content: Seq<char>,
    imports: Seq<Seq<char>>,
    before: Seq<Option<String>>,
    after: Seq<Option<String>>,
    pristine: Map<Seq<char>, String>,
    changed: int,
)
    requires
        0 <= changed < imports.len(),
        contents_of(imports[changed], before[changed], pristine) != contents_of(
            imports[changed],
            after[changed],
            pristine,
        ),
        forall|i: int|
            0 <= i < imports.len() && i != changed ==> contents_of(
                #[trigger] imports[i],
                before[i],
                pristine,
            ) == contents_of(imports[i], after[i], pristine),
    ensures
        hashed_text(content, imports, before, pristine) != hashed_text(
            content,
            imports,
            after,
            pristine,
        ),
    decreases imports.len(),
{
    let front = imports.drop_last();
    let path = imports.last();
    let last = imports.len() - 1;
    assert(imports[last] == path);
    let a = hashed_text(content, front, before, pristine);
    let b = hashed_text(content, front, after, pristine);
    lemma_last_part(content, imports, before, pristine);
    lemma_last_part(content, imports, after, pristine);
    assert forall|i: int| 0 <= i < front.len() implies front[i] == imports[i] by {}
    if changed == last {
        lemma_same_contents(content, front, before, after, pristine);
        if hashed_text(content, imports, before, pristine) == hashed_text(
            content,
            imports,
            after,
            pristine,
        ) {
            lemma_parts_differ(
                a,
                path,
                contents_of(path, before[last], pristine),
                contents_of(path, after[last], pristine),
            );
        }
    } else {
        law_changed_import_changes_the_text(content, front, before, after, pristine, changed);
        let part = hashed_part(path, contents_of(path, before[last], pristine));
        if a + part == b + part {
            assert((a + part).len() == (b + part).len());
            assert((a + part).take(a.len() as int) =~= a);
            assert((b + part).take(b.len() as int) =~= b);
        }
    }
}

proof fn lemma_same_contents(
    content: Seq<char>,
    imports: Seq<Seq<char>>,
    before: Seq<Option<String>>,
    after: Seq<Option<String>>,
    pristine: Map<Seq<char>, String>,
)
    requires
        forall|i: int|
            0 <= i < imports.len() ==> contents_of(#[trigger] imports[i], before[i], pristine)
                == contents_of(imports[i], after[i], pristine),
    ensures
        hashed_text(content, imports, before, pristine) == hashed_text(
            content,
            imports,
            after,
            pristine,
        ),
    decreases imports.len(),
{
    if imports.len() > 0 {
        let front = imports.drop_last();
        assert forall|i: int| 0 <= i < front.len() implies contents_of(
            #[trigger] front[i],
            before[i],
            pristine,
        ) == contents_of(front[i], after[i], pristine) by {
            assert(front[i] == imports[i]);
        }
        lemma_same_contents(content, front, before, after, pristine);
        assert(imports[imports.len() - 1] == imports.last());
    }
}

// ---- what a report records ----

/// The hash of the test command, in the command tier.
pub fn command_fingerprint(config: &StrykerConfig) -> (r: Option<String>)
    ensures
        crate::text::opt_text(r) == (match (config.test_runner, config.command_runner.command) {
            (TestRunnerKind::Command, Some(command)) => Some(
                crate::incremental::sha256_hex(command@),
            ),
            _ => None,
        }),
{
    if !matches!(config.test_runner, TestRunnerKind::Command) {
        return None;
    }
    match &config.command_runner.command {
        Some(command) => Some(hash_content(command.as_str())),
        None => None,
    }
}

/// What a report records under a name of its own.
pub open spec fn recorded(config: crate::estree::Tree, name: Seq<char>) -> crate::estree::Tree {
    crate::estree::node_in(crate::estree::node_in(config, "strykerRs"@), name)
}

/// The texts of an object, where all its members are texts.
pub open spec fn texts_in(t: crate::estree::Tree) -> Option<Map<Seq<char>, Seq<char>>> {
    match t {
        crate::estree::Tree::Object(m) => if forall|k: Seq<char>| #[trigger]
            m.dom().contains(k) ==> m[k] is Text {
            Some(m.map_values(|v: crate::estree::Tree| v->Text_0))
        } else {
            None
        },
        _ => None,
    }
}

/// The values of an optional map of texts.
pub open spec fn opt_text_values(m: Option<TextMap<String>>) -> Option<Map<Seq<char>, Seq<char>>> {
    match m {
        Some(m) => Some(crate::incremental::text_values(m@)),
        None => None,
    }
}

fn recorded_node<'a>(config: &'a serde_json::Value, name: &str) -> (r: Option<&'a serde_json::Value>)
    ensures
        match r {
            Some(node) => recorded(crate::estree::json_tree(*config), name@)
                == crate::estree::json_tree(*node),
            None => recorded(crate::estree::json_tree(*config), name@) is Null,
        },
{
    match json_member(config, "strykerRs") {
        Some(own) => json_member(own, name),
        None => None,
    }
}

fn read_texts(node: &serde_json::Value) -> (r: Option<TextMap<String>>)
    ensures
        opt_text_values(r) == texts_in(crate::estree::json_tree(*node)),
{
    let keys = match json_keys(node) {
        Some(keys) => keys,
        None => {
            return None;
        },
    };
    let ghost names = crate::text::texts(keys@);
    let ghost t = crate::estree::json_tree(*node);
    let ghost m = t->Object_0;
    let mut out: TextMap<String> = TextMap::new();
    let mut i: usize = 0;
    while i < keys.len()
        invariant
            i <= keys@.len(),
            names == crate::text::texts(keys@),
            t == crate::estree::json_tree(*node),
            t is Object,
            m == t->Object_0,
            names.to_set() == m.dom(),
            forall|k: int| 0 <= k < i ==> m[#[trigger] names[k]] is Text,
            forall|name: Seq<char>| #[trigger]
                out@.dom().contains(name) <==> names.take(i as int).contains(name),
            forall|name: Seq<char>| #[trigger]
                out@.dom().contains(name) ==> m[name] == crate::estree::Tree::Text(out@[name]@),
        decreases keys@.len() - i,
    {
        let key = keys[i].as_str();
        proof {
            assert(names[i as int] == key@);
            assert(names.contains(key@));
            assert(names.to_set().contains(key@));
        }
        let value = match json_member(node, key) {
            Some(value) => value,
            None => {
                return None;
            },
        };
        match json_text(value) {
            Some(text) => {
                let ghost before = out@;
                out.insert(copy_text(key), copy_text(text));
                proof {
                    let upto = names.take(i + 1);
                    let front = names.take(i as int);
                    assert forall|name: Seq<char>| #[trigger] upto.contains(name)
                        <==> front.contains(name) || name == key@ by {
                        assert(upto[i as int] == key@);
                        if front.contains(name) {
                            let k = front.index_of(name);
                            assert(upto[k] == name);
                        }
                        if upto.contains(name) {
                            let k = upto.index_of(name);
                            if k < i {
                                assert(front[k] == name);
                            }
                        }
                    }
                }
            },
            None => {
                proof {
                    assert(!(m[key@] is Text));
                    assert(m.dom().contains(key@));
                }
                return None;
            },
        }
        i = i + 1;
    }
    proof {
        assert(names.take(keys@.len() as int) =~= names);
        assert forall|k: Seq<char>| #[trigger] m.dom().contains(k) implies m[k] is Text by {
            assert(names.to_set().contains(k));
            assert(names.contains(k));
            let n = names.index_of(k);
            assert(names[n] == k);
        }
        let have = crate::incremental::text_values(out@);
        let want = m.map_values(|v: crate::estree::Tree| v->Text_0);
        assert forall|k: Seq<char>| #[trigger] have.dom().contains(k) <==> want.dom().contains(k) by {
            assert(have.dom().contains(k) <==> out@.dom().contains(k));
            assert(names.to_set().contains(k) <==> names.contains(k));
        }
        assert forall|k: Seq<char>| #[trigger] have.dom().contains(k) implies have[k] == want[k] by {
            assert(out@.dom().contains(k));
        }
        assert(have =~= want);
    }
    Some(out)
}

/// The test file hashes that a report records, where it records any.
pub open spec fn hashes_in(config: Option<serde_json::Value>) -> Option<Map<Seq<char>, Seq<char>>> {
    match config {
        Some(config) => texts_in(
            recorded(crate::estree::json_tree(config), "testFileHashes"@),
        ),
        None => None,
    }
}

/// The test file hashes that a report records, where it records any.
pub fn recorded_hashes(report: &MutationTestResult) -> (r: Option<TextMap<String>>)
    ensures
        opt_text_values(r) == hashes_in(report.config),
{
    match &report.config {
        Some(config) => match recorded_node(config, "testFileHashes") {
            Some(node) => read_texts(node),
            None => None,
        },
        None => None,
    }
}

/// The command fingerprint that a report records.
pub open spec fn fingerprint_in(config: Option<serde_json::Value>) -> Option<Seq<char>> {
    match config {
        Some(config) => match recorded(
            crate::estree::json_tree(config),
            "testCommandFingerprint"@,
        ) {
            crate::estree::Tree::Text(text) => Some(text),
            _ => None,
        },
        None => None,
    }
}

/// Whether the test command is that of the report; nothing outside the command
/// tier.
pub open spec fn same_command(
    config: Option<serde_json::Value>,
    fingerprint: Option<Seq<char>>,
) -> Option<bool> {
    match fingerprint {
        Some(own) => Some(fingerprint_in(config) == Some(own)),
        None => None,
    }
}

/// Whether the test command is that of the report; nothing outside the command
/// tier.
pub fn fingerprint_matches(report: &MutationTestResult, fingerprint: &Option<String>) -> (r: Option<
    bool,
>)
    ensures
        r == same_command(report.config, crate::text::opt_text(*fingerprint)),
{
    match fingerprint {
        None => None,
        Some(own) => {
            let found = match &report.config {
                Some(config) => recorded_node(config, "testCommandFingerprint"),
                None => None,
            };
            match found {
                Some(node) => match json_text(node) {
                    Some(text) => Some(same(text, own.as_str())),
                    None => Some(false),
                },
                None => Some(false),
            }
        },
    }
}

// ---- full reuse ----

/// Whether a key of the hashes stands for an input of the run.
pub open spec fn is_input_key(key: Seq<char>) -> bool {
    crate::text::begins(key, "config:"@)
}

/// The keys of a list that stand for test files, in order.
pub open spec fn test_keys(keys: Seq<Seq<char>>) -> Seq<Seq<char>>
    decreases keys.len(),
{
    if keys.len() == 0 {
        Seq::empty()
    } else if is_input_key(keys.last()) {
        test_keys(keys.drop_last())
    } else {
        test_keys(keys.drop_last()).push(keys.last())
    }
}

/// The test files whose hashes must be worked out again before a whole run can be
/// saved; nothing where it cannot: the command changed, or, outside the command
/// tier, no test file is recorded that would prove anything.
pub fn files_to_rehash(old_hashes: &TextMap<String>, matches: Option<bool>) -> (r: Option<
    Vec<String>,
>)
    ensures
        match r {
            Some(files) => matches != Some(false) && crate::text::texts(files@) == test_keys(
                old_hashes.keys(),
            ) && (matches is None ==> files@.len() > 0),
            None => matches == Some(false) || (matches is None && test_keys(
                old_hashes.keys(),
            ).len() == 0),
        },
{
    if let Some(same) = matches {
        if !same {
            return None;
        }
    }
    let ghost keys = old_hashes.keys();
    let total = old_hashes.len();
    let mut out: Vec<String> = Vec::new();
    let mut i: usize = 0;
    proof {
        assert(crate::text::texts(out@) =~= test_keys(keys.take(0)));
    }
    while i < total
        invariant
            i <= total == keys.len(),
            keys == old_hashes.keys(),
            crate::text::texts(out@) == test_keys(keys.take(i as int)),
        decreases total - i,
    {
        let key = old_hashes.key_at(i).as_str();
        proof {
            assert(keys.take(i + 1).drop_last() =~= keys.take(i as int));
            assert(keys.take(i + 1).last() == key@);
        }
        if !begins_with(key, "config:") {
            let copy = copy_text(key);
            proof {
                crate::text::lemma_texts_push(out@, copy);
            }
            out.push(copy);
        }
        i = i + 1;
    }
    proof {
        assert(keys.take(total as int) =~= keys);
        assert(crate::text::texts(out@).len() == out@.len());
    }
    if matches.is_none() && out.len() == 0 {
        return None;
    }
    Some(out)
}

/// The ids of the tests of one file, put behind a list.
pub open spec fn with_ids(ids: Seq<Seq<char>>, file: crate::schema::TestFile) -> Seq<Seq<char>> {
    ids + file.tests@.map_values(|t: crate::schema::TestDefinition| t.id@)
}

/// The ids of the tests of a list of files.
pub open spec fn ids_in(files: Seq<crate::schema::TestFile>) -> Seq<Seq<char>>
    decreases files.len(),
{
    if files.len() == 0 {
        Seq::empty()
    } else {
        with_ids(ids_in(files.drop_last()), files.last())
    }
}

/// The ids of the tests that a report lists.
pub open spec fn test_ids_of(report: MutationTestResult) -> Seq<Seq<char>> {
    match report.test_files {
        Some(files) => ids_in(files.values()),
        None => Seq::empty(),
    }
}

/// The ids of the tests that a report lists.
pub fn recorded_test_ids(report: &MutationTestResult) -> (r: Vec<String>)
    ensures
        crate::text::texts(r@) == test_ids_of(*report),
{
    let mut out: Vec<String> = Vec::new();
    proof {
        assert(crate::text::texts(out@) =~= Seq::<Seq<char>>::empty());
    }
    if let Some(files) = &report.test_files {
        let ghost all = files.values();
        let total = files.len();
        let mut i: usize = 0;
        proof {
            assert(crate::text::texts(out@) =~= ids_in(all.take(0)));
        }
        while i < total
            invariant
                i <= total == all.len(),
                all == files.values(),
                crate::text::texts(out@) == ids_in(all.take(i as int)),
            decreases total - i,
        {
            let file = files.value_at(i);
            proof {
                assert(all.take(i + 1).drop_last() =~= all.take(i as int));
                assert(all.take(i + 1).last() == *file);
            }
            let ghost begun = crate::text::texts(out@);
            let ghost own = file.tests@.map_values(|t: crate::schema::TestDefinition| t.id@);
            let mut k: usize = 0;
            proof {
                assert(crate::text::texts(out@) =~= begun + own.take(0));
            }
            while k < file.tests.len()
                invariant
                    k <= file.tests@.len(),
                    own == file.tests@.map_values(|t: crate::schema::TestDefinition| t.id@),
                    crate::text::texts(out@) == begun + own.take(k as int),
                decreases file.tests@.len() - k,
            {
                let copy = copy_text(file.tests[k].id.as_str());
                proof {
                    crate::text::lemma_texts_push(out@, copy);
                    assert(own.take(k + 1) =~= own.take(k as int).push(copy@));
                    assert((begun + own.take(k as int)).push(copy@) =~= begun + own.take(k + 1));
                }
                out.push(copy);
                k = k + 1;
            }
            proof {
                assert(own.take(file.tests@.len() as int) =~= own);
            }
            i = i + 1;
        }
        proof {
            assert(all.take(total as int) =~= all);
        }
    }
    out
}

/// The result of an ignored mutant.
pub open spec fn ignored_result(reason: Seq<char>) -> crate::model::ResultView {
    crate::model::ResultView {
        status: MutantStatus::Ignored,
        killed_by: Seq::empty(),
        covered_by: Seq::empty(),
        tests_ran: 0,
        status_reason: Some(reason),
        duration: None,
        is_static: None,
    }
}

/// The results of all mutants, where each has a reused one or is ignored.
pub open spec fn completed(
    reused: Map<u32, crate::model::ResultView>,
    mutants: Seq<crate::instrument::MutantView>,
) -> Option<Map<u32, crate::model::ResultView>>
    decreases mutants.len(),
{
    if mutants.len() == 0 {
        Some(reused)
    } else {
        match completed(reused, mutants.drop_last()) {
            None => None,
            Some(front) => if front.dom().contains(mutants.last().id) {
                Some(front)
            } else {
                match mutants.last().ignored {
                    Some(reason) => Some(front.insert(mutants.last().id, ignored_result(reason))),
                    None => None,
                }
            },
        }
    }
}

proof fn lemma_incomplete_stays(
    reused: Map<u32, crate::model::ResultView>,
    mutants: Seq<crate::instrument::MutantView>,
    n: int,
)
    requires
        0 <= n <= mutants.len(),
        completed(reused, mutants.take(n)) is None,
    ensures
        completed(reused, mutants) is None,
    decreases mutants.len() - n,
{
    if n == mutants.len() {
        assert(mutants.take(n) =~= mutants);
    } else {
        assert(mutants.take(n + 1).drop_last() =~= mutants.take(n));
        lemma_incomplete_stays(reused, mutants, n + 1);
    }
}

/// The values of optional results.
pub open spec fn opt_result_views(m: Option<BTreeMap<u32, MutantResult>>) -> Option<
    Map<u32, crate::model::ResultView>,
> {
    match m {
        Some(m) => Some(crate::incremental::result_views(m@)),
        None => None,
    }
}

fn complete(reused: BTreeMap<u32, MutantResult>, mutants: &Vec<Mutant>) -> (r: Option<
    BTreeMap<u32, MutantResult>,
>)
    ensures
        opt_result_views(r) == completed(
            crate::incremental::result_views(reused@),
            crate::instrument::mutant_views(mutants@),
        ),
{
    let ghost base = crate::incremental::result_views(reused@);
    let ghost all = crate::instrument::mutant_views(mutants@);
    let mut results = reused;
    let mut i: usize = 0;
    proof {
        assert(all.take(0) =~= Seq::<crate::instrument::MutantView>::empty());
    }
    while i < mutants.len()
        invariant
            i <= mutants@.len(),
            all == crate::instrument::mutant_views(mutants@),
            base == crate::incremental::result_views(reused@),
            completed(base, all.take(i as int)) == Some(crate::incremental::result_views(results@)),
        decreases mutants@.len() - i,
    {
        let mutant = &mutants[i];
        proof {
            assert(all.take(i + 1).drop_last() =~= all.take(i as int));
            assert(all.take(i + 1).last() == mutant@);
        }
        if !results.contains_key(&mutant.id.0) {
            match &mutant.ignored {
                Some(reason) => {
                    let ghost before = results@;
                    let result = MutantResult {
                        status: MutantStatus::Ignored,
                        killed_by: Vec::new(),
                        covered_by: Vec::new(),
                        tests_ran: 0,
                        status_reason: Some(copy_text(reason.as_str())),
                        duration: None,
                        is_static: None,
                    };
                    proof {
                        assert(result@.killed_by =~= Seq::<Seq<char>>::empty());
                        assert(result@.covered_by =~= Seq::<Seq<char>>::empty());
                        assert(result@ == ignored_result(reason@));
                    }
                    results.insert(mutant.id.0, result);
                    proof {
                        assert(crate::incremental::result_views(results@)
                            =~= crate::incremental::result_views(before).insert(
                            mutant.id.0,
                            result@,
                        ));
                    }
                },
                None => {
                    proof {
                        lemma_incomplete_stays(base, all, i + 1);
                    }
                    return None;
                },
            }
        }
        i = i + 1;
    }
    proof {
        assert(all.take(mutants@.len() as int) =~= all);
    }
    Some(results)
}

/// The results of a whole run taken from the incremental store: every hashed
/// input must match the cached run bit for bit, and every mutant must have a
/// reusable verdict or be ignored. Nothing on any mismatch.
pub fn try_full_reuse(input: &IncrementalInput<'_>) -> (r: Option<BTreeMap<u32, MutantResult>>)
    ensures
        opt_result_views(r) == (if crate::incremental::text_values(input.old_test_hashes@)
            == crate::incremental::text_values(input.new_test_hashes@) {
            completed(
                crate::incremental::reused(*input),
                crate::instrument::mutant_views(input.mutants@),
            )
        } else {
            None
        }),
{
    if !same_texts(input.old_test_hashes, input.new_test_hashes) {
        return None;
    }
    complete(reusable_results(input), input.mutants)
}

/// A run that is saved has a result for every mutant.
pub proof fn law_full_reuse_covers_every_mutant(
    reused: Map<u32, crate::model::ResultView>,
    mutants: Seq<crate::instrument::MutantView>,
    i: int,
)
    requires
        completed(reused, mutants) is Some,
        0 <= i < mutants.len(),
    ensures
        completed(reused, mutants)->0.dom().contains(mutants[i].id),
    decreases mutants.len(),
{
    if i < mutants.len() - 1 {
        law_full_reuse_covers_every_mutant(reused, mutants.drop_last(), i);
        assert(mutants.drop_last()[i] == mutants[i]);
    }
}

// ---- what reuse rests on ----

proof fn lemma_preloads_shift(
    a: Seq<Seq<char>>,
    b: Seq<Seq<char>>,
    i: int,
    cwd: Option<Seq<char>>,
)
    requires
        0 <= i <= b.len(),
    ensures
        preloads(a + b, a.len() + i, cwd) == preloads(b, i, cwd),
    decreases b.len() - i,
{
    let all = a + b;
    if i < b.len() {
        assert(all[a.len() + i] == b[i]);
        if b[i] == "--preload"@ {
            if i + 1 < b.len() {
                assert(all[a.len() + i + 1] == b[i + 1]);
                lemma_preloads_shift(a, b, i + 2, cwd);
            }
        } else {
            lemma_preloads_shift(a, b, i + 1, cwd);
        }
    }
}

proof fn lemma_no_preload(args: Seq<Seq<char>>, i: int, n: int, cwd: Option<Seq<char>>)
    requires
        0 <= i <= n <= args.len(),
        forall|k: int| 0 <= k < n ==> #[trigger] args[k] != "--preload"@,
    ensures
        preloads(args, i, cwd) == preloads(args, n, cwd),
    decreases n - i,
{
    if i < n {
        lemma_no_preload(args, i + 1, n, cwd);
    }
}

/// Each script that bun is told to preload counts as an input, in the order of the
/// arguments, and nothing else among them does.
pub proof fn law_preloads_are_inputs(
    before: Seq<Seq<char>>,
    script: Seq<char>,
    after: Seq<Seq<char>>,
    cwd: Option<Seq<char>>,
)
    requires
        !before.contains("--preload"@),
    ensures
        preloads(before, 0, cwd).len() == 0,
        preloads(before + seq!["--preload"@, script] + after, 0, cwd) == seq![
            match cwd {
                Some(dir) => crate::paths::under(dir, plain(script)),
                None => plain(script),
            },
        ] + preloads(after, 0, cwd),
{
    let n = before.len() as int;
    let head = before + seq!["--preload"@, script];
    let all = head + after;
    assert forall|k: int| 0 <= k < n implies #[trigger] all[k] != "--preload"@ by {
        assert(all[k] == before[k]);
        assert(before.contains(before[k]));
    }
    assert forall|k: int| 0 <= k < n implies #[trigger] before[k] != "--preload"@ by {
        assert(before.contains(before[k]));
    }
    lemma_no_preload(before, 0, n, cwd);
    lemma_no_preload(all, 0, n, cwd);
    assert(all[n] == "--preload"@ && all[n + 1] == script);
    lemma_preloads_shift(head, after, 0, cwd);
}

/// Dots and slashes at the front of a path name nothing.
pub proof fn law_plain_paths(path: Seq<char>)
    ensures
        plain("./"@ + path) == plain(path),
        path.len() > 0 && path[0] != '.' ==> plain(path) == path,
{
    reveal_strlit("./");
    assert("./"@.len() == 2 && "./"@[0] == '.');
    crate::text::law_stripping("./"@ + path, "./"@, path);
    if crate::text::begins(path, "./"@) {
        assert(path.subrange(0, 2)[0] == '.');
    }
}

/// Beside the tests, the lock files and the package count as inputs, and with bun
/// in a directory of its own those there.
pub proof fn law_inputs_beside_the_tests(config: StrykerConfig)
    ensures
        ({
            let inputs = inputs_of(config);
            &&& inputs.contains("bunfig.toml"@)
            &&& inputs.contains("bun.lock"@)
            &&& inputs.contains("bun.lockb"@)
            &&& inputs.contains("package.json"@)
            &&& (config.test_runner == TestRunnerKind::Command || config.test_runner
                == TestRunnerKind::Vitest) ==> inputs.len() == 4
            &&& (config.test_runner == TestRunnerKind::Bun || config.test_runner
                == TestRunnerKind::Composite) ==> (config.bun_runner.cwd matches Some(dir)
                ==> inputs.contains(crate::paths::under(dir@, "bunfig.toml"@)) && inputs.contains(
                crate::paths::under(dir@, "package.json"@),
            ))
        }),
{
    let inputs = inputs_of(config);
    assert(inputs[0] == "bunfig.toml"@);
    assert(inputs[1] == "bun.lock"@);
    assert(inputs[2] == "bun.lockb"@);
    assert(inputs[3] == "package.json"@);
    if uses_bun(config.test_runner) {
        if let Some(dir) = config.bun_runner.cwd {
            assert(inputs[4] == crate::paths::under(dir@, "bunfig.toml"@));
            assert(inputs[5] == crate::paths::under(dir@, "package.json"@));
        }
    }
}

proof fn lemma_input_hashes(paths: Seq<Seq<char>>, contents: Seq<Option<String>>, key: Seq<char>)
    requires
        paths.len() <= contents.len(),
    ensures
        input_hashes(paths, contents).contains_key("config:"@ + key) <==> exists|i: int|
            0 <= i < paths.len() && #[trigger] paths[i] == key && contents[i] is Some,
        input_hashes(paths, contents).contains_key("config:"@ + key) ==> exists|i: int|
            0 <= i < paths.len() && #[trigger] paths[i] == key && contents[i] is Some
                && input_hashes(paths, contents)["config:"@ + key]
                == crate::incremental::sha256_hex(contents[i]->0@),
    decreases paths.len(),
{
    if paths.len() > 0 {
        let front = paths.drop_last();
        let last = paths.last();
        let n = paths.len() - 1;
        let mark = "config:"@;
        lemma_input_hashes(front, contents, key);
        assert(paths[n] == last);
        assert forall|i: int| 0 <= i < front.len() implies #[trigger] paths[i] == front[i] by {}
        if mark + key == mark + last {
            assert(key =~= (mark + key).skip(mark.len() as int));
            assert(last =~= (mark + last).skip(mark.len() as int));
        }
        if input_hashes(front, contents).contains_key(mark + key) {
            let i = choose|i: int|
                0 <= i < front.len() && #[trigger] front[i] == key && contents[i] is Some
                    && input_hashes(front, contents)[mark + key]
                    == crate::incremental::sha256_hex(contents[i]->0@);
            assert(paths[i] == key);
        }
        if exists|i: int|
            0 <= i < paths.len() && #[trigger] paths[i] == key && contents[i] is Some {
            let i = choose|i: int|
                0 <= i < paths.len() && #[trigger] paths[i] == key && contents[i] is Some;
            if i < front.len() {
                assert(front[i] == key);
            }
        }
    }
}

/// An input is hashed by what it holds, under its own key, where it exists.
pub proof fn law_inputs_are_hashed(
    paths: Seq<Seq<char>>,
    contents: Seq<Option<String>>,
    i: int,
)
    requires
        paths.len() <= contents.len(),
        paths.no_duplicates(),
        0 <= i < paths.len(),
    ensures
        contents[i] is None ==> !input_hashes(paths, contents).contains_key("config:"@ + paths[i]),
        contents[i] matches Some(text) ==> input_hashes(paths, contents).contains_key(
            "config:"@ + paths[i],
        ) && input_hashes(paths, contents)["config:"@ + paths[i]] == crate::incremental::sha256_hex(
            text@,
        ),
{
    lemma_input_hashes(paths, contents, paths[i]);
    if input_hashes(paths, contents).contains_key("config:"@ + paths[i]) {
        let k = choose|k: int|
            0 <= k < paths.len() && #[trigger] paths[k] == paths[i] && contents[k] is Some
                && input_hashes(paths, contents)["config:"@ + paths[i]]
                == crate::incremental::sha256_hex(contents[k]->0@);
        assert(k == i);
    }
}

/// A test is hashed together with what it imports: each file behind its path, as it
/// was before anything was written into it. What is missing adds nothing.
pub proof fn law_imports_are_hashed(
    content: Seq<char>,
    imports: Seq<Seq<char>>,
    path: Seq<char>,
    disk: Seq<Option<String>>,
    pristine: Map<Seq<char>, String>,
)
    requires
        disk.len() == imports.len() + 1,
    ensures
        hashed_text(content, Seq::empty(), disk, pristine) == content,
        pristine.contains_key(path) ==> hashed_text(content, imports.push(path), disk, pristine)
            == hashed_text(content, imports, disk, pristine) + "\0"@ + path + "\0"@
            + pristine[path]@,
        !pristine.contains_key(path) ==> (match disk.last() {
            Some(text) => hashed_text(content, imports.push(path), disk, pristine) == hashed_text(
                content,
                imports,
                disk,
                pristine,
            ) + "\0"@ + path + "\0"@ + text@,
            None => hashed_text(content, imports.push(path), disk, pristine) == hashed_text(
                content,
                imports,
                disk,
                pristine,
            ),
        }),
{
    assert(imports.push(path).drop_last() =~= imports);
}

/// The command is the same exactly where the old report recorded the fingerprint
/// that it has now; without one there is nothing to say.
pub proof fn law_same_command(config: serde_json::Value, own: Seq<char>)
    ensures
        same_command(None, None) is None,
        same_command(Some(config), None) is None,
        same_command(None, Some(own)) == Some(false),
        same_command(Some(config), Some(own)) == Some(
            crate::estree::node_in(
                crate::estree::node_in(crate::estree::json_tree(config), "strykerRs"@),
                "testCommandFingerprint"@,
            ) == crate::estree::Tree::Text(own),
        ),
{
}

/// The hashes of an old report are what it recorded, where each is a text.
pub proof fn law_recorded_hashes(config: serde_json::Value, file: Seq<char>)
    ensures
        hashes_in(None) is None,
        ({
            let tree = crate::estree::node_in(
                crate::estree::node_in(crate::estree::json_tree(config), "strykerRs"@),
                "testFileHashes"@,
            );
            &&& !(tree is Object) ==> hashes_in(Some(config)) is None
            &&& (hashes_in(Some(config)) matches Some(m) ==> (tree matches crate::estree::Tree::Object(
                all,
            ) && (m.contains_key(file) <==> all.contains_key(file)) && (all.contains_key(file)
                ==> all[file] == crate::estree::Tree::Text(m[file]))))
        }),
{
    let tree = recorded(crate::estree::json_tree(config), "testFileHashes"@);
    if let crate::estree::Tree::Object(all) = tree {
        if hashes_in(Some(config)) is Some && all.contains_key(file) {
            assert(all[file] is Text);
        }
    }
}

/// The keys of tests are all but those of inputs, in order.
pub proof fn law_keys_of_tests(keys: Seq<Seq<char>>)
    ensures
        test_keys(keys) == keys.filter(|k: Seq<char>| !crate::text::begins(k, "config:"@)),
    decreases keys.len(),
{
    reveal(Seq::filter);
    if keys.len() > 0 {
        law_keys_of_tests(keys.drop_last());
    }
}

/// The tests of an old report are those of all of its test files.
pub proof fn law_tests_of_a_report(files: Seq<crate::schema::TestFile>, id: Seq<char>)
    ensures
        ids_in(files).contains(id) <==> exists|i: int, k: int|
            0 <= i < files.len() && 0 <= k < files[i].tests@.len() && (
            #[trigger] files[i].tests@[k]).id@ == id,
    decreases files.len(),
{
    if files.len() > 0 {
        let before = files.drop_last();
        let front = ids_in(before);
        let all = ids_in(files);
        let own = files.last().tests@.map_values(|t: crate::schema::TestDefinition| t.id@);
        law_tests_of_a_report(before, id);
        assert(all == front + own);
        assert(files[files.len() - 1] == files.last());
        if front.contains(id) {
            let n = front.index_of(id);
            assert(all[n] == id);
            let (i, k) = choose|i: int, k: int|
                0 <= i < before.len() && 0 <= k < before[i].tests@.len() && (
                #[trigger] before[i].tests@[k]).id@ == id;
            assert(files[i].tests@[k].id@ == id);
        }
        if all.contains(id) && !front.contains(id) {
            let n = all.index_of(id);
            if n < front.len() {
                assert(front[n] == id);
            }
            assert(own[n - front.len()] == id);
            assert(files[files.len() - 1].tests@[n - front.len()].id@ == id);
        }
        if exists|i: int, k: int|
            0 <= i < files.len() && 0 <= k < files[i].tests@.len() && (
            #[trigger] files[i].tests@[k]).id@ == id {
            let (i, k) = choose|i: int, k: int|
                0 <= i < files.len() && 0 <= k < files[i].tests@.len() && (
                #[trigger] files[i].tests@[k]).id@ == id;
            if i < before.len() {
                assert(before[i].tests@[k].id@ == id);
            } else {
                assert(own[k] == id);
                assert(all[front.len() + k] == id);
            }
        }
    }
}

proof fn lemma_completed(
    reused: Map<u32, crate::model::ResultView>,
    mutants: Seq<crate::instrument::MutantView>,
    id: u32,
)
    ensures
        completed(reused, mutants) is Some ==> {
            let all = completed(reused, mutants)->0;
            &&& all.contains_key(id) <==> reused.contains_key(id) || exists|i: int|
                0 <= i < mutants.len() && (#[trigger] mutants[i]).id == id
            &&& reused.contains_key(id) ==> all[id] == reused[id]
            &&& !reused.contains_key(id) && all.contains_key(id) ==> all[id].status
                == MutantStatus::Ignored && exists|i: int|
                0 <= i < mutants.len() && (#[trigger] mutants[i]).id == id && mutants[i].ignored
                    is Some && all[id].status_reason == mutants[i].ignored
        },
    decreases mutants.len(),
{
    if mutants.len() > 0 && completed(reused, mutants) is Some {
        let before = mutants.drop_last();
        let last = mutants.last();
        lemma_completed(reused, before, id);
        let front = completed(reused, before)->0;
        let all = completed(reused, mutants)->0;
        assert(mutants[mutants.len() - 1] == last);
        assert forall|i: int| 0 <= i < before.len() implies #[trigger] mutants[i] == before[i] by {}
        if exists|i: int| 0 <= i < before.len() && (#[trigger] before[i]).id == id {
            let i = choose|i: int| 0 <= i < before.len() && (#[trigger] before[i]).id == id;
            assert(mutants[i].id == id);
        }
        if exists|i: int| 0 <= i < mutants.len() && (#[trigger] mutants[i]).id == id {
            let i = choose|i: int| 0 <= i < mutants.len() && (#[trigger] mutants[i]).id == id;
            if i < before.len() {
                assert(before[i].id == id);
            } else if !front.contains_key(id) {
                assert(all.contains_key(id));
            }
        }
        if !reused.contains_key(id) && front.contains_key(id) {
            let i = choose|i: int|
                0 <= i < before.len() && (#[trigger] before[i]).id == id && before[i].ignored
                    is Some && front[id].status_reason == before[i].ignored;
            assert(mutants[i] == before[i]);
        }
    }
}

/// A run is complete without testing where every mutant has a reused result or is
/// ignored. A reused result stands, and an ignored mutant is reported as such, for
/// its own reason.
pub proof fn law_what_completes_a_run(
    reused: Map<u32, crate::model::ResultView>,
    mutants: Seq<crate::instrument::MutantView>,
    id: u32,
)
    ensures
        (forall|i: int|
            0 <= i < mutants.len() ==> reused.contains_key((#[trigger] mutants[i]).id)
                || mutants[i].ignored is Some) ==> completed(reused, mutants) is Some,
        completed(reused, mutants) matches Some(all) ==> {
            &&& all.contains_key(id) <==> reused.contains_key(id) || exists|i: int|
                0 <= i < mutants.len() && (#[trigger] mutants[i]).id == id
            &&& reused.contains_key(id) ==> all[id] == reused[id]
            &&& !reused.contains_key(id) && all.contains_key(id) ==> all[id].status
                == MutantStatus::Ignored && exists|i: int|
                0 <= i < mutants.len() && (#[trigger] mutants[i]).id == id && mutants[i].ignored
                    is Some && all[id].status_reason == mutants[i].ignored
        },
    decreases mutants.len(),
{
    lemma_completed(reused, mutants, id);
    if mutants.len() > 0 && forall|i: int|
        0 <= i < mutants.len() ==> reused.contains_key((#[trigger] mutants[i]).id)
            || mutants[i].ignored is Some {
        let before = mutants.drop_last();
        let last = mutants.last();
        assert forall|i: int| 0 <= i < before.len() implies reused.contains_key(
            (#[trigger] before[i]).id,
        ) || before[i].ignored is Some by {
            assert(before[i] == mutants[i]);
        }
        law_what_completes_a_run(reused, before, last.id);
        assert(mutants[mutants.len() - 1] == last);
    }
}

/// What was recorded counts as hashes where all of it is text.
pub proof fn law_texts_are_hashes(m: Map<Seq<char>, crate::estree::Tree>)
    ensures
        texts_in(crate::estree::Tree::Object(m)) is Some <==> forall|k: Seq<char>| #[trigger]
            m.contains_key(k) ==> m[k] is Text,
        texts_in(crate::estree::Tree::Null) is None,
{
    if forall|k: Seq<char>| #[trigger] m.contains_key(k) ==> m[k] is Text {
        assert(forall|k: Seq<char>| #[trigger] m.dom().contains(k) ==> m[k] is Text);
    }
    if texts_in(crate::estree::Tree::Object(m)) is Some {
        assert forall|k: Seq<char>| #[trigger] m.contains_key(k) implies m[k] is Text by {
            assert(m.dom().contains(k));
        }
    }
}

} // verus!
