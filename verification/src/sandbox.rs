//! In-place sandbox: back up originals, write instrumented text, restore on
//! completion, on drop and after a crash.
//!
//! Only files that actually contain mutants are touched. The backup manifest
//! is written before the first file is modified, so that everything can be
//! recovered from then on.
use vstd::prelude::*;

use crate::paths::file_name;
use crate::paths::join_path;
use crate::paths::parts_of;
use crate::paths::rebuild;
use crate::paths::sort_paths;
use crate::source::char_width;
use crate::text::begins_with;
use crate::text::chars_of;
use crate::text::concat3;
use crate::text::copy_text;
use crate::text::has_text;
use crate::text::lines;
use crate::text::same;
use crate::text::text_of;
use crate::text_map::TextMap;

verus! {

/// The name of the manifest in the temporary directory.
pub const MANIFEST_NAME: &'static str = "backup-manifest";

/// What a sandbox does to the disk, one step after the other.
#[derive(Debug)]
pub enum Step {
    /// Create a directory and those above it.
    CreateDir(String),
    /// Copy an original, after the directory of its copy has been created.
    Backup { from: String, to: String },
    /// Write the manifest and flush it to the disk.
    WriteManifest(String),
    /// Give the file the new contents of the file of that index.
    Replace { path: String, file: usize },
}

/// The mathematical value of a step.
pub enum StepView {
    CreateDir(Seq<char>),
    Backup { from: Seq<char>, to: Seq<char> },
    WriteManifest(Seq<char>),
    Replace { path: Seq<char>, file: int },
}

impl Step {
    pub open spec fn view(&self) -> StepView {
        match self {
            Step::CreateDir(path) => StepView::CreateDir(path@),
            Step::Backup { from, to } => StepView::Backup { from: from@, to: to@ },
            Step::WriteManifest(path) => StepView::WriteManifest(path@),
            Step::Replace { path, file } => StepView::Replace { path: path@, file: *file as int },
        }
    }
}

/// The values of a list of steps.
pub open spec fn step_views(v: Seq<Step>) -> Seq<StepView> {
    v.map_values(|s: Step| s@)
}

/// The place of the copy of a file, relative to the temporary directory.
pub open spec fn backup_of(file: Seq<char>) -> Seq<char> {
    crate::paths::under("backup"@, file)
}

/// The copies of a list of files.
pub open spec fn backups(files: Seq<Seq<char>>, root: Seq<char>, temp: Seq<char>) -> Seq<StepView> {
    files.map_values(
        |f: Seq<char>|
            StepView::Backup {
                from: crate::paths::under(root, f),
                to: crate::paths::under(temp, backup_of(f)),
            },
    )
}

/// The replacements of a list of files.
pub open spec fn replacements(files: Seq<Seq<char>>, root: Seq<char>) -> Seq<StepView> {
    files.map(
        |i: int, f: Seq<char>| StepView::Replace { path: crate::paths::under(root, f), file: i },
    )
}

/// The steps of an activation: every original is copied, the manifest is
/// written, then the contents are swapped in.
pub open spec fn activation(files: Seq<Seq<char>>, root: Seq<char>, temp: Seq<char>) -> Seq<
    StepView,
> {
    seq![StepView::CreateDir(crate::paths::under(temp, "backup"@))] + backups(files, root, temp)
        + seq![StepView::WriteManifest(crate::paths::under(temp, MANIFEST_NAME@))] + replacements(
        files,
        root,
    )
}

/// The places of the copies of a list of files.
pub open spec fn manifest_of(files: Seq<Seq<char>>) -> Map<Seq<char>, Seq<char>> {
    Map::new(|f: Seq<char>| files.contains(f), |f: Seq<char>| backup_of(f))
}

/// An original and its copy.
#[derive(Debug)]
pub struct Recovery {
    /// Relative to the project root.
    pub file: String,
    pub from: String,
    pub to: String,
}

/// A project whose files are replaced.
pub struct InPlaceSandbox {
    pub root: String,
    pub temp_dir: String,
    /// rel path in project -> rel path under the temporary directory
    pub manifest: TextMap<String>,
    pub restored: bool,
}

/// The files of a manifest, in the order of their paths.
pub open spec fn listed(manifest: TextMap<String>) -> Seq<Seq<char>> {
    crate::paths::sorted_paths(manifest.keys())
}

/// How the originals of a manifest come back from their copies, in the order of
/// their paths.
pub open spec fn recovers(
    r: Seq<Recovery>,
    manifest: TextMap<String>,
    root: Seq<char>,
    temp: Seq<char>,
) -> bool {
    &&& r.len() == listed(manifest).len()
    &&& forall|i: int|
        0 <= i < r.len() ==> {
            &&& (#[trigger] r[i]).file@ == listed(manifest)[i]
            &&& r[i].from@ == crate::paths::under(temp, manifest@[listed(manifest)[i]]@)
            &&& r[i].to@ == crate::paths::under(root, listed(manifest)[i])
        }
}

fn list_files(manifest: &TextMap<String>) -> (r: Vec<String>)
    ensures
        crate::text::texts(r@) == listed(*manifest),
        r@.len() == manifest.keys().len(),
        forall|i: int| 0 <= i < r@.len() ==> manifest@.dom().contains((#[trigger] r@[i])@),
{
    let total = manifest.len();
    let mut keys: Vec<String> = Vec::new();
    let mut i: usize = 0;
    proof {
        assert(crate::text::texts(keys@) =~= manifest.keys().take(0));
    }
    while i < total
        invariant
            i <= total == manifest.keys().len(),
            crate::text::texts(keys@) == manifest.keys().take(i as int),
        decreases total - i,
    {
        let key = copy_text(manifest.key_at(i).as_str());
        proof {
            crate::text::lemma_texts_push(keys@, key);
            assert(manifest.keys().take(i + 1) =~= manifest.keys().take(i as int).push(key@));
        }
        keys.push(key);
        i = i + 1;
    }
    let out = sort_paths(&keys);
    proof {
        assert(manifest.keys().take(total as int) =~= manifest.keys());
        crate::paths::law_paths_are_sorted(manifest.keys());
        assert(crate::text::texts(out@).len() == out@.len());
        assert forall|k: int| 0 <= k < out@.len() implies manifest@.dom().contains(
            (#[trigger] out@[k])@,
        ) by {
            assert(crate::text::texts(out@)[k] == out@[k]@);
            assert(listed(*manifest).contains(out@[k]@));
        }
    }
    out
}

/// How the originals of a manifest come back from their copies.
pub fn recovery(root: &str, temp_dir: &str, manifest: &TextMap<String>) -> (r: Vec<Recovery>)
    ensures
        recovers(r@, *manifest, root@, temp_dir@),
{
    let names = list_files(manifest);
    let ghost all = listed(*manifest);
    let mut out: Vec<Recovery> = Vec::new();
    let mut i: usize = 0;
    proof {
        assert(all.len() == names@.len());
    }
    while i < names.len()
        invariant
            i <= names@.len() == all.len(),
            all == listed(*manifest),
            all == crate::text::texts(names@),
            forall|k: int| 0 <= k < names@.len() ==> manifest@.dom().contains((#[trigger] names@[k])@),
            out@.len() == i,
            forall|k: int|
                0 <= k < i ==> {
                    &&& (#[trigger] out@[k]).file@ == all[k]
                    &&& out@[k].from@ == crate::paths::under(temp_dir@, manifest@[all[k]]@)
                    &&& out@[k].to@ == crate::paths::under(root@, all[k])
                },
        decreases names@.len() - i,
    {
        let file = names[i].as_str();
        proof {
            assert(all[i as int] == file@);
            assert(manifest@.dom().contains(names@[i as int]@));
        }
        match manifest.get(file) {
            Some(copy) => {
                out.push(
                    Recovery {
                        file: copy_text(file),
                        from: join_path(temp_dir, copy.as_str()),
                        to: join_path(root, file),
                    },
                );
            },
            None => {
                proof {
                    assert(false);
                }
            },
        }
        i = i + 1;
    }
    out
}

/// Standalone recovery from what a crashed run left behind: how its originals
/// come back, nothing where there is no manifest.
pub fn restore_from_manifest(
    root: &str,
    temp_dir: &str,
    manifest: &Option<TextMap<String>>,
) -> (r: Vec<Recovery>)
    ensures
        match manifest {
            Some(found) => recovers(r@, *found, root@, temp_dir@),
            None => r@.len() == 0,
        },
{
    match manifest {
        Some(found) => recovery(root, temp_dir, found),
        None => Vec::new(),
    }
}

/// The first failure of a list.
pub open spec fn first_failure(files: Seq<Seq<char>>, errors: Seq<Option<String>>) -> Option<
    Seq<char>,
>
    decreases errors.len(),
{
    if errors.len() == 0 {
        None
    } else {
        match first_failure(files, errors.drop_last()) {
            Some(message) => Some(message),
            None => match errors.last() {
                Some(e) => Some(
                    "failed to restore "@ + files[errors.len() - 1] + ": "@ + e@,
                ),
                None => None,
            },
        }
    }
}

proof fn lemma_failure_stays(files: Seq<Seq<char>>, errors: Seq<Option<String>>, n: int)
    requires
        0 <= n <= errors.len(),
        first_failure(files, errors.take(n)) is Some,
    ensures
        first_failure(files, errors) == first_failure(files, errors.take(n)),
    decreases errors.len() - n,
{
    if n == errors.len() {
        assert(errors.take(n) =~= errors);
    } else {
        assert(errors.take(n + 1).drop_last() =~= errors.take(n));
        lemma_failure_stays(files, errors, n + 1);
    }
}

impl InPlaceSandbox {
    /// A sandbox for the given files (relative to the project root), and the
    /// steps that back them up and replace them.
    pub fn activate(root: &str, temp_dir: &str, files: &Vec<String>) -> (r: (
        InPlaceSandbox,
        Vec<Step>,
    ))
        ensures
            r.0.root@ == root@,
            r.0.temp_dir@ == temp_dir@,
            crate::incremental::text_values(r.0.manifest@) == manifest_of(
                crate::text::texts(files@),
            ),
            !r.0.restored,
            step_views(r.1@) == activation(crate::text::texts(files@), root@, temp_dir@),
    {
        let ghost all = crate::text::texts(files@);
        let ghost first = StepView::CreateDir(crate::paths::under(temp_dir@, "backup"@));
        let ghost middle = StepView::WriteManifest(crate::paths::under(temp_dir@, MANIFEST_NAME@));
        let mut steps: Vec<Step> = Vec::new();
        let mut manifest: TextMap<String> = TextMap::new();
        steps.push(Step::CreateDir(join_path(temp_dir, "backup")));
        let mut i: usize = 0;
        proof {
            assert(step_views(steps@) =~= seq![first] + backups(all, root@, temp_dir@).take(0));
            assert(crate::incremental::text_values(manifest@) =~= manifest_of(all.take(0)));
        }
        while i < files.len()
            invariant
                i <= files@.len(),
                all == crate::text::texts(files@),
                step_views(steps@) == seq![first] + backups(all, root@, temp_dir@).take(i as int),
                crate::incremental::text_values(manifest@) == manifest_of(all.take(i as int)),
            decreases files@.len() - i,
        {
            let file = files[i].as_str();
            let copy = join_path("backup", file);
            let ghost before = steps@;
            let ghost listed = manifest@;
            let step = Step::Backup {
                from: join_path(root, file),
                to: join_path(temp_dir, copy.as_str()),
            };
            steps.push(step);
            proof {
                assert(all[i as int] == file@);
                assert(step_views(steps@) =~= step_views(before).push(step@));
                assert(backups(all, root@, temp_dir@).take(i + 1) =~= backups(
                    all,
                    root@,
                    temp_dir@,
                ).take(i as int).push(step@));
                assert(seq![first] + backups(all, root@, temp_dir@).take(i + 1) =~= (seq![first]
                    + backups(all, root@, temp_dir@).take(i as int)).push(step@));
            }
            manifest.insert(copy_text(file), copy);
            proof {
                let upto = all.take(i + 1);
                let front = all.take(i as int);
                assert forall|f: Seq<char>| #[trigger] upto.contains(f) <==> front.contains(f) || f
                    == file@ by {
                    assert(upto[i as int] == file@);
                    if front.contains(f) {
                        let k = front.index_of(f);
                        assert(upto[k] == f);
                    }
                    if upto.contains(f) {
                        let k = upto.index_of(f);
                        if k < i {
                            assert(front[k] == f);
                        }
                    }
                }
                let have = crate::incremental::text_values(manifest@);
                assert(have =~= crate::incremental::text_values(listed).insert(file@, copy@));
                assert(have =~= manifest_of(upto));
            }
            i = i + 1;
        }
        proof {
            assert(all.take(files@.len() as int) =~= all);
            assert(backups(all, root@, temp_dir@).take(files@.len() as int) =~= backups(
                all,
                root@,
                temp_dir@,
            ));
        }
        let ghost before = steps@;
        let step = Step::WriteManifest(join_path(temp_dir, MANIFEST_NAME));
        steps.push(step);
        let ghost prefix = seq![first] + backups(all, root@, temp_dir@) + seq![middle];
        let mut n: usize = 0;
        proof {
            assert(step_views(steps@) =~= step_views(before).push(step@));
            assert(step_views(steps@) =~= prefix + replacements(all, root@).take(0));
        }
        while n < files.len()
            invariant
                n <= files@.len(),
                all == crate::text::texts(files@),
                step_views(steps@) == prefix + replacements(all, root@).take(n as int),
            decreases files@.len() - n,
        {
            let ghost mid = steps@;
            let step = Step::Replace { path: join_path(root, files[n].as_str()), file: n };
            steps.push(step);
            proof {
                assert(all[n as int] == files@[n as int]@);
                assert(step_views(steps@) =~= step_views(mid).push(step@));
                assert(replacements(all, root@).take(n + 1) =~= replacements(all, root@).take(
                    n as int,
                ).push(step@));
                assert(prefix + replacements(all, root@).take(n + 1) =~= (prefix + replacements(
                    all,
                    root@,
                ).take(n as int)).push(step@));
            }
            n = n + 1;
        }
        proof {
            assert(replacements(all, root@).take(files@.len() as int) =~= replacements(all, root@));
        }
        (
            InPlaceSandbox {
                root: copy_text(root),
                temp_dir: copy_text(temp_dir),
                manifest,
                restored: false,
            },
            steps,
        )
    }

    /// What is to be copied back; nothing once all has been.
    pub fn restore(&self) -> (r: Vec<Recovery>)
        ensures
            restores(r@, *self),
    {
        if self.restored {
            Vec::new()
        } else {
            recovery(self.root.as_str(), self.temp_dir.as_str(), &self.manifest)
        }
    }

    /// Takes in how the copies of `restore` went. Once none of them failed the
    /// sandbox is done, and the manifest at the returned path is to be removed;
    /// else the first failure is reported.
    pub fn after_restore(&mut self, errors: &Vec<Option<String>>) -> (r: Result<String, String>)
        requires
            errors@.len() == old(self).manifest.keys().len(),
        ensures
            match first_failure(listed(old(self).manifest), errors@) {
                Some(message) => r matches Err(text) && text@ == message,
                None => r matches Ok(path) && path@ == crate::paths::under(
                    old(self).temp_dir@,
                    MANIFEST_NAME@,
                ),
            },
            *final(self) == (InPlaceSandbox {
                restored: old(self).restored || r is Ok,
                ..*old(self)
            }),
    {
        let names = list_files(&self.manifest);
        let ghost files = listed(self.manifest);
        let mut i: usize = 0;
        proof {
            assert(errors@.take(0) =~= Seq::<Option<String>>::empty());
        }
        while i < errors.len()
            invariant
                i <= errors@.len(),
                errors@.len() == names@.len(),
                files == crate::text::texts(names@),
                files == listed(old(self).manifest),
                *self == *old(self),
                first_failure(files, errors@.take(i as int)) is None,
            decreases errors@.len() - i,
        {
            proof {
                assert(errors@.take(i + 1).drop_last() =~= errors@.take(i as int));
                assert(errors@.take(i + 1).last() == errors@[i as int]);
            }
            if let Some(e) = &errors[i] {
                let mut message = concat3("failed to restore ", names[i].as_str(), ": ");
                message.append(e.as_str());
                proof {
                    assert(files[i as int] == names@[i as int]@);
                    lemma_failure_stays(files, errors@, i + 1);
                }
                return Err(message);
            }
            i = i + 1;
        }
        proof {
            assert(errors@.take(errors@.len() as int) =~= errors@);
        }
        self.restored = true;
        Ok(join_path(self.temp_dir.as_str(), MANIFEST_NAME))
    }
}

/// What a sandbox asks to be copied back.
pub open spec fn restores(r: Seq<Recovery>, sandbox: InPlaceSandbox) -> bool {
    if sandbox.restored {
        r.len() == 0
    } else {
        recovers(r, sandbox.manifest, sandbox.root@, sandbox.temp_dir@)
    }
}

/// Every copy is made before the manifest is written, and the manifest is
/// written before the first file is modified.
pub proof fn law_manifest_comes_first(
    files: Seq<Seq<char>>,
    root: Seq<char>,
    temp: Seq<char>,
    i: int,
)
    requires
        0 <= i < activation(files, root, temp).len(),
    ensures
        ({
            let steps = activation(files, root, temp);
            let written = files.len() + 1;
            &&& steps[written as int] == StepView::WriteManifest(
                crate::paths::under(temp, MANIFEST_NAME@),
            )
            &&& steps[i] is Backup ==> i < written
            &&& steps[i] is Replace ==> i > written
        }),
{
    let n = files.len();
    let head = seq![StepView::CreateDir(crate::paths::under(temp, "backup"@))];
    assert(backups(files, root, temp).len() == n);
    if 1 <= i <= n {
        assert(activation(files, root, temp)[i] == backups(files, root, temp)[i - 1]);
    } else if i > n + 1 {
        assert(activation(files, root, temp)[i] == replacements(files, root)[i - n - 2]);
    }
}

// ---- what is on the disk ----

/// The contents of a disk after a step: `listing` is the text of the manifest,
/// `contents` are the new texts of the files.
pub open spec fn after_step(
    disk: Map<Seq<char>, Seq<char>>,
    step: StepView,
    listing: Seq<char>,
    contents: Seq<Seq<char>>,
) -> Map<Seq<char>, Seq<char>> {
    match step {
        StepView::CreateDir(_) => disk,
        StepView::Backup { from, to } => disk.insert(to, disk[from]),
        StepView::WriteManifest(path) => disk.insert(path, listing),
        StepView::Replace { path, file } => disk.insert(path, contents[file]),
    }
}

/// The contents of a disk after some steps.
pub open spec fn after_steps(
    disk: Map<Seq<char>, Seq<char>>,
    steps: Seq<StepView>,
    listing: Seq<char>,
    contents: Seq<Seq<char>>,
) -> Map<Seq<char>, Seq<char>>
    decreases steps.len(),
{
    if steps.len() == 0 {
        disk
    } else {
        after_step(
            after_steps(disk, steps.drop_last(), listing, contents),
            steps.last(),
            listing,
            contents,
        )
    }
}

/// The contents of a disk after some files were copied back.
pub open spec fn after_copies(disk: Map<Seq<char>, Seq<char>>, copies: Seq<Recovery>) -> Map<
    Seq<char>,
    Seq<char>,
>
    decreases copies.len(),
{
    if copies.len() == 0 {
        disk
    } else {
        let front = after_copies(disk, copies.drop_last());
        front.insert(copies.last().to@, front[copies.last().from@])
    }
}

/// Where a file of the project stands.
pub open spec fn place_of(file: Seq<char>, root: Seq<char>) -> Seq<char> {
    crate::paths::under(root, file)
}

/// Where its copy stands.
pub open spec fn copy_of(file: Seq<char>, temp: Seq<char>) -> Seq<char> {
    crate::paths::under(temp, backup_of(file))
}

/// Whether no file stands where a copy or the manifest goes, and no two copies or
/// files share a place.
pub open spec fn apart(files: Seq<Seq<char>>, root: Seq<char>, temp: Seq<char>) -> bool {
    let listing = crate::paths::under(temp, MANIFEST_NAME@);
    &&& forall|f: Seq<char>| #[trigger]
        files.contains(f) ==> place_of(f, root) != listing && copy_of(f, temp) != listing
    &&& forall|f: Seq<char>, g: Seq<char>| #[trigger]
        files.contains(f) && #[trigger] files.contains(g) ==> place_of(f, root) != copy_of(g, temp)
    &&& forall|f: Seq<char>, g: Seq<char>| #[trigger]
        files.contains(f) && #[trigger] files.contains(g) && f != g ==> place_of(f, root)
            != place_of(g, root) && copy_of(f, temp) != copy_of(g, temp)
}

/// What the first `done` steps of an activation have done.
proof fn lemma_after(
    disk: Map<Seq<char>, Seq<char>>,
    files: Seq<Seq<char>>,
    root: Seq<char>,
    temp: Seq<char>,
    listing: Seq<char>,
    contents: Seq<Seq<char>>,
    done: int,
)
    requires
        apart(files, root, temp),
        0 <= done <= activation(files, root, temp).len(),
    ensures
        ({
            let now = after_steps(
                disk,
                activation(files, root, temp).take(done),
                listing,
                contents,
            );
            &&& done <= files.len() + 2 ==> forall|f: Seq<char>| #[trigger]
                files.contains(f) ==> now[place_of(f, root)] == disk[place_of(f, root)]
            &&& forall|j: int|
                0 <= j < files.len() && j + 1 < done ==> now[copy_of(#[trigger] files[j], temp)]
                    == disk[place_of(files[j], root)]
        }),
    decreases done,
{
    let steps = activation(files, root, temp);
    let n = files.len();
    if done > 0 {
        lemma_after(disk, files, root, temp, listing, contents, done - 1);
        assert(steps.take(done).drop_last() =~= steps.take(done - 1));
        let before = after_steps(disk, steps.take(done - 1), listing, contents);
        let now = after_steps(disk, steps.take(done), listing, contents);
        let step = steps[done - 1];
        assert(now == after_step(before, step, listing, contents));
        if done == 1 {
            assert(step is CreateDir);
        } else if done <= n + 1 {
            let f = files[done - 2];
            assert(step == backups(files, root, temp)[done - 2]);
            assert(files.contains(f));
            assert forall|j: int| 0 <= j < n && j + 1 < done implies now[copy_of(
                #[trigger] files[j],
                temp,
            )] == disk[place_of(files[j], root)] by {
                assert(files.contains(files[j]));
            }
        } else if done == n + 2 {
            assert(step == StepView::WriteManifest(crate::paths::under(temp, MANIFEST_NAME@)));
            assert forall|j: int| 0 <= j < n && j + 1 < done implies now[copy_of(
                #[trigger] files[j],
                temp,
            )] == disk[place_of(files[j], root)] by {
                assert(files.contains(files[j]));
            }
        } else {
            let f = files[done - n - 3];
            assert(step == replacements(files, root)[done - n - 3]);
            assert(files.contains(f));
            assert forall|j: int| 0 <= j < n && j + 1 < done implies now[copy_of(
                #[trigger] files[j],
                temp,
            )] == disk[place_of(files[j], root)] by {
                assert(files.contains(files[j]));
            }
        }
    }
}

/// What copying back has done.
proof fn lemma_copied(
    disk: Map<Seq<char>, Seq<char>>,
    copies: Seq<Recovery>,
    names: Seq<Seq<char>>,
    files: Seq<Seq<char>>,
    root: Seq<char>,
    temp: Seq<char>,
)
    requires
        apart(files, root, temp),
        copies.len() == names.len(),
        forall|i: int|
            0 <= i < copies.len() ==> files.contains(#[trigger] names[i]) && copies[i].from@
                == copy_of(names[i], temp) && copies[i].to@ == place_of(names[i], root),
    ensures
        forall|f: Seq<char>| #[trigger]
            files.contains(f) ==> after_copies(disk, copies)[copy_of(f, temp)] == disk[copy_of(
                f,
                temp,
            )],
        forall|i: int|
            0 <= i < names.len() ==> after_copies(disk, copies)[place_of(
                #[trigger] names[i],
                root,
            )] == disk[copy_of(names[i], temp)],
    decreases copies.len(),
{
    if copies.len() > 0 {
        let fewer = copies.drop_last();
        let front = names.drop_last();
        assert forall|i: int| 0 <= i < fewer.len() implies files.contains(#[trigger] front[i])
            && fewer[i].from@ == copy_of(front[i], temp) && fewer[i].to@ == place_of(
            front[i],
            root,
        ) by {
            assert(front[i] == names[i]);
            assert(fewer[i] == copies[i]);
        }
        lemma_copied(disk, fewer, front, files, root, temp);
        let last = names[names.len() - 1];
        assert(files.contains(last));
        assert(copies.last() == copies[copies.len() - 1]);
        let now = after_copies(disk, copies);
        assert forall|i: int| 0 <= i < names.len() implies now[place_of(#[trigger] names[i], root)]
            == disk[copy_of(names[i], temp)] by {
            assert(files.contains(names[i]));
            if i < front.len() {
                assert(front[i] == names[i]);
            }
        }
    }
}

/// Until the manifest is written no file is modified.
pub proof fn law_nothing_changes_before_the_manifest(
    disk: Map<Seq<char>, Seq<char>>,
    files: Seq<Seq<char>>,
    root: Seq<char>,
    temp: Seq<char>,
    listing: Seq<char>,
    contents: Seq<Seq<char>>,
    done: int,
    file: Seq<char>,
)
    requires
        apart(files, root, temp),
        0 <= done <= files.len() + 2,
        files.contains(file),
    ensures
        after_steps(
            disk,
            activation(files, root, temp).take(done),
            listing,
            contents,
        )[place_of(file, root)] == disk[place_of(file, root)],
{
    assert(backups(files, root, temp).len() == files.len());
    lemma_after(disk, files, root, temp, listing, contents, done);
}

/// The contents of a disk after a restoration: the originals are copied back and
/// the manifest is removed.
pub open spec fn after_restoration(
    disk: Map<Seq<char>, Seq<char>>,
    copies: Seq<Recovery>,
    temp: Seq<char>,
) -> Map<Seq<char>, Seq<char>> {
    after_copies(disk, copies).remove(crate::paths::under(temp, MANIFEST_NAME@))
}

/// Whether two disks hold the same copies of some files.
pub open spec fn same_copies(
    a: Map<Seq<char>, Seq<char>>,
    b: Map<Seq<char>, Seq<char>>,
    files: Seq<Seq<char>>,
    temp: Seq<char>,
) -> bool {
    forall|f: Seq<char>| #[trigger] files.contains(f) ==> a[copy_of(f, temp)] == b[copy_of(f, temp)]
}

/// Once the manifest is written everything can be recovered: however many of the
/// steps were done before a crash, and whatever was written to the files since
/// (`later`), as long as the copies were left alone, copying back what the
/// manifest lists gives every file its original contents, and the manifest is
/// gone.
pub proof fn law_restoring_gives_the_originals_back(
    disk: Map<Seq<char>, Seq<char>>,
    files: Seq<Seq<char>>,
    root: Seq<char>,
    temp: Seq<char>,
    listing: Seq<char>,
    contents: Seq<Seq<char>>,
    done: int,
    later: Map<Seq<char>, Seq<char>>,
    manifest: TextMap<String>,
    copies: Seq<Recovery>,
    file: Seq<char>,
)
    requires
        apart(files, root, temp),
        files.len() + 2 <= done <= activation(files, root, temp).len(),
        same_copies(
            later,
            after_steps(disk, activation(files, root, temp).take(done), listing, contents),
            files,
            temp,
        ),
        crate::incremental::text_values(manifest@) == manifest_of(files),
        recovers(copies, manifest, root, temp),
        files.contains(file),
    ensures
        after_restoration(later, copies, temp)[place_of(file, root)] == disk[place_of(file, root)],
        !after_restoration(later, copies, temp).dom().contains(
            crate::paths::under(temp, MANIFEST_NAME@),
        ),
{
    let names = listed(manifest);
    let crashed = after_steps(disk, activation(files, root, temp).take(done), listing, contents);
    lemma_after(disk, files, root, temp, listing, contents, done);
    crate::paths::law_paths_are_sorted(manifest.keys());
    let texts = crate::incremental::text_values(manifest@);
    assert forall|i: int| 0 <= i < copies.len() implies files.contains(#[trigger] names[i])
        && copies[i].from@ == copy_of(names[i], temp) && copies[i].to@ == place_of(
        names[i],
        root,
    ) by {
        let f = names[i];
        assert(names.contains(f));
        assert(manifest.keys().contains(f));
        assert(texts.dom().contains(f));
        assert(texts[f] == manifest@[f]@);
    }
    lemma_copied(later, copies, names, files, root, temp);
    assert(manifest_of(files).dom().contains(file));
    assert(manifest@.dom().contains(file));
    assert(names.contains(file));
    let i = names.index_of(file);
    assert(names[i] == file);
    let j = files.index_of(file);
    assert(files[j] == file);
    assert(same_copies(later, crashed, files, temp));
}

/// A second restoration changes nothing: once the copies of the first all
/// succeeded, the sandbox asks for no more.
pub proof fn law_second_restore_changes_nothing(
    sandbox: InPlaceSandbox,
    errors: Seq<Option<String>>,
    disk: Map<Seq<char>, Seq<char>>,
    copies: Seq<Recovery>,
)
    requires
        first_failure(listed(sandbox.manifest), errors) is None,
        restores(copies, (InPlaceSandbox { restored: true, ..sandbox })),
    ensures
        after_copies(disk, copies) == disk,
{
}

// ---- writing, leftovers, dirty files ----

/// The file beside a file that its new contents are written to before they take
/// its place; nothing where it has no directory.
pub open spec fn staging_of(path: Seq<char>) -> Option<Seq<char>> {
    let parts = crate::paths::parts(path);
    if parts.len() == 0 || parts.last() == "/"@ {
        None
    } else {
        Some(
            crate::paths::under(
                crate::paths::rebuilt(parts.drop_last()),
                "."@ + (match crate::paths::last_name(path) {
                    Some(name) => name,
                    None => "file"@,
                }) + ".stryker-tmp"@,
            ),
        )
    }
}

/// The file beside a file that its new contents are written to before they take
/// its place.
pub fn staging_path(path: &str) -> (r: Option<String>)
    ensures
        crate::text::opt_text(r) == staging_of(path@),
{
    let mut parts = parts_of(path);
    let ghost all = crate::text::texts(parts@);
    match parts.pop() {
        None => None,
        Some(last) => {
            proof {
                assert(all.last() == last@);
                assert(crate::text::texts(parts@) =~= all.drop_last());
            }
            if same(last.as_str(), "/") {
                return None;
            }
            let name = match file_name(path) {
                Some(name) => name,
                None => copy_text("file"),
            };
            let staged = concat3(".", name.as_str(), ".stryker-tmp");
            Some(join_path(rebuild(&parts).as_str(), staged.as_str()))
        },
    }
}

/// The files of a list whose contents carry a marker, in order;
/// files that could not be read have no contents.
pub open spec fn leftovers(
    files: Seq<Seq<char>>,
    contents: Seq<Option<String>>,
    marker: Seq<char>,
) -> Seq<Seq<char>>
    decreases files.len(),
{
    if files.len() == 0 {
        Seq::empty()
    } else {
        let front = leftovers(files.drop_last(), contents, marker);
        match contents[files.len() - 1] {
            Some(content) => if crate::text::has(content@, marker) {
                front.push(files.last())
            } else {
                front
            },
            None => front,
        }
    }
}

/// Finds files still carrying the instrumentation header (e.g. manifest lost)
/// so that the user can see them.
pub fn find_instrumented_leftovers(
    files: &Vec<String>,
    contents: &Vec<Option<String>>,
    header_marker: &str,
) -> (r: Vec<String>)
    requires
        files@.len() == contents@.len(),
    ensures
        crate::text::texts(r@) == leftovers(
            crate::text::texts(files@),
            contents@,
            header_marker@,
        ),
{
    let ghost all = crate::text::texts(files@);
    let mut out: Vec<String> = Vec::new();
    let mut i: usize = 0;
    proof {
        assert(crate::text::texts(out@) =~= leftovers(all.take(0), contents@, header_marker@));
    }
    while i < files.len()
        invariant
            i <= files@.len() == contents@.len(),
            all == crate::text::texts(files@),
            crate::text::texts(out@) == leftovers(all.take(i as int), contents@, header_marker@),
        decreases files@.len() - i,
    {
        proof {
            assert(all.take(i + 1).drop_last() =~= all.take(i as int));
            assert(all.take(i + 1).last() == files@[i as int]@);
        }
        if let Some(content) = &contents[i] {
            if has_text(content.as_str(), header_marker) {
                let copy = copy_text(files[i].as_str());
                proof {
                    crate::text::lemma_texts_push(out@, copy);
                }
                out.push(copy);
            }
        }
        i = i + 1;
    }
    proof {
        assert(all.take(files@.len() as int) =~= all);
    }
    out
}

/// What follows the first `n` bytes of a text, where they end with a character.
pub open spec fn past_bytes(s: Seq<char>, n: nat) -> Option<Seq<char>>
    decreases s.len(),
{
    if n == 0 {
        Some(s)
    } else if s.len() == 0 || crate::source::width(s[0]) > n {
        None
    } else {
        past_bytes(s.skip(1), (n - crate::source::width(s[0])) as nat)
    }
}

fn skip_bytes(text: &str, n: u32) -> (r: Option<String>)
    ensures
        crate::text::opt_text(r) == past_bytes(text@, n as nat),
{
    let chars = chars_of(text);
    let total = chars.len();
    let mut left: u32 = n;
    let mut i: usize = 0;
    proof {
        assert(chars@.skip(0) =~= chars@);
    }
    while left > 0
        invariant
            i <= total == chars@.len(),
            chars@ == text@,
            past_bytes(text@, n as nat) == past_bytes(chars@.skip(i as int), left as nat),
        decreases left,
    {
        if i >= total {
            return None;
        }
        proof {
            assert(chars@.skip(i as int)[0] == chars@[i as int]);
            assert(chars@.skip(i as int).skip(1) =~= chars@.skip(i + 1));
        }
        let w: u32 = char_width(chars[i]);
        if w > left {
            return None;
        }
        left = left - w;
        i = i + 1;
    }
    let rest = text_of(&chars, i, total);
    proof {
        assert(rest@ =~= chars@.skip(i as int));
    }
    Some(rest)
}

/// The paths of the changed files in the lines of a status, in order. Untracked
/// files (`??`) are fine: the backup covers them, and there is no committed
/// state to clobber.
pub open spec fn dirty_lines(lines: Seq<Seq<char>>) -> Seq<Seq<char>>
    decreases lines.len(),
{
    if lines.len() == 0 {
        Seq::empty()
    } else {
        let front = dirty_lines(lines.drop_last());
        if crate::text::begins(lines.last(), "??"@) {
            front
        } else {
            match past_bytes(lines.last(), 3) {
                Some(path) => front.push(path),
                None => front,
            }
        }
    }
}

/// The files with uncommitted changes in what `git status --porcelain` prints.
pub fn dirty_files(status: &str) -> (r: Vec<String>)
    ensures
        crate::text::texts(r@) == dirty_lines(crate::text::lines_of(status@)),
{
    let list = lines(status);
    let ghost all = crate::text::texts(list@);
    let mut out: Vec<String> = Vec::new();
    let mut i: usize = 0;
    proof {
        assert(crate::text::texts(out@) =~= dirty_lines(all.take(0)));
    }
    while i < list.len()
        invariant
            i <= list@.len(),
            all == crate::text::texts(list@),
            crate::text::texts(out@) == dirty_lines(all.take(i as int)),
        decreases list@.len() - i,
    {
        let line = list[i].as_str();
        proof {
            assert(all.take(i + 1).drop_last() =~= all.take(i as int));
            assert(all.take(i + 1).last() == line@);
        }
        if !begins_with(line, "??") {
            if let Some(path) = skip_bytes(line, 3) {
                proof {
                    crate::text::lemma_texts_push(out@, path);
                }
                out.push(path);
            }
        }
        i = i + 1;
    }
    proof {
        assert(all.take(list@.len() as int) =~= all);
    }
    out
}

/// Untracked files never count as dirty.
pub proof fn law_untracked_files_are_clean(lines: Seq<Seq<char>>)
    requires
        forall|i: int| 0 <= i < lines.len() ==> crate::text::begins(#[trigger] lines[i], "??"@),
    ensures
        dirty_lines(lines).len() == 0,
    decreases lines.len(),
{
    if lines.len() > 0 {
        let front = lines.drop_last();
        assert forall|i: int| 0 <= i < front.len() implies crate::text::begins(
            #[trigger] front[i],
            "??"@,
        ) by {
            assert(front[i] == lines[i]);
        }
        law_untracked_files_are_clean(front);
        assert(lines[lines.len() - 1] == lines.last());
    }
}

// ---- what is written and what is found ----

proof fn lemma_steps_join(
    disk: Map<Seq<char>, Seq<char>>,
    a: Seq<StepView>,
    b: Seq<StepView>,
    listing: Seq<char>,
    contents: Seq<Seq<char>>,
)
    ensures
        after_steps(disk, a + b, listing, contents) == after_steps(
            after_steps(disk, a, listing, contents),
            b,
            listing,
            contents,
        ),
    decreases b.len(),
{
    if b.len() == 0 {
        assert(a + b =~= a);
    } else {
        lemma_steps_join(disk, a, b.drop_last(), listing, contents);
        assert((a + b).drop_last() =~= a + b.drop_last());
        assert((a + b).last() == b.last());
    }
}

proof fn lemma_replaced(
    disk: Map<Seq<char>, Seq<char>>,
    files: Seq<Seq<char>>,
    root: Seq<char>,
    listing: Seq<char>,
    contents: Seq<Seq<char>>,
    n: int,
    i: int,
)
    requires
        0 <= i < n <= files.len(),
        forall|a: int, b: int|
            0 <= a < b < files.len() ==> crate::paths::under(root, #[trigger] files[a])
                != crate::paths::under(root, #[trigger] files[b]),
    ensures
        after_steps(disk, replacements(files, root).take(n), listing, contents)[crate::paths::under(
            root,
            files[i],
        )] == contents[i],
    decreases n,
{
    let all = replacements(files, root);
    let steps = all.take(n);
    assert(steps.drop_last() =~= all.take(n - 1));
    assert(steps.last() == all[n - 1]);
    if i < n - 1 {
        lemma_replaced(disk, files, root, listing, contents, n - 1, i);
        assert(crate::paths::under(root, files[i]) != crate::paths::under(root, files[n - 1]));
    }
}

/// Once a sandbox is active, every file of it has its new contents.
pub proof fn law_activation_writes_every_file(
    disk: Map<Seq<char>, Seq<char>>,
    files: Seq<Seq<char>>,
    root: Seq<char>,
    temp: Seq<char>,
    listing: Seq<char>,
    contents: Seq<Seq<char>>,
    i: int,
)
    requires
        0 <= i < files.len(),
        forall|a: int, b: int|
            0 <= a < b < files.len() ==> crate::paths::under(root, #[trigger] files[a])
                != crate::paths::under(root, #[trigger] files[b]),
    ensures
        after_steps(disk, activation(files, root, temp), listing, contents)[crate::paths::under(
            root,
            files[i],
        )] == contents[i],
{
    let head = seq![StepView::CreateDir(crate::paths::under(temp, "backup"@))] + backups(
        files,
        root,
        temp,
    ) + seq![StepView::WriteManifest(crate::paths::under(temp, MANIFEST_NAME@))];
    let all = replacements(files, root);
    lemma_steps_join(disk, head, all, listing, contents);
    assert(all.take(files.len() as int) =~= all);
    lemma_replaced(
        after_steps(disk, head, listing, contents),
        files,
        root,
        listing,
        contents,
        files.len() as int,
        i,
    );
}

/// The first file that could not be restored is named, with the cause.
pub proof fn law_first_failure_is_told(files: Seq<Seq<char>>, errors: Seq<Option<String>>)
    requires
        errors.len() <= files.len(),
    ensures
        match first_failure(files, errors) {
            Some(message) => exists|i: int|
                0 <= i < errors.len() && (#[trigger] errors[i]) is Some && message
                    == "failed to restore "@ + files[i] + ": "@ + errors[i]->0@ && forall|j: int|
                    0 <= j < i ==> (#[trigger] errors[j]) is None,
            None => forall|i: int| 0 <= i < errors.len() ==> (#[trigger] errors[i]) is None,
        },
    decreases errors.len(),
{
    if errors.len() > 0 {
        let front = errors.drop_last();
        law_first_failure_is_told(files, front);
        assert(errors[errors.len() - 1] == errors.last());
        assert forall|j: int| 0 <= j < front.len() implies #[trigger] errors[j] == front[j] by {}
        match first_failure(files, front) {
            Some(message) => {
                let i = choose|i: int|
                    0 <= i < front.len() && (#[trigger] front[i]) is Some && message
                        == "failed to restore "@ + files[i] + ": "@ + front[i]->0@ && forall|j: int|
                        0 <= j < i ==> (#[trigger] front[j]) is None;
                assert(errors[i] == front[i]);
                assert forall|j: int| 0 <= j < i implies (#[trigger] errors[j]) is None by {
                    assert(front[j] == errors[j]);
                }
            },
            None => {
                assert forall|j: int| 0 <= j < front.len() implies (#[trigger] errors[j]) is None by {
                    assert(front[j] == errors[j]);
                }
            },
        }
    }
}

proof fn lemma_leftovers(
    files: Seq<Seq<char>>,
    contents: Seq<Option<String>>,
    marker: Seq<char>,
    file: Seq<char>,
)
    requires
        files.len() <= contents.len(),
    ensures
        leftovers(files, contents, marker).contains(file) <==> exists|i: int|
            0 <= i < files.len() && #[trigger] files[i] == file && (contents[i] matches Some(text)
                && crate::text::has(text@, marker)),
    decreases files.len(),
{
    if files.len() > 0 {
        let before = files.drop_last();
        let front = leftovers(before, contents, marker);
        let all = leftovers(files, contents, marker);
        lemma_leftovers(before, contents, marker, file);
        assert(files[files.len() - 1] == files.last());
        if front.contains(file) {
            let k = front.index_of(file);
            assert(all[k] == file);
            let i = choose|i: int|
                0 <= i < before.len() && #[trigger] before[i] == file && (contents[i] matches Some(
                    text,
                ) && crate::text::has(text@, marker));
            assert(files[i] == file);
        }
        if all.contains(file) && !front.contains(file) {
            let k = all.index_of(file);
            if k < front.len() {
                assert(front[k] == file);
            }
        }
        if exists|i: int|
            0 <= i < files.len() && #[trigger] files[i] == file && (contents[i] matches Some(text)
                && crate::text::has(text@, marker)) {
            let i = choose|i: int|
                0 <= i < files.len() && #[trigger] files[i] == file && (contents[i] matches Some(
                    text,
                ) && crate::text::has(text@, marker));
            if i < before.len() {
                assert(before[i] == file);
            } else {
                assert(all[all.len() - 1] == file);
            }
        }
    }
}

/// A file was left instrumented where it can be read and holds the marker.
pub proof fn law_leftovers_hold_the_marker(
    files: Seq<Seq<char>>,
    contents: Seq<Option<String>>,
    marker: Seq<char>,
    file: Seq<char>,
)
    requires
        files.len() <= contents.len(),
    ensures
        leftovers(files, contents, marker).contains(file) <==> exists|i: int|
            0 <= i < files.len() && #[trigger] files[i] == file && (contents[i] matches Some(text)
                && crate::text::has(text@, marker)),
{
    lemma_leftovers(files, contents, marker, file);
}

/// A line of the status names a dirty file behind its two letters and a blank; a
/// file that is not tracked is not dirty.
pub proof fn law_dirty_files(lines: Seq<Seq<char>>, a: char, b: char, path: Seq<char>)
    requires
        (a as u32) < 0x80,
        (b as u32) < 0x80,
    ensures
        a == '?' && b == '?' ==> dirty_lines(lines.push(seq![a, b, ' '] + path)) == dirty_lines(
            lines,
        ),
        a != '?' || b != '?' ==> dirty_lines(lines.push(seq![a, b, ' '] + path)) == dirty_lines(
            lines,
        ).push(path),
{
    reveal_strlit("??");
    assert("??"@.len() == 2 && "??"@[0] == '?' && "??"@[1] == '?');
    let line = seq![a, b, ' '] + path;
    assert(line[0] == a && line[1] == b && line[2] == ' ');
    assert(lines.push(line).drop_last() =~= lines);
    if a == '?' && b == '?' {
        assert(line.subrange(0, 2) =~= "??"@);
    }
    if crate::text::begins(line, "??"@) {
        assert(line.subrange(0, 2)[0] == '?' && line.subrange(0, 2)[1] == '?');
    }
    reveal_with_fuel(past_bytes, 4);
    let one = line.skip(1);
    let two = one.skip(1);
    let three = two.skip(1);
    assert(one[0] == b && two[0] == ' ');
    assert(three =~= path);
    assert(past_bytes(line, 3) == Some(path));
}

/// New contents are written beside a file, under its name with a dot before and a
/// mark behind it, and what has no name has no such place.
pub proof fn law_staging_places(path: Seq<char>, name: Seq<char>)
    requires
        crate::paths::last_name(path) == Some(name),
    ensures
        staging_of(path) == Some(
            crate::paths::under(
                crate::paths::rebuilt(crate::paths::parts(path).drop_last()),
                "."@ + name + ".stryker-tmp"@,
            ),
        ),
{
}

/// Every file is copied below the backup before anything is written, and the
/// manifest says where to.
pub proof fn law_backups(files: Seq<Seq<char>>, root: Seq<char>, temp: Seq<char>, i: int)
    requires
        0 <= i < files.len(),
    ensures
        activation(files, root, temp)[i + 1] == (StepView::Backup {
            from: crate::paths::under(root, files[i]),
            to: crate::paths::under(temp, crate::paths::under("backup"@, files[i])),
        }),
        activation(files, root, temp)[files.len() + 2 + i] == (StepView::Replace {
            path: crate::paths::under(root, files[i]),
            file: i,
        }),
        activation(files, root, temp).len() == 2 * files.len() + 2,
        manifest_of(files).contains_key(files[i]),
        manifest_of(files)[files[i]] == crate::paths::under("backup"@, files[i]),
        forall|f: Seq<char>| #[trigger] manifest_of(files).contains_key(f) <==> files.contains(f),
{
}

/// Restoring copies the backup of every file of the manifest to its place.
pub proof fn law_every_backup_is_copied_back(
    r: Seq<Recovery>,
    manifest: TextMap<String>,
    root: Seq<char>,
    temp: Seq<char>,
    file: Seq<char>,
)
    requires
        recovers(r, manifest, root, temp),
        manifest@.contains_key(file),
    ensures
        exists|i: int|
            0 <= i < r.len() && (#[trigger] r[i]).file@ == file && r[i].from@
                == crate::paths::under(temp, manifest@[file]@) && r[i].to@ == crate::paths::under(
                root,
                file,
            ),
{
    crate::paths::law_paths_are_sorted(manifest.keys());
    assert(manifest.keys().contains(file));
    assert(listed(manifest).contains(file));
    let i = listed(manifest).index_of(file);
    assert(r[i].file@ == file);
}

/// An activation starts with the directory of the copies, and the manifest is
/// written beside it when all of them are made.
pub proof fn law_where_an_activation_starts(
    files: Seq<Seq<char>>,
    root: Seq<char>,
    temp: Seq<char>,
)
    ensures
        activation(files, root, temp)[0] == StepView::CreateDir(
            crate::paths::under(temp, "backup"@),
        ),
        activation(files, root, temp)[files.len() + 1int] == StepView::WriteManifest(
            crate::paths::under(temp, MANIFEST_NAME@),
        ),
{
}

} // verus!
