//! The instrumented copy: which files are rewritten, what a rewritten `?`
//! expression becomes, and how the rest of the workspace is copied beside
//! them.
use vstd::prelude::*;
use core::marker::PhantomData;
use crate::paths::{
    file_name, file_name_seq, first_component_normal, first_segment, first_segment_of,
    has_component, has_component_seq, has_rust_extension, is_rust_source, join, join_seq,
    lemma_join_relative_extends, lemma_relative_is_relative, lemma_relative_keeps_components,
    relative_path, relative_seq,
};
use crate::parse::words_view;
use crate::text::owned;

verus! {

/// The state of a file that has not been written to the copy yet.
pub struct NotSaved;

/// A rewritten source file of the workspace.
pub struct FileInfo<State> {
    root: String,
    name: String,
    contents: String,
    path: String,
    _data: PhantomData<State>,
}

/// A source file by the characters of its parts.
pub struct FileInfoView {
    /// The workspace root it was found under.
    pub root: Seq<char>,
    /// Its file name.
    pub name: Seq<char>,
    /// Its rewritten text.
    pub contents: Seq<char>,
    /// Its path relative to the root.
    pub path: Seq<char>,
}

impl<State> View for FileInfo<State> {
    type V = FileInfoView;

    closed spec fn view(&self) -> FileInfoView {
        FileInfoView {
            root: self.root@,
            name: self.name@,
            contents: self.contents@,
            path: self.path@,
        }
    }
}

/// `path` lies in build output or Git metadata: one of its components is
/// `target` or `.git`.
pub open spec fn excluded(path: Seq<char>) -> bool {
    has_component_seq(path, "target"@) || has_component_seq(path, ".git"@)
}

/// Whether `path` lies in build output or Git metadata (see `excluded`).
pub fn is_excluded(path: &str) -> (r: bool)
    ensures
        r == excluded(path@),
{
    has_component(path, "target") || has_component(path, ".git")
}

/// A walked path is rewritten: it is a file with the extension `rs`, outside
/// build output and Git metadata.
pub open spec fn traced_source(path: Seq<char>, is_file: bool) -> bool {
    !excluded(path) && is_file && is_rust_source(path)
}

/// Whether the walked `path` is a source file to rewrite (see
/// `traced_source`).
pub fn is_traced_source(path: &str, is_file: bool) -> (r: bool)
    ensures
        r == traced_source(path@, is_file),
{
    !is_excluded(path) && is_file && has_rust_extension(path)
}

impl FileInfo<NotSaved> {
    /// The record of the file at `path`, found under `root`, rewritten to
    /// `contents`. The path has to lie under the root and have a file name.
    pub fn new(root: &str, path: &str, contents: String) -> (r: Self)
        requires
            relative_seq(root@, path@) matches Some(rel) && file_name_seq(rel) is Some,
        ensures
            r@.root == root@,
            r@.path == relative_seq(root@, path@)->Some_0,
            r@.name == file_name_seq(relative_seq(root@, path@)->Some_0)->Some_0,
            r@.contents == contents@,
    {
        let rel = relative_path(root, path).unwrap();
        let name = file_name(rel.as_str()).unwrap();
        FileInfo { root: owned(root), name, contents, path: rel, _data: PhantomData }
    }

    /// The name of the folder that the file lies in at the top of the
    /// workspace: the first component of its relative path, which has to be
    /// a normal one.
    pub fn folder_name(&self) -> (r: String)
        requires
            first_component_normal(self@.path),
        ensures
            r@ == first_segment(self@.path),
    {
        first_segment_of(self.path.as_str())
    }

    /// Where the file is written in the copy rooted at `directory`.
    pub fn save_path(&self, directory: &str) -> (r: String)
        ensures
            r@ == join_seq(directory@, self@.path),
    {
        join(directory, self.path.as_str())
    }

    /// The workspace root the file was found under.
    pub fn root(&self) -> (r: &str)
        ensures
            r@ == self@.root,
    {
        self.root.as_str()
    }

    /// The file name.
    pub fn name(&self) -> (r: &str)
        ensures
            r@ == self@.name,
    {
        self.name.as_str()
    }

    /// The rewritten text.
    pub fn contents(&self) -> (r: &str)
        ensures
            r@ == self@.contents,
    {
        self.contents.as_str()
    }

    /// The path relative to the root.
    pub fn path(&self) -> (r: &str)
        ensures
            r@ == self@.path,
    {
        self.path.as_str()
    }
}

/// A path met while walking the workspace, and whether it is a directory
/// and whether it is a regular file.
#[derive(Debug)]
pub struct WalkEntry {
    pub path: String,
    pub is_dir: bool,
    pub is_file: bool,
}

/// The paths of the walked entries that are rewritten, in the order they
/// were walked.
pub open spec fn sources_plan(entries: Seq<WalkEntry>) -> Seq<Seq<char>>
    decreases entries.len(),
{
    if entries.len() == 0 {
        Seq::empty()
    } else {
        let last = entries.last();
        sources_plan(entries.drop_last()) + if traced_source(last.path@, last.is_file) {
            seq![last.path@]
        } else {
            Seq::empty()
        }
    }
}

/// The walked entries that are source files to rewrite (see
/// `traced_source`), in the order they were walked.
pub fn select_sources(entries: &Vec<WalkEntry>) -> (r: Vec<String>)
    ensures
        words_view(r@) == sources_plan(entries@),
{
    let n = entries.len();
    let mut r: Vec<String> = Vec::new();
    let mut i: usize = 0;
    while i < n
        invariant
            n == entries@.len(),
            i <= n,
            words_view(r@) == sources_plan(entries@.subrange(0, i as int)),
        decreases n - i,
    {
        let e = &entries[i];
        assert(entries@.subrange(0, i + 1).drop_last() =~= entries@.subrange(0, i as int));
        assert(entries@.subrange(0, i + 1).last() == entries@[i as int]);
        if is_traced_source(e.path.as_str(), e.is_file) {
            r.push(owned(e.path.as_str()));
        }
        assert(words_view(r@) =~= sources_plan(entries@.subrange(0, i + 1)));
        i = i + 1;
    }
    assert(entries@.subrange(0, n as int) =~= entries@);
    r
}

/// The manifest that describes the workspace at `path`: its `Cargo.toml`
/// when `path` is a directory, `path` itself otherwise.
pub fn manifest_path(path: &str, is_dir: bool) -> (r: String)
    ensures
        r@ == if is_dir {
            join_seq(path@, "Cargo.toml"@)
        } else {
            path@
        },
{
    if is_dir {
        join(path, "Cargo.toml")
    } else {
        owned(path)
    }
}

/// One step of copying the workspace beside its rewritten files.
#[derive(Debug)]
pub enum ScaffoldStep {
    /// Create this directory (and its parents).
    CreateDir(String),
    /// Copy the file at the first path to the second.
    Copy(String, String),
}

/// A step by the characters of its paths.
pub enum StepView {
    CreateDir(Seq<char>),
    Copy(Seq<char>, Seq<char>),
}

impl View for ScaffoldStep {
    type V = StepView;

    open spec fn view(&self) -> StepView {
        match self {
            ScaffoldStep::CreateDir(d) => StepView::CreateDir(d@),
            ScaffoldStep::Copy(from, to) => StepView::Copy(from@, to@),
        }
    }
}

/// The steps by their views.
pub open spec fn steps_view(steps: Seq<ScaffoldStep>) -> Seq<StepView> {
    steps.map_values(|s: ScaffoldStep| s@)
}

/// What one walked entry calls for: nothing in build output or Git metadata,
/// nothing for a rewritten file (its relative path is among `traced`);
/// otherwise the same place below `future`, made as a directory or copied.
pub open spec fn step_for(
    traced: Seq<Seq<char>>,
    root: Seq<char>,
    future: Seq<char>,
    path: Seq<char>,
    is_dir: bool,
) -> Seq<StepView> {
    if excluded(path) {
        Seq::empty()
    } else {
        match relative_seq(root, path) {
            None => Seq::empty(),
            Some(rel) => if traced.contains(rel) {
                Seq::empty()
            } else if is_dir {
                seq![StepView::CreateDir(join_seq(future, rel))]
            } else {
                seq![StepView::Copy(path, join_seq(future, rel))]
            },
        }
    }
}

/// The steps for the walked entries, in the order they were walked.
pub open spec fn scaffold_plan(
    traced: Seq<Seq<char>>,
    root: Seq<char>,
    future: Seq<char>,
    entries: Seq<WalkEntry>,
) -> Seq<StepView>
    decreases entries.len(),
{
    if entries.len() == 0 {
        Seq::empty()
    } else {
        scaffold_plan(traced, root, future, entries.drop_last()) + step_for(
            traced,
            root,
            future,
            entries.last().path@,
            entries.last().is_dir,
        )
    }
}

/// An entry can be placed: it is excluded, or it lies under the root.
pub open spec fn placeable(root: Seq<char>, path: Seq<char>) -> bool {
    excluded(path) || relative_seq(root, path) is Some
}

/// Copying the rest of a workspace beside the files that were rewritten.
pub trait FileInfoVecExt {
    /// The relative paths of the rewritten files.
    spec fn traced_paths(&self) -> Seq<Seq<char>>;

    /// The workspace root that the files were found under.
    spec fn walk_root(&self) -> Seq<char>;

    /// There is a file to take the root from.
    spec fn has_files(&self) -> bool;

    /// The steps that copy the walked `entries` of the workspace into
    /// `future_dir`, leaving out build output, Git metadata and the rewritten
    /// files themselves. Each entry has to lie under the root unless it is
    /// left out for build output or Git metadata.
    fn copy_scanfold(&self, entries: &Vec<WalkEntry>, future_dir: &str) -> (steps: Vec<
        ScaffoldStep,
    >)
        requires
            self.has_files(),
            forall|i: int|
                0 <= i < entries@.len() ==> placeable(self.walk_root(), #[trigger] entries@[i].path@),
        ensures
            steps_view(steps@) == scaffold_plan(
                self.traced_paths(),
                self.walk_root(),
                future_dir@,
                entries@,
            ),
    ;
}

/// The relative paths of the files.
pub open spec fn file_paths(files: Seq<FileInfo<NotSaved>>) -> Seq<Seq<char>> {
    files.map_values(|f: FileInfo<NotSaved>| f@.path)
}

fn is_traced_path(files: &Vec<FileInfo<NotSaved>>, rel: &str) -> (r: bool)
    ensures
        r == file_paths(files@).contains(rel@),
{
    let n = files.len();
    let mut i: usize = 0;
    while i < n
        invariant
            n == files@.len(),
            i <= n,
            forall|k: int| 0 <= k < i ==> file_paths(files@)[k] != rel@,
        decreases n - i,
    {
        if crate::text::same_text(files[i].path(), rel) {
            assert(file_paths(files@)[i as int] == rel@);
            return true;
        }
        i = i + 1;
    }
    false
}

impl FileInfoVecExt for Vec<FileInfo<NotSaved>> {
    open spec fn traced_paths(&self) -> Seq<Seq<char>> {
        file_paths(self@)
    }

    open spec fn walk_root(&self) -> Seq<char> {
        self@[0]@.root
    }

    open spec fn has_files(&self) -> bool {
        self@.len() > 0
    }

    fn copy_scanfold(&self, entries: &Vec<WalkEntry>, future_dir: &str) -> (steps: Vec<
        ScaffoldStep,
    >) {
        let root = self[0].root();
        let n = entries.len();
        let mut steps: Vec<ScaffoldStep> = Vec::new();
        let mut i: usize = 0;
        while i < n
            invariant
                n == entries@.len(),
                i <= n,
                root@ == self.walk_root(),
                forall|j: int|
                    0 <= j < entries@.len() ==> placeable(root@, #[trigger] entries@[j].path@),
                steps_view(steps@) == scaffold_plan(
                    self.traced_paths(),
                    root@,
                    future_dir@,
                    entries@.subrange(0, i as int),
                ),
            decreases n - i,
        {
            let ghost before = steps@;
            let e = &entries[i];
            assert(entries@.subrange(0, i + 1).drop_last() =~= entries@.subrange(0, i as int));
            assert(entries@.subrange(0, i + 1).last() == entries@[i as int]);
            assert(placeable(root@, entries@[i as int].path@));
            if !is_excluded(e.path.as_str()) {
                match relative_path(root, e.path.as_str()) {
                    Some(rel) => {
                        if !is_traced_path(self, rel.as_str()) {
                            let dst = join(future_dir, rel.as_str());
                            if e.is_dir {
                                steps.push(ScaffoldStep::CreateDir(dst));
                            } else {
                                steps.push(ScaffoldStep::Copy(owned(e.path.as_str()), dst));
                            }
                        }
                    },
                    None => {},
                }
            }
            assert(steps_view(steps@) =~= steps_view(before) + step_for(
                self.traced_paths(),
                root@,
                future_dir@,
                entries@[i as int].path@,
                entries@[i as int].is_dir,
            ));
            i = i + 1;
        }
        assert(entries@.subrange(0, n as int) =~= entries@);
        steps
    }
}

/// The step `s` is what the walked entry `e` calls for: `e` is outside
/// build output and Git metadata, lies under the root, is not a rewritten
/// file, and `s` makes or copies it at the same place below `future`.
pub open spec fn step_from_entry(
    traced: Seq<Seq<char>>,
    root: Seq<char>,
    future: Seq<char>,
    e: WalkEntry,
    s: StepView,
) -> bool {
    &&& !excluded(e.path@)
    &&& relative_seq(root, e.path@) is Some
    &&& !traced.contains(relative_seq(root, e.path@)->Some_0)
    &&& s == if e.is_dir {
        StepView::CreateDir(join_seq(future, relative_seq(root, e.path@)->Some_0))
    } else {
        StepView::Copy(e.path@, join_seq(future, relative_seq(root, e.path@)->Some_0))
    }
}

/// Copying the workspace leaves out build output, Git metadata and the
/// rewritten files: every step of the plan is called for by one of the walked
/// entries outside them, and puts it at the same place below the copy.
pub proof fn lemma_scaffold_leaves_out(
    traced: Seq<Seq<char>>,
    root: Seq<char>,
    future: Seq<char>,
    entries: Seq<WalkEntry>,
)
    ensures
        forall|k: int|
            #![trigger scaffold_plan(traced, root, future, entries)[k]]
            0 <= k < scaffold_plan(traced, root, future, entries).len() ==> exists|j: int|
                0 <= j < entries.len() && step_from_entry(
                    traced,
                    root,
                    future,
                    #[trigger] entries[j],
                    scaffold_plan(traced, root, future, entries)[k],
                ),
    decreases entries.len(),
{
    if entries.len() > 0 {
        let front = entries.drop_last();
        lemma_scaffold_leaves_out(traced, root, future, front);
        let before = scaffold_plan(traced, root, future, front);
        let plan = scaffold_plan(traced, root, future, entries);
        let last = entries.last();
        assert forall|k: int| #![trigger plan[k]] 0 <= k < plan.len() implies exists|j: int|
            0 <= j < entries.len() && step_from_entry(
                traced,
                root,
                future,
                #[trigger] entries[j],
                plan[k],
            ) by {
            if k < before.len() {
                assert(plan[k] == before[k]);
                let j = choose|j: int|
                    0 <= j < front.len() && step_from_entry(
                        traced,
                        root,
                        future,
                        #[trigger] front[j],
                        before[k],
                    );
                assert(front[j] == entries[j]);
            } else {
                let j = entries.len() - 1;
                assert(entries[j] == last);
                assert(step_from_entry(traced, root, future, entries[j], plan[k]));
            }
        }
    }
}

/// Where a step writes.
pub open spec fn step_target(s: StepView) -> Seq<char> {
    match s {
        StepView::CreateDir(d) => d,
        StepView::Copy(_, to) => to,
    }
}

/// Every step's target starts with the text of the copy's directory.
pub proof fn lemma_scaffold_writes_inside_copy(
    traced: Seq<Seq<char>>,
    root: Seq<char>,
    future: Seq<char>,
    entries: Seq<WalkEntry>,
)
    ensures
        forall|k: int|
            #![trigger scaffold_plan(traced, root, future, entries)[k]]
            0 <= k < scaffold_plan(traced, root, future, entries).len() ==> step_target(
                scaffold_plan(traced, root, future, entries)[k],
            ).len() >= future.len() && step_target(
                scaffold_plan(traced, root, future, entries)[k],
            ).subrange(0, future.len() as int) == future,
{
    lemma_scaffold_leaves_out(traced, root, future, entries);
    let plan = scaffold_plan(traced, root, future, entries);
    assert forall|k: int| #![trigger plan[k]] 0 <= k < plan.len() implies step_target(
        plan[k],
    ).len() >= future.len() && step_target(plan[k]).subrange(0, future.len() as int)
        == future by {
        let j = choose|j: int|
            0 <= j < entries.len() && step_from_entry(
                traced,
                root,
                future,
                #[trigger] entries[j],
                plan[k],
            );
        let rel = relative_seq(root, entries[j].path@)->Some_0;
        lemma_relative_is_relative(root, entries[j].path@);
        lemma_join_relative_extends(future, rel);
    }
}

/// `target` is `dir` joined with a relative path that holds no `..`.
pub open spec fn lands_below(dir: Seq<char>, target: Seq<char>) -> bool {
    exists|rel: Seq<char>|
        (rel.len() == 0 || rel[0] != '/') && !has_component_seq(rel, ".."@) && target
            == #[trigger] join_seq(dir, rel)
}

/// Every step lands below the copy directory, by a relative path without
/// `..`, when no walked path holds a `..` component: the copy is written
/// nowhere else.
pub proof fn lemma_scaffold_stays_below_copy(
    traced: Seq<Seq<char>>,
    root: Seq<char>,
    future: Seq<char>,
    entries: Seq<WalkEntry>,
)
    requires
        forall|j: int| 0 <= j < entries.len() ==> !has_component_seq(#[trigger] entries[j].path@, ".."@),
    ensures
        forall|k: int|
            0 <= k < scaffold_plan(traced, root, future, entries).len() ==> lands_below(
                future,
                step_target(#[trigger] scaffold_plan(traced, root, future, entries)[k]),
            ),
{
    lemma_scaffold_leaves_out(traced, root, future, entries);
    let plan = scaffold_plan(traced, root, future, entries);
    assert forall|k: int| 0 <= k < plan.len() implies lands_below(
        future,
        step_target(#[trigger] plan[k]),
    ) by {
        let j = choose|j: int|
            0 <= j < entries.len() && step_from_entry(
                traced,
                root,
                future,
                #[trigger] entries[j],
                plan[k],
            );
        let rel = relative_seq(root, entries[j].path@)->Some_0;
        lemma_relative_is_relative(root, entries[j].path@);
        reveal_strlit("..");
        if has_component_seq(rel, ".."@) {
            lemma_relative_keeps_components(root, entries[j].path@, ".."@);
        }
        assert(step_target(plan[k]) == join_seq(future, rel));
    }
}

/// A rewritten file is saved below the copy directory: the place that
/// `save_path` gives for a file that `FileInfo::new` made from `path` under
/// `root` starts with the directory, and holds no `..` after it unless
/// `path` does.
pub proof fn lemma_save_path_inside(directory: Seq<char>, root: Seq<char>, path: Seq<char>)
    requires
        relative_seq(root, path) is Some,
    ensures
        join_seq(directory, relative_seq(root, path)->Some_0).len() >= directory.len(),
        join_seq(directory, relative_seq(root, path)->Some_0).subrange(0, directory.len() as int)
            == directory,
        !has_component_seq(path, ".."@) ==> !has_component_seq(
            relative_seq(root, path)->Some_0,
            ".."@,
        ),
{
    let rel = relative_seq(root, path)->Some_0;
    lemma_relative_is_relative(root, path);
    lemma_join_relative_extends(directory, rel);
    reveal_strlit("..");
    if has_component_seq(rel, ".."@) {
        lemma_relative_keeps_components(root, path, ".."@);
    }
}

/// No walked entry, no step.
pub proof fn lemma_scaffold_plan_empty(traced: Seq<Seq<char>>, root: Seq<char>, future: Seq<char>)
    ensures
        scaffold_plan(traced, root, future, Seq::<WalkEntry>::empty()) == Seq::<StepView>::empty(),
{
}

/// Walking one more entry adds exactly its own step after the steps of the
/// entries before it: when the entry lies outside `target` and `.git`, under
/// the root, and is not a rewritten file, a directory is made at its relative
/// place below the copy or a file copied there, wherever in the workspace it
/// lies; otherwise nothing is added.
pub proof fn lemma_scaffold_plan_push(
    traced: Seq<Seq<char>>,
    root: Seq<char>,
    future: Seq<char>,
    entries: Seq<WalkEntry>,
    e: WalkEntry,
)
    ensures
        scaffold_plan(traced, root, future, entries.push(e)) == scaffold_plan(
            traced,
            root,
            future,
            entries,
        ) + if !has_component_seq(e.path@, "target"@) && !has_component_seq(e.path@, ".git"@)
            && relative_seq(root, e.path@) is Some && !traced.contains(
            relative_seq(root, e.path@)->Some_0,
        ) {
            if e.is_dir {
                seq![StepView::CreateDir(join_seq(future, relative_seq(root, e.path@)->Some_0))]
            } else {
                seq![StepView::Copy(e.path@, join_seq(future, relative_seq(root, e.path@)->Some_0))]
            }
        } else {
            Seq::<StepView>::empty()
        },
{
    let s = entries.push(e);
    assert(s.drop_last() =~= entries);
    assert(s.last() == e);
}

/// Every walked entry outside `target` and `.git`, under the root and not a
/// rewritten file, has its step in the plan: a directory made, or the file
/// copied, at its relative place below the copy.
pub proof fn lemma_scaffold_plan_complete(
    traced: Seq<Seq<char>>,
    root: Seq<char>,
    future: Seq<char>,
    entries: Seq<WalkEntry>,
    j: int,
)
    requires
        0 <= j < entries.len(),
        !has_component_seq(entries[j].path@, "target"@),
        !has_component_seq(entries[j].path@, ".git"@),
        relative_seq(root, entries[j].path@) is Some,
        !traced.contains(relative_seq(root, entries[j].path@)->Some_0),
    ensures
        scaffold_plan(traced, root, future, entries).contains(
            if entries[j].is_dir {
                StepView::CreateDir(
                    join_seq(future, relative_seq(root, entries[j].path@)->Some_0),
                )
            } else {
                StepView::Copy(
                    entries[j].path@,
                    join_seq(future, relative_seq(root, entries[j].path@)->Some_0),
                )
            },
        ),
    decreases entries.len(),
{
    let front = entries.drop_last();
    lemma_scaffold_plan_push(traced, root, future, front, entries.last());
    assert(front.push(entries.last()) =~= entries);
    let before = scaffold_plan(traced, root, future, front);
    let plan = scaffold_plan(traced, root, future, entries);
    if j < entries.len() - 1 {
        assert(front[j] == entries[j]);
        lemma_scaffold_plan_complete(traced, root, future, front, j);
        let k = choose|k: int| 0 <= k < before.len() && before[k] == (if entries[j].is_dir {
            StepView::CreateDir(join_seq(future, relative_seq(root, entries[j].path@)->Some_0))
        } else {
            StepView::Copy(
                entries[j].path@,
                join_seq(future, relative_seq(root, entries[j].path@)->Some_0),
            )
        });
        assert(plan[k] == before[k]);
    } else {
        assert(plan[before.len() as int] == (if entries[j].is_dir {
            StepView::CreateDir(join_seq(future, relative_seq(root, entries[j].path@)->Some_0))
        } else {
            StepView::Copy(
                entries[j].path@,
                join_seq(future, relative_seq(root, entries[j].path@)->Some_0),
            )
        }));
    }
}

/// No walked entry, no source.
pub proof fn lemma_sources_plan_empty()
    ensures
        sources_plan(Seq::<WalkEntry>::empty()) == Seq::<Seq<char>>::empty(),
{
}

/// Walking one more entry adds its path to the sources exactly when it is a
/// regular file with the extension `rs` outside `target` and `.git`, whatever
/// came before it.
pub proof fn lemma_sources_plan_push(entries: Seq<WalkEntry>, e: WalkEntry)
    ensures
        sources_plan(entries.push(e)) == sources_plan(entries) + if e.is_file && !has_component_seq(
            e.path@,
            "target"@,
        ) && !has_component_seq(e.path@, ".git"@) && is_rust_source(e.path@) {
            seq![e.path@]
        } else {
            Seq::<Seq<char>>::empty()
        },
{
    let s = entries.push(e);
    assert(s.drop_last() =~= entries);
    assert(s.last() == e);
}

/// Every walked source file is selected, and everything selected is a walked
/// source file.
pub proof fn lemma_sources_plan_members(entries: Seq<WalkEntry>, p: Seq<char>)
    ensures
        sources_plan(entries).contains(p) <==> exists|j: int|
            0 <= j < entries.len() && #[trigger] entries[j].path@ == p && entries[j].is_file
                && !has_component_seq(p, "target"@) && !has_component_seq(p, ".git"@)
                && is_rust_source(p),
    decreases entries.len(),
{
    if entries.len() > 0 {
        let front = entries.drop_last();
        let e = entries.last();
        lemma_sources_plan_members(front, p);
        lemma_sources_plan_push(front, e);
        assert(front.push(e) =~= entries);
        let before = sources_plan(front);
        let now = sources_plan(entries);
        let cond = e.is_file && !has_component_seq(e.path@, "target"@) && !has_component_seq(
            e.path@,
            ".git"@,
        ) && is_rust_source(e.path@);
        if now.contains(p) {
            let k = choose|k: int| 0 <= k < now.len() && now[k] == p;
            if k < before.len() {
                assert(before[k] == p);
                let j = choose|j: int|
                    0 <= j < front.len() && #[trigger] front[j].path@ == p && front[j].is_file
                        && !has_component_seq(p, "target"@) && !has_component_seq(p, ".git"@)
                        && is_rust_source(p);
                assert(entries[j] == front[j]);
            } else {
                assert(cond);
                assert(entries[entries.len() - 1].path@ == p);
            }
        }
        if exists|j: int|
            0 <= j < entries.len() && #[trigger] entries[j].path@ == p && entries[j].is_file
                && !has_component_seq(p, "target"@) && !has_component_seq(p, ".git"@)
                && is_rust_source(p) {
            let j = choose|j: int|
                0 <= j < entries.len() && #[trigger] entries[j].path@ == p && entries[j].is_file
                    && !has_component_seq(p, "target"@) && !has_component_seq(p, ".git"@)
                    && is_rust_source(p);
            if j < entries.len() - 1 {
                assert(front[j] == entries[j]);
                let k = choose|k: int| 0 <= k < before.len() && before[k] == p;
                assert(now[k] == p);
            } else {
                assert(now[before.len() as int] == p);
            }
        }
    }
}

/// How far `s[..i]` is nested in brackets: each `(`, `[` or `{` opens one
/// level, each `)`, `]` or `}` closes one.
pub open spec fn bracket_depth(s: Seq<char>, i: int) -> int
    decreases i,
{
    if i <= 0 {
        0
    } else {
        let c = s[i - 1];
        bracket_depth(s, i - 1) + if c == '(' || c == '[' || c == '{' {
            1int
        } else if c == ')' || c == ']' || c == '}' {
            -1int
        } else {
            0int
        }
    }
}

/// The operand's text holds a brace outside every bracket, as a struct
/// literal does: in the scrutinee of a `match` such an operand reads only
/// inside parentheses.
pub open spec fn needs_parentheses(inner: Seq<char>) -> bool {
    exists|i: int| 0 <= i < inner.len() && inner[i] == '{' && bracket_depth(inner, i) <= 0
}

/// Whether the operand's text has to stand in parentheses (see
/// `needs_parentheses`).
pub fn operand_needs_parentheses(inner: &str) -> (r: bool)
    ensures
        r == needs_parentheses(inner@),
{
    let v = crate::text::chars_of(inner);
    let n = v.len();
    let mut d: i128 = 0;
    let mut i: usize = 0;
    while i < n
        invariant
            v@ == inner@,
            n == v@.len(),
            i <= n,
            d == bracket_depth(v@, i as int),
            -(i as int) <= d <= i as int,
            forall|k: int| 0 <= k < i ==> !(v@[k] == '{' && bracket_depth(v@, k) <= 0),
        decreases n - i,
    {
        let c = v[i];
        if c == '{' && d <= 0 {
            return true;
        }
        if c == '(' || c == '[' || c == '{' {
            d = d + 1;
        } else if c == ')' || c == ']' || c == '}' {
            d = d - 1;
        }
        i = i + 1;
    }
    false
}

/// The scrutinee of the rewritten match: the operand, in parentheses when it
/// needs them and as it stands otherwise.
pub open spec fn scrutinee(inner: Seq<char>) -> Seq<char> {
    if needs_parentheses(inner) {
        seq!['('] + inner + seq![')']
    } else {
        inner
    }
}

/// The text that a rewritten `?` expression opens with, before its operand.
pub open spec fn trace_open() -> Seq<char> {
    "{ match "@
}

/// The text between the scrutinee and the operand's second copy: the match
/// arms, and the report of a propagated error with the file, the line, a
/// coloured `?`, the expression's text and the error's debug form, in that
/// order.
pub open spec fn trace_arms() -> Seq<char> {
    " { Ok(__trace_value) => __trace_value, Err(__trace_error) => { eprintln!(\"\\x1b[1;35m?\\x1b[0m \\x1b[36m{}:{}\\x1b[0m: \\x1b[33m{}\\x1b[0m -> \\x1b[31m{:?}\\x1b[0m\", file!(), line!(), stringify!("@
}

/// The text after the operand's second copy: the error is handed back.
pub open spec fn trace_close() -> Seq<char> {
    "), __trace_error,); return Err(__trace_error.into()); } } }"@
}

/// The block that `inner?` is rewritten to: a match on `inner` (in
/// parentheses only where it needs them) that passes an `Ok` value through
/// and reports an `Err`, with `inner`'s text as written, before returning it.
pub open spec fn trace_expression_seq(inner: Seq<char>) -> Seq<char> {
    trace_open() + scrutinee(inner) + trace_arms() + inner + trace_close()
}

/// The source text that replaces the expression `inner?`, given the source
/// text of `inner`.
pub fn trace_expression(inner: &str) -> (r: String)
    ensures
        r@ == trace_expression_seq(inner@),
{
    let mut r = owned("{ match ");
    if operand_needs_parentheses(inner) {
        r.append("(");
        r.append(inner);
        r.append(")");
        proof {
            reveal_strlit("(");
            reveal_strlit(")");
        }
    } else {
        r.append(inner);
    }
    r.append(
        " { Ok(__trace_value) => __trace_value, Err(__trace_error) => { eprintln!(\"\\x1b[1;35m?\\x1b[0m \\x1b[36m{}:{}\\x1b[0m: \\x1b[33m{}\\x1b[0m -> \\x1b[31m{:?}\\x1b[0m\", file!(), line!(), stringify!(",
    );
    r.append(inner);
    r.append("), __trace_error,); return Err(__trace_error.into()); } } }");
    r
}

/// The rewritten text of any `inner?` opens a match on `inner` itself (in
/// parentheses only when its text holds a brace), whose `Err` arm prints the
/// coloured `?`, the file and the line number of the trace point in `{}:{}`,
/// the operand's own text from `stringify!`, and the error's debug form, then
/// hands the error back converted with `into`.
pub proof fn lemma_trace_reports_location_and_operand(inner: Seq<char>)
    ensures
        ({
            let r = trace_expression_seq(inner);
            let s = if needs_parentheses(inner) {
                seq!['('] + inner + seq![')']
            } else {
                inner
            };
            &&& r == "{ match "@ + s
                + " { Ok(__trace_value) => __trace_value, Err(__trace_error) => { "@
                + "eprintln!(\"\\x1b[1;35m?\\x1b[0m \\x1b[36m{}:{}\\x1b[0m: \\x1b[33m{}\\x1b[0m -> \\x1b[31m{:?}\\x1b[0m\", file!(), line!(), stringify!("@
                + inner + "), __trace_error,); return Err(__trace_error.into());"@ + " } } }"@
            &&& (forall|i: int| 0 <= i < inner.len() ==> inner[i] != '{') ==> s == inner
            &&& (exists|i: int|
                0 <= i < inner.len() && inner[i] == '{' && forall|k: int|
                    0 <= k < i ==> !is_bracket(#[trigger] inner[k])) ==> s == seq!['('] + inner
                + seq![')']
            &&& s == inner || s == seq!['('] + inner + seq![')']
        }),
{
    let a = " { Ok(__trace_value) => __trace_value, Err(__trace_error) => { "@;
    let b = "eprintln!(\"\\x1b[1;35m?\\x1b[0m \\x1b[36m{}:{}\\x1b[0m: \\x1b[33m{}\\x1b[0m -> \\x1b[31m{:?}\\x1b[0m\", file!(), line!(), stringify!("@;
    let c = "), __trace_error,); return Err(__trace_error.into());"@;
    let d = " } } }"@;
    reveal_strlit(" { Ok(__trace_value) => __trace_value, Err(__trace_error) => { ");
    reveal_strlit("eprintln!(\"\\x1b[1;35m?\\x1b[0m \\x1b[36m{}:{}\\x1b[0m: \\x1b[33m{}\\x1b[0m -> \\x1b[31m{:?}\\x1b[0m\", file!(), line!(), stringify!(");
    reveal_strlit("), __trace_error,); return Err(__trace_error.into());");
    reveal_strlit(" } } }");
    reveal_strlit(" { Ok(__trace_value) => __trace_value, Err(__trace_error) => { eprintln!(\"\\x1b[1;35m?\\x1b[0m \\x1b[36m{}:{}\\x1b[0m: \\x1b[33m{}\\x1b[0m -> \\x1b[31m{:?}\\x1b[0m\", file!(), line!(), stringify!(");
    reveal_strlit("), __trace_error,); return Err(__trace_error.into()); } } }");
    assert(trace_arms() =~= a + b);
    assert(trace_close() =~= c + d);
    let s = scrutinee(inner);
    assert(trace_expression_seq(inner) =~= "{ match "@ + s + a + b + inner + c + d);
    if exists|i: int|
        0 <= i < inner.len() && inner[i] == '{' && forall|k: int|
            0 <= k < i ==> !is_bracket(#[trigger] inner[k]) {
        let i = choose|i: int|
            0 <= i < inner.len() && inner[i] == '{' && forall|k: int|
                0 <= k < i ==> !is_bracket(#[trigger] inner[k]);
        lemma_depth_without_brackets(inner, i);
        assert(needs_parentheses(inner));
    }
}

/// A bracket character: `(`, `[`, `{`, `)`, `]` or `}`.
pub open spec fn is_bracket(c: char) -> bool {
    c == '(' || c == '[' || c == '{' || c == ')' || c == ']' || c == '}'
}

proof fn lemma_depth_without_brackets(s: Seq<char>, i: int)
    requires
        0 <= i <= s.len(),
        forall|k: int| 0 <= k < i ==> !is_bracket(#[trigger] s[k]),
    ensures
        bracket_depth(s, i) == 0,
    decreases i,
{
    if i > 0 {
        lemma_depth_without_brackets(s, i - 1);
        assert(!is_bracket(s[i - 1]));
    }
}

} // verus!
