//! Copying a directory with all that is below it.
//!
//! A run says what is to be done next and is resumed with what came of it.
//! Names are numbers that the caller gives to the names it meets, and a path is
//! the list of the names that lead to a place below the directory that is copied,
//! or to the same place below the directory that it is copied to.

use vstd::prelude::*;

verus! {

/// What an entry of a directory is. A link is neither a file nor a directory.
#[derive(Debug, Clone, Copy, PartialEq, Eq, Structural)]
pub enum EntryKind {
    File,
    Directory,
    Other,
}

/// Where a run stands in the present directory.
#[derive(Debug, Clone, Copy, PartialEq, Eq, Structural)]
pub enum TreeStep {
    /// The directory is being opened.
    Opening,
    /// Its next entry is being read.
    Reading,
    /// The directory that it is copied to is being created, for a file of this
    /// name.
    Preparing(usize),
    /// A file is being copied.
    Copying,
    /// A directory of this name is being created for one of the same name.
    Creating(usize),
}

/// A run that copies a directory.
#[derive(Debug, PartialEq, Eq)]
pub struct TreeRun {
    /// The path of the present directory.
    pub path: Vec<usize>,
    pub step: TreeStep,
}

/// A run that copies a directory as contracts speak of it.
pub struct TreeRunView {
    pub path: Seq<usize>,
    pub step: TreeStep,
}

impl View for TreeRun {
    type V = TreeRunView;

    open spec fn view(&self) -> TreeRunView {
        TreeRunView { path: self.path@, step: self.step }
    }
}

/// What is to be done next.
#[derive(Debug, PartialEq, Eq)]
pub enum TreeAction {
    /// Open the directory at this path to read its entries.
    Open(Vec<usize>),
    /// Read the next entry of the directory that was opened last and has not
    /// ended yet.
    ReadEntry,
    /// Create the directory at this path of the destination, with those above
    /// it.
    CreateDir(Vec<usize>),
    /// Copy the file at this path to the same path of the destination.
    CopyFile(Vec<usize>),
}

/// What is to be done next, as contracts speak of it.
pub enum TreeActionView {
    Open(Seq<usize>),
    ReadEntry,
    CreateDir(Seq<usize>),
    CopyFile(Seq<usize>),
}

impl View for TreeAction {
    type V = TreeActionView;

    open spec fn view(&self) -> TreeActionView {
        match self {
            TreeAction::Open(path) => TreeActionView::Open(path@),
            TreeAction::ReadEntry => TreeActionView::ReadEntry,
            TreeAction::CreateDir(path) => TreeActionView::CreateDir(path@),
            TreeAction::CopyFile(path) => TreeActionView::CopyFile(path@),
        }
    }
}

/// What came of an action.
#[derive(Debug, PartialEq, Eq)]
pub enum TreeEvent {
    /// It was done.
    Done,
    /// The directory has an entry of this name and kind.
    Entry(usize, EntryKind),
    /// The directory has no more entries.
    End,
    /// It failed, for this reason.
    Failed(String),
}

/// What came of an action, as contracts speak of it.
pub enum TreeEventView {
    Done,
    Entry(usize, EntryKind),
    End,
    Failed(Seq<char>),
}

impl View for TreeEvent {
    type V = TreeEventView;

    open spec fn view(&self) -> TreeEventView {
        match self {
            TreeEvent::Done => TreeEventView::Done,
            TreeEvent::Entry(name, kind) => TreeEventView::Entry(*name, *kind),
            TreeEvent::End => TreeEventView::End,
            TreeEvent::Failed(e) => TreeEventView::Failed(e@),
        }
    }
}

/// How a run goes on.
#[derive(Debug, PartialEq, Eq)]
pub enum TreeNext {
    /// With an action.
    Go(TreeRun, TreeAction),
    /// It has ended, with success or for this reason.
    Finish(Result<(), String>),
}

/// How a run goes on, as contracts speak of it.
pub enum TreeNextView {
    Go(TreeRunView, TreeActionView),
    Finish(Result<(), Seq<char>>),
}

impl View for TreeNext {
    type V = TreeNextView;

    open spec fn view(&self) -> TreeNextView {
        match self {
            TreeNext::Go(run, action) => TreeNextView::Go(run@, action@),
            TreeNext::Finish(Ok(())) => TreeNextView::Finish(Ok(())),
            TreeNext::Finish(Err(e)) => TreeNextView::Finish(Err(e@)),
        }
    }
}

// A run.

/// How a run goes on when it comes to a directory.
pub open spec fn at_directory(path: Seq<usize>) -> TreeNextView {
    TreeNextView::Go(TreeRunView { path, step: TreeStep::Opening }, TreeActionView::Open(path))
}

/// How a run goes on with the next entry of a directory.
pub open spec fn at_entry(path: Seq<usize>) -> TreeNextView {
    TreeNextView::Go(TreeRunView { path, step: TreeStep::Reading }, TreeActionView::ReadEntry)
}

/// How a run goes on behind a directory: with the directory above it, if it is
/// not the one that is copied.
pub open spec fn behind_directory(path: Seq<usize>) -> TreeNextView {
    if path.len() == 0 {
        TreeNextView::Finish(Ok(()))
    } else {
        at_entry(path.drop_last())
    }
}

/// Whether a step can come to this: each can fail, reading brings an entry or
/// the end, and the others end in being done.
pub open spec fn can_come_of(step: TreeStep, event: TreeEventView) -> bool {
    match event {
        TreeEventView::Failed(_) => true,
        TreeEventView::Entry(_, _) | TreeEventView::End => step is Reading,
        TreeEventView::Done => !(step is Reading),
    }
}

/// How a run goes on after an event. A file is copied when the directory that
/// it goes to has been created; a directory is created, and its entries come
/// before those behind it; of other entries nothing is copied.
pub open spec fn tree_next(run: TreeRunView, event: TreeEventView) -> TreeNextView {
    let path = run.path;
    match event {
        TreeEventView::Failed(e) => TreeNextView::Finish(Err(e)),
        TreeEventView::Entry(name, EntryKind::File) => TreeNextView::Go(
            TreeRunView { path, step: TreeStep::Preparing(name) },
            TreeActionView::CreateDir(path),
        ),
        TreeEventView::Entry(name, EntryKind::Directory) => TreeNextView::Go(
            TreeRunView { path, step: TreeStep::Creating(name) },
            TreeActionView::CreateDir(path.push(name)),
        ),
        TreeEventView::Entry(_, EntryKind::Other) => at_entry(path),
        TreeEventView::End => behind_directory(path),
        TreeEventView::Done => match run.step {
            TreeStep::Preparing(name) => TreeNextView::Go(
                TreeRunView { path, step: TreeStep::Copying },
                TreeActionView::CopyFile(path.push(name)),
            ),
            TreeStep::Creating(name) => at_directory(path.push(name)),
            _ => at_entry(path),
        },
    }
}

/// Begins a run that copies a directory.
pub fn copy_recurse() -> (r: TreeNext)
    ensures
        r@ == at_directory(Seq::empty()),
{
    let path: Vec<usize> = Vec::new();
    let target: Vec<usize> = Vec::new();
    TreeNext::Go(TreeRun { path, step: TreeStep::Opening }, TreeAction::Open(target))
}

fn copy_of(path: &Vec<usize>) -> (r: Vec<usize>)
    ensures
        r@ == path@,
{
    let r: Vec<usize> = path.clone();
    assert(r@ =~= path@);
    r
}

impl TreeRun {
    /// Goes on after an event.
    pub fn resume(self, event: TreeEvent) -> (r: TreeNext)
        requires
            can_come_of(self.step, event@),
        ensures
            r@ == tree_next(self@, event@),
    {
        let TreeRun { mut path, step } = self;
        let mut target: Vec<usize> = copy_of(&path);
        match event {
            TreeEvent::Failed(e) => TreeNext::Finish(Err(e)),
            TreeEvent::Entry(name, EntryKind::File) => TreeNext::Go(
                TreeRun { path, step: TreeStep::Preparing(name) },
                TreeAction::CreateDir(target),
            ),
            TreeEvent::Entry(name, EntryKind::Directory) => {
                target.push(name);
                TreeNext::Go(
                    TreeRun { path, step: TreeStep::Creating(name) },
                    TreeAction::CreateDir(target),
                )
            },
            TreeEvent::Entry(_, EntryKind::Other) => TreeNext::Go(
                TreeRun { path, step: TreeStep::Reading },
                TreeAction::ReadEntry,
            ),
            TreeEvent::End => {
                if path.len() == 0 {
                    return TreeNext::Finish(Ok(()));
                }
                path.pop();
                TreeNext::Go(TreeRun { path, step: TreeStep::Reading }, TreeAction::ReadEntry)
            },
            TreeEvent::Done => match step {
                TreeStep::Preparing(name) => {
                    target.push(name);
                    TreeNext::Go(
                        TreeRun { path, step: TreeStep::Copying },
                        TreeAction::CopyFile(target),
                    )
                },
                TreeStep::Creating(name) => {
                    path.push(name);
                    target.push(name);
                    TreeNext::Go(
                        TreeRun { path, step: TreeStep::Opening },
                        TreeAction::Open(target),
                    )
                },
                _ => TreeNext::Go(
                    TreeRun { path, step: TreeStep::Reading },
                    TreeAction::ReadEntry,
                ),
            },
        }
    }
}

// Laws.

/// An entry of a directory with all that is below it.
pub enum Node {
    File,
    Directory(Seq<(usize, Node)>),
    Other,
}

/// The events that come of reading a directory with these entries, where
/// everything succeeds: first that it is opened.
pub open spec fn directory_events(entries: Seq<(usize, Node)>) -> Seq<TreeEventView>
    decreases entries, 1nat,
{
    seq![TreeEventView::Done] + entries_events(entries) + seq![TreeEventView::End]
}

/// The events that come of these entries, where everything succeeds.
pub open spec fn entries_events(entries: Seq<(usize, Node)>) -> Seq<TreeEventView>
    decreases entries, 0nat,
{
    if entries.len() == 0 {
        Seq::empty()
    } else {
        let (name, node) = entries[0];
        (match node {
            Node::File => seq![
                TreeEventView::Entry(name, EntryKind::File),
                TreeEventView::Done,
                TreeEventView::Done,
            ],
            Node::Directory(below) => seq![
                TreeEventView::Entry(name, EntryKind::Directory),
                TreeEventView::Done,
            ] + directory_events(below),
            Node::Other => seq![TreeEventView::Entry(name, EntryKind::Other)],
        }) + entries_events(entries.skip(1))
    }
}

/// What is done to the destination for entries at a path, in order.
pub open spec fn effects(path: Seq<usize>, entries: Seq<(usize, Node)>) -> Seq<TreeActionView>
    decreases entries,
{
    if entries.len() == 0 {
        Seq::empty()
    } else {
        let (name, node) = entries[0];
        (match node {
            Node::File => seq![
                TreeActionView::CreateDir(path),
                TreeActionView::CopyFile(path.push(name)),
            ],
            Node::Directory(below) => seq![TreeActionView::CreateDir(path.push(name))] + effects(
                path.push(name),
                below,
            ),
            Node::Other => Seq::empty(),
        }) + effects(path, entries.skip(1))
    }
}

/// What an action does to the destination, if anything.
pub open spec fn effect_of(next: TreeNextView) -> Seq<TreeActionView> {
    match next {
        TreeNextView::Go(_, TreeActionView::CreateDir(path)) => seq![
            TreeActionView::CreateDir(path),
        ],
        TreeNextView::Go(_, TreeActionView::CopyFile(path)) => seq![
            TreeActionView::CopyFile(path),
        ],
        _ => Seq::empty(),
    }
}

/// How a run goes on after these events, and what they made it do to the
/// destination.
pub open spec fn tree_run(next: TreeNextView, events: Seq<TreeEventView>) -> (
    TreeNextView,
    Seq<TreeActionView>,
)
    decreases events.len(),
{
    if events.len() == 0 {
        (next, Seq::empty())
    } else {
        match next {
            TreeNextView::Finish(_) => (next, Seq::empty()),
            TreeNextView::Go(run, _) => {
                let then = tree_next(run, events[0]);
                let (end, rest) = tree_run(then, events.skip(1));
                (end, effect_of(then) + rest)
            },
        }
    }
}

proof fn lemma_tree_run_concat(next: TreeNextView, a: Seq<TreeEventView>, b: Seq<TreeEventView>)
    ensures
        tree_run(next, a + b).0 == tree_run(tree_run(next, a).0, b).0,
        tree_run(next, a + b).1 == tree_run(next, a).1 + tree_run(tree_run(next, a).0, b).1,
    decreases a.len(),
{
    if a.len() == 0 {
        assert(a + b =~= b);
        assert(tree_run(next, a).1 + tree_run(next, b).1 =~= tree_run(next, b).1);
    } else {
        match next {
            TreeNextView::Finish(_) => {
                assert(tree_run(next, a + b).1 =~= tree_run(next, a).1 + tree_run(next, b).1);
            },
            TreeNextView::Go(run, _) => {
                let then = tree_next(run, a[0]);
                assert((a + b).skip(1) =~= a.skip(1) + b);
                lemma_tree_run_concat(then, a.skip(1), b);
                assert(tree_run(next, a + b).1 =~= tree_run(next, a).1 + tree_run(
                    tree_run(next, a).0,
                    b,
                ).1);
            },
        }
    }
}

proof fn lemma_one_event(run: TreeRunView, action: TreeActionView, event: TreeEventView)
    ensures
        tree_run(TreeNextView::Go(run, action), seq![event]) == (
            tree_next(run, event),
            effect_of(tree_next(run, event)),
        ),
{
    reveal_with_fuel(tree_run, 2);
    let then = tree_next(run, event);
    assert(effect_of(then) + Seq::<TreeActionView>::empty() =~= effect_of(then));
}

/// The run through a directory that is about to be opened.
proof fn lemma_directory_run(path: Seq<usize>, entries: Seq<(usize, Node)>)
    ensures
        tree_run(at_directory(path), directory_events(entries)) == (
            behind_directory(path),
            effects(path, entries),
        ),
    decreases entries, 1nat,
{
    let opened = seq![TreeEventView::Done];
    let ended = seq![TreeEventView::End];
    let inner = entries_events(entries);
    lemma_one_event(
        TreeRunView { path, step: TreeStep::Opening },
        TreeActionView::Open(path),
        TreeEventView::Done,
    );
    lemma_one_event(
        TreeRunView { path, step: TreeStep::Reading },
        TreeActionView::ReadEntry,
        TreeEventView::End,
    );
    lemma_entries_run(path, entries);
    lemma_tree_run_concat(at_directory(path), opened, inner);
    lemma_tree_run_concat(at_directory(path), opened + inner, ended);
    assert(tree_run(at_directory(path), directory_events(entries)).1 =~= effects(path, entries));
}

/// The run through the entries of a directory that is open.
proof fn lemma_entries_run(path: Seq<usize>, entries: Seq<(usize, Node)>)
    ensures
        tree_run(at_entry(path), entries_events(entries)) == (
            at_entry(path),
            effects(path, entries),
        ),
    decreases entries, 0nat,
{
    if entries.len() > 0 {
        let (name, node) = entries[0];
        let rest = entries_events(entries.skip(1));
        let reading = TreeRunView { path, step: TreeStep::Reading };
        lemma_entries_run(path, entries.skip(1));
        match node {
            Node::File => {
                let found = TreeEventView::Entry(name, EntryKind::File);
                let done = seq![TreeEventView::Done];
                lemma_one_event(reading, TreeActionView::ReadEntry, found);
                lemma_one_event(
                    TreeRunView { path, step: TreeStep::Preparing(name) },
                    TreeActionView::CreateDir(path),
                    TreeEventView::Done,
                );
                lemma_one_event(
                    TreeRunView { path, step: TreeStep::Copying },
                    TreeActionView::CopyFile(path.push(name)),
                    TreeEventView::Done,
                );
                lemma_tree_run_concat(at_entry(path), seq![found], done);
                lemma_tree_run_concat(at_entry(path), seq![found] + done, done);
                lemma_tree_run_concat(at_entry(path), seq![found] + done + done, rest);
                assert(entries_events(entries) =~= seq![found] + done + done + rest);
                assert(tree_run(at_entry(path), entries_events(entries)).1 =~= effects(
                    path,
                    entries,
                ));
            },
            Node::Directory(below) => {
                let found = TreeEventView::Entry(name, EntryKind::Directory);
                let done = seq![TreeEventView::Done];
                let inside = path.push(name);
                lemma_one_event(reading, TreeActionView::ReadEntry, found);
                lemma_one_event(
                    TreeRunView { path, step: TreeStep::Creating(name) },
                    TreeActionView::CreateDir(inside),
                    TreeEventView::Done,
                );
                lemma_directory_run(inside, below);
                assert(inside.drop_last() =~= path);
                lemma_tree_run_concat(at_entry(path), seq![found], done);
                lemma_tree_run_concat(
                    at_entry(path),
                    seq![found] + done,
                    directory_events(below),
                );
                lemma_tree_run_concat(
                    at_entry(path),
                    seq![found] + done + directory_events(below),
                    rest,
                );
                assert(entries_events(entries) =~= seq![found] + done + directory_events(below)
                    + rest);
                assert(tree_run(at_entry(path), entries_events(entries)).1 =~= effects(
                    path,
                    entries,
                ));
            },
            Node::Other => {
                let found = TreeEventView::Entry(name, EntryKind::Other);
                lemma_one_event(reading, TreeActionView::ReadEntry, found);
                lemma_tree_run_concat(at_entry(path), seq![found], rest);
                assert(entries_events(entries) =~= seq![found] + rest);
                assert(tree_run(at_entry(path), entries_events(entries)).1 =~= effects(
                    path,
                    entries,
                ));
            },
        }
    }
}

/// Where everything succeeds, a run that copies a directory ends with success
/// when it has come through the whole of it, and does to the destination what the
/// entries of the directory ask for, and nothing else.
pub proof fn law_whole_tree_is_copied(entries: Seq<(usize, Node)>)
    ensures
        tree_run(at_directory(Seq::empty()), directory_events(entries)) == (
            TreeNextView::Finish(Ok(())),
            effects(Seq::empty(), entries),
        ),
{
    lemma_directory_run(Seq::empty(), entries);
}

/// A run opens the directory that it comes to, creates the directory that a file is
/// copied to before the file is, and creates a directory before it comes to it; a
/// file is copied to the path that it has. What fails ends the run with its reason.
pub proof fn law_tree_steps(run: TreeRunView, name: usize, e: Seq<char>)
    ensures
        at_directory(Seq::empty()) == TreeNextView::Go(
            TreeRunView { path: Seq::empty(), step: TreeStep::Opening },
            TreeActionView::Open(Seq::empty()),
        ),
        tree_next(run, TreeEventView::Failed(e)) == TreeNextView::Finish(Err(e)),
        run.step is Opening || run.step is Copying ==> tree_next(run, TreeEventView::Done)
            == TreeNextView::Go(
            TreeRunView { path: run.path, step: TreeStep::Reading },
            TreeActionView::ReadEntry,
        ),
        tree_next(run, TreeEventView::Entry(name, EntryKind::File)) == TreeNextView::Go(
            TreeRunView { path: run.path, step: TreeStep::Preparing(name) },
            TreeActionView::CreateDir(run.path),
        ),
        run.step == TreeStep::Preparing(name) ==> tree_next(run, TreeEventView::Done)
            == TreeNextView::Go(
            TreeRunView { path: run.path, step: TreeStep::Copying },
            TreeActionView::CopyFile(run.path.push(name)),
        ),
        tree_next(run, TreeEventView::Entry(name, EntryKind::Directory)) == TreeNextView::Go(
            TreeRunView { path: run.path, step: TreeStep::Creating(name) },
            TreeActionView::CreateDir(run.path.push(name)),
        ),
        run.step == TreeStep::Creating(name) ==> tree_next(run, TreeEventView::Done)
            == TreeNextView::Go(
            TreeRunView { path: run.path.push(name), step: TreeStep::Opening },
            TreeActionView::Open(run.path.push(name)),
        ),
        tree_next(run, TreeEventView::Entry(name, EntryKind::Other)) == TreeNextView::Go(
            TreeRunView { path: run.path, step: TreeStep::Reading },
            TreeActionView::ReadEntry,
        ),
{
}

/// Whether there is a file at a path below these entries.
pub open spec fn holds_file(entries: Seq<(usize, Node)>, path: Seq<usize>) -> bool
    decreases entries,
{
    entries.len() > 0 && {
        let (name, node) = entries[0];
        ||| holds_file(entries.skip(1), path)
        ||| path.len() > 0 && path[0] == name && match node {
            Node::File => path.len() == 1,
            Node::Directory(below) => holds_file(below, path.skip(1)),
            Node::Other => false,
        }
    }
}

/// A file is copied to the destination exactly if the directory that is copied
/// holds a file at the same path.
pub proof fn law_every_file_is_copied(
    base: Seq<usize>,
    entries: Seq<(usize, Node)>,
    path: Seq<usize>,
)
    ensures
        effects(base, entries).contains(TreeActionView::CopyFile(base + path)) <==> holds_file(
            entries,
            path,
        ),
    decreases entries,
{
    let copy = TreeActionView::CopyFile(base + path);
    if entries.len() > 0 {
        let (name, node) = entries[0];
        let rest = effects(base, entries.skip(1));
        law_every_file_is_copied(base, entries.skip(1), path);
        let first = match node {
            Node::File => seq![
                TreeActionView::CreateDir(base),
                TreeActionView::CopyFile(base.push(name)),
            ],
            Node::Directory(below) => seq![TreeActionView::CreateDir(base.push(name))] + effects(
                base.push(name),
                below,
            ),
            Node::Other => Seq::empty(),
        };
        assert(effects(base, entries) == first + rest);
        lemma_contains_concat(first, rest, copy);
        match node {
            Node::File => {
                if path.len() == 1 && path[0] == name {
                    assert(base + path =~= base.push(name));
                    assert(first[1] == copy);
                }
                if first.contains(copy) {
                    assert(base + path == base.push(name));
                    assert((base + path).len() == base.len() + path.len());
                    assert((base + path)[base.len() as int] == path[0]);
                }
            },
            Node::Directory(below) => {
                let made = seq![TreeActionView::CreateDir(base.push(name))];
                let inside = effects(base.push(name), below);
                lemma_contains_concat(made, inside, copy);
                assert(made.contains(copy) ==> made[0] == copy);
                if path.len() > 0 && path[0] == name {
                    assert(base + path =~= base.push(name) + path.skip(1));
                    law_every_file_is_copied(base.push(name), below, path.skip(1));
                } else if inside.contains(copy) {
                    lemma_effects_lie_inside(base.push(name), below, base + path);
                    let n = base.len() as int;
                    assert((base + path).take(n + 1)[n] == base.push(name)[n]);
                    assert((base + path)[n] == path[0]);
                }
            },
            Node::Other => {},
        }
    }
}

proof fn lemma_contains_concat<A>(a: Seq<A>, b: Seq<A>, x: A)
    ensures
        (a + b).contains(x) <==> a.contains(x) || b.contains(x),
{
    if a.contains(x) {
        let i = choose|i: int| 0 <= i < a.len() && a[i] == x;
        assert((a + b)[i] == x);
    }
    if b.contains(x) {
        let i = choose|i: int| 0 <= i < b.len() && b[i] == x;
        assert((a + b)[a.len() + i] == x);
    }
}

/// A file that is copied for entries at a path lies below that path.
proof fn lemma_effects_lie_inside(
    base: Seq<usize>,
    entries: Seq<(usize, Node)>,
    target: Seq<usize>,
)
    requires
        effects(base, entries).contains(TreeActionView::CopyFile(target)),
    ensures
        base.len() < target.len(),
        base == target.take(base.len() as int),
    decreases entries,
{
    let copy = TreeActionView::CopyFile(target);
    if entries.len() > 0 {
        let (name, node) = entries[0];
        let rest = effects(base, entries.skip(1));
        if rest.contains(copy) {
            lemma_effects_lie_inside(base, entries.skip(1), target);
        } else {
            match node {
                Node::File => {
                    let first = seq![
                        TreeActionView::CreateDir(base),
                        TreeActionView::CopyFile(base.push(name)),
                    ];
                    lemma_contains_concat(first, rest, copy);
                    assert(target == base.push(name));
                    assert(base =~= target.take(base.len() as int));
                },
                Node::Directory(below) => {
                    let made = seq![TreeActionView::CreateDir(base.push(name))];
                    let inside = effects(base.push(name), below);
                    lemma_contains_concat(made + inside, rest, copy);
                    lemma_contains_concat(made, inside, copy);
                    assert(made.contains(copy) ==> made[0] == copy);
                    lemma_effects_lie_inside(base.push(name), below, target);
                    assert(base =~= target.take(base.len() as int + 1).drop_last());
                    assert(base =~= target.take(base.len() as int));
                },
                Node::Other => {
                    assert(Seq::<TreeActionView>::empty() + rest =~= rest);
                },
            }
        }
    }
}

} // verus!
