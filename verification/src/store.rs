//! Replacing a published file as a whole.
//!
//! The new content goes to a temporary file first, which then takes the place of
//! the published one. Whoever reads the published file sees either the old
//! content or the new one.

use vstd::prelude::*;
use crate::pathmap::PathKey;
use crate::paths::{
    components, file_name, file_stem, law_dotted_extension_makes_another_file, law_extension_is_replaced, parent,
    with_extension, FilePath,
};

verus! {

/// How far a replacement has got.
#[derive(Debug)]
pub enum Stage {
    /// The directory is being made.
    Directory,
    /// The temporary file is being written.
    Temporary,
    /// The temporary file is being renamed.
    Rename,
    /// The temporary file is being removed, because it could not be renamed.
    Cleanup { error: String },
    /// Nothing is left to do.
    Over,
}

/// What to do next.
#[derive(Debug)]
pub enum StoreStep {
    /// Make a directory, unless it is there.
    MakeDir { dir: FilePath },
    /// Write the new content.
    Write { path: FilePath },
    /// Rename a file, replacing what is there.
    Rename { from: FilePath, to: FilePath },
    /// Remove a file.
    Remove { path: FilePath },
    /// It is done, or has failed for a reason.
    Done(Result<(), String>),
}

/// What a step says.
pub enum StepView {
    MakeDir { dir: Seq<char> },
    Write { path: Seq<char> },
    Rename { from: Seq<char>, to: Seq<char> },
    Remove { path: Seq<char> },
    Succeeded,
    Failed(Seq<char>),
}

impl View for StoreStep {
    type V = StepView;

    open spec fn view(&self) -> StepView {
        match *self {
            StoreStep::MakeDir { dir } => StepView::MakeDir { dir: dir@ },
            StoreStep::Write { path } => StepView::Write { path: path@ },
            StoreStep::Rename { from, to } => StepView::Rename { from: from@, to: to@ },
            StoreStep::Remove { path } => StepView::Remove { path: path@ },
            StoreStep::Done(Ok(_)) => StepView::Succeeded,
            StoreStep::Done(Err(e)) => StepView::Failed(e@),
        }
    }
}

/// The replacement of a file.
#[derive(Debug)]
pub struct Replacement {
    /// The published file.
    pub file: FilePath,
    pub stage: Stage,
}

/// The temporary file beside a published one.
pub open spec fn temporary_path(file: Seq<char>) -> Seq<char> {
    with_extension(file, "json.tmp"@)
}

/// The step that a stage is about.
pub open spec fn step_at(file: Seq<char>, stage: Stage) -> Option<StepView> {
    match stage {
        Stage::Directory => match parent(file) {
            Some(dir) => Some(StepView::MakeDir { dir }),
            None => None,
        },
        Stage::Temporary => Some(StepView::Write { path: temporary_path(file) }),
        Stage::Rename => Some(StepView::Rename { from: temporary_path(file), to: file }),
        Stage::Cleanup { .. } => Some(StepView::Remove { path: temporary_path(file) }),
        Stage::Over => None,
    }
}

impl Replacement {
    /// Starts to replace `file`. The directory that holds it is made first, where
    /// there is one.
    pub fn begin(file: FilePath) -> (r: (Replacement, StoreStep))
        ensures
            r.0.file == file,
            if parent(file@) is Some {
                r.0.stage is Directory
            } else {
                r.0.stage is Temporary
            },
            step_at(file@, r.0.stage) == Some(r.1@),
    {
        match file.parent() {
            Some(dir) => (
                Replacement { file, stage: Stage::Directory },
                StoreStep::MakeDir { dir },
            ),
            None => {
                let path = file.with_extension("json.tmp");
                (Replacement { file, stage: Stage::Temporary }, StoreStep::Write { path })
            },
        }
    }

    /// Goes on, given how the last step went.
    pub fn next(&mut self, outcome: Result<(), String>) -> (r: StoreStep)
        requires
            !(old(self).stage is Over),
        ensures
            final(self).file == old(self).file,
            step_at(final(self).file@, final(self).stage) matches Some(s) ==> r@ == s,
            match old(self).stage {
                Stage::Directory => match outcome {
                    Ok(_) => final(self).stage is Temporary,
                    Err(e) => final(self).stage is Over && r@ == StepView::Failed(e@),
                },
                Stage::Temporary => match outcome {
                    Ok(_) => final(self).stage is Rename,
                    Err(e) => final(self).stage is Over && r@ == StepView::Failed(e@),
                },
                Stage::Rename => match outcome {
                    Ok(_) => final(self).stage is Over && r@ == StepView::Succeeded,
                    Err(e) => final(self).stage matches Stage::Cleanup { error } && error@ == e@,
                },
                Stage::Cleanup { error } => final(self).stage is Over && r@ == StepView::Failed(
                    error@,
                ),
                Stage::Over => false,
            },
    {
        let mut stage = Stage::Over;
        std::mem::swap(&mut stage, &mut self.stage);
        match stage {
            Stage::Directory => match outcome {
                Ok(_) => {
                    self.stage = Stage::Temporary;
                    StoreStep::Write { path: self.temporary() }
                },
                Err(e) => StoreStep::Done(Err(e)),
            },
            Stage::Temporary => match outcome {
                Ok(_) => {
                    self.stage = Stage::Rename;
                    StoreStep::Rename { from: self.temporary(), to: self.file.clone() }
                },
                Err(e) => StoreStep::Done(Err(e)),
            },
            Stage::Rename => match outcome {
                Ok(_) => StoreStep::Done(Ok(())),
                Err(e) => {
                    self.stage = Stage::Cleanup { error: e };
                    StoreStep::Remove { path: self.temporary() }
                },
            },
            Stage::Cleanup { error } => StoreStep::Done(Err(error)),
            Stage::Over => StoreStep::Done(Ok(())),
        }
    }

    /// The temporary file.
    fn temporary(&self) -> (r: FilePath)
        ensures
            r@ == temporary_path(self.file@),
    {
        self.file.with_extension("json.tmp")
    }
}

// ---------------------------------------------------------------------------
// Laws
// ---------------------------------------------------------------------------

/// What a step may do to the files, by path and content, whether it succeeds or
/// not. Writing may stop halfway; renaming happens as a whole or not at all.
pub open spec fn may_become(
    before: Map<PathKey, Seq<char>>,
    after: Map<PathKey, Seq<char>>,
    step: StepView,
    content: Seq<char>,
    ok: bool,
) -> bool {
    match step {
        StepView::MakeDir { .. } => after == before,
        StepView::Write { path } => if ok {
            after == before.insert(components(path), content)
        } else {
            after.remove(components(path)) == before.remove(components(path))
        },
        StepView::Rename { from, to } => if ok {
            before.contains_key(components(from)) && after == before.insert(
                components(to),
                before[components(from)],
            ).remove(components(from))
        } else {
            after == before
        },
        StepView::Remove { path } => if ok {
            after == before.remove(components(path))
        } else {
            after == before
        },
        StepView::Succeeded => after == before,
        StepView::Failed(_) => after == before,
    }
}

/// Whether a reader of the published file sees the same before and after.
pub open spec fn reads_the_same(
    before: Map<PathKey, Seq<char>>,
    after: Map<PathKey, Seq<char>>,
    file: Seq<char>,
) -> bool {
    let c = components(file);
    after.contains_key(c) == before.contains_key(c) && (before.contains_key(c) ==> after[c]
        == before[c])
}

/// The two files are different files.
proof fn lemma_paths_differ(file: Seq<char>)
    requires
        file_name(file) is Some,
    ensures
        components(temporary_path(file)) != components(file),
{
    reveal_strlit("json.tmp");
    law_dotted_extension_makes_another_file(file, "json.tmp"@, 4);
}

/// No step but a successful rename changes the published file, and that one puts
/// the whole new content there.
pub proof fn law_published_file_is_never_partial(
    file: Seq<char>,
    stage: Stage,
    before: Map<PathKey, Seq<char>>,
    after: Map<PathKey, Seq<char>>,
    content: Seq<char>,
    ok: bool,
)
    requires
        file_name(file) is Some,
        step_at(file, stage) matches Some(step) && may_become(before, after, step, content, ok),
        stage is Rename ==> before.contains_key(components(temporary_path(file)))
            && before[components(temporary_path(file))] == content,
    ensures
        if stage is Rename && ok {
            after.contains_key(components(file)) && after[components(file)] == content
        } else {
            reads_the_same(before, after, file)
        },
{
    lemma_paths_differ(file);
    let p = components(file);
    let t = components(temporary_path(file));
    if stage is Temporary && !ok {
        assert(after.remove(t).contains_key(p) == before.remove(t).contains_key(p));
        assert(before.contains_key(p) ==> after.remove(t)[p] == before.remove(t)[p]);
    }
}

/// Once the temporary file is written, it holds the new content when it is
/// renamed.
pub proof fn law_written_content_is_renamed(
    file: Seq<char>,
    before: Map<PathKey, Seq<char>>,
    after: Map<PathKey, Seq<char>>,
    content: Seq<char>,
)
    requires
        may_become(before, after, StepView::Write { path: temporary_path(file) }, content, true),
    ensures
        after.contains_key(components(temporary_path(file))),
        after[components(temporary_path(file))] == content,
{
}

/// The temporary file stands beside the published one: in the same directory, under
/// the stem of its name with `.json.tmp` behind it.
pub proof fn law_temporary_file_stands_beside(file: Seq<char>)
    requires
        file_name(file) is Some,
    ensures
        components(temporary_path(file)) == components(file).drop_last().push(
            file_stem(file)->0 + ".json.tmp"@,
        ),
{
    reveal_strlit("json.tmp");
    reveal_strlit(".");
    reveal_strlit(".json.tmp");
    law_extension_is_replaced(file, "json.tmp"@);
    let stem = file_stem(file)->0;
    assert(stem + "."@ + "json.tmp"@ =~= stem + ".json.tmp"@);
}

/// Each stage works on the files of its replacement: the temporary file is written,
/// renamed to the published one, or removed.
pub proof fn law_stages_name_their_files(file: Seq<char>, error: String)
    ensures
        step_at(file, Stage::Temporary) == Some(StepView::Write { path: temporary_path(file) }),
        step_at(file, Stage::Rename) == Some(
            StepView::Rename { from: temporary_path(file), to: file },
        ),
        step_at(file, Stage::Cleanup { error }) == Some(
            StepView::Remove { path: temporary_path(file) },
        ),
        step_at(file, Stage::Over) is None,
        parent(file) is None ==> step_at(file, Stage::Directory) is None,
        parent(file) is Some ==> step_at(file, Stage::Directory) == Some(
            StepView::MakeDir { dir: parent(file)->0 },
        ),
{
}

/// A step says all that it holds.
pub proof fn law_steps_are_complete(a: FilePath, b: FilePath, e: String)
    ensures
        (StoreStep::MakeDir { dir: a })@ == (StepView::MakeDir { dir: a@ }),
        (StoreStep::Write { path: a })@ == (StepView::Write { path: a@ }),
        (StoreStep::Rename { from: a, to: b })@ == (StepView::Rename { from: a@, to: b@ }),
        (StoreStep::Remove { path: a })@ == (StepView::Remove { path: a@ }),
        StoreStep::Done(Ok(()))@ == StepView::Succeeded,
        StoreStep::Done(Err(e))@ == StepView::Failed(e@),
{
}

} // verus!
