//! Plans: the primitive disk actions an operation decides on. The engine
//! records every mutation of the model as an action; an unverified shell
//! replays the actions against the real filesystem and loader
//! configuration, one call each, in order.

use vstd::prelude::*;

verus! {

/// One primitive action on the real system. Names are file names; the
/// shell joins them to the fixed directories involved (the boot source
/// directory, the ESP install directory, the loader entries directory).
pub enum Action {
    /// Copy the named file from the boot source directory to the ESP
    /// install directory, then confirm the byte count.
    CopyToEsp { name: String },
    /// Delete the named file from the ESP install directory.
    RemoveFromEsp { name: String },
    /// Write a boot entry file with exactly this content.
    WriteEntry { name: String, content: String },
    /// Delete a boot entry file.
    RemoveEntry { name: String },
    /// Set or clear the loader's default pointer.
    SetDefault { entry: Option<String> },
    /// Set the loader's menu timeout.
    SetTimeout { value: u32 },
}

/// Mathematical image of an action.
pub enum ActionView {
    CopyToEsp { name: Seq<char> },
    RemoveFromEsp { name: Seq<char> },
    WriteEntry { name: Seq<char>, content: Seq<char> },
    RemoveEntry { name: Seq<char> },
    SetDefault { entry: Option<Seq<char>> },
    SetTimeout { value: u32 },
}

impl View for Action {
    type V = ActionView;

    open spec fn view(&self) -> ActionView {
        match self {
            Action::CopyToEsp { name } => ActionView::CopyToEsp { name: name@ },
            Action::RemoveFromEsp { name } => ActionView::RemoveFromEsp { name: name@ },
            Action::WriteEntry { name, content } => ActionView::WriteEntry {
                name: name@,
                content: content@,
            },
            Action::RemoveEntry { name } => ActionView::RemoveEntry { name: name@ },
            Action::SetDefault { entry } => ActionView::SetDefault {
                entry: match entry {
                    Some(e) => Some(e@),
                    None => None,
                },
            },
            Action::SetTimeout { value } => ActionView::SetTimeout { value: *value },
        }
    }
}

/// The plan `p1` is `p0` with exactly one action of image `a` appended.
pub open spec fn pushed(p0: Seq<Action>, p1: Seq<Action>, a: ActionView) -> bool {
    &&& p1.len() == p0.len() + 1
    &&& p1.drop_last() == p0
    &&& p1.last()@ == a
}

/// The images of a plan's actions, in order.
pub open spec fn views_of(p: Seq<Action>) -> Seq<ActionView> {
    p.map_values(|a: Action| a@)
}

/// Appending one action appends its image.
pub proof fn lemma_pushed_views(p0: Seq<Action>, p1: Seq<Action>, a: ActionView)
    requires
        pushed(p0, p1, a),
    ensures
        views_of(p1) == views_of(p0).push(a),
{
    assert forall|i: int| 0 <= i < p1.len() implies #[trigger] views_of(p1)[i] == views_of(
        p0,
    ).push(a)[i] by {
        if i < p0.len() {
            assert(p1.drop_last()[i] == p1[i]);
        } else {
            assert(p1[i] == p1.last());
        }
    }
    assert(views_of(p1) =~= views_of(p0).push(a));
}

} // verus!
