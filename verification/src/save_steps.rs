//! The steps of which changes of saves are made, and what they do to the places that
//! saves are kept at.
use vstd::prelude::*;

use crate::path::{lies_under, option_view};
use crate::saves::CONTROL_FILE;
use crate::text::split_on;

verus! {

/// One thing that is done to saves.
#[derive(Debug)]
pub enum SaveAction {
    /// Backs up the state of a profile.
    BackupProfile { profile_id: String, label: String },
    /// Backs up a save set.
    BackupSet { save_set_id: String, label: String },
    /// Backs up the saves of Steam.
    BackupSteam { source: String, label: String },
    /// Makes sure that the saves of a profile are a link to those of its save set.
    EnsureLink { profile_id: String },
    /// Fails unless there is a link to a place.
    CheckLink { at: String, to: String },
    /// Fails where there is a link.
    CheckNoLink { at: String },
    /// Fails unless there is a save slot.
    CheckSlots { at: String },
    /// Makes a directory, and those above it.
    MakeDir { at: String },
    /// Moves a file, a directory or a link.
    Move { from: String, to: String },
    /// Moves a file from one directory to another.
    MoveFile { name: String, from: String, to: String },
    /// Makes a link.
    Link { at: String, to: String },
    /// Removes a file or a link.
    RemoveFile { at: String },
    /// Removes a directory and all below it.
    RemoveTree { at: String },
    /// Copies a save set.
    CopyTree { from: String, to: String },
    /// Copies saves without the file by which Steam controls its cloud.
    CopySaves { from: String, to: String },
    /// Puts saves in the place of others.
    ReplaceTree { from: String, to: String, keep_control: bool },
    /// Records a new save set as that of a profile.
    RecordSet { save_set_id: String, profile_id: String },
    /// Records a save set as that of a profile.
    Attach { profile_id: String, save_set_id: String },
    /// Records that a profile has no save set.
    Detach { profile_id: String },
}

/// One thing that is done to saves, with its texts as sequences of characters.
pub enum Deed {
    BackupProfile { profile_id: Seq<char>, label: Seq<char> },
    BackupSet { save_set_id: Seq<char>, label: Seq<char> },
    BackupSteam { source: Seq<char>, label: Seq<char> },
    EnsureLink { profile_id: Seq<char> },
    CheckLink { at: Seq<char>, to: Seq<char> },
    CheckNoLink { at: Seq<char> },
    CheckSlots { at: Seq<char> },
    MakeDir { at: Seq<char> },
    Move { from: Seq<char>, to: Seq<char> },
    MoveFile { name: Seq<char>, from: Seq<char>, to: Seq<char> },
    Link { at: Seq<char>, to: Seq<char> },
    RemoveFile { at: Seq<char> },
    RemoveTree { at: Seq<char> },
    CopyTree { from: Seq<char>, to: Seq<char> },
    CopySaves { from: Seq<char>, to: Seq<char> },
    ReplaceTree { from: Seq<char>, to: Seq<char>, keep_control: bool },
    RecordSet { save_set_id: Seq<char>, profile_id: Seq<char> },
    Attach { profile_id: Seq<char>, save_set_id: Seq<char> },
    Detach { profile_id: Seq<char> },
}

impl View for SaveAction {
    type V = Deed;

    open spec fn view(&self) -> Deed {
        match self {
            SaveAction::BackupProfile { profile_id, label } => Deed::BackupProfile {
                profile_id: profile_id@,
                label: label@,
            },
            SaveAction::BackupSet { save_set_id, label } => Deed::BackupSet {
                save_set_id: save_set_id@,
                label: label@,
            },
            SaveAction::BackupSteam { source, label } => Deed::BackupSteam {
                source: source@,
                label: label@,
            },
            SaveAction::EnsureLink { profile_id } => Deed::EnsureLink { profile_id: profile_id@ },
            SaveAction::CheckLink { at, to } => Deed::CheckLink { at: at@, to: to@ },
            SaveAction::CheckNoLink { at } => Deed::CheckNoLink { at: at@ },
            SaveAction::CheckSlots { at } => Deed::CheckSlots { at: at@ },
            SaveAction::MakeDir { at } => Deed::MakeDir { at: at@ },
            SaveAction::Move { from, to } => Deed::Move { from: from@, to: to@ },
            SaveAction::MoveFile { name, from, to } => Deed::MoveFile {
                name: name@,
                from: from@,
                to: to@,
            },
            SaveAction::Link { at, to } => Deed::Link { at: at@, to: to@ },
            SaveAction::RemoveFile { at } => Deed::RemoveFile { at: at@ },
            SaveAction::RemoveTree { at } => Deed::RemoveTree { at: at@ },
            SaveAction::CopyTree { from, to } => Deed::CopyTree { from: from@, to: to@ },
            SaveAction::CopySaves { from, to } => Deed::CopySaves { from: from@, to: to@ },
            SaveAction::ReplaceTree { from, to, keep_control } => Deed::ReplaceTree {
                from: from@,
                to: to@,
                keep_control: *keep_control,
            },
            SaveAction::RecordSet { save_set_id, profile_id } => Deed::RecordSet {
                save_set_id: save_set_id@,
                profile_id: profile_id@,
            },
            SaveAction::Attach { profile_id, save_set_id } => Deed::Attach {
                profile_id: profile_id@,
                save_set_id: save_set_id@,
            },
            SaveAction::Detach { profile_id } => Deed::Detach { profile_id: profile_id@ },
        }
    }
}

/// A list of actions, with their texts as sequences of characters.
pub open spec fn deeds(list: Seq<SaveAction>) -> Seq<Deed> {
    list.map_values(|action: SaveAction| action@)
}

/// A step of a change of saves: what is done, what is done where that fails, and what
/// the failure is reported as.
#[derive(Debug)]
pub struct SaveStep {
    pub action: SaveAction,
    pub undo: Vec<SaveAction>,
    pub context: Option<String>,
}

/// A step of a change of saves, with its texts as sequences of characters.
#[verifier::ext_equal]
pub struct Planned {
    pub deed: Deed,
    pub undo: Seq<Deed>,
    pub context: Option<Seq<char>>,
}

impl View for SaveStep {
    type V = Planned;

    open spec fn view(&self) -> Planned {
        Planned {
            deed: self.action@,
            undo: deeds(self.undo@),
            context: option_view(self.context),
        }
    }
}

/// A list of steps, with their texts as sequences of characters.
pub open spec fn planned(list: Seq<SaveStep>) -> Seq<Planned> {
    list.map_values(|step: SaveStep| step@)
}

/// A step that is not undone.
pub open spec fn just(deed: Deed) -> Planned {
    Planned { deed, undo: Seq::empty(), context: None }
}

/// A step with what is done where it fails.
pub open spec fn or_undo(deed: Deed, undo: Seq<Deed>, context: Option<Seq<char>>) -> Planned {
    Planned { deed, undo, context }
}

/// Puts a step that is not undone behind a list of steps.
pub fn push_step(list: &mut Vec<SaveStep>, action: SaveAction)
    ensures
        planned(final(list)@) == planned(old(list)@).push(just(action@)),
{
    let ghost had = planned(list@);
    let undo: Vec<SaveAction> = Vec::new();
    assert(deeds(undo@) =~= Seq::<Deed>::empty());
    list.push(SaveStep { action, undo, context: None });
    assert(planned(list@) =~= had.push(just(action@)));
}

/// Puts a step behind a list of steps, with what is done where it fails.
pub fn push_or_undo(
    list: &mut Vec<SaveStep>,
    action: SaveAction,
    undo: Vec<SaveAction>,
    context: Option<String>,
)
    ensures
        planned(final(list)@) == planned(old(list)@).push(
            or_undo(action@, deeds(undo@), option_view(context)),
        ),
{
    let ghost had = planned(list@);
    list.push(SaveStep { action, undo, context });
    assert(planned(list@) =~= had.push(or_undo(action@, deeds(undo@), option_view(context))));
}

/// What is held at a place.
pub enum Held {
    /// A directory: what its files hold, by their paths below it. What files hold is
    /// told apart by numbers.
    Files(Map<Seq<char>, int>),
    /// A link to a place.
    LinkTo(Seq<char>),
}

/// The files at a place that is a directory.
pub open spec fn files_at(tree: Map<Seq<char>, Held>, at: Seq<char>) -> Option<
    Map<Seq<char>, int>,
> {
    if tree.dom().contains(at) {
        match tree[at] {
            Held::Files(files) => Some(files),
            Held::LinkTo(_) => None,
        }
    } else {
        None
    }
}

/// Whether a path is that of the file by which Steam controls its cloud, or leads
/// through its name.
pub open spec fn is_control(path: Seq<char>) -> bool {
    split_on(path, '/').contains(CONTROL_FILE@)
}

/// Files without those by which Steam controls its cloud.
pub open spec fn without_control(files: Map<Seq<char>, int>) -> Map<Seq<char>, int> {
    files.restrict(Set::new(|path: Seq<char>| !is_control(path)))
}

/// The files of a directory whose saves were replaced: the new ones, and where it is to
/// be kept, the file by which Steam controls its cloud from among the old ones.
pub open spec fn transferred(
    files: Map<Seq<char>, int>,
    old: Option<Map<Seq<char>, int>>,
    keep_control: bool,
) -> Map<Seq<char>, int> {
    if keep_control && old is Some && old->0.dom().contains(CONTROL_FILE@) {
        without_control(files).insert(CONTROL_FILE@, old->0[CONTROL_FILE@])
    } else {
        without_control(files)
    }
}

/// What places hold after something was done to saves, where all that can be done is.
pub open spec fn done(tree: Map<Seq<char>, Held>, deed: Deed) -> Map<Seq<char>, Held> {
    match deed {
        Deed::MakeDir { at } => if tree.dom().contains(at) {
            tree
        } else {
            tree.insert(at, Held::Files(Map::empty()))
        },
        Deed::Move { from, to } => if tree.dom().contains(from) {
            tree.remove(from).insert(to, tree[from])
        } else {
            tree
        },
        Deed::MoveFile { name, from, to } => match (files_at(tree, from), files_at(tree, to)) {
            (Some(here), Some(there)) => if here.dom().contains(name) {
                tree.insert(from, Held::Files(here.remove(name))).insert(
                    to,
                    Held::Files(there.insert(name, here[name])),
                )
            } else {
                tree
            },
            _ => tree,
        },
        Deed::Link { at, to } => tree.insert(at, Held::LinkTo(to)),
        Deed::RemoveFile { at } => tree.remove(at),
        Deed::RemoveTree { at } => tree.remove(at),
        Deed::CopyTree { from, to } => match files_at(tree, from) {
            Some(files) => tree.insert(to, Held::Files(files)),
            None => tree,
        },
        Deed::CopySaves { from, to } => match files_at(tree, from) {
            Some(files) => tree.insert(to, Held::Files(without_control(files))),
            None => tree,
        },
        Deed::ReplaceTree { from, to, keep_control } => match files_at(tree, from) {
            Some(files) => tree.insert(
                to,
                Held::Files(transferred(files, files_at(tree, to), keep_control)),
            ),
            None => tree,
        },
        _ => tree,
    }
}

/// What places hold after several things were done.
pub open spec fn all_done(tree: Map<Seq<char>, Held>, list: Seq<Deed>) -> Map<Seq<char>, Held>
    decreases list.len(),
{
    if list.len() == 0 {
        tree
    } else {
        done(all_done(tree, list.drop_last()), list.last())
    }
}

/// The things that the first steps of a plan do.
pub open spec fn first_deeds(plan: Seq<Planned>, n: int) -> Seq<Deed> {
    plan.take(n).map_values(|step: Planned| step.deed)
}

/// What places hold where a step of a plan failed: the steps before it were done, and
/// then what is to be done where it fails.
pub open spec fn after_failure(tree: Map<Seq<char>, Held>, plan: Seq<Planned>, k: int) -> Map<
    Seq<char>,
    Held,
> {
    all_done(all_done(tree, first_deeds(plan, k)), plan[k].undo)
}

/// Whether something that is done moves, removes or replaces what a place holds.
pub open spec fn changes(deed: Deed) -> bool {
    match deed {
        Deed::Move { .. } => true,
        Deed::MoveFile { .. } => true,
        Deed::Link { .. } => true,
        Deed::RemoveFile { .. } => true,
        Deed::RemoveTree { .. } => true,
        Deed::CopyTree { .. } => true,
        Deed::CopySaves { .. } => true,
        Deed::ReplaceTree { .. } => true,
        _ => false,
    }
}

/// The places that something that is done names.
pub open spec fn places_in(deed: Deed) -> Set<Seq<char>> {
    match deed {
        Deed::BackupSteam { source, label } => set![source],
        Deed::CheckLink { at, to } => set![at, to],
        Deed::CheckNoLink { at } => set![at],
        Deed::CheckSlots { at } => set![at],
        Deed::MakeDir { at } => set![at],
        Deed::Move { from, to } => set![from, to],
        Deed::MoveFile { name, from, to } => set![from, to],
        Deed::Link { at, to } => set![at, to],
        Deed::RemoveFile { at } => set![at],
        Deed::RemoveTree { at } => set![at],
        Deed::CopyTree { from, to } => set![from, to],
        Deed::CopySaves { from, to } => set![from, to],
        Deed::ReplaceTree { from, to, keep_control } => set![from, to],
        _ => Set::empty(),
    }
}

/// Whether all places that something that is done names lie under a directory.
pub open spec fn stays_under(deed: Deed, root: Seq<char>) -> bool {
    forall|place: Seq<char>| #[trigger]
        places_in(deed).contains(place) ==> lies_under(place, root)
}

/// Whether a step stays under a directory, also where it fails.
pub open spec fn step_under(step: Planned, root: Seq<char>) -> bool {
    &&& stays_under(step.deed, root)
    &&& forall|j: int| 0 <= j < step.undo.len() ==> stays_under(#[trigger] step.undo[j], root)
}

/// Whether all steps of a plan stay under a directory, also where one fails.
pub open spec fn plan_under(plan: Seq<Planned>, root: Seq<char>) -> bool {
    forall|i: int| 0 <= i < plan.len() ==> step_under(#[trigger] plan[i], root)
}

/// Whether something was done by the steps of a plan before one of them.
pub open spec fn done_before(plan: Seq<Planned>, deed: Deed, i: int) -> bool {
    exists|j: int| 0 <= j < i && (#[trigger] plan[j]).deed == deed
}

/// Doing one thing more.
pub proof fn lemma_done_more(tree: Map<Seq<char>, Held>, list: Seq<Deed>, deed: Deed)
    ensures
        all_done(tree, list.push(deed)) == done(all_done(tree, list), deed),
{
    assert(list.push(deed).drop_last() =~= list);
}

/// The things that the first steps of a plan do, step by step.
pub proof fn lemma_first_deeds(plan: Seq<Planned>, n: int)
    requires
        0 <= n < plan.len(),
    ensures
        first_deeds(plan, 0) == Seq::<Deed>::empty(),
        first_deeds(plan, n + 1) == first_deeds(plan, n).push(plan[n].deed),
{
    assert(first_deeds(plan, 0) =~= Seq::<Deed>::empty());
    assert(plan.take(n + 1) =~= plan.take(n).push(plan[n]));
    assert(first_deeds(plan, n + 1) =~= first_deeds(plan, n).push(plan[n].deed));
}

/// What places hold after one step more of a plan.
pub proof fn lemma_step_more(tree: Map<Seq<char>, Held>, plan: Seq<Planned>, n: int)
    requires
        0 <= n < plan.len(),
    ensures
        all_done(tree, first_deeds(plan, 0)) == tree,
        all_done(tree, first_deeds(plan, n + 1)) == done(
            all_done(tree, first_deeds(plan, n)),
            plan[n].deed,
        ),
{
    lemma_first_deeds(plan, n);
    lemma_done_more(tree, first_deeds(plan, n), plan[n].deed);
}

/// What places hold after a plan goes on.
pub proof fn lemma_goes_on(tree: Map<Seq<char>, Held>, plan: Seq<Planned>, n: int, m: int)
    requires
        0 <= n,
        0 <= m,
        n + m <= plan.len(),
    ensures
        all_done(tree, first_deeds(plan, n + m)) == all_done(
            all_done(tree, first_deeds(plan, n)),
            first_deeds(plan.skip(n), m),
        ),
    decreases m,
{
    let middle = all_done(tree, first_deeds(plan, n));
    if m == 0 {
        assert(first_deeds(plan.skip(n), 0) =~= Seq::<Deed>::empty());
    } else {
        lemma_goes_on(tree, plan, n, m - 1);
        lemma_step_more(tree, plan, n + m - 1);
        lemma_step_more(middle, plan.skip(n), m - 1);
    }
}

/// What places hold after two things were done.
pub proof fn lemma_two_done(tree: Map<Seq<char>, Held>, a: Deed, b: Deed)
    ensures
        all_done(tree, seq![a]) == done(tree, a),
        all_done(tree, seq![a, b]) == done(done(tree, a), b),
{
    let none = Seq::<Deed>::empty();
    lemma_done_more(tree, none, a);
    lemma_done_more(tree, none.push(a), b);
    assert(seq![a] =~= none.push(a));
    assert(seq![a, b] =~= none.push(a).push(b));
}

} // verus!
