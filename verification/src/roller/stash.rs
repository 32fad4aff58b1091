//! Reproduces both states of the tree for each resolved change: names the
//! working copies, and decides after each outcome what is done next.

use vstd::prelude::*;

use crate::roller::gitlog::LogContext;
use crate::text::{chars_of, push_str, replace_char, replaced, string_of};

verus! {

/// One of the two states of the tree: with the change, or before it.
#[derive(Debug, Clone, Copy, PartialEq, Eq, Structural)]
pub enum Side {
    Cur,
    Old,
}

/// The directory of a change below the output root: its title with an
/// underscore for every space.
pub open spec fn root_name(title: Seq<char>) -> Seq<char> {
    replaced(title, ' ', '_')
}

/// The commit that a side is pinned to.
pub open spec fn side_hash(context: LogContext, side: Side) -> Seq<char> {
    match side {
        Side::Cur => context.hash_cur@,
        Side::Old => context.hash_old@,
    }
}

/// The name of a side's working copy: its commit and the side.
pub open spec fn copy_name(context: LogContext, side: Side) -> Seq<char> {
    match side {
        Side::Cur => context.hash_cur@ + "_cur"@,
        Side::Old => context.hash_old@ + "_old"@,
    }
}

/// The path of a side's working copy below the output root.
pub open spec fn copy_path(context: LogContext, side: Side) -> Seq<char> {
    root_name(context.title@) + "/"@ + copy_name(context, side)
}

/// The build settings of a working copy that installs to `prefix`.
pub open spec fn config_text(prefix: Seq<char>) -> Seq<char> {
    "[build]\nbuild = \"x86_64-unknown-linux-gnu\"\ntarget = [\"x86_64-unknown-linux-gnu\"]\n[install]\nprefix = \""@
        + prefix + "\"\nsysconfdir = \"./etc\"\n"@
}

/// The directory of a change below the output root.
pub fn root_dir(context: &LogContext) -> (path: String)
    ensures
        path@ == root_name(context.title@),
{
    string_of(&replace_char(&chars_of(context.title.as_str()), ' ', '_'))
}

/// The path of a side's working copy below the output root.
pub fn copy_dir(context: &LogContext, side: Side) -> (path: String)
    ensures
        path@ == copy_path(*context, side),
{
    let mut path = replace_char(&chars_of(context.title.as_str()), ' ', '_');
    push_str(&mut path, "/");
    match side {
        Side::Cur => {
            push_str(&mut path, context.hash_cur.as_str());
            push_str(&mut path, "_cur");
        },
        Side::Old => {
            push_str(&mut path, context.hash_old.as_str());
            push_str(&mut path, "_old");
        },
    }
    string_of(&path)
}

/// The directory that a side's build installs to, below `install_root`.
pub fn install_dir(install_root: &str, context: &LogContext, side: Side) -> (path: String)
    ensures
        path@ == install_root@ + copy_path(*context, side),
{
    let mut path = chars_of(install_root);
    push_str(&mut path, copy_dir(context, side).as_str());
    string_of(&path)
}

/// The build settings of a working copy that installs to `prefix`.
pub fn build_config(prefix: &str) -> (config: String)
    ensures
        config@ == config_text(prefix@),
{
    let mut config = chars_of(
        "[build]\nbuild = \"x86_64-unknown-linux-gnu\"\ntarget = [\"x86_64-unknown-linux-gnu\"]\n[install]\nprefix = \"",
    );
    push_str(&mut config, prefix);
    push_str(&mut config, "\"\nsysconfdir = \"./etc\"\n");
    string_of(&config)
}

/// How an action ended. Of a probe, `Succeeded` says that the working copy
/// is already there.
#[derive(Debug, Clone, Copy, PartialEq, Eq, Structural)]
pub enum Outcome {
    Succeeded,
    Failed,
}

/// What is done for one change, one action at a time.
#[derive(Debug, Clone, Copy, PartialEq, Eq, Structural)]
pub enum Action {
    /// Create the directory of the change.
    CreateRoot,
    /// Look whether a side's working copy is there.
    Probe(Side),
    /// Copy the tree to a side's working copy and write its build settings.
    Copy(Side),
    /// Pin a side's working copy to its commit.
    Pin(Side),
    /// Build and install a side's working copy.
    Build(Side),
    /// Remove the directory of the change.
    Cleanup,
}

/// Where a run over a list of changes stands: the place of the change at
/// hand, the action that is due for it, and which of its two working
/// copies are there.
#[derive(Debug, Clone, Copy, PartialEq, Eq, Structural)]
pub struct Progress {
    pub index: usize,
    pub action: Action,
    pub cur_ready: bool,
    pub old_ready: bool,
}

impl Progress {
    /// The state from which the change at place `index` sets out.
    pub open spec fn begin(index: int) -> Progress {
        Progress { index: index as usize, action: Action::CreateRoot, cur_ready: false, old_ready: false }
    }

    /// The same state with another action due.
    pub open spec fn at(self, action: Action) -> Progress {
        Progress { action, ..self }
    }

    /// Whether a side's working copy is there.
    pub open spec fn ready(self, side: Side) -> bool {
        match side {
            Side::Cur => self.cur_ready,
            Side::Old => self.old_ready,
        }
    }

    /// The same state with a side's working copy there, or not.
    pub open spec fn with_ready(self, side: Side, ready: bool) -> Progress {
        match side {
            Side::Cur => Progress { cur_ready: ready, ..self },
            Side::Old => Progress { old_ready: ready, ..self },
        }
    }

    /// What follows the actions of both sides: the cleanup where both
    /// working copies were there, else the next change.
    pub open spec fn wrap_up(self) -> Progress {
        if self.cur_ready && self.old_ready {
            self.at(Action::Cleanup)
        } else {
            Progress::begin(self.index + 1)
        }
    }

    /// What follows the pin and build of a side: the pin of the other side
    /// where that is still due and its working copy is there.
    pub open spec fn after_side(self, side: Side) -> Progress {
        if side == Side::Cur && self.old_ready {
            self.at(Action::Pin(Side::Old))
        } else {
            self.wrap_up()
        }
    }

    /// What follows once a side has its working copy or has failed to get
    /// one: the probe of the other side, then the first pin.
    pub open spec fn after_copy(self, side: Side) -> Progress {
        if side == Side::Cur {
            self.at(Action::Probe(Side::Old))
        } else if self.cur_ready {
            self.at(Action::Pin(Side::Cur))
        } else {
            self.after_side(Side::Cur)
        }
    }

    /// The state after the action that is due has ended with `outcome`, in
    /// a run over `count` changes. A run that has gone through all of them
    /// stays where it is.
    pub open spec fn after(self, count: int, outcome: Outcome) -> Progress {
        if self.index >= count {
            self
        } else {
            match (self.action, outcome) {
                (Action::CreateRoot, Outcome::Succeeded) => self.at(Action::Probe(Side::Cur)),
                (Action::CreateRoot, Outcome::Failed) => Progress::begin(self.index + 1),
                (Action::Probe(side), Outcome::Succeeded) => self.with_ready(side, true).after_copy(side),
                (Action::Probe(side), Outcome::Failed) => self.at(Action::Copy(side)),
                (Action::Copy(side), Outcome::Succeeded) => self.with_ready(side, true).after_copy(side),
                (Action::Copy(side), Outcome::Failed) => self.with_ready(side, false).after_copy(side),
                (Action::Pin(side), Outcome::Succeeded) => self.at(Action::Build(side)),
                (Action::Pin(side), Outcome::Failed) => self.after_side(side),
                (Action::Build(side), _) => self.after_side(side),
                (Action::Cleanup, _) => Progress::begin(self.index + 1),
            }
        }
    }

    /// Whether the state is one that a run can be in: a working copy counts
    /// as there only once its side was probed or copied, a side is pinned
    /// and built only when its working copy is there, and the cleanup is
    /// due only when both are.
    pub open spec fn wf(self) -> bool {
        match self.action {
            Action::CreateRoot => !self.cur_ready && !self.old_ready,
            Action::Probe(Side::Cur) => !self.cur_ready && !self.old_ready,
            Action::Copy(Side::Cur) => !self.cur_ready && !self.old_ready,
            Action::Probe(Side::Old) => !self.old_ready,
            Action::Copy(Side::Old) => !self.old_ready,
            Action::Pin(side) => self.ready(side),
            Action::Build(side) => self.ready(side),
            Action::Cleanup => self.cur_ready && self.old_ready,
        }
    }

    /// The state from which a run sets out.
    pub fn start() -> (progress: Progress)
        ensures
            progress == Progress::begin(0),
            progress.wf(),
    {
        Progress { index: 0, action: Action::CreateRoot, cur_ready: false, old_ready: false }
    }

    /// The action that is due in a run over `count` changes, or `None`
    /// once the run has gone through all of them.
    pub fn pending(&self, count: usize) -> (action: Option<Action>)
        ensures
            action == if self.index < count {
                Some(self.action)
            } else {
                None
            },
    {
        if self.index < count {
            Some(self.action)
        } else {
            None
        }
    }

    fn next_change(&self, count: usize) -> (next: Progress)
        requires
            self.index < count,
        ensures
            next == Progress::begin(self.index + 1),
    {
        Progress { index: self.index + 1, action: Action::CreateRoot, cur_ready: false, old_ready: false }
    }

    fn step_wrap_up(&self, count: usize) -> (next: Progress)
        requires
            self.index < count,
        ensures
            next == self.wrap_up(),
    {
        if self.cur_ready && self.old_ready {
            Progress { action: Action::Cleanup, ..*self }
        } else {
            self.next_change(count)
        }
    }

    fn step_after_side(&self, count: usize, side: Side) -> (next: Progress)
        requires
            self.index < count,
        ensures
            next == self.after_side(side),
    {
        match side {
            Side::Cur if self.old_ready => Progress { action: Action::Pin(Side::Old), ..*self },
            _ => self.step_wrap_up(count),
        }
    }

    fn step_after_copy(&self, count: usize, side: Side, ready: bool) -> (next: Progress)
        requires
            self.index < count,
        ensures
            next == self.with_ready(side, ready).after_copy(side),
    {
        match side {
            Side::Cur => Progress { action: Action::Probe(Side::Old), cur_ready: ready, ..*self },
            Side::Old => {
                let marked = Progress { old_ready: ready, ..*self };
                if marked.cur_ready {
                    Progress { action: Action::Pin(Side::Cur), ..marked }
                } else {
                    marked.step_after_side(count, Side::Cur)
                }
            },
        }
    }

    /// The state after the action that is due has ended with `outcome`.
    pub fn advance(&self, count: usize, outcome: Outcome) -> (next: Progress)
        ensures
            next == self.after(count as int, outcome),
            self.wf() ==> next.wf(),
    {
        if self.index >= count {
            return *self;
        }
        match (self.action, outcome) {
            (Action::CreateRoot, Outcome::Succeeded) => Progress {
                action: Action::Probe(Side::Cur),
                ..*self
            },
            (Action::CreateRoot, Outcome::Failed) => self.next_change(count),
            (Action::Probe(side), Outcome::Succeeded) => self.step_after_copy(count, side, true),
            (Action::Probe(side), Outcome::Failed) => Progress { action: Action::Copy(side), ..*self },
            (Action::Copy(side), Outcome::Succeeded) => self.step_after_copy(count, side, true),
            (Action::Copy(side), Outcome::Failed) => self.step_after_copy(count, side, false),
            (Action::Pin(side), Outcome::Succeeded) => Progress { action: Action::Build(side), ..*self },
            (Action::Pin(side), Outcome::Failed) => self.step_after_side(count, side),
            (Action::Build(side), _) => self.step_after_side(count, side),
            (Action::Cleanup, _) => self.next_change(count),
        }
    }
}

/// An action spelled out for one change: what is to be done outside, with
/// every path given below the output root.
#[derive(Debug, Clone, PartialEq, Eq)]
pub enum Command {
    /// Create the directory `path` and its parents.
    CreateDir { path: String },
    /// Look whether the directory `path` is there.
    Probe { path: String },
    /// Copy the tree to `to`, write `config` as its build settings, and
    /// create `install_dir`.
    Copy { to: String, config: String, install_dir: String },
    /// Force the working copy in `dir` to the commit `commit`.
    Checkout { dir: String, commit: String },
    /// Build and install the working copy in `dir`.
    Build { dir: String },
    /// Remove the directory `path` with all that it holds.
    RemoveDir { path: String },
}

/// What a `Command` holds, as character sequences.
pub enum CommandView {
    CreateDir { path: Seq<char> },
    Probe { path: Seq<char> },
    Copy { to: Seq<char>, config: Seq<char>, install_dir: Seq<char> },
    Checkout { dir: Seq<char>, commit: Seq<char> },
    Build { dir: Seq<char> },
    RemoveDir { path: Seq<char> },
}

impl View for Command {
    type V = CommandView;

    open spec fn view(&self) -> CommandView {
        match *self {
            Command::CreateDir { path } => CommandView::CreateDir { path: path@ },
            Command::Probe { path } => CommandView::Probe { path: path@ },
            Command::Copy { to, config, install_dir } => CommandView::Copy {
                to: to@,
                config: config@,
                install_dir: install_dir@,
            },
            Command::Checkout { dir, commit } => CommandView::Checkout { dir: dir@, commit: commit@ },
            Command::Build { dir } => CommandView::Build { dir: dir@ },
            Command::RemoveDir { path } => CommandView::RemoveDir { path: path@ },
        }
    }
}

/// The command that `action` comes to for `context`, with builds installed
/// below `install_root`.
pub open spec fn command_of(context: LogContext, install_root: Seq<char>, action: Action) -> CommandView {
    match action {
        Action::CreateRoot => CommandView::CreateDir { path: root_name(context.title@) },
        Action::Probe(side) => CommandView::Probe { path: copy_path(context, side) },
        Action::Copy(side) => CommandView::Copy {
            to: copy_path(context, side),
            config: config_text(install_root + copy_path(context, side)),
            install_dir: install_root + copy_path(context, side),
        },
        Action::Pin(side) => CommandView::Checkout {
            dir: copy_path(context, side),
            commit: side_hash(context, side),
        },
        Action::Build(side) => CommandView::Build { dir: copy_path(context, side) },
        Action::Cleanup => CommandView::RemoveDir { path: root_name(context.title@) },
    }
}

/// The command that `action` comes to for `context`.
pub fn command_for(context: &LogContext, install_root: &str, action: Action) -> (command: Command)
    ensures
        command@ == command_of(*context, install_root@, action),
{
    match action {
        Action::CreateRoot => Command::CreateDir { path: root_dir(context) },
        Action::Probe(side) => Command::Probe { path: copy_dir(context, side) },
        Action::Copy(side) => {
            let prefix = install_dir(install_root, context, side);
            Command::Copy {
                to: copy_dir(context, side),
                config: build_config(prefix.as_str()),
                install_dir: prefix,
            }
        },
        Action::Pin(side) => Command::Checkout {
            dir: copy_dir(context, side),
            commit: match side {
                Side::Cur => context.hash_cur.clone(),
                Side::Old => context.hash_old.clone(),
            },
        },
        Action::Build(side) => Command::Build { dir: copy_dir(context, side) },
        Action::Cleanup => Command::RemoveDir { path: root_dir(context) },
    }
}

/// The states in which a run over `count` changes issues a command, from
/// `progress` on, when the commands end as `outcomes` says, in order. The
/// last of them waits for an outcome that `outcomes` does not hold, unless
/// the run has gone through all changes.
pub open spec fn issued(progress: Progress, count: int, outcomes: Seq<Outcome>) -> Seq<Progress>
    decreases outcomes.len(),
{
    if progress.index >= count {
        Seq::empty()
    } else if outcomes.len() == 0 {
        seq![progress]
    } else {
        seq![progress] + issued(progress.after(count, outcomes[0]), count, outcomes.drop_first())
    }
}

/// The commands of the states `states` of a run over `contexts`.
pub open spec fn commands_of(contexts: Seq<LogContext>, install_root: Seq<char>, states: Seq<Progress>) -> Seq<
    CommandView,
> {
    Seq::new(
        states.len(),
        |k: int| command_of(contexts[states[k].index as int], install_root, states[k].action),
    )
}

/// The views of the commands of `commands`.
pub open spec fn commands_view(commands: Seq<Command>) -> Seq<CommandView> {
    Seq::new(commands.len(), |k: int| commands[k]@)
}

/// Goes through `contexts` one after the other and returns the commands
/// that are issued when they end as `outcomes` says, in order: for each
/// change the directory, both working copies, pin and build of each side,
/// and the cleanup. The run stops at the command whose outcome `outcomes`
/// no longer holds, or when all changes are done.
pub fn stash_all(contexts: &Vec<LogContext>, install_root: &str, outcomes: &Vec<Outcome>) -> (commands: Vec<
    Command,
>)
    ensures
        commands_view(commands@) == commands_of(
            contexts@,
            install_root@,
            issued(Progress::begin(0), contexts.len() as int, outcomes@),
        ),
{
    let count = contexts.len();
    let mut commands: Vec<Command> = Vec::new();
    let mut progress = Progress::start();
    let mut used: usize = 0;
    let ghost all = issued(Progress::begin(0), count as int, outcomes@);
    let ghost mut states: Seq<Progress> = Seq::empty();
    proof {
        assert(outcomes@.skip(0) == outcomes@);
    }
    loop
        invariant
            count == contexts.len(),
            used <= outcomes.len(),
            all == issued(Progress::begin(0), count as int, outcomes@),
            all == states + issued(progress, count as int, outcomes@.skip(used as int)),
            forall|k: int| 0 <= k < states.len() ==> (#[trigger] states[k]).index < count,
            commands_view(commands@) == commands_of(contexts@, install_root@, states),
        decreases outcomes.len() - used,
    {
        let action = match progress.pending(count) {
            Some(action) => action,
            None => {
                return commands;
            },
        };
        let command = command_for(&contexts[progress.index], install_root, action);
        let ghost rest = outcomes@.skip(used as int);
        let ghost before = commands_view(commands@);
        commands.push(command);
        proof {
            assert(commands_view(commands@) == before.push(command@));
        }
        if used == outcomes.len() {
            return commands;
        }
        proof {
            assert(rest.drop_first() == outcomes@.skip(used + 1));
            assert(states + (seq![progress] + issued(
                progress.after(count as int, rest[0]),
                count as int,
                rest.drop_first(),
            )) == states.push(progress) + issued(
                progress.after(count as int, rest[0]),
                count as int,
                rest.drop_first(),
            ));
            states = states.push(progress);
        }
        progress = progress.advance(count, outcomes[used]);
        used += 1;
    }
}

/// The state of a run over `count` changes that sets out from `progress`
/// and has seen its actions end as `outcomes` says, in order.
pub open spec fn state_after(progress: Progress, count: int, outcomes: Seq<Outcome>) -> Progress
    decreases outcomes.len(),
{
    if outcomes.len() == 0 {
        progress
    } else {
        state_after(progress.after(count, outcomes[0]), count, outcomes.drop_first())
    }
}

/// The greatest number of actions that a change can still take, the one
/// that is due included.
pub open spec fn actions_left(action: Action) -> int {
    match action {
        Action::CreateRoot => 10,
        Action::Probe(Side::Cur) => 9,
        Action::Copy(Side::Cur) => 8,
        Action::Probe(Side::Old) => 7,
        Action::Copy(Side::Old) => 6,
        Action::Pin(Side::Cur) => 5,
        Action::Build(Side::Cur) => 4,
        Action::Pin(Side::Old) => 3,
        Action::Build(Side::Old) => 2,
        Action::Cleanup => 1,
    }
}

/// Every state that a run passes through is one that a run can be in.
pub proof fn lemma_after_keeps_wf(progress: Progress, count: int, outcome: Outcome)
    requires
        progress.wf(),
    ensures
        progress.after(count, outcome).wf(),
{
}

/// Whatever the outcome of an action, the run either stays with the change
/// at hand and has fewer actions left for it, or sets out on the next
/// change: no outcome ends the run and none repeats an action.
pub proof fn lemma_after_moves_on(progress: Progress, count: int, outcome: Outcome)
    requires
        progress.index < count <= usize::MAX,
    ensures
        ({
            let next = progress.after(count, outcome);
            ||| next == Progress::begin(progress.index + 1)
            ||| next.index == progress.index && 0 < actions_left(next.action) < actions_left(
                progress.action,
            )
        }),
{
}

/// A working copy that the probe finds is not copied again: the run marks
/// it as there and goes on, with the same change, to an action that is no
/// copy.
pub proof fn lemma_found_copy_is_kept(progress: Progress, count: int, side: Side)
    requires
        progress.index < count,
        progress.action == Action::Probe(side),
    ensures
        ({
            let next = progress.after(count, Outcome::Succeeded);
            &&& next.index == progress.index
            &&& next.ready(side)
            &&& !(next.action is Copy)
        }),
{
}

/// A copy is made only of a working copy that the probe has just missed.
pub proof fn lemma_copy_follows_missing_probe(
    progress: Progress,
    count: int,
    outcome: Outcome,
    side: Side,
)
    requires
        progress.index < count <= usize::MAX,
        progress.after(count, outcome).action == Action::Copy(side),
    ensures
        progress.action == Action::Probe(side),
        outcome == Outcome::Failed,
        progress.after(count, outcome).index == progress.index,
{
}

/// A pin that fails costs its side the build and nothing else: the run
/// goes on as it would after the build of that side, and which working
/// copies are there stays as it was.
pub proof fn lemma_failed_pin_skips_its_build(
    progress: Progress,
    count: int,
    side: Side,
    built: Outcome,
)
    requires
        progress.index < count <= usize::MAX,
        progress.action == Action::Pin(side),
    ensures
        progress.after(count, Outcome::Failed) == progress.at(Action::Build(side)).after(count, built),
        progress.after(count, Outcome::Failed).index == progress.index ==> {
            &&& progress.after(count, Outcome::Failed).cur_ready == progress.cur_ready
            &&& progress.after(count, Outcome::Failed).old_ready == progress.old_ready
        },
{
}

/// When the pin of the side with the change fails, the side before the
/// change, where its working copy is there, is still pinned, then built
/// where the pin succeeds, and after that the directory of the change is
/// removed and the next change begins, however pin and build end.
pub proof fn lemma_failed_pin_spares_other_side(
    progress: Progress,
    count: int,
    pinned: Outcome,
    built: Outcome,
    removed: Outcome,
)
    requires
        progress.wf(),
        progress.index < count,
        progress.action == Action::Pin(Side::Cur),
        progress.old_ready,
    ensures
        progress.after(count, Outcome::Failed) == progress.at(Action::Pin(Side::Old)),
        progress.at(Action::Pin(Side::Old)).after(count, Outcome::Succeeded) == progress.at(
            Action::Build(Side::Old),
        ),
        progress.at(Action::Pin(Side::Old)).after(count, Outcome::Failed) == progress.at(Action::Cleanup),
        progress.at(Action::Build(Side::Old)).after(count, built) == progress.at(Action::Cleanup),
        progress.at(Action::Cleanup).after(count, removed) == Progress::begin(progress.index + 1),
{
}

/// When the pin of the side before the change fails, the directory of the
/// change is still removed where both working copies were there, and the
/// next change begins.
pub proof fn lemma_failed_last_pin_still_cleans_up(progress: Progress, count: int, removed: Outcome)
    requires
        progress.wf(),
        progress.index < count,
        progress.action == Action::Pin(Side::Old),
    ensures
        progress.cur_ready ==> progress.after(count, Outcome::Failed) == progress.at(Action::Cleanup),
        !progress.cur_ready ==> progress.after(count, Outcome::Failed) == Progress::begin(
            progress.index + 1,
        ),
        progress.at(Action::Cleanup).after(count, removed) == Progress::begin(progress.index + 1),
{
}

/// A run that has seen `first` and then `then` is where the run from the
/// state after `first` is once it has seen `then`.
pub proof fn lemma_state_after_concat(
    progress: Progress,
    count: int,
    first: Seq<Outcome>,
    then: Seq<Outcome>,
)
    ensures
        state_after(progress, count, first + then) == state_after(
            state_after(progress, count, first),
            count,
            then,
        ),
    decreases first.len(),
{
    if first.len() > 0 {
        assert((first + then).drop_first() == first.drop_first() + then);
        lemma_state_after_concat(progress.after(count, first[0]), count, first.drop_first(), then);
    }
}

/// Whatever the outcomes are, a change is over after at most as many of
/// them as it has actions left, and the next change begins: the proof
/// returns after how many.
pub proof fn lemma_change_completes(progress: Progress, count: int, outcomes: Seq<Outcome>) -> (taken:
    int)
    requires
        progress.index < count <= usize::MAX,
        outcomes.len() >= actions_left(progress.action),
    ensures
        1 <= taken <= actions_left(progress.action),
        state_after(progress, count, outcomes.take(taken)) == Progress::begin(progress.index + 1),
    decreases outcomes.len(),
{
    let next = progress.after(count, outcomes[0]);
    lemma_after_moves_on(progress, count, outcomes[0]);
    if next == Progress::begin(progress.index + 1) {
        let seen = outcomes.take(1);
        assert(state_after(progress, count, seen) == state_after(next, count, seen.drop_first()));
        1
    } else {
        let rest = outcomes.drop_first();
        let more = lemma_change_completes(next, count, rest);
        let seen = outcomes.take(more + 1);
        assert(seen.drop_first() == rest.take(more));
        more + 1
    }
}

/// Whatever the outcomes are, every change of the list is begun: the run
/// from the start reaches the first action of the change at place `place`
/// after at most ten outcomes for each change before it. The proof
/// returns after how many.
pub proof fn lemma_every_change_begins(count: int, outcomes: Seq<Outcome>, place: int) -> (taken: int)
    requires
        0 <= place < count <= usize::MAX,
        outcomes.len() >= 10 * place,
    ensures
        0 <= taken <= 10 * place,
        state_after(Progress::begin(0), count, outcomes.take(taken)) == Progress::begin(place),
    decreases place,
{
    if place == 0 {
        0
    } else {
        let before = lemma_every_change_begins(count, outcomes, place - 1);
        let rest = outcomes.skip(before);
        let more = lemma_change_completes(Progress::begin(place - 1), count, rest);
        assert(outcomes.take(before + more) == outcomes.take(before) + rest.take(more));
        lemma_state_after_concat(Progress::begin(0), count, outcomes.take(before), rest.take(more));
        before + more
    }
}

/// Whatever the outcomes are, the run is through all changes once it has
/// seen ten outcomes for each of them.
pub proof fn lemma_run_ends(count: int, outcomes: Seq<Outcome>)
    requires
        0 <= count <= usize::MAX,
        outcomes.len() >= 10 * count,
    ensures
        state_after(Progress::begin(0), count, outcomes).index >= count,
{
    if count > 0 {
        let before = lemma_every_change_begins(count, outcomes, count - 1);
        let rest = outcomes.skip(before);
        let more = lemma_change_completes(Progress::begin(count - 1), count, rest);
        assert(outcomes == outcomes.take(before) + rest.take(more) + rest.skip(more));
        lemma_state_after_concat(Progress::begin(0), count, outcomes.take(before), rest.take(more));
        lemma_state_after_concat(
            Progress::begin(0),
            count,
            outcomes.take(before) + rest.take(more),
            rest.skip(more),
        );
        lemma_done_stays_done(Progress::begin(count), count, rest.skip(more));
    }
}

/// A run that is through all changes stays so.
pub proof fn lemma_done_stays_done(progress: Progress, count: int, outcomes: Seq<Outcome>)
    requires
        progress.index >= count,
    ensures
        state_after(progress, count, outcomes) == progress,
    decreases outcomes.len(),
{
    if outcomes.len() > 0 {
        lemma_done_stays_done(progress, count, outcomes.drop_first());
    }
}

/// A run issues a command after every number of outcomes that leaves a
/// change to work on.
pub proof fn lemma_issued_reaches(progress: Progress, count: int, outcomes: Seq<Outcome>, k: int)
    requires
        0 <= k <= outcomes.len(),
        state_after(progress, count, outcomes.take(k)).index < count,
    ensures
        k < issued(progress, count, outcomes).len(),
    decreases outcomes.len(),
{
    if k > 0 {
        let rest = outcomes.drop_first();
        let seen = outcomes.take(k);
        assert(seen.drop_first() == rest.take(k - 1));
        assert(state_after(progress, count, seen) == state_after(
            progress.after(count, outcomes[0]),
            count,
            seen.drop_first(),
        ));
        if progress.index >= count {
            lemma_done_stays_done(progress, count, rest.take(k - 1));
        }
        lemma_issued_reaches(progress.after(count, outcomes[0]), count, rest, k - 1);
    }
}

/// Whatever the outcomes are, a run issues the first command of every
/// change: the one of the change at place `place` after at most ten
/// commands for each change before it. The proof returns its place among
/// the commands.
pub proof fn lemma_every_change_is_issued(count: int, outcomes: Seq<Outcome>, place: int) -> (at: int)
    requires
        0 <= place < count <= usize::MAX,
        outcomes.len() >= 10 * place,
    ensures
        0 <= at <= 10 * place,
        at < issued(Progress::begin(0), count, outcomes).len(),
        issued(Progress::begin(0), count, outcomes)[at] == Progress::begin(place),
{
    let at = lemma_every_change_begins(count, outcomes, place);
    lemma_issued_reaches(Progress::begin(0), count, outcomes, at);
    lemma_issued_states(Progress::begin(0), count, outcomes, at);
    at
}

/// In a run, a copy is the command only right after the probe of the same
/// working copy has missed it: a working copy that is there is never
/// copied again.
pub proof fn lemma_run_copies_only_what_is_missing(
    count: int,
    outcomes: Seq<Outcome>,
    k: int,
    side: Side,
)
    requires
        0 <= count <= usize::MAX,
        0 <= k < issued(Progress::begin(0), count, outcomes).len(),
        issued(Progress::begin(0), count, outcomes)[k].action == Action::Copy(side),
    ensures
        k >= 1,
        issued(Progress::begin(0), count, outcomes)[k - 1].action == Action::Probe(side),
        issued(Progress::begin(0), count, outcomes)[k - 1].index == issued(
            Progress::begin(0),
            count,
            outcomes,
        )[k].index,
        outcomes[k - 1] == Outcome::Failed,
{
    let start = Progress::begin(0);
    lemma_issued_states(start, count, outcomes, k);
    if k > 0 {
        lemma_issued_states(start, count, outcomes, k - 1);
        let before = state_after(start, count, outcomes.take(k - 1));
        let last = seq![outcomes[k - 1]];
        assert(outcomes.take(k) == outcomes.take(k - 1) + last);
        lemma_state_after_concat(start, count, outcomes.take(k - 1), last);
        assert(state_after(before, count, last) == state_after(
            before.after(count, last[0]),
            count,
            last.drop_first(),
        ));
        lemma_copy_follows_missing_probe(before, count, outcomes[k - 1], side);
    }
}

/// A run in which every probe finds its working copy, as a second run does
/// over the working copies that a first one left, issues no copy.
pub proof fn lemma_second_run_copies_nothing(count: int, outcomes: Seq<Outcome>)
    requires
        0 <= count <= usize::MAX,
        forall|k: int|
            0 <= k < outcomes.len() && k < issued(Progress::begin(0), count, outcomes).len() && (
            #[trigger] issued(Progress::begin(0), count, outcomes)[k]).action is Probe
                ==> outcomes[k] == Outcome::Succeeded,
    ensures
        forall|k: int|
            0 <= k < issued(Progress::begin(0), count, outcomes).len() ==> !((
            #[trigger] issued(Progress::begin(0), count, outcomes)[k]).action is Copy),
{
    let states = issued(Progress::begin(0), count, outcomes);
    assert forall|k: int| 0 <= k < states.len() implies !((#[trigger] states[k]).action is Copy) by {
        match states[k].action {
            Action::Copy(side) => {
                lemma_run_copies_only_what_is_missing(count, outcomes, k, side);
                lemma_issued_states(Progress::begin(0), count, outcomes, k);
            },
            _ => {},
        }
    }
}

/// The states in which a run issues its commands are the states after
/// each number of outcomes, for as long as a change is left.
pub proof fn lemma_issued_states(progress: Progress, count: int, outcomes: Seq<Outcome>, k: int)
    requires
        0 <= k < issued(progress, count, outcomes).len(),
    ensures
        k <= outcomes.len(),
        issued(progress, count, outcomes)[k] == state_after(progress, count, outcomes.take(k)),
        issued(progress, count, outcomes)[k].index < count,
    decreases outcomes.len(),
{
    if k > 0 {
        let rest = outcomes.drop_first();
        lemma_issued_states(progress.after(count, outcomes[0]), count, rest, k - 1);
        assert(outcomes.take(k).drop_first() == rest.take(k - 1));
    }
}

} // verus!
