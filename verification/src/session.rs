use vstd::prelude::*;
use crate::helper::strings_view;
use crate::text::{chars_of, replace, replace_char, same_chars, split_chars, split_on};

verus! {

/// The program's command line: the name of the program to remove.
pub struct Arguments {
    pub program_name: String,
}

/// The last of the path components that name something (all but the empty
/// ones and `.`), if any.
pub open spec fn last_component(segs: Seq<Seq<char>>) -> Option<Seq<char>>
    decreases segs.len(),
{
    if segs.len() == 0 {
        None
    } else if segs.last().len() == 0 || segs.last() == seq!['.'] {
        last_component(segs.drop_last())
    } else {
        Some(segs.last())
    }
}

/// `Path::file_name` is `Some`: the last component of the path that is not
/// empty or `.` exists and is not `..`.
pub open spec fn has_file_name(path: Seq<char>) -> bool {
    match last_component(split_on(path, '/')) {
        Some(c) => c != seq!['.', '.'],
        None => false,
    }
}

/// Whether `path` ends in a file name (as `Path::file_name` has it).
pub fn path_has_file_name(path: &str) -> (r: bool)
    ensures
        r == has_file_name(path@),
{
    let pc = chars_of(path);
    let segs = split_chars(&pc, '/');
    let ghost all = split_on(path@, '/');
    let dot = vec!['.'];
    let dotdot = vec!['.', '.'];
    assert(dot@ == seq!['.']);
    assert(dotdot@ == seq!['.', '.']);
    let mut n = segs.len();
    assert(all.take(n as int) == all);
    while n > 0
        invariant
            n <= segs@.len(),
            strings_view(segs@) == all,
            all == split_on(path@, '/'),
            dot@ == seq!['.'],
            dotdot@ == seq!['.', '.'],
            last_component(all) == last_component(all.take(n as int)),
        decreases n,
    {
        assert(all.take(n as int).last() == all[n - 1]);
        assert(all.take(n as int).drop_last() == all.take(n - 1));
        assert(strings_view(segs@)[n - 1] == segs@[n - 1]@);
        let sc = chars_of(segs[n - 1].as_str());
        if sc.len() != 0 && !same_chars(&sc, &dot) {
            return !same_chars(&sc, &dotdot);
        }
        n = n - 1;
    }
    false
}

/// What `rust_search::similarity_sort` makes of `paths` for `input`.
pub uninterp spec fn similarity_sorted(paths: Seq<Seq<char>>, input: Seq<char>) -> Seq<Seq<char>>;

/// `rust_search::similarity_sort`: a stable sort of the paths by how close
/// their file names are to `input` (Jaro-Winkler, ignoring case). The
/// contract names the resulting order and states what the source shows: the
/// sort only reorders. It panics on a path without a file name once there
/// are two paths to compare, which `requires` leaves out.
#[verifier::external_body]
fn sort_by_similarity(paths: &mut Vec<String>, input: &str)
    requires
        old(paths)@.len() >= 2 ==> forall|i: int|
            0 <= i < old(paths)@.len() ==> has_file_name(#[trigger] old(paths)@[i]@),
    ensures
        strings_view(final(paths)@) == similarity_sorted(strings_view(old(paths)@), input@),
        strings_view(final(paths)@).to_multiset() == strings_view(old(paths)@).to_multiset(),
{
    rust_search::similarity_sort(paths, input);
}

/// Where a run of the program stands.
pub enum Stage {
    /// Looking for a desktop entry whose name is the program's name.
    SearchingDisplayName,
    /// Looking for desktop entries by file name.
    SearchingApplications,
    /// Waiting for a yes or no on the one entry found.
    Confirming { candidate: String },
    /// Waiting for a choice among the entries found.
    Selecting { choices: Vec<String> },
    /// Nothing left to decide.
    Finished,
}

/// What the outside world reported back.
pub enum Event {
    /// The search by display name ended; `desktop_file_path` is empty when
    /// it found nothing (and `display_name` is then the program's name).
    DisplayNameSearched { display_name: String, desktop_file_path: String },
    /// The desktop entries whose file names match.
    ApplicationsFound { matches: Vec<String> },
    /// The answer to the yes/no question.
    Confirmed { yes: bool },
    /// The number chosen from the menu (0 to quit).
    Selected { selection: usize },
}

/// What the program does next.
pub enum Action {
    /// Look for desktop entries whose file names match `search_input`.
    SearchApplications { search_input: String },
    /// Tell that nothing was found; the run ends.
    ReportNoMatches,
    /// Ask whether `candidate` is the application to remove.
    AskConfirmation { candidate: String },
    /// Offer `choices`, numbered from 1, to choose from.
    AskSelection { choices: Vec<String> },
    /// Remove what the desktop entry at `desktop_file_path` names; the run
    /// ends.
    ProcessDesktopFile { desktop_file_path: String, display_name: String },
    /// Stop without removing anything; the run ends.
    Exit,
}

/// The state of a run: the program's name, the name the application is
/// known by, and the stage.
pub struct Run {
    pub program_name: String,
    pub display_name: String,
    pub stage: Stage,
}

/// The search input for desktop entries: the program's name with each space
/// replaced by `-`.
pub open spec fn application_search_input(program_name: Seq<char>) -> Seq<char> {
    replace_char(program_name, ' ', '-')
}

/// An action to go on with the desktop entry at `path`, for the application
/// named `name`.
pub open spec fn processes(action: Action, path: Seq<char>, name: Seq<char>) -> bool {
    action matches Action::ProcessDesktopFile { desktop_file_path: p, display_name: d } && p@ == path
        && d@ == name
}

impl Run {
    /// A run for the given command line, about to search by display name.
    pub fn new(args: Arguments) -> (run: Run)
        ensures
            run.program_name@ == args.program_name@,
            run.display_name@ == args.program_name@,
            run.stage is SearchingDisplayName,
    {
        let display_name = args.program_name.clone();
        Run { program_name: args.program_name, display_name, stage: Stage::SearchingDisplayName }
    }

    /// The events that the stage waits for; a list of two or more matches
    /// must hold only paths that end in a file name.
    pub open spec fn accepts(&self, event: Event) -> bool {
        match self.stage {
            Stage::SearchingDisplayName => event is DisplayNameSearched,
            Stage::SearchingApplications => event matches Event::ApplicationsFound { matches }
                && (matches@.len() >= 2 ==> forall|i: int|
                0 <= i < matches@.len() ==> has_file_name(#[trigger] matches@[i]@)),
            Stage::Confirming { .. } => event is Confirmed,
            Stage::Selecting { choices } => event matches Event::Selected { selection }
                && selection < choices@.len(),
            Stage::Finished => false,
        }
    }

    /// Whether the stage waits for `event`.
    pub fn can_take(&self, event: &Event) -> (b: bool)
        ensures
            b == self.accepts(*event),
    {
        match (&self.stage, event) {
            (Stage::SearchingDisplayName, Event::DisplayNameSearched { .. }) => true,
            (Stage::SearchingApplications, Event::ApplicationsFound { matches }) => {
                if matches.len() < 2 {
                    return true;
                }
                let mut i: usize = 0;
                while i < matches.len()
                    invariant
                        self.stage is SearchingApplications,
                        matches@.len() >= 2,
                        *event == (Event::ApplicationsFound { matches: *matches }),
                        i <= matches@.len(),
                        forall|j: int| 0 <= j < i ==> has_file_name(#[trigger] matches@[j]@),
                    decreases matches@.len() - i,
                {
                    if !path_has_file_name(matches[i].as_str()) {
                        assert(!has_file_name(matches@[i as int]@));
                        return false;
                    }
                    i = i + 1;
                }
                true
            },
            (Stage::Confirming { .. }, Event::Confirmed { .. }) => true,
            (Stage::Selecting { choices }, Event::Selected { selection }) => *selection < choices.len(),
            _ => false,
        }
    }

    /// Whether `next` and `action` are what `self` goes to on `event`.
    pub open spec fn transition(self, event: Event, next: Run, action: Action) -> bool {
        &&& next.program_name@ == self.program_name@
        &&& match (self.stage, event) {
            (Stage::SearchingDisplayName, Event::DisplayNameSearched { display_name, desktop_file_path }) => {
                &&& next.display_name@ == display_name@
                &&& if desktop_file_path@.len() > 0 {
                    next.stage is Finished && processes(action, desktop_file_path@, display_name@)
                } else {
                    &&& next.stage is SearchingApplications
                    &&& action matches Action::SearchApplications { search_input }
                    &&& search_input@ == application_search_input(self.program_name@)
                }
            },
            (Stage::SearchingApplications, Event::ApplicationsFound { matches }) => {
                &&& next.display_name@ == self.display_name@
                &&& if matches@.len() == 0 {
                    next.stage is Finished && action is ReportNoMatches
                } else if matches@.len() == 1 {
                    &&& next.stage matches Stage::Confirming { candidate } && candidate@ == matches@[0]@
                    &&& action matches Action::AskConfirmation { candidate } && candidate@ == matches@[0]@
                } else {
                    let sorted = similarity_sorted(strings_view(matches@), self.program_name@);
                    &&& next.stage matches Stage::Selecting { choices } && strings_view(choices@) == sorted
                        && sorted.to_multiset() == strings_view(matches@).to_multiset()
                    &&& action matches Action::AskSelection { choices } && strings_view(choices@) == sorted
                }
            },
            (Stage::Confirming { candidate }, Event::Confirmed { yes }) => {
                &&& next.display_name@ == self.display_name@
                &&& next.stage is Finished
                &&& if yes {
                    processes(action, candidate@, self.display_name@)
                } else {
                    action is Exit
                }
            },
            (Stage::Selecting { choices }, Event::Selected { selection }) => {
                &&& next.display_name@ == self.display_name@
                &&& next.stage is Finished
                &&& if selection == 0 {
                    action is Exit
                } else {
                    processes(action, choices@[selection - 1]@, self.display_name@)
                }
            },
            _ => false,
        }
    }

    /// Takes one step of the run: from the stage and what was reported back
    /// to the next stage and what to do.
    pub fn step(self, event: Event) -> (r: (Run, Action))
        requires
            self.accepts(event),
        ensures
            self.transition(event, r.0, r.1),
    {
        let Run { program_name, display_name, stage } = self;
        match (stage, event) {
            (Stage::SearchingDisplayName, Event::DisplayNameSearched { display_name, desktop_file_path }) => {
                if !desktop_file_path.as_str().is_empty() {
                    let shown = display_name.clone();
                    (
                        Run { program_name, display_name, stage: Stage::Finished },
                        Action::ProcessDesktopFile { desktop_file_path, display_name: shown },
                    )
                } else {
                    let search_input = replace(program_name.as_str(), ' ', '-');
                    (
                        Run { program_name, display_name, stage: Stage::SearchingApplications },
                        Action::SearchApplications { search_input },
                    )
                }
            },
            (Stage::SearchingApplications, Event::ApplicationsFound { matches }) => {
                let mut matches = matches;
                if matches.len() == 0 {
                    (Run { program_name, display_name, stage: Stage::Finished }, Action::ReportNoMatches)
                } else if matches.len() == 1 {
                    let candidate = matches[0].clone();
                    let asked = matches[0].clone();
                    (
                        Run { program_name, display_name, stage: Stage::Confirming { candidate } },
                        Action::AskConfirmation { candidate: asked },
                    )
                } else {
                    sort_by_similarity(&mut matches, program_name.as_str());
                    let choices = matches.clone();
                    assert(strings_view(choices@) =~= strings_view(matches@)) by {
                        assert forall|i: int| 0 <= i < matches@.len() implies choices@[i]@ == matches@[i]@ by {}
                    }
                    (
                        Run { program_name, display_name, stage: Stage::Selecting { choices } },
                        Action::AskSelection { choices: matches },
                    )
                }
            },
            (Stage::Confirming { candidate }, Event::Confirmed { yes }) => {
                if yes {
                    let shown = display_name.clone();
                    (
                        Run { program_name, display_name, stage: Stage::Finished },
                        Action::ProcessDesktopFile { desktop_file_path: candidate, display_name: shown },
                    )
                } else {
                    (Run { program_name, display_name, stage: Stage::Finished }, Action::Exit)
                }
            },
            (Stage::Selecting { choices }, Event::Selected { selection }) => {
                if selection == 0 {
                    (Run { program_name, display_name, stage: Stage::Finished }, Action::Exit)
                } else {
                    let chosen = choices[selection - 1].clone();
                    let shown = display_name.clone();
                    (
                        Run { program_name, display_name, stage: Stage::Finished },
                        Action::ProcessDesktopFile { desktop_file_path: chosen, display_name: shown },
                    )
                }
            },
            _ => {
                assert(false);
                (Run { program_name, display_name, stage: Stage::Finished }, Action::Exit)
            },
        }
    }
}


/// How far a stage is from the end of the run.
pub open spec fn stage_rank(stage: Stage) -> nat {
    match stage {
        Stage::SearchingDisplayName => 3,
        Stage::SearchingApplications => 2,
        Stage::Confirming { .. } => 1,
        Stage::Selecting { .. } => 1,
        Stage::Finished => 0,
    }
}

/// Every step brings the run closer to its end, so a run takes at most
/// three steps.
pub proof fn law_run_progresses(run: Run, event: Event, next: Run, action: Action)
    requires
        run.transition(event, next, action),
    ensures
        stage_rank(next.stage) < stage_rank(run.stage),
{
}

/// The desktop entry chosen from the menu is one of the entries the search
/// found: sorting by similarity only reorders them.
pub proof fn law_selection_picks_a_match(
    run: Run,
    matches: Vec<String>,
    mid: Run,
    ask: Action,
    selection: usize,
    last: Run,
    act: Action,
)
    requires
        run.stage is SearchingApplications,
        run.transition(Event::ApplicationsFound { matches }, mid, ask),
        mid.accepts(Event::Selected { selection }),
        mid.transition(Event::Selected { selection }, last, act),
        act is ProcessDesktopFile,
    ensures
        strings_view(matches@).contains(act->desktop_file_path@),
{
    broadcast use vstd::seq_lib::group_to_multiset_ensures;

    if let Stage::Selecting { choices } = mid.stage {
        let c = strings_view(choices@);
        assert(c[selection - 1] == choices@[selection - 1]@);
        assert(c.contains(act->desktop_file_path@));
        assert(c.to_multiset().count(act->desktop_file_path@) > 0);
    }
}


/// The search input for desktop entries holds no space.
pub proof fn law_search_input_has_no_space(program_name: Seq<char>)
    ensures
        forall|j: int|
            0 <= j < application_search_input(program_name).len() ==> application_search_input(program_name)[j] != ' ',
{
}


/// A desktop entry is always processed under the run's display name: the
/// name the search by display name reported, which no later step changes.
pub proof fn law_processing_keeps_display_name(run: Run, event: Event, next: Run, action: Action)
    requires
        run.transition(event, next, action),
    ensures
        action is ProcessDesktopFile ==> action->display_name@ == next.display_name@,
        !(run.stage is SearchingDisplayName) ==> next.display_name@ == run.display_name@,
        event matches Event::DisplayNameSearched { display_name, .. } ==> next.display_name@
            == display_name@,
{
}

/// A confirmed single match is processed: its path, under the run's own
/// display name; a refused one ends the run.
pub proof fn law_confirmed_match_is_processed(run: Run, yes: bool, next: Run, action: Action)
    requires
        run.stage is Confirming,
        run.transition(Event::Confirmed { yes }, next, action),
    ensures
        yes ==> action is ProcessDesktopFile && action->desktop_file_path@
            == run.stage->candidate@ && action->display_name@ == run.display_name@,
        !yes ==> action is Exit,
{
}

/// A menu choice `k` above 0 processes the `k`-th entry (counting from 1)
/// under the run's own display name; 0 ends the run.
pub proof fn law_selected_entry_is_processed(run: Run, selection: usize, next: Run, action: Action)
    requires
        run.stage is Selecting,
        run.accepts(Event::Selected { selection }),
        run.transition(Event::Selected { selection }, next, action),
    ensures
        selection > 0 ==> action is ProcessDesktopFile && action->desktop_file_path@
            == run.stage->choices@[selection - 1]@ && action->display_name@ == run.display_name@,
        selection == 0 ==> action is Exit,
{
}

} // verus!
