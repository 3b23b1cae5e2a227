//! The command types the caller fills in, and the small decisions their runs
//! hinge on: dry-run policy, the non-interactive removal selection, which
//! local branch a `git for-each-ref` line declares gone, and which workspace
//! package owns a path.

use vstd::prelude::*;

use crate::paths::{parent_dir, parent_dir_of, path_in_dir};
use crate::removal::RemovalSelection;
use crate::strings::{split_words, str_eq, words_of};
use vstd::string::*;

verus! {

/// The artifact-cleaning command: its flags and inputs, as the caller
/// resolved them.
pub struct CleanCommand {
    /// Actually remove files; dry-run is the default.
    pub yes: bool,
    /// Force dry-run mode.
    pub dry_run: bool,
    /// The directory to clean.
    pub dir: String,
    /// Allow cleaning although the output root is shared.
    pub allow_shared_target_dir: bool,
    /// The build command to trace.
    pub custom_command: Option<String>,
    /// Verbose output.
    pub verbose: bool,
    /// How many of the largest in-use artifacts to list; zero disables.
    pub trace_stats: usize,
}

impl CleanCommand {
    /// Whether verbose output was asked for.
    pub fn is_verbose(&self) -> (r: bool)
        ensures
            r == self.verbose,
    {
        self.verbose
    }

    /// Whether this run must not delete anything: nothing was confirmed, or
    /// dry-run was forced.
    pub fn is_dry_run(&self) -> (r: bool)
        ensures
            r == (!self.yes || self.dry_run),
    {
        !self.yes || self.dry_run
    }

    /// The removal selection of a non-interactive (`yes`) run: everything
    /// unless dry-run was forced, nothing otherwise.
    pub fn confirmed_selection(&self) -> (r: RemovalSelection)
        ensures
            r.remove_files == !self.dry_run,
            r.remove_dirs == !self.dry_run,
    {
        if !self.dry_run {
            RemovalSelection::all()
        } else {
            RemovalSelection::none()
        }
    }

    /// The removal policy of one non-interactive run, given whether the trace
    /// completed: an incomplete trace proves nothing dead, so a failed trace
    /// selects nothing whatever the flags say; after a successful trace the
    /// confirmed selection applies.
    pub fn removal_policy(&self, trace_ok: bool) -> (r: RemovalSelection)
        ensures
            !trace_ok ==> !r.remove_files && !r.remove_dirs,
            trace_ok ==> r.remove_files == !self.dry_run && r.remove_dirs == !self.dry_run,
    {
        if !trace_ok {
            RemovalSelection::none()
        } else {
            self.confirmed_selection()
        }
    }
}

/// The dead-branch pruning command.
pub struct CleanGitCommand {
    /// Actually delete branches; dry-run is the default.
    pub yes: bool,
    /// Force dry-run.
    pub dry_run: bool,
    /// The directory to search for repositories.
    pub dir: String,
    /// Fetch before pruning.
    pub fetch: bool,
}

impl CleanGitCommand {
    /// Whether this run must not delete anything.
    pub fn is_dry_run(&self) -> (r: bool)
        ensures
            r == (!self.yes || self.dry_run),
    {
        !self.yes || self.dry_run
    }
}

/// The artifact-analysis command.
pub struct AnalyseCommand {
    /// The directory to inspect.
    pub dir: String,
    /// The target flavors to inspect.
    pub flavors: Vec<String>,
}

/// The parsed command line: one subcommand.
pub enum InnerCmd {
    Clean(CleanCommand),
    CleanGit(CleanGitCommand),
    Analyse(AnalyseCommand),
}

/// The whole parsed command line.
pub struct CliArgs {
    pub cmd: InnerCmd,
}

impl CliArgs {
    /// Whether the chosen subcommand asked for verbose output.
    pub fn is_verbose(&self) -> (r: bool)
        ensures
            r == match self.cmd {
                InnerCmd::Clean(c) => c.verbose,
                InnerCmd::CleanGit(_) => false,
                InnerCmd::Analyse(_) => false,
            },
    {
        match &self.cmd {
            InnerCmd::Clean(c) => c.verbose,
            InnerCmd::CleanGit(_) => false,
            InnerCmd::Analyse(_) => false,
        }
    }
}

/// The branch a ref listing line declares gone: the line's two words are a
/// branch name and the literal gone marker.
pub open spec fn gone_branch_of(line: Seq<char>) -> Option<Seq<char>> {
    let ws = words_of(line);
    if ws.len() == 2 && ws[1] == "[gone]"@ {
        Some(ws[0])
    } else {
        None
    }
}

/// Picks, from one `refname track` line, the branch it declares gone.
pub fn gone_branch_of_line(line: &str) -> (r: Option<String>)
    ensures
        r.deep_view() == gone_branch_of(line@),
{
    let words = split_words(line);
    if words.len() == 2 && str_eq(words[1].as_str(), "[gone]") {
        proof {
            assert(words.deep_view()[1] == "[gone]"@);
        }
        let mut words = words;
        let first = words.remove(0);
        proof {
            assert(first@ == words_of(line@)[0]);
        }
        Some(first)
    } else {
        proof {
            if words.deep_view().len() == 2 {
                assert(words.deep_view()[1] == words@[1]@);
            }
        }
        None
    }
}

/// The deepest of the given directories that contains `p`: walking up from
/// `p` itself, the first ancestor among them.
pub open spec fn owning_dir_of(p: Seq<char>, dirs: Seq<Seq<char>>) -> Option<Seq<char>>
    decreases p.len(),
{
    if dirs.contains(p) {
        Some(p)
    } else {
        match p.index_of_last('/') {
            Some(i) => if 0 <= i < p.len() {
                owning_dir_of(p.take(i), dirs)
            } else {
                None
            },
            None => None,
        }
    }
}

/// Finds the deepest of `dirs` that contains `p`: the directory of the
/// workspace package a dependency path belongs to, if any.
pub fn find_owning_dir(p: &str, dirs: &Vec<String>) -> (r: Option<String>)
    ensures
        r.deep_view() == owning_dir_of(p@, dirs.deep_view()),
    decreases p@.len(),
{
    if crate::strings::string_list_contains(dirs, p) {
        return Some(p.to_owned());
    }
    proof {
        p@.index_of_last_ensures('/');
    }
    match parent_dir(p) {
        Some(d) => find_owning_dir(d, dirs),
        None => None,
    }
}

} // verus!
