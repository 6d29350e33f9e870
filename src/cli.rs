//! The command line: which store operation a command names, and what the
//! host is to do with its result.
use vstd::prelude::*;
use crate::store::{
    added, edited, kept, listing, raw_texts, reset_steps, restore_steps, shows, sorted, step_views,
    toggled, FileStep, StepView, Todo, UsageError,
};
use crate::text::{render, views};

verus! {

/// What the host does after a command.
pub enum Outcome {
    /// Print this text on standard output.
    Print(String),
    /// Print the usage text.
    Help,
    /// Report that the arguments do not fit the command.
    Refused(UsageError),
    /// Append this text to the task file.
    Append(String),
    /// Replace the contents of the task file with this text.
    Rewrite(String),
    /// Carry out these file steps in order, up to the first that fails.
    Steps(Vec<FileStep>),
}

/// An outcome, over the characters of its texts.
pub enum OutcomeView {
    Print(Seq<char>),
    Help,
    Refused(UsageError),
    Append(Seq<char>),
    Rewrite(Seq<char>),
    Steps(Seq<StepView>),
}

impl View for Outcome {
    type V = OutcomeView;

    open spec fn view(&self) -> OutcomeView {
        match self {
            Outcome::Print(s) => OutcomeView::Print(s@),
            Outcome::Help => OutcomeView::Help,
            Outcome::Refused(e) => OutcomeView::Refused(*e),
            Outcome::Append(s) => OutcomeView::Append(s@),
            Outcome::Rewrite(s) => OutcomeView::Rewrite(s@),
            Outcome::Steps(v) => OutcomeView::Steps(step_views(v@)),
        }
    }
}

/// The outcome of `raw` with filter arguments `rest`.
pub open spec fn raw_outcome(ls: Seq<Seq<char>>, rest: Seq<Seq<char>>) -> OutcomeView {
    if rest.len() == 1 && (rest[0] == "todo"@ || rest[0] == "done"@) {
        OutcomeView::Print(render(raw_texts(ls, rest[0] == "done"@)))
    } else {
        OutcomeView::Refused(UsageError::RawNeedsFilter)
    }
}

/// The outcome of the command line `args` (program name first) on `todo`,
/// where task `i` shows in a listing as `shown[i]`.
pub open spec fn outcome_of(todo: Todo, args: Seq<Seq<char>>, shown: Seq<Seq<char>>) -> OutcomeView {
    let ls = todo.lines();
    let rest = args.skip(2);
    if args.len() <= 1 {
        OutcomeView::Print(listing(ls, shown))
    } else if args[1] == "list"@ {
        OutcomeView::Print(listing(ls, shown))
    } else if args[1] == "mk"@ {
        if rest.len() == 0 {
            OutcomeView::Refused(UsageError::NothingToAdd)
        } else {
            OutcomeView::Append(render(added(rest)))
        }
    } else if args[1] == "rm"@ {
        if rest.len() == 0 {
            OutcomeView::Refused(UsageError::NothingToRemove)
        } else {
            OutcomeView::Rewrite(render(kept(ls, rest)))
        }
    } else if args[1] == "done"@ {
        if rest.len() == 0 {
            OutcomeView::Refused(UsageError::NothingToMark)
        } else {
            OutcomeView::Rewrite(render(toggled(ls, rest)))
        }
    } else if args[1] == "raw"@ {
        raw_outcome(ls, rest)
    } else if args[1] == "edit"@ {
        if rest.len() != 2 {
            OutcomeView::Refused(UsageError::EditNeedsTwo)
        } else {
            OutcomeView::Rewrite(render(edited(ls, rest[0], rest[1])))
        }
    } else if args[1] == "sort"@ {
        OutcomeView::Rewrite(render(sorted(ls)))
    } else if args[1] == "reset"@ {
        OutcomeView::Steps(reset_steps(todo.todo_path@, todo.todo_bak@, todo.no_backup))
    } else if args[1] == "restore"@ {
        OutcomeView::Steps(restore_steps(todo.todo_path@, todo.todo_bak@))
    } else {
        OutcomeView::Help
    }
}

/// Whether `s` is the word `w`.
fn is_word(s: &String, w: &str) -> (r: bool)
    ensures
        r == (s@ == w@),
{
    *s == String::from_str(w)
}

/// The outcome of a command line (program name first) on `todo`: with no
/// command, the listing; an unknown command, the usage text.
pub fn run(todo: &Todo, args: &[String]) -> (r: Outcome)
    ensures
        exists|shown: Seq<Seq<char>>|
            shows(todo.lines(), shown) && r@ == outcome_of(*todo, views(args@), shown),
{
    let ghost xs = views(args@);
    let ghost ls = todo.lines();
    if args.len() <= 1 {
        let s = todo.list();
        return Outcome::Print(s);
    }
    let (_, rest) = args.split_at(2);
    assert(views(rest@) =~= xs.skip(2));
    let cmd = &args[1];
    assert(cmd@ == xs[1]);
    if is_word(cmd, "list") {
        Outcome::Print(todo.list())
    } else {
        let r = if is_word(cmd, "mk") {
            match todo.add(rest) {
                Ok(s) => Outcome::Append(s),
                Err(e) => Outcome::Refused(e),
            }
        } else if is_word(cmd, "rm") {
            match todo.remove(rest) {
                Ok(s) => Outcome::Rewrite(s),
                Err(e) => Outcome::Refused(e),
            }
        } else if is_word(cmd, "done") {
            match todo.done(rest) {
                Ok(s) => Outcome::Rewrite(s),
                Err(e) => Outcome::Refused(e),
            }
        } else if is_word(cmd, "raw") {
            proof {
                reveal_strlit("todo");
                reveal_strlit("done");
                assert("todo"@ =~= seq!['t', 'o', 'd', 'o']);
                assert("done"@ =~= seq!['d', 'o', 'n', 'e']);
            }
            match todo.raw(rest) {
                Ok(s) => Outcome::Print(s),
                Err(e) => Outcome::Refused(e),
            }
        } else if is_word(cmd, "edit") {
            match todo.edit(rest) {
                Ok(s) => Outcome::Rewrite(s),
                Err(e) => Outcome::Refused(e),
            }
        } else if is_word(cmd, "sort") {
            Outcome::Rewrite(todo.sort())
        } else if is_word(cmd, "reset") {
            Outcome::Steps(todo.reset())
        } else if is_word(cmd, "restore") {
            Outcome::Steps(todo.restore())
        } else {
            Outcome::Help
        };
        assert(shows(ls, Seq::new(ls.len(), |i: int| crate::entry::decode_text(ls[i]))));
        r
    }
}

} // verus!
