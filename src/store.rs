//! The task store: the lines loaded from the task file, and the operations
//! that compute what the file holds next.
use vstd::prelude::*;
use crate::entry::{
    decode_done, decode_text, done_mark, encode, lemma_decode_encode, listed, open_mark, shown_as,
    Entry,
};
use crate::text::{
    all_lines, blank, decimal, is_blank, lemma_parse_render, lemma_render_push, no_feeds, one_line,
    parse, push_line, render, split_lines, to_decimal, trim, views,
};

verus! {

/// Why a command was not carried out: its arguments do not fit it.
#[derive(PartialEq, Eq, Structural, Debug, Clone, Copy)]
pub enum UsageError {
    /// `add` was given no task.
    NothingToAdd,
    /// `remove` was given no position.
    NothingToRemove,
    /// `done` was given no position.
    NothingToMark,
    /// `edit` takes exactly a position and a text.
    EditNeedsTwo,
    /// `raw` takes exactly one filter, `todo` or `done`.
    RawNeedsFilter,
}

/// Whether 1-based position `pos + 1` is named, in decimal, among `args`.
pub open spec fn selected(args: Seq<Seq<char>>, pos: int) -> bool {
    args.contains(decimal((pos + 1) as nat))
}

/// The lines that stay after removing the named positions.
pub open spec fn kept(ls: Seq<Seq<char>>, args: Seq<Seq<char>>) -> Seq<Seq<char>>
    decreases ls.len(),
{
    if ls.len() == 0 {
        Seq::empty()
    } else {
        let front = kept(ls.drop_last(), args);
        if selected(args, ls.len() - 1) {
            front
        } else {
            front.push(ls.last())
        }
    }
}

/// A line with its task's finished flag flipped.
pub open spec fn toggle(l: Seq<char>) -> Seq<char> {
    encode(decode_text(l), !decode_done(l))
}

/// The lines after flipping the finished flag at the named positions.
pub open spec fn toggled(ls: Seq<Seq<char>>, args: Seq<Seq<char>>) -> Seq<Seq<char>> {
    Seq::new(ls.len(), |i: int| if selected(args, i) { toggle(ls[i]) } else { ls[i] })
}

/// The lines after giving the task at position `index` the text `text`,
/// its finished flag kept.
pub open spec fn edited(ls: Seq<Seq<char>>, index: Seq<char>, text: Seq<char>) -> Seq<
    Seq<char>,
> {
    Seq::new(
        ls.len(),
        |i: int|
            if decimal((i + 1) as nat) == index {
                encode(text, decode_done(ls[i]))
            } else {
                ls[i]
            },
    )
}

/// The lines whose task is finished (`done`) or open (`!done`), in order.
pub open spec fn with_flag(ls: Seq<Seq<char>>, done: bool) -> Seq<Seq<char>>
    decreases ls.len(),
{
    if ls.len() == 0 {
        Seq::empty()
    } else {
        let front = with_flag(ls.drop_last(), done);
        if decode_done(ls.last()) == done {
            front.push(ls.last())
        } else {
            front
        }
    }
}

/// The open tasks first, then the finished ones, each group in its order.
pub open spec fn sorted(ls: Seq<Seq<char>>) -> Seq<Seq<char>> {
    with_flag(ls, false) + with_flag(ls, true)
}

/// The texts of the tasks whose finished flag is `done`, in order.
pub open spec fn raw_texts(ls: Seq<Seq<char>>, done: bool) -> Seq<Seq<char>>
    decreases ls.len(),
{
    if ls.len() == 0 {
        Seq::empty()
    } else {
        let front = raw_texts(ls.drop_last(), done);
        if decode_done(ls.last()) == done {
            front.push(decode_text(ls.last()))
        } else {
            front
        }
    }
}

/// The lines that `add` appends: one open task for each argument that is not
/// blank, trimmed.
pub open spec fn added(args: Seq<Seq<char>>) -> Seq<Seq<char>>
    decreases args.len(),
{
    if args.len() == 0 {
        Seq::empty()
    } else {
        let front = added(args.drop_last());
        if blank(args.last()) {
            front
        } else {
            front.push(encode(trim(args.last()), false))
        }
    }
}

/// A listing of `ls` where task `i` shows its text as `shown[i]`.
pub open spec fn listing(ls: Seq<Seq<char>>, shown: Seq<Seq<char>>) -> Seq<char>
    decreases ls.len(),
{
    if ls.len() == 0 {
        Seq::empty()
    } else {
        listing(ls.drop_last(), shown.drop_last()) + listed(ls.len() as nat, shown.last())
    }
}

/// Whether `shown` gives, for each line of `ls`, a way its task may show.
pub open spec fn shows(ls: Seq<Seq<char>>, shown: Seq<Seq<char>>) -> bool {
    &&& shown.len() == ls.len()
    &&& forall|i: int|
        0 <= i < ls.len() ==> shown_as(
            decode_text(ls[i]),
            decode_done(ls[i]),
            #[trigger] shown[i],
        )
}

/// The task list of one user: the lines of the task file as it was read,
/// where the file lives, where its backup goes, and whether `reset` keeps one.
pub struct Todo {
    pub todo: Vec<String>,
    pub todo_path: String,
    pub todo_bak: String,
    pub no_backup: bool,
}

/// Where the task file and its backup are, and whether `reset` keeps a
/// backup.
pub struct StorePaths {
    pub todo_path: String,
    pub todo_bak: String,
    pub no_backup: bool,
}

/// The backup path on systems other than Windows, where none is set.
pub open spec fn shared_bak() -> Seq<char> {
    seq!['/', 't', 'm', 'p', '/', 't', 'o', 'd', 'o', '.', 'b', 'a', 'k']
}

/// Chooses the store's paths. The task file is `todo_var` where it is set,
/// else the legacy file `legacy` where it exists, else `dot_todo`. The backup
/// is `bak_var` where it is set, else `home_bak` on Windows and
/// `/tmp/todo.bak` elsewhere. Backups are off where `backup_off` is set.
pub fn resolve_paths(
    todo_var: Option<String>,
    bak_var: Option<String>,
    backup_off: bool,
    legacy: String,
    legacy_exists: bool,
    dot_todo: String,
    home_bak: String,
    windows: bool,
) -> (r: StorePaths)
    ensures
        r.todo_path@ == (match todo_var {
            Some(p) => p@,
            None => if legacy_exists {
                legacy@
            } else {
                dot_todo@
            },
        }),
        r.todo_bak@ == (match bak_var {
            Some(b) => b@,
            None => if windows {
                home_bak@
            } else {
                shared_bak()
            },
        }),
        r.no_backup == backup_off,
{
    let todo_path = match todo_var {
        Some(p) => p,
        None => if legacy_exists {
            legacy
        } else {
            dot_todo
        },
    };
    let todo_bak = match bak_var {
        Some(b) => b,
        None => if windows {
            home_bak
        } else {
            let b = String::from_str("/tmp/todo.bak");
            proof {
                reveal_strlit("/tmp/todo.bak");
            }
            assert(b@ =~= shared_bak());
            b
        },
    };
    StorePaths { todo_path, todo_bak, no_backup: backup_off }
}

impl Todo {
    /// The stored lines.
    pub open spec fn lines(&self) -> Seq<Seq<char>> {
        views(self.todo@)
    }

    /// The store read from the contents of its file.
    pub fn new(contents: &str, todo_path: String, todo_bak: String, no_backup: bool) -> (r: Self)
        ensures
            r.lines() == parse(contents@),
            no_feeds(r.lines()),
            r.todo_path@ == todo_path@,
            r.todo_bak@ == todo_bak@,
            r.no_backup == no_backup,
    {
        proof {
            crate::text::lemma_parse_lines(contents@);
        }
        Todo { todo: split_lines(contents), todo_path, todo_bak, no_backup }
    }
}

/// Whether 1-based position `pos + 1` is named among `args`.
fn names_position(args: &[String], pos: usize) -> (r: bool)
    requires
        pos < usize::MAX,
    ensures
        r == selected(views(args@), pos as int),
{
    let key = to_decimal(pos + 1);
    let mut i: usize = 0;
    while i < args.len()
        invariant
            key@ == decimal((pos + 1) as nat),
            i <= args@.len(),
            forall|j: int| 0 <= j < i ==> args@[j]@ != key@,
        decreases args@.len() - i,
    {
        if args[i] == key {
            assert(views(args@)[i as int] == key@);
            return true;
        }
        i = i + 1;
    }
    assert(!views(args@).contains(key@)) by {
        if views(args@).contains(key@) {
            let j = choose|j: int| 0 <= j < views(args@).len() && views(args@)[j] == key@;
            assert(args@[j]@ == key@);
        }
    }
    false
}

proof fn lemma_render_concat(a: Seq<Seq<char>>, b: Seq<Seq<char>>)
    ensures
        render(a + b) == render(a) + render(b),
    decreases b.len(),
{
    if b.len() == 0 {
        assert(a + b =~= a);
        assert(render(a) + render(b) =~= render(a));
    } else {
        lemma_render_concat(a, b.drop_last());
        assert((a + b).drop_last() =~= a + b.drop_last());
        assert((a + b).last() == b.last());
        assert(render(a + b) =~= render(a) + render(b));
    }
}

proof fn lemma_take_last(ls: Seq<Seq<char>>, i: int)
    requires
        0 <= i < ls.len(),
    ensures
        ls.take(i + 1).drop_last() == ls.take(i),
        ls.take(i + 1).last() == ls[i],
        ls.take(i + 1) == ls.take(i).push(ls[i]),
{
    assert(ls.take(i + 1).drop_last() =~= ls.take(i));
    assert(ls.take(i + 1) =~= ls.take(i).push(ls[i]));
}

/// A step on the files, for the host to carry out.
pub enum FileStep {
    /// Copy the file at `from` over the file at `to`.
    Copy { from: String, to: String },
    /// Delete the file at `path`.
    Delete { path: String },
}

/// A file step, over the paths' characters.
pub enum StepView {
    Copy(Seq<char>, Seq<char>),
    Delete(Seq<char>),
}

impl View for FileStep {
    type V = StepView;

    open spec fn view(&self) -> StepView {
        match self {
            FileStep::Copy { from, to } => StepView::Copy(from@, to@),
            FileStep::Delete { path } => StepView::Delete(path@),
        }
    }
}

/// The files, as the contents of each existing path.
pub type Files = Map<Seq<char>, Seq<char>>;

/// One step on the files, or `None` where it fails: a copy from, or a
/// deletion of, a path that holds no file.
pub open spec fn step_on(files: Files, step: StepView) -> Option<Files> {
    match step {
        StepView::Copy(from, to) => if files.contains_key(from) {
            Some(files.insert(to, files[from]))
        } else {
            None
        },
        StepView::Delete(path) => if files.contains_key(path) {
            Some(files.remove(path))
        } else {
            None
        },
    }
}

/// Steps carried out in order up to the first that fails: the files after,
/// and whether every step succeeded.
pub open spec fn run_steps(files: Files, steps: Seq<StepView>) -> (Files, bool)
    decreases steps.len(),
{
    if steps.len() == 0 {
        (files, true)
    } else {
        match step_on(files, steps[0]) {
            Some(next) => run_steps(next, steps.drop_first()),
            None => (files, false),
        }
    }
}

/// The steps of `reset`: with backups on, copy the file to the backup path
/// and then delete it (not reached where the copy fails); else delete it.
pub open spec fn reset_steps(path: Seq<char>, bak: Seq<char>, no_backup: bool) -> Seq<StepView> {
    if no_backup {
        seq![StepView::Delete(path)]
    } else {
        seq![StepView::Copy(path, bak), StepView::Delete(path)]
    }
}

/// The steps of `restore`: copy the backup over the file.
pub open spec fn restore_steps(path: Seq<char>, bak: Seq<char>) -> Seq<StepView> {
    seq![StepView::Copy(bak, path)]
}

/// The views of a list of file steps.
pub open spec fn step_views(v: Seq<FileStep>) -> Seq<StepView> {
    v.map_values(|s: FileStep| s@)
}

impl Todo {
    /// The file steps that clear the store, keeping a backup unless backups
    /// are off.
    pub fn reset(&self) -> (r: Vec<FileStep>)
        ensures
            step_views(r@) == reset_steps(self.todo_path@, self.todo_bak@, self.no_backup),
    {
        let mut v: Vec<FileStep> = Vec::new();
        if !self.no_backup {
            v.push(FileStep::Copy { from: self.todo_path.clone(), to: self.todo_bak.clone() });
        }
        v.push(FileStep::Delete { path: self.todo_path.clone() });
        assert(step_views(v@) =~= reset_steps(self.todo_path@, self.todo_bak@, self.no_backup));
        v
    }

    /// The file steps that put the backup back in place of the file.
    pub fn restore(&self) -> (r: Vec<FileStep>)
        ensures
            step_views(r@) == restore_steps(self.todo_path@, self.todo_bak@),
    {
        let mut v: Vec<FileStep> = Vec::new();
        v.push(FileStep::Copy { from: self.todo_bak.clone(), to: self.todo_path.clone() });
        assert(step_views(v@) =~= restore_steps(self.todo_path@, self.todo_bak@));
        v
    }
}

/// With backups on, `reset` and then `restore` both succeed and leave the
/// file with the contents it had, where it exists and its backup path is
/// another path.
pub proof fn law_reset_restore(files: Files, path: Seq<char>, bak: Seq<char>)
    requires
        files.contains_key(path),
        path != bak,
    ensures
        ({
            let (after_reset, reset_ok) = run_steps(files, reset_steps(path, bak, false));
            let (after_restore, restore_ok) = run_steps(after_reset, restore_steps(path, bak));
            &&& reset_ok
            &&& restore_ok
            &&& after_restore.contains_key(path)
            &&& after_restore[path] == files[path]
        }),
{
    let steps = reset_steps(path, bak, false);
    let f1 = files.insert(bak, files[path]);
    let f2 = f1.remove(path);
    assert(step_on(files, steps[0]) == Some(f1));
    assert(steps.drop_first().drop_first() =~= Seq::<StepView>::empty());
    assert(step_on(f1, steps.drop_first()[0]) == Some(f2));
    assert(run_steps(f2, steps.drop_first().drop_first()) == (f2, true));
    assert(run_steps(f1, steps.drop_first()) == (f2, true));
    assert(run_steps(files, steps) == (f2, true));
    let back = restore_steps(path, bak);
    let f3 = f2.insert(path, f2[bak]);
    assert(back.drop_first() =~= Seq::<StepView>::empty());
    assert(step_on(f2, back[0]) == Some(f3));
    assert(run_steps(f3, back.drop_first()) == (f3, true));
    assert(run_steps(f2, back) == (f3, true));
}

proof fn lemma_toggle_one_line(l: Seq<char>)
    requires
        one_line(l),
    ensures
        one_line(toggle(l)),
{
    let t = decode_text(l);
    assert(!t.contains('\n')) by {
        if t.contains('\n') {
            let i = choose|i: int| 0 <= i < t.len() && t[i] == '\n';
            if t != l {
                assert(l[i + 4] == '\n');
            } else {
                assert(l[i] == '\n');
            }
        }
    }
    let m = toggle(l);
    assert(!m.contains('\n')) by {
        if m.contains('\n') {
            let i = choose|i: int| 0 <= i < m.len() && m[i] == '\n';
            if i >= 4 {
                assert(t[i - 4] == '\n');
            } else {
                assert(done_mark()[i] != '\n' && open_mark()[i] != '\n');
            }
        }
    }
}

proof fn lemma_toggled_lines(ls: Seq<Seq<char>>, args: Seq<Seq<char>>)
    requires
        all_lines(ls),
    ensures
        all_lines(toggled(ls, args)),
{
    let m = toggled(ls, args);
    assert forall|i: int| 0 <= i < m.len() implies one_line(#[trigger] m[i]) by {
        assert(one_line(ls[i]));
        lemma_toggle_one_line(ls[i]);
    }
}

/// Marking the same positions twice, with the file read back after each
/// time, gives every task its text and finished flag back.
pub proof fn law_done_twice(ls: Seq<Seq<char>>, args: Seq<Seq<char>>)
    requires
        all_lines(ls),
    ensures
        ({
            let once = parse(render(toggled(ls, args)));
            let twice = parse(render(toggled(once, args)));
            &&& twice.len() == ls.len()
            &&& forall|i: int|
                0 <= i < ls.len() ==> decode_done(#[trigger] twice[i]) == decode_done(ls[i])
                    && decode_text(twice[i]) == decode_text(ls[i])
        }),
{
    let once = toggled(ls, args);
    lemma_toggled_lines(ls, args);
    lemma_parse_render(once);
    let twice = toggled(once, args);
    lemma_toggled_lines(once, args);
    lemma_parse_render(twice);
    assert forall|i: int| 0 <= i < ls.len() implies decode_done(#[trigger] twice[i])
        == decode_done(ls[i]) && decode_text(twice[i]) == decode_text(ls[i]) by {
        if selected(args, i) {
            lemma_decode_encode(decode_text(ls[i]), !decode_done(ls[i]));
            lemma_decode_encode(decode_text(once[i]), !decode_done(once[i]));
        }
    }
}

impl Todo {
    /// The numbered listing, one line per task from 1; finished tasks may
    /// show struck through.
    pub fn list(&self) -> (r: String)
        ensures
            exists|shown: Seq<Seq<char>>|
                shows(self.lines(), shown) && r@ == listing(self.lines(), shown),
    {
        let ghost ls = self.lines();
        let mut s = String::new();
        let ghost mut shown: Seq<Seq<char>> = Seq::empty();
        let mut i: usize = 0;
        while i < self.todo.len()
            invariant
                ls == self.lines(),
                i <= ls.len(),
                shows(ls.take(i as int), shown),
                s@ == listing(ls.take(i as int), shown),
            decreases ls.len() - i,
        {
            let entry = Entry::read_line(&self.todo[i]);
            let line = entry.list_line(i + 1);
            let ghost w = choose|w: Seq<char>|
                shown_as(entry.todo_entry@, entry.done, w) && line@ == listed((i + 1) as nat, w);
            proof {
                lemma_take_last(ls, i as int);
                assert(shown.push(w).drop_last() =~= shown);
                shown = shown.push(w);
            }
            s.append(line.as_str());
            i = i + 1;
        }
        assert(ls.take(i as int) =~= ls);
        s
    }

    /// The texts of the open tasks (`todo`) or of the finished ones (`done`),
    /// one per line, in order.
    pub fn raw(&self, arg: &[String]) -> (r: Result<String, UsageError>)
        ensures
            r is Ok <==> (arg@.len() == 1 && (arg@[0]@ == seq!['t', 'o', 'd', 'o'] || arg@[0]@
                == seq!['d', 'o', 'n', 'e'])),
            r is Err ==> r == Err::<String, UsageError>(UsageError::RawNeedsFilter),
            r matches Ok(s) ==> s@ == render(
                raw_texts(self.lines(), arg@[0]@ == seq!['d', 'o', 'n', 'e']),
            ),
    {
        proof {
            reveal_strlit("todo");
            reveal_strlit("done");
        }
        if arg.len() != 1 {
            return Err(UsageError::RawNeedsFilter);
        }
        let done_word = String::from_str("done");
        let todo_word = String::from_str("todo");
        assert(done_word@ =~= seq!['d', 'o', 'n', 'e']);
        assert(todo_word@ =~= seq!['t', 'o', 'd', 'o']);
        let want_done = arg[0] == done_word;
        if !want_done && arg[0] != todo_word {
            return Err(UsageError::RawNeedsFilter);
        }
        let ghost ls = self.lines();
        let mut s = String::new();
        let mut i: usize = 0;
        while i < self.todo.len()
            invariant
                ls == self.lines(),
                i <= ls.len(),
                s@ == render(raw_texts(ls.take(i as int), want_done)),
            decreases ls.len() - i,
        {
            let entry = Entry::read_line(&self.todo[i]);
            proof {
                lemma_take_last(ls, i as int);
            }
            if entry.done == want_done {
                let line = entry.raw_line();
                push_line(&mut s, line.as_str());
                proof {
                    lemma_render_push(raw_texts(ls.take(i as int), want_done), line@);
                }
            }
            i = i + 1;
        }
        assert(ls.take(i as int) =~= ls);
        Ok(s)
    }

    /// The lines to append to the file: one open task for each argument
    /// that is not blank.
    pub fn add(&self, args: &[String]) -> (r: Result<String, UsageError>)
        ensures
            r is Err <==> args@.len() == 0,
            r is Err ==> r == Err::<String, UsageError>(UsageError::NothingToAdd),
            r matches Ok(s) ==> s@ == render(added(views(args@))),
    {
        if args.len() == 0 {
            return Err(UsageError::NothingToAdd);
        }
        let ghost xs = views(args@);
        let mut s = String::new();
        let mut i: usize = 0;
        while i < args.len()
            invariant
                xs == views(args@),
                i <= xs.len(),
                s@ == render(added(xs.take(i as int))),
            decreases xs.len() - i,
        {
            proof {
                lemma_take_last(xs, i as int);
            }
            if !is_blank(args[i].as_str()) {
                let entry = Entry::new(args[i].clone(), false);
                let line = entry.file_line();
                push_line(&mut s, line.as_str());
                proof {
                    lemma_render_push(added(xs.take(i as int)), line@);
                }
            }
            i = i + 1;
        }
        assert(xs.take(i as int) =~= xs);
        Ok(s)
    }

    /// The file without the tasks at the named positions.
    pub fn remove(&self, args: &[String]) -> (r: Result<String, UsageError>)
        ensures
            r is Err <==> args@.len() == 0,
            r is Err ==> r == Err::<String, UsageError>(UsageError::NothingToRemove),
            r matches Ok(s) ==> s@ == render(kept(self.lines(), views(args@))),
    {
        if args.len() == 0 {
            return Err(UsageError::NothingToRemove);
        }
        let ghost ls = self.lines();
        let mut s = String::new();
        let mut i: usize = 0;
        while i < self.todo.len()
            invariant
                ls == self.lines(),
                i <= ls.len(),
                s@ == render(kept(ls.take(i as int), views(args@))),
            decreases ls.len() - i,
        {
            proof {
                lemma_take_last(ls, i as int);
            }
            if !names_position(args, i) {
                push_line(&mut s, self.todo[i].as_str());
                proof {
                    lemma_render_push(kept(ls.take(i as int), views(args@)), ls[i as int]);
                }
            }
            i = i + 1;
        }
        assert(ls.take(i as int) =~= ls);
        Ok(s)
    }

    /// The file with the finished flag flipped at the named positions.
    pub fn done(&self, args: &[String]) -> (r: Result<String, UsageError>)
        ensures
            r is Err <==> args@.len() == 0,
            r is Err ==> r == Err::<String, UsageError>(UsageError::NothingToMark),
            r matches Ok(s) ==> s@ == render(toggled(self.lines(), views(args@))),
    {
        if args.len() == 0 {
            return Err(UsageError::NothingToMark);
        }
        let ghost ls = self.lines();
        let ghost goal = toggled(ls, views(args@));
        let mut s = String::new();
        let mut i: usize = 0;
        while i < self.todo.len()
            invariant
                ls == self.lines(),
                goal == toggled(ls, views(args@)),
                i <= ls.len(),
                s@ == render(goal.take(i as int)),
            decreases ls.len() - i,
        {
            proof {
                lemma_take_last(goal, i as int);
            }
            if names_position(args, i) {
                let mut entry = Entry::read_line(&self.todo[i]);
                entry.done = !entry.done;
                let line = entry.file_line();
                push_line(&mut s, line.as_str());
            } else {
                push_line(&mut s, self.todo[i].as_str());
            }
            proof {
                lemma_render_push(goal.take(i as int), goal[i as int]);
            }
            i = i + 1;
        }
        assert(goal.take(i as int) =~= goal);
        Ok(s)
    }

    /// The file with the task at position `args[0]` given the text `args[1]`.
    pub fn edit(&self, args: &[String]) -> (r: Result<String, UsageError>)
        ensures
            r is Err <==> args@.len() != 2,
            r is Err ==> r == Err::<String, UsageError>(UsageError::EditNeedsTwo),
            r matches Ok(s) ==> s@ == render(edited(self.lines(), args@[0]@, args@[1]@)),
    {
        if args.len() != 2 {
            return Err(UsageError::EditNeedsTwo);
        }
        let ghost ls = self.lines();
        let ghost goal = edited(ls, args@[0]@, args@[1]@);
        let mut s = String::new();
        let mut i: usize = 0;
        while i < self.todo.len()
            invariant
                ls == self.lines(),
                args@.len() == 2,
                goal == edited(ls, args@[0]@, args@[1]@),
                i <= ls.len(),
                s@ == render(goal.take(i as int)),
            decreases ls.len() - i,
        {
            proof {
                lemma_take_last(goal, i as int);
            }
            let key = to_decimal(i + 1);
            if args[0] == key {
                let mut entry = Entry::read_line(&self.todo[i]);
                entry.todo_entry = args[1].clone();
                let line = entry.file_line();
                push_line(&mut s, line.as_str());
            } else {
                push_line(&mut s, self.todo[i].as_str());
            }
            proof {
                lemma_render_push(goal.take(i as int), goal[i as int]);
            }
            i = i + 1;
        }
        assert(goal.take(i as int) =~= goal);
        Ok(s)
    }

    /// The file with the open tasks first and the finished ones after, each
    /// group in its order.
    pub fn sort(&self) -> (r: String)
        ensures
            r@ == render(sorted(self.lines())),
    {
        let ghost ls = self.lines();
        let mut s = String::new();
        let mut i: usize = 0;
        while i < self.todo.len()
            invariant
                ls == self.lines(),
                i <= ls.len(),
                s@ == render(with_flag(ls.take(i as int), false)),
            decreases ls.len() - i,
        {
            let entry = Entry::read_line(&self.todo[i]);
            proof {
                lemma_take_last(ls, i as int);
            }
            if !entry.done {
                push_line(&mut s, self.todo[i].as_str());
                proof {
                    lemma_render_push(with_flag(ls.take(i as int), false), ls[i as int]);
                }
            }
            i = i + 1;
        }
        assert(ls.take(i as int) =~= ls);
        let ghost head = s@;
        let mut j: usize = 0;
        while j < self.todo.len()
            invariant
                ls == self.lines(),
                j <= ls.len(),
                head == render(with_flag(ls, false)),
                s@ == head + render(with_flag(ls.take(j as int), true)),
            decreases ls.len() - j,
        {
            let entry = Entry::read_line(&self.todo[j]);
            proof {
                lemma_take_last(ls, j as int);
            }
            if entry.done {
                push_line(&mut s, self.todo[j].as_str());
                proof {
                    lemma_render_push(with_flag(ls.take(j as int), true), ls[j as int]);
                }
            }
            j = j + 1;
        }
        assert(ls.take(j as int) =~= ls);
        proof {
            lemma_render_concat(with_flag(ls, false), with_flag(ls, true));
        }
        s
    }
}

} // verus!
