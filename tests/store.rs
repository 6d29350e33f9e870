use todotodo::cli::{run, Outcome};
use todotodo::entry::Entry;
use todotodo::store::{resolve_paths, FileStep, Todo, UsageError};

fn store(contents: &str) -> Todo {
    Todo::new(contents, "/home/u/.todo".to_string(), "/tmp/todo.bak".to_string(), false)
}

fn strings(xs: &[&str]) -> Vec<String> {
    xs.iter().map(|x| x.to_string()).collect()
}

#[test]
fn entry_round_trip() {
    for text in ["buy milk", "", "  padded  ", "[*] nested", "ünïcødé ✓"] {
        for done in [false, true] {
            let line = Entry { todo_entry: text.to_string(), done }.file_line();
            let back = Entry::read_line(&line);
            assert_eq!(back.todo_entry, text);
            assert_eq!(back.done, done);
        }
    }
}

#[test]
fn file_line_prefixes() {
    assert_eq!(Entry { todo_entry: "a".to_string(), done: true }.file_line(), "[*] a");
    assert_eq!(Entry { todo_entry: "a".to_string(), done: false }.file_line(), "[ ] a");
    assert_eq!(Entry { todo_entry: String::new(), done: false }.file_line(), "[ ] ");
}

#[test]
fn add_then_list() {
    let empty = store("");
    assert_eq!(empty.todo.len(), 0);
    let appended = empty.add(&strings(&["buy milk"])).unwrap();
    assert_eq!(appended, "[ ] buy milk\n");
    let after = store(&appended);
    assert_eq!(after.todo.len(), 1);
    let entry = Entry::read_line(&after.todo[0]);
    assert_eq!(entry.todo_entry, "buy milk");
    assert!(!entry.done);
    assert_eq!(after.list(), "1 buy milk\n");
}

#[test]
fn done_twice_restores_flag() {
    let start = store("[ ] walk dog\n");
    let once = store(&start.done(&strings(&["1"])).unwrap());
    assert_eq!(once.todo, vec!["[*] walk dog".to_string()]);
    let twice = store(&once.done(&strings(&["1"])).unwrap());
    assert_eq!(twice.todo, start.todo);
    let entry = Entry::read_line(&twice.todo[0]);
    assert!(!entry.done);
    assert_eq!(entry.todo_entry, "walk dog");
}

#[test]
fn done_toggles_malformed_line() {
    let start = store("ab\n");
    let once = start.done(&strings(&["1"])).unwrap();
    assert_eq!(once, "[*] ab\n");
}

#[test]
fn remove_middle_entry() {
    let todo = store("[ ] one\n[*] two\n[ ] three\n");
    let out = todo.remove(&strings(&["2"])).unwrap();
    assert_eq!(out, "[ ] one\n[ ] three\n");
    let after = store(&out);
    assert_eq!(after.todo.len(), 2);
    assert_eq!(after.list(), "1 one\n2 three\n");
}

#[test]
fn remove_ignores_out_of_range_and_zero() {
    let todo = store("[ ] one\n[ ] two\n");
    assert_eq!(todo.remove(&strings(&["0", "-1", "3", "01"])).unwrap(), "[ ] one\n[ ] two\n");
    assert_eq!(todo.remove(&strings(&["1", "1", "2"])).unwrap(), "");
}

#[test]
fn sort_stable_partition() {
    let todo = store("[ ] A\n[*] B\n[ ] C\n");
    assert_eq!(todo.sort(), "[ ] A\n[ ] C\n[*] B\n");
}

#[test]
fn reset_restore_steps() {
    let todo = store("[ ] a\n");
    let reset = todo.reset();
    assert_eq!(reset.len(), 2);
    match (&reset[0], &reset[1]) {
        (FileStep::Copy { from, to }, FileStep::Delete { path }) => {
            assert_eq!(from, "/home/u/.todo");
            assert_eq!(to, "/tmp/todo.bak");
            assert_eq!(path, "/home/u/.todo");
        }
        _ => panic!("unexpected reset steps"),
    }
    let restore = todo.restore();
    assert_eq!(restore.len(), 1);
    match &restore[0] {
        FileStep::Copy { from, to } => {
            assert_eq!(from, "/tmp/todo.bak");
            assert_eq!(to, "/home/u/.todo");
        }
        _ => panic!("unexpected restore step"),
    }
}

#[test]
fn reset_without_backup_deletes_only() {
    let todo = Todo::new("", "/p".to_string(), "/b".to_string(), true);
    let reset = todo.reset();
    assert_eq!(reset.len(), 1);
    assert!(matches!(&reset[0], FileStep::Delete { path } if path == "/p"));
}

#[test]
fn add_skips_blank_strings() {
    let todo = store("[ ] old\n");
    assert_eq!(todo.add(&strings(&["", "  ", "valid"])).unwrap(), "[ ] valid\n");
}

#[test]
fn add_trims_text() {
    let todo = store("");
    assert_eq!(todo.add(&strings(&["  pad me\t"])).unwrap(), "[ ] pad me\n");
    assert_eq!(todo.add(&strings(&["\u{3000}"])).unwrap(), "");
}

#[test]
fn short_line_decodes_open() {
    let entry = Entry::read_line(&"ab".to_string());
    assert!(!entry.done);
    assert_eq!(entry.todo_entry, "ab");
    let exact = Entry::read_line(&"[*] ".to_string());
    assert!(exact.done);
    assert_eq!(exact.todo_entry, "");
    let other = Entry::read_line(&"hello world".to_string());
    assert!(!other.done);
    assert_eq!(other.todo_entry, "hello world");
}

#[test]
fn entry_new_trims() {
    let e = Entry::new("  x y  ".to_string(), true);
    assert_eq!(e.todo_entry, "x y");
    assert!(e.done);
    assert_eq!(e.raw_line(), "x y");
}

#[test]
fn split_contents_into_lines() {
    let todo = store("[ ] a\n\n[*] b");
    assert_eq!(todo.todo, strings(&["[ ] a", "", "[*] b"]));
    assert_eq!(store("\n").todo, strings(&[""]));
}

#[test]
fn edit_keeps_flag() {
    let todo = store("[*] a\n[ ] b\n");
    assert_eq!(todo.edit(&strings(&["1", "z"])).unwrap(), "[*] z\n[ ] b\n");
    assert_eq!(todo.edit(&strings(&["5", "z"])).unwrap(), "[*] a\n[ ] b\n");
    assert_eq!(todo.edit(&strings(&["1"])).unwrap_err(), UsageError::EditNeedsTwo);
}

#[test]
fn raw_filters() {
    let todo = store("[ ] a\n[*] b\n[ ] c\n");
    assert_eq!(todo.raw(&strings(&["todo"])).unwrap(), "a\nc\n");
    assert_eq!(todo.raw(&strings(&["done"])).unwrap(), "b\n");
    assert_eq!(todo.raw(&strings(&["all"])).unwrap_err(), UsageError::RawNeedsFilter);
    assert_eq!(todo.raw(&strings(&[])).unwrap_err(), UsageError::RawNeedsFilter);
}

#[test]
fn usage_errors() {
    let todo = store("[ ] a\n");
    assert_eq!(todo.add(&[]).unwrap_err(), UsageError::NothingToAdd);
    assert_eq!(todo.remove(&[]).unwrap_err(), UsageError::NothingToRemove);
    assert_eq!(todo.done(&[]).unwrap_err(), UsageError::NothingToMark);
}

#[test]
fn positions_beyond_nine() {
    let contents: String = (1..=12).map(|i| format!("[ ] t{i}\n")).collect();
    let todo = store(&contents);
    let out = todo.done(&strings(&["11"])).unwrap();
    assert!(out.contains("[*] t11\n"));
    assert!(out.contains("[ ] t1\n"));
    assert!(todo.list().starts_with("1 t1\n"));
    assert!(todo.list().ends_with("12 t12\n"));
}

#[test]
fn list_plain_without_colour() {
    colored::control::set_override(false);
    let todo = store("[*] gone\n");
    assert_eq!(todo.list(), "1 gone\n");
}

#[test]
fn run_dispatches_commands() {
    colored::control::set_override(false);
    let todo = store("[ ] a\n[*] b\n");
    assert!(matches!(run(&todo, &strings(&["todo"])), Outcome::Print(s) if s == "1 a\n2 b\n"));
    assert!(matches!(run(&todo, &strings(&["todo", "list"])), Outcome::Print(s) if s == "1 a\n2 b\n"));
    assert!(matches!(run(&todo, &strings(&["todo", "mk", "c"])), Outcome::Append(s) if s == "[ ] c\n"));
    assert!(matches!(run(&todo, &strings(&["todo", "mk"])), Outcome::Refused(UsageError::NothingToAdd)));
    assert!(matches!(run(&todo, &strings(&["todo", "rm", "1"])), Outcome::Rewrite(s) if s == "[*] b\n"));
    assert!(matches!(run(&todo, &strings(&["todo", "done", "2"])), Outcome::Rewrite(s) if s == "[ ] a\n[ ] b\n"));
    assert!(matches!(run(&todo, &strings(&["todo", "raw", "done"])), Outcome::Print(s) if s == "b\n"));
    assert!(matches!(run(&todo, &strings(&["todo", "edit", "2", "x"])), Outcome::Rewrite(s) if s == "[ ] a\n[*] x\n"));
    assert!(matches!(run(&todo, &strings(&["todo", "sort"])), Outcome::Rewrite(s) if s == "[ ] a\n[*] b\n"));
    assert!(matches!(run(&todo, &strings(&["todo", "reset"])), Outcome::Steps(v) if v.len() == 2));
    assert!(matches!(run(&todo, &strings(&["todo", "restore"])), Outcome::Steps(v) if v.len() == 1));
    assert!(matches!(run(&todo, &strings(&["todo", "help"])), Outcome::Help));
    assert!(matches!(run(&todo, &strings(&["todo", "bogus"])), Outcome::Help));
}

#[test]
fn listed_line_numbers() {
    assert_eq!(todotodo::entry::listed_line(305, "x"), "305 x\n");
    assert_eq!(todotodo::text::to_decimal(0), "0");
    assert_eq!(todotodo::text::to_decimal(1907), "1907");
}

#[test]
fn split_crlf_contents() {
    let todo = store("[ ] a\r\n[*] b\r\nc\r");
    assert_eq!(todo.todo, strings(&["[ ] a", "[*] b", "c\r"]));
    assert_eq!(store("x\r\r\n\r\n").todo, strings(&["x\r", ""]));
    assert_eq!(store("a\rb\n").todo, strings(&["a\rb"]));
    let rewritten = todo.done(&strings(&["1"])).unwrap();
    assert_eq!(rewritten, "[*] a\n[*] b\nc\r\n");
}

#[test]
fn resolve_paths_rule() {
    let s = |x: &str| x.to_string();
    let chosen = resolve_paths(Some(s("/x/list")), Some(s("/x/bak")), true, s("/h/TODO"), true, s("/h/.todo"), s("/h/todo.bak"), false);
    assert_eq!(chosen.todo_path, "/x/list");
    assert_eq!(chosen.todo_bak, "/x/bak");
    assert!(chosen.no_backup);
    let legacy = resolve_paths(None, None, false, s("/h/TODO"), true, s("/h/.todo"), s("/h/todo.bak"), false);
    assert_eq!(legacy.todo_path, "/h/TODO");
    assert_eq!(legacy.todo_bak, "/tmp/todo.bak");
    assert!(!legacy.no_backup);
    let fresh = resolve_paths(None, None, false, s("/h/TODO"), false, s("/h/.todo"), s("/h/todo.bak"), true);
    assert_eq!(fresh.todo_path, "/h/.todo");
    assert_eq!(fresh.todo_bak, "/h/todo.bak");
}
