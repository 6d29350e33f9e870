use todotodo::store::Todo;

#[test]
fn list_strikes_finished_tasks() {
    colored::control::set_override(true);
    let todo = Todo::new("[*] gone\n[ ] here\n", "/p".to_string(), "/b".to_string(), false);
    assert_eq!(todo.list(), "1 \u{1b}[9mgone\u{1b}[0m\n2 here\n");
}
