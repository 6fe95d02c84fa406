use tdo_core::error::github_error;
use tdo_core::error::ErrorKind;
use tdo_core::list::TodoList;
use tdo_core::tdo::Tdo;
use tdo_core::todo::GitHub;
use tdo_core::todo::Todo;

#[test]
fn handle_token() {
    let mut tdo = Tdo::new();
    let x = tdo.get_gh_token();
    assert_eq!(x, None);
    tdo.set_gh_token("ThisIsNoWorkingAuthTokenJustForTestingTheMethod");
    assert_eq!(
        tdo.get_gh_token().unwrap(),
        "ThisIsNoWorkingAuthTokenJustForTestingTheMethod".to_string()
    );
}

#[test]
fn token_is_replaced_by_a_later_one() {
    let mut tdo = Tdo::new();
    tdo.set_gh_token("first");
    tdo.set_gh_token("second");
    assert_eq!(tdo.get_gh_token(), Some("second".to_string()));
    assert_eq!(tdo.lists.len(), 1);
}

#[test]
fn github_reference_keeps_repo_and_number() {
    let issue = GitHub::new("owner/repo", 42);
    assert_eq!(issue.repo, "owner/repo");
    assert_eq!(issue.issue_number, 42);
    let copy = issue.clone();
    assert_eq!(copy.repo, "owner/repo");
    assert_eq!(copy.issue_number, 42);
}

#[test]
fn github_todo_is_not_moved() {
    let mut tdo = Tdo::new();
    tdo.add_list(TodoList::new("work")).unwrap();
    tdo.add_todo(None, Todo::new(7, "Tracked", Some(GitHub::new("owner/repo", 3)))).unwrap();
    tdo.add_todo(None, Todo::new(8, "Free", None)).unwrap();

    let r = tdo.move_todo(7, "work");
    assert_eq!(r, Err(ErrorKind::GithubError(github_error::ErrorKind::NotAllowedToMove)));
    assert_eq!(tdo.lists[0].list.len(), 2);
    assert_eq!(tdo.lists[0].list[0].id, 7);
    assert_eq!(tdo.lists[0].list[1].id, 8);
    assert_eq!(tdo.lists[1].list.len(), 0);

    assert_eq!(tdo.move_todo(8, "work"), Ok(()));
    assert_eq!(tdo.lists[0].list.len(), 1);
    assert_eq!(tdo.lists[1].list[0].id, 8);
}

#[test]
fn github_todo_with_unknown_target_reports_the_list() {
    let mut tdo = Tdo::new();
    tdo.add_todo(None, Todo::new(7, "Tracked", Some(GitHub::new("owner/repo", 3)))).unwrap();
    let r = tdo.move_todo(7, "nowhere");
    assert_eq!(r, Err(ErrorKind::TodoError(tdo_core::error::todo_error::ErrorKind::NoSuchList)));
    assert_eq!(tdo.lists[0].list.len(), 1);
}
