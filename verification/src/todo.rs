//! A single todo item and the github issue it may mirror.
use vstd::prelude::*;

verus! {

/// What a [`GitHub`] reference holds, as mathematical values.
pub struct GitHubModel {
    pub repo: Seq<char>,
    pub issue_number: u32,
}

/// What a [`Todo`] holds, as mathematical values.
pub struct TodoModel {
    pub id: u32,
    pub name: Seq<char>,
    pub done: bool,
    pub github: Option<GitHubModel>,
}

/// Reference to the github issue that a todo mirrors.
#[derive(Debug)]
pub struct GitHub {
    /// Name of the repository (owner/repo).
    pub repo: String,
    /// Number of the issue.
    pub issue_number: u32,
}

impl View for GitHub {
    type V = GitHubModel;

    open spec fn view(&self) -> GitHubModel {
        GitHubModel { repo: self.repo@, issue_number: self.issue_number }
    }
}

impl GitHub {
    /// Creates a reference to issue `issue_number` of `repo`.
    pub fn new(repo: &str, issue_number: u32) -> (r: GitHub)
        ensures
            r@ == (GitHubModel { repo: repo@, issue_number }),
    {
        GitHub { repo: repo.to_owned(), issue_number }
    }
}

impl Clone for GitHub {
    fn clone(&self) -> (r: GitHub)
        ensures
            r@ == self@,
    {
        GitHub { repo: self.repo.clone(), issue_number: self.issue_number }
    }
}

/// The view of an optional github reference.
pub open spec fn github_view(g: Option<GitHub>) -> Option<GitHubModel> {
    match g {
        Some(x) => Some(x@),
        None => None,
    }
}

/// A single task, identified by its id.
#[derive(Debug)]
pub struct Todo {
    /// Identifier of the todo; never changed by any operation.
    pub id: u32,
    /// Title of the todo.
    pub name: String,
    /// Status of the todo.
    pub done: bool,
    /// Optional github issue.
    pub github: Option<GitHub>,
}

impl View for Todo {
    type V = TodoModel;

    open spec fn view(&self) -> TodoModel {
        TodoModel {
            id: self.id,
            name: self.name@,
            done: self.done,
            github: github_view(self.github),
        }
    }
}

impl Todo {
    /// Creates an undone todo.
    pub fn new(id: u32, name: &str, github: Option<GitHub>) -> (r: Todo)
        ensures
            r@ == (TodoModel { id, name: name@, done: false, github: github_view(github) }),
    {
        Todo { id, name: name.to_owned(), done: false, github }
    }

    /// Replaces the title.
    pub fn edit(&mut self, new_name: &str)
        ensures
            final(self)@ == (TodoModel { name: new_name@, ..old(self)@ }),
    {
        self.name = new_name.to_owned();
    }

    /// Marks the todo as done.
    pub fn set_done(&mut self)
        ensures
            final(self)@ == (TodoModel { done: true, ..old(self)@ }),
    {
        self.done = true;
    }

    /// Marks the todo as undone.
    pub fn set_undone(&mut self)
        ensures
            final(self)@ == (TodoModel { done: false, ..old(self)@ }),
    {
        self.done = false;
    }
}

impl Clone for Todo {
    fn clone(&self) -> (r: Todo)
        ensures
            r@ == self@,
    {
        let github = match &self.github {
            Some(g) => Some(g.clone()),
            None => None,
        };
        Todo { id: self.id, name: self.name.clone(), done: self.done, github }
    }
}

/// One issue as the github API reports it.
#[derive(Debug, Clone)]
pub struct GHIssueResponse {
    /// Repository URL.
    pub url: String,
    /// Issue number.
    pub number: u32,
    /// Current state of the issue.
    pub state: String,
}

} // verus!
