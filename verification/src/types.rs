//! The document's data model: tasks, folders, and the error kinds of the
//! document layer.

use vstd::prelude::*;

verus! {

/// A single to-do item with text, colour tag, and completion flag.
/// Its `id` is unique within its owning folder (caller-supplied).
#[derive(Debug, Clone, PartialEq)]
pub struct Task {
    pub text: String,
    pub colour: String,
    pub completed: bool,
    pub id: String,
}

/// The mathematical model of a [`Task`]: the same fields over `Seq<char>`.
#[verifier::ext_equal]
pub ghost struct TaskView {
    pub text: Seq<char>,
    pub colour: Seq<char>,
    pub completed: bool,
    pub id: Seq<char>,
}

impl View for Task {
    type V = TaskView;

    open spec fn view(&self) -> TaskView {
        TaskView {
            text: self.text@,
            colour: self.colour@,
            completed: self.completed,
            id: self.id@,
        }
    }
}

/// The model of a task list: the views of its tasks, in order.
pub open spec fn tasks_view(ts: Seq<Task>) -> Seq<TaskView> {
    ts.map_values(|t: Task| t@)
}

/// A named, positioned, resizable container for an ordered list of tasks.
/// Its `id` is unique across the document (caller-supplied).
#[derive(Debug, Clone, PartialEq)]
pub struct TaskFolder {
    pub id: String,
    pub name: String,
    pub colour: String,
    pub visible: bool,
    pub tasks: Vec<Task>,
    pub width: i32,
    pub height: i32,
    pub x: i32,
    pub y: i32,
    pub zindex: i32,
}

/// The mathematical model of a [`TaskFolder`], with its tasks as a
/// sequence of [`TaskView`]s.
#[verifier::ext_equal]
pub ghost struct FolderView {
    pub id: Seq<char>,
    pub name: Seq<char>,
    pub colour: Seq<char>,
    pub visible: bool,
    pub tasks: Seq<TaskView>,
    pub width: int,
    pub height: int,
    pub x: int,
    pub y: int,
    pub zindex: int,
}

impl View for TaskFolder {
    type V = FolderView;

    open spec fn view(&self) -> FolderView {
        FolderView {
            id: self.id@,
            name: self.name@,
            colour: self.colour@,
            visible: self.visible,
            tasks: tasks_view(self.tasks@),
            width: self.width as int,
            height: self.height as int,
            x: self.x as int,
            y: self.y as int,
            zindex: self.zindex as int,
        }
    }
}

/// A stored mail account record. It takes no part in the document
/// operations; it is kept for callers that persist account settings.
#[derive(Debug, Clone, PartialEq)]
pub struct EmailAccount {
    pub email: String,
    pub app_password: String,
    pub label: Option<String>,
}

/// The error kinds of the document layer.
///
/// `IoError` is never produced by the verified functions themselves: it is
/// the variant a caller doing file work maps its failures to.
#[derive(Clone, Copy, Debug, PartialEq, Eq, Structural)]
pub enum DocError {
    /// The backing storage could not be read or written.
    IoError,
    /// The stored content is not a structurally valid document.
    ParseError,
    /// A referenced folder or task id does not exist.
    NotFound,
    /// An argument breaks an operation's rule, such as a mismatched
    /// id count when duplicating a folder.
    ValidationError,
}

impl DocError {
    /// A short human-readable description of the error.
    pub fn message(&self) -> (r: &'static str)
        ensures
            r@ == self.spec_message(),
    {
        match self {
            DocError::IoError => "could not read or write the task store",
            DocError::ParseError => "the task store holds an invalid document",
            DocError::NotFound => "no folder or task with that id",
            DocError::ValidationError => "invalid arguments for this operation",
        }
    }

    /// What [`DocError::message`] returns, as a sequence of characters.
    pub open spec fn spec_message(&self) -> Seq<char> {
        match self {
            DocError::IoError => "could not read or write the task store"@,
            DocError::ParseError => "the task store holds an invalid document"@,
            DocError::NotFound => "no folder or task with that id"@,
            DocError::ValidationError => "invalid arguments for this operation"@,
        }
    }
}

} // verus!
