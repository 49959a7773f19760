use vstd::prelude::*;

use crate::error::{Code, UserError};

verus! {

/// Why updating a project failed.
pub enum UpdateError {
    NotFound,
    Other(anyhow::Error),
}

/// Why opening a project's repository failed.
pub enum OpenError {
    NotFound,
    Other(anyhow::Error),
}

/// Why adding a project failed.
pub enum AddError {
    NotAGitRepository,
    AlreadyExists,
    OpenProjectRepository(OpenError),
    NotADirectory,
    PathNotFound,
    User(UserError),
    Other(anyhow::Error),
}

/// Why looking up a project failed.
pub enum GetError {
    NotFound,
    Other(anyhow::Error),
}

/// Why listing the projects failed.
pub enum ListError {
    Other(anyhow::Error),
}

/// Why deleting a project failed.
pub enum DeleteError {
    Other(anyhow::Error),
}

/// The user-facing code of each kind of update failure.
pub open spec fn update_error_code(e: &UpdateError) -> Code {
    match e {
        UpdateError::NotFound => Code::Projects,
        UpdateError::Other(_) => Code::Unknown,
    }
}

/// The user-facing code of each kind of failure to open a repository.
pub open spec fn open_error_code(e: &OpenError) -> Code {
    match e {
        OpenError::NotFound => Code::Projects,
        OpenError::Other(_) => Code::Unknown,
    }
}

/// The user-facing code of each kind of failure to add a project.
pub open spec fn add_error_code(e: &AddError) -> Code {
    match e {
        AddError::OpenProjectRepository(o) => open_error_code(o),
        AddError::User(u) => u.spec_code(),
        AddError::Other(_) => Code::Unknown,
        _ => Code::Projects,
    }
}

/// The user-facing code of each kind of lookup failure.
pub open spec fn get_error_code(e: &GetError) -> Code {
    match e {
        GetError::NotFound => Code::Projects,
        GetError::Other(_) => Code::Unknown,
    }
}

/// A user error with the given code and message.
fn user(code: Code, message: &str) -> (r: UserError)
    ensures
        r.is_user(code, message@),
{
    UserError::User { code, message: message.to_owned() }
}

impl UpdateError {
    pub fn into_user_error(self) -> (r: UserError)
        ensures
            r.spec_code() == update_error_code(&self),
            self is NotFound ==> r.is_user(Code::Projects, "Project not found"@),
            self is Other ==> r is Unknown,
    {
        match self {
            UpdateError::NotFound => user(Code::Projects, "Project not found"),
            UpdateError::Other(_) => UserError::Unknown,
        }
    }
}

impl OpenError {
    /// A missing repository is reported under the projects code with the message
    /// "Repository not found", a wording this library chose; any other failure is unknown.
    pub fn into_user_error(self) -> (r: UserError)
        ensures
            r.spec_code() == open_error_code(&self),
            self is NotFound ==> r.is_user(Code::Projects, "Repository not found"@),
            self is Other ==> r is Unknown,
    {
        match self {
            OpenError::NotFound => user(Code::Projects, "Repository not found"),
            OpenError::Other(_) => UserError::Unknown,
        }
    }
}

impl AddError {
    pub fn into_user_error(self) -> (r: UserError)
        ensures
            r.spec_code() == add_error_code(&self),
            self is NotAGitRepository ==> r.is_user(Code::Projects, "Must be a git directory"@),
            self is AlreadyExists ==> r.is_user(Code::Projects, "Project already exists"@),
            self is NotADirectory ==> r.is_user(Code::Projects, "Not a directory"@),
            self is PathNotFound ==> r.is_user(Code::Projects, "Path not found"@),
            self is Other ==> r is Unknown,
            match self {
                AddError::User(u) => r == u,
                AddError::OpenProjectRepository(OpenError::NotFound) => r.is_user(
                    Code::Projects,
                    "Repository not found"@,
                ),
                AddError::OpenProjectRepository(OpenError::Other(_)) => r is Unknown,
                _ => true,
            },
    {
        match self {
            AddError::NotAGitRepository => user(Code::Projects, "Must be a git directory"),
            AddError::AlreadyExists => user(Code::Projects, "Project already exists"),
            AddError::OpenProjectRepository(error) => error.into_user_error(),
            AddError::NotADirectory => user(Code::Projects, "Not a directory"),
            AddError::PathNotFound => user(Code::Projects, "Path not found"),
            AddError::User(error) => error,
            AddError::Other(_) => UserError::Unknown,
        }
    }
}

impl GetError {
    pub fn into_user_error(self) -> (r: UserError)
        ensures
            r.spec_code() == get_error_code(&self),
            self is NotFound ==> r.is_user(Code::Projects, "Project not found"@),
            self is Other ==> r is Unknown,
    {
        match self {
            GetError::NotFound => user(Code::Projects, "Project not found"),
            GetError::Other(_) => UserError::Unknown,
        }
    }
}

impl ListError {
    pub fn into_user_error(self) -> (r: UserError)
        ensures
            r is Unknown,
    {
        UserError::Unknown
    }
}

impl DeleteError {
    pub fn into_user_error(self) -> (r: UserError)
        ensures
            r is Unknown,
    {
        UserError::Unknown
    }
}

impl From<ListError> for UserError {
    /// Listing fails only for internal reasons, which the user sees as unknown.
    fn from(e: ListError) -> (r: UserError)
        ensures
            r is Unknown,
    {
        e.into_user_error()
    }
}

impl vstd::std_specs::convert::FromSpecImpl<ListError> for UserError {
    open spec fn obeys_from_spec() -> bool {
        true
    }

    open spec fn from_spec(v: ListError) -> UserError {
        UserError::Unknown
    }
}

impl From<DeleteError> for UserError {
    /// Deleting fails only for internal reasons, which the user sees as unknown.
    fn from(e: DeleteError) -> (r: UserError)
        ensures
            r is Unknown,
    {
        e.into_user_error()
    }
}

impl vstd::std_specs::convert::FromSpecImpl<DeleteError> for UserError {
    open spec fn obeys_from_spec() -> bool {
        true
    }

    open spec fn from_spec(v: DeleteError) -> UserError {
        UserError::Unknown
    }
}

/// The error returned when a project identifier does not parse.
pub fn malformed_project_id() -> (r: UserError)
    ensures
        r.is_user(Code::Validation, "Malformed project id"@),
{
    user(Code::Validation, "Malformed project id")
}

/// Each kind of failure maps to one fixed code: a missing project is always reported
/// under the projects code and never as unknown, and an untyped failure always as unknown.
pub proof fn lemma_error_codes_are_stable(a: UpdateError, g: GetError, o: OpenError)
    ensures
        a is NotFound ==> update_error_code(&a) == Code::Projects,
        a is Other ==> update_error_code(&a) == Code::Unknown,
        g is NotFound ==> get_error_code(&g) == Code::Projects,
        g is Other ==> get_error_code(&g) == Code::Unknown,
        o is NotFound ==> open_error_code(&o) == Code::Projects,
        o is Other ==> open_error_code(&o) == Code::Unknown,
{
}

} // verus!
