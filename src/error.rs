use vstd::prelude::*;

verus! {

/// Stable user-facing error codes.
#[derive(Debug, Clone, Copy, PartialEq, Eq, Structural)]
pub enum Code {
    Unknown,
    Validation,
    Projects,
    Branches,
    ProjectGitAuth,
    ProjectGitRemote,
    ProjectConflict,
    ProjectHead,
    Menu,
    PreCommitHook,
    CommitMsgHook,
}

/// The wire text of each code.
pub open spec fn code_text(c: Code) -> Seq<char> {
    match c {
        Code::Menu => "errors.menu"@,
        Code::Unknown => "errors.unknown"@,
        Code::Validation => "errors.validation"@,
        Code::Projects => "errors.projects"@,
        Code::Branches => "errors.branches"@,
        Code::ProjectGitAuth => "errors.projects.git.auth"@,
        Code::ProjectGitRemote => "errors.projects.git.remote"@,
        Code::ProjectHead => "errors.projects.head"@,
        Code::ProjectConflict => "errors.projects.conflict"@,
        Code::PreCommitHook => "errors.hook"@,
        Code::CommitMsgHook => "errors.hooks.commit.msg"@,
    }
}

impl Code {
    /// The stable string under which the user interface knows this code.
    pub fn as_text(&self) -> (r: String)
        ensures
            r@ == code_text(*self),
    {
        match self {
            Code::Menu => "errors.menu".to_owned(),
            Code::Unknown => "errors.unknown".to_owned(),
            Code::Validation => "errors.validation".to_owned(),
            Code::Projects => "errors.projects".to_owned(),
            Code::Branches => "errors.branches".to_owned(),
            Code::ProjectGitAuth => "errors.projects.git.auth".to_owned(),
            Code::ProjectGitRemote => "errors.projects.git.remote".to_owned(),
            Code::ProjectHead => "errors.projects.head".to_owned(),
            Code::ProjectConflict => "errors.projects.conflict".to_owned(),
            Code::PreCommitHook => "errors.hook".to_owned(),
            Code::CommitMsgHook => "errors.hooks.commit.msg".to_owned(),
        }
    }
}

/// The generic message shown for failures whose detail stays internal.
pub open spec fn unknown_message() -> Seq<char> {
    "Something went wrong"@
}

/// An error as the user sees it: a stable code and a message, or an opaque failure.
#[derive(Debug)]
pub enum UserError {
    User { code: Code, message: String },
    Unknown,
}

impl UserError {
    pub open spec fn spec_code(&self) -> Code {
        match self {
            UserError::User { code, .. } => *code,
            UserError::Unknown => Code::Unknown,
        }
    }

    pub open spec fn spec_message(&self) -> Seq<char> {
        match self {
            UserError::User { message, .. } => message@,
            UserError::Unknown => unknown_message(),
        }
    }

    /// True when this is a coded user error with exactly this code and message.
    pub open spec fn is_user(&self, c: Code, m: Seq<char>) -> bool {
        &&& self is User
        &&& self.spec_code() == c
        &&& self.spec_message() == m
    }

    pub fn code(&self) -> (r: Code)
        ensures
            r == self.spec_code(),
    {
        match self {
            UserError::User { code, .. } => *code,
            UserError::Unknown => Code::Unknown,
        }
    }

    pub fn message(&self) -> (r: String)
        ensures
            r@ == self.spec_message(),
    {
        match self {
            UserError::User { message, .. } => message.clone(),
            UserError::Unknown => "Something went wrong".to_owned(),
        }
    }

    /// The two entries sent over the wire: the code's text and the message.
    pub fn to_wire(&self) -> (r: (String, String))
        ensures
            r.0@ == code_text(self.spec_code()),
            r.1@ == self.spec_message(),
    {
        let c = self.code();
        (c.as_text(), self.message())
    }

    /// The one-line description `[<code>]: <message>`.
    pub fn describe(&self) -> (r: String)
        ensures
            r@ == "["@ + code_text(self.spec_code()) + "]: "@ + self.spec_message(),
    {
        let (code, message) = self.to_wire();
        let mut out = "[".to_owned();
        out.append(code.as_str());
        out.append("]: ");
        out.append(message.as_str());
        out
    }
}

#[verifier::external_type_specification]
#[verifier::external_body]
pub struct ExAnyhowError(anyhow::Error);

impl From<anyhow::Error> for UserError {
    /// Any untyped internal failure becomes the opaque unknown error.
    fn from(_error: anyhow::Error) -> (r: UserError)
        ensures
            r is Unknown,
    {
        UserError::Unknown
    }
}

impl vstd::std_specs::convert::FromSpecImpl<anyhow::Error> for UserError {
    open spec fn obeys_from_spec() -> bool {
        true
    }

    open spec fn from_spec(v: anyhow::Error) -> UserError {
        UserError::Unknown
    }
}

} // verus!
