use gitbutler_core::error::{Code, UserError};
use gitbutler_core::projects::{
    malformed_project_id, AddError, DeleteError, GetError, ListError, OpenError, UpdateError,
};

#[test]
fn code_texts() {
    assert_eq!(Code::Menu.as_text(), "errors.menu");
    assert_eq!(Code::Unknown.as_text(), "errors.unknown");
    assert_eq!(Code::Validation.as_text(), "errors.validation");
    assert_eq!(Code::Projects.as_text(), "errors.projects");
    assert_eq!(Code::Branches.as_text(), "errors.branches");
    assert_eq!(Code::ProjectGitAuth.as_text(), "errors.projects.git.auth");
    assert_eq!(Code::ProjectGitRemote.as_text(), "errors.projects.git.remote");
    assert_eq!(Code::ProjectHead.as_text(), "errors.projects.head");
    assert_eq!(Code::ProjectConflict.as_text(), "errors.projects.conflict");
    assert_eq!(Code::PreCommitHook.as_text(), "errors.hook");
    assert_eq!(Code::CommitMsgHook.as_text(), "errors.hooks.commit.msg");
}

#[test]
fn wire_form_and_description() {
    let e = UserError::User { code: Code::Projects, message: "Project not found".to_string() };
    assert_eq!(e.to_wire(), ("errors.projects".to_string(), "Project not found".to_string()));
    assert_eq!(e.describe(), "[errors.projects]: Project not found");
    let u = UserError::Unknown;
    assert_eq!(u.to_wire(), ("errors.unknown".to_string(), "Something went wrong".to_string()));
    assert_eq!(u.describe(), "[errors.unknown]: Something went wrong");
}

#[test]
fn untyped_failures_are_unknown() {
    let e: UserError = anyhow::Error::msg("disk on fire").into();
    assert!(matches!(e, UserError::Unknown));
    assert!(matches!(UpdateError::Other(anyhow::Error::msg("x")).into_user_error(), UserError::Unknown));
    assert!(matches!(GetError::Other(anyhow::Error::msg("x")).into_user_error(), UserError::Unknown));
    assert!(matches!(ListError::Other(anyhow::Error::msg("x")).into_user_error(), UserError::Unknown));
    assert!(matches!(DeleteError::Other(anyhow::Error::msg("x")).into_user_error(), UserError::Unknown));
    assert!(matches!(AddError::Other(anyhow::Error::msg("x")).into_user_error(), UserError::Unknown));
    assert!(matches!(
        AddError::OpenProjectRepository(OpenError::Other(anyhow::Error::msg("x"))).into_user_error(),
        UserError::Unknown
    ));
}

#[test]
fn not_found_is_always_projects() {
    for _ in 0..3 {
        let e = GetError::NotFound.into_user_error();
        assert_eq!(e.code(), Code::Projects);
        assert_eq!(e.message(), "Project not found");
        let e = UpdateError::NotFound.into_user_error();
        assert_eq!(e.code(), Code::Projects);
        assert_eq!(e.message(), "Project not found");
    }
}

#[test]
fn add_errors() {
    let cases = [
        (AddError::NotAGitRepository, "Must be a git directory"),
        (AddError::AlreadyExists, "Project already exists"),
        (AddError::NotADirectory, "Not a directory"),
        (AddError::PathNotFound, "Path not found"),
        (AddError::OpenProjectRepository(OpenError::NotFound), "Repository not found"),
    ];
    for (error, message) in cases {
        let e = error.into_user_error();
        assert_eq!(e.code(), Code::Projects);
        assert_eq!(e.message(), message);
    }
    let inner = UserError::User { code: Code::ProjectGitAuth, message: "auth".to_string() };
    let e = AddError::User(inner).into_user_error();
    assert_eq!(e.code(), Code::ProjectGitAuth);
    assert_eq!(e.message(), "auth");
}

#[test]
fn malformed_id() {
    let e = malformed_project_id();
    assert_eq!(e.code(), Code::Validation);
    assert_eq!(e.message(), "Malformed project id");
}

#[test]
fn list_and_delete_convert_through_from() {
    let e: UserError = ListError::Other(anyhow::Error::msg("x")).into();
    assert!(matches!(e, UserError::Unknown));
    let e: UserError = DeleteError::Other(anyhow::Error::msg("x")).into();
    assert!(matches!(e, UserError::Unknown));
}
