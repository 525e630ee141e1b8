use vstd::prelude::*;

use crate::errors::ApiError;
use crate::models::ClassroomRole;
use crate::store::Store;

verus! {

/// The protected operations of the backend.
#[derive(Clone, Copy, Debug, PartialEq, Eq, Structural)]
pub enum Action {
    CreateClassroom,
    ReadClassroom,
    JoinClassroom,
    CreateAssignment,
    ReadAssignment,
    SubmitWork,
    CancelSubmission,
    AddMaterials,
    DownloadMaterial,
    DownloadSubmissionFile,
    ListSubmissions,
    ReadSubmission,
    GradeSubmission,
    CancelGrade,
}

/// What an action demands of the caller on the target classroom.
#[derive(Clone, Copy, Debug, PartialEq, Eq, Structural)]
pub enum AccessLevel {
    /// Any authenticated principal.
    AnyUser,
    /// Any role-grant on the classroom.
    Member,
    /// A teacher grant on the classroom.
    Teacher,
}

/// The policy matrix: the access level each action requires.
pub open spec fn required_level(action: Action) -> AccessLevel {
    match action {
        Action::CreateClassroom => AccessLevel::AnyUser,
        Action::ReadClassroom => AccessLevel::AnyUser,
        Action::JoinClassroom => AccessLevel::AnyUser,
        Action::CreateAssignment => AccessLevel::Teacher,
        Action::ReadAssignment => AccessLevel::Member,
        Action::SubmitWork => AccessLevel::Member,
        Action::CancelSubmission => AccessLevel::Member,
        Action::AddMaterials => AccessLevel::Teacher,
        Action::DownloadMaterial => AccessLevel::Member,
        Action::DownloadSubmissionFile => AccessLevel::Teacher,
        Action::ListSubmissions => AccessLevel::Teacher,
        Action::ReadSubmission => AccessLevel::Teacher,
        Action::GradeSubmission => AccessLevel::Teacher,
        Action::CancelGrade => AccessLevel::Teacher,
    }
}

/// The decision the evaluator owes for a principal, classroom and action,
/// against live role-grants: absent principals and classrooms are not
/// found; a missing grant denies membership; a grant below the required
/// level denies the role. The three denials are distinct.
pub open spec fn authorize_spec(
    s: Store,
    user_id: int,
    classroom_id: int,
    action: Action,
) -> Result<(), ApiError> {
    if !s.has_user(user_id) {
        Err(ApiError::NotFound)
    } else if !s.has_classroom(classroom_id) {
        Err(ApiError::NotFound)
    } else {
        match required_level(action) {
            AccessLevel::AnyUser => Ok(()),
            AccessLevel::Member => if s.has_grant(user_id, classroom_id) {
                Ok(())
            } else {
                Err(ApiError::NotMember)
            },
            AccessLevel::Teacher => if !s.has_grant(user_id, classroom_id) {
                Err(ApiError::NotMember)
            } else if s.is_teacher_of(user_id, classroom_id) {
                Ok(())
            } else {
                Err(ApiError::InsufficientRole)
            },
        }
    }
}

/// The access level an action requires, matching `required_level`.
pub fn level_of(action: Action) -> (r: AccessLevel)
    ensures
        r == required_level(action),
{
    match action {
        Action::CreateClassroom => AccessLevel::AnyUser,
        Action::ReadClassroom => AccessLevel::AnyUser,
        Action::JoinClassroom => AccessLevel::AnyUser,
        Action::CreateAssignment => AccessLevel::Teacher,
        Action::ReadAssignment => AccessLevel::Member,
        Action::SubmitWork => AccessLevel::Member,
        Action::CancelSubmission => AccessLevel::Member,
        Action::AddMaterials => AccessLevel::Teacher,
        Action::DownloadMaterial => AccessLevel::Member,
        Action::DownloadSubmissionFile => AccessLevel::Teacher,
        Action::ListSubmissions => AccessLevel::Teacher,
        Action::ReadSubmission => AccessLevel::Teacher,
        Action::GradeSubmission => AccessLevel::Teacher,
        Action::CancelGrade => AccessLevel::Teacher,
    }
}

/// Decides an action for a principal on a classroom, as `authorize_spec`
/// describes.
pub fn authorize(store: &Store, user_id: i32, classroom_id: i32, action: Action) -> (r: Result<
    (),
    ApiError,
>)
    requires
        store.wf(),
    ensures
        r == authorize_spec(*store, user_id as int, classroom_id as int, action),
{
    if store.find_user(user_id).is_none() {
        return Err(ApiError::NotFound);
    }
    if store.find_classroom(classroom_id).is_none() {
        return Err(ApiError::NotFound);
    }
    match level_of(action) {
        AccessLevel::AnyUser => Ok(()),
        AccessLevel::Member => {
            match store.find_grant(user_id, classroom_id) {
                Some(_) => Ok(()),
                None => Err(ApiError::NotMember),
            }
        },
        AccessLevel::Teacher => {
            match store.find_grant(user_id, classroom_id) {
                None => Err(ApiError::NotMember),
                Some(g) => {
                    proof {
                        store.lemma_teacher_grant(user_id as int, classroom_id as int);
                    }
                    if store.grants[g].role == ClassroomRole::Teacher {
                        Ok(())
                    } else {
                        Err(ApiError::InsufficientRole)
                    }
                },
            }
        },
    }
}

/// A principal holding only a student grant on a classroom is denied the
/// teacher-level actions with an insufficient-role failure, never with
/// not-found: grading, grade cancellation, listing or reading submissions,
/// and downloading submission files.
pub proof fn lemma_student_denied_teacher_actions(
    s: Store,
    user_id: int,
    classroom_id: int,
    action: Action,
)
    requires
        s.wf(),
        s.has_grant(user_id, classroom_id),
        s.grant_for(user_id, classroom_id).role == ClassroomRole::Student,
        required_level(action) == AccessLevel::Teacher,
    ensures
        authorize_spec(s, user_id, classroom_id, action) == Err::<(), ApiError>(
            ApiError::InsufficientRole,
        ),
{
    let k = s.grant_idx(user_id, classroom_id);
    assert(s.grants@[k].user_id == user_id && s.grants@[k].classroom_id == classroom_id);
    assert(s.has_user(user_id) && s.has_classroom(classroom_id));
    s.lemma_teacher_grant(user_id, classroom_id);
}

} // verus!
