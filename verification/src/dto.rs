use vstd::prelude::*;

verus! {

/// Response of register and login: the authenticated principal.
#[derive(Clone, Debug, PartialEq, Eq)]
pub struct AuthResponse {
    pub user_id: i32,
    pub email: String,
}

/// Request body of register.
#[derive(Clone, Debug, PartialEq, Eq)]
pub struct RegisterRequest {
    pub name: String,
    pub email: String,
    pub password: String,
}

/// Request body of login.
#[derive(Clone, Debug, PartialEq, Eq)]
pub struct LoginRequest {
    pub email: String,
    pub password: String,
}

/// Request body of edit_profile. Only the name is applied; the avatar is
/// carried for interface compatibility and ignored.
#[derive(Clone, Debug, PartialEq, Eq)]
pub struct EditProfileRequest {
    pub name: String,
    pub avatar_url: String,
}

/// Response of profile and edit_profile.
#[derive(Clone, Debug, PartialEq, Eq)]
pub struct UserProfileResponse {
    pub id: i32,
    pub name: String,
    pub email: String,
}

/// Request body of create_class.
#[derive(Clone, Debug, PartialEq, Eq)]
pub struct CreateClassroomRequest {
    pub title: String,
    pub description: String,
}

/// One classroom in the list a principal is enrolled in or teaches.
#[derive(Clone, Debug, PartialEq, Eq)]
pub struct ClassroomListResponse {
    pub id: i32,
    pub title: String,
    pub teacher: String,
    pub upcoming_assignment: Option<String>,
}

/// Response of get_class.
#[derive(Clone, Debug, PartialEq, Eq)]
pub struct ClassroomResponse {
    pub id: i32,
    pub title: String,
    pub teacher: String,
    pub description: String,
    pub assignments: Vec<AssignmentInfo>,
    pub users: Vec<ClassroomUser>,
    pub join_code: String,
}

/// One member of a classroom, with the stored role name.
#[derive(Clone, Debug, PartialEq, Eq)]
pub struct ClassroomUser {
    pub name: String,
    pub role: String,
}

/// One assignment in a classroom overview.
#[derive(Clone, Debug, PartialEq, Eq)]
pub struct AssignmentInfo {
    pub id: i32,
    pub title: String,
    pub due_date: String,
}

/// One submission in the teacher's listing.
#[derive(Clone, Debug, PartialEq, Eq)]
pub struct SubmissionInfo {
    pub id: i32,
    pub assignment_id: i32,
    pub assignment_title: String,
    pub student_name: String,
    pub submitted_at: Option<String>,
    pub is_graded: bool,
    pub grade: Option<i32>,
}

/// Response of get_submission.
#[derive(Clone, Debug, PartialEq, Eq)]
pub struct SubmissionResponse {
    pub id: i32,
    pub assignment_id: i32,
    pub assignment_title: String,
    pub assignment_points: i32,
    pub student_name: String,
    pub submitted_at: Option<String>,
    pub is_graded: bool,
    pub grade: Option<i32>,
    pub graded_at: Option<String>,
    pub grader_name: Option<String>,
    pub files: Vec<AssignmentFile>,
}

/// Request body of grade_submission. A missing grade value still grades the
/// submission, with no score.
#[derive(Clone, Debug, PartialEq, Eq)]
pub struct GradeSubmissionRequest {
    pub grade: Option<i32>,
}

/// Response of get_assignment, as seen by the requesting principal.
#[derive(Clone, Debug, PartialEq, Eq)]
pub struct AssignmentResponse {
    pub id: i32,
    pub class_id: i32,
    pub title: String,
    pub class_title: String,
    pub description: String,
    pub due_date: String,
    pub points: i32,
    pub materials: Vec<AssignmentFile>,
    pub submission_files: Vec<AssignmentFile>,
    pub is_submitted: bool,
    pub grade: Option<i32>,
}

/// One file attached to an assignment, as listed in responses.
#[derive(Clone, Debug, PartialEq, Eq)]
pub struct AssignmentFile {
    pub id: i32,
    pub file_name: String,
    pub content_type: String,
    pub file_type: String,
}

/// Response of list_classes.
#[derive(Clone, Debug, PartialEq, Eq)]
pub struct UserClassroomResponse {
    pub enrolled_classes: Vec<ClassroomListResponse>,
    pub teaching_classes: Vec<ClassroomListResponse>,
}

/// Request body of create_assignment. The due date, when present, is a
/// minute-precision civil time, for example "2025-06-07T14:30".
#[derive(Clone, Debug, PartialEq, Eq)]
pub struct CreateAssignmentRequest {
    pub title: String,
    pub description: String,
    pub due_date: Option<String>,
    pub points: i32,
}

/// Response of create_assignment.
#[derive(Clone, Debug, PartialEq, Eq)]
pub struct CreatedAssignmentResponse {
    pub id: i32,
}

/// Response of get_class_role.
#[derive(Clone, Debug, PartialEq, Eq)]
pub struct ClassroomRoleResponse {
    pub is_teacher: bool,
}

/// Request body of join_class.
#[derive(Clone, Debug, PartialEq, Eq)]
pub struct JoinClassroomRequest {
    pub join_code: String,
}

/// One uploaded file handed to the library after its bytes were stored:
/// the name it was uploaded under, the storage path it was written to, and
/// its content type.
#[derive(Clone, Debug, PartialEq, Eq)]
pub struct UploadedFile {
    pub file_name: String,
    pub file_path: String,
    pub content_type: String,
}

} // verus!
