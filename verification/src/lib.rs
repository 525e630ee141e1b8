//! A classroom-management backend with a verified core: credential
//! issuance and validation, a per-classroom authorization evaluator, and
//! the submission lifecycle (submit, resubmit, cancel, grade, cancel
//! grade) over an in-memory relational store with uniqueness and
//! referential invariants. Storage, HTTP transport and blob I/O live
//! outside the library and hand it plain values.

pub mod auth;
pub mod authz;
pub mod classroom;
pub mod b64;
pub mod datetime;
pub mod dto;
pub mod errors;
pub mod jwt;
pub mod laws;
pub mod models;
pub mod numfmt;
pub mod store;
pub mod submissions;
pub mod user;

pub use dto::{
    AssignmentFile, AssignmentInfo, AssignmentResponse, AuthResponse, ClassroomListResponse,
    ClassroomResponse, ClassroomRoleResponse, ClassroomUser, CreateAssignmentRequest,
    CreateClassroomRequest, CreatedAssignmentResponse, EditProfileRequest, GradeSubmissionRequest,
    JoinClassroomRequest, LoginRequest, RegisterRequest, SubmissionInfo, SubmissionResponse,
    UploadedFile, UserClassroomResponse, UserProfileResponse,
};
pub use errors::ApiError;
pub use store::Store;
pub use jwt::Claims;
pub use models::{
    Assignment, Classroom, ClassroomRole, FileKind, FileRecord, Submission, User,
    UserClassroomRole,
};

pub use auth::{login, register};
pub use classroom::{create_assignment, create_class, get_assignment, get_class, get_class_role,
    join_class};
pub use jwt::{check_auth, create_jwt, validate_jwt};
pub use submissions::{add_assignment_materials, cancel_grade, cancel_submission,
    delete_assignment_file, download_material_file, download_submission_file, get_submission,
    grade_submission, list_submissions, new_upload_path, save_submission_multipart_files};
pub use user::{edit_profile, get_user, list_classes, profile};
