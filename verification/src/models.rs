use vstd::prelude::*;

verus! {

broadcast use vstd::string::group_string_axioms;

/// The role a principal holds on one classroom. A classroom's creator is
/// persisted as a teacher-equivalent grant, so stored rows only ever carry
/// `Teacher` or `Student`; `Creator` exists for callers that name it.
#[derive(Clone, Copy, Debug, PartialEq, Eq, Structural)]
pub enum ClassroomRole {
    Creator,
    Teacher,
    Student,
}

impl ClassroomRole {
    /// Reads a role from its stored lowercase name. Any other string is
    /// excluded by the caller.
    pub fn from(role: String) -> (r: ClassroomRole)
        requires
            role@ == "creator"@ || role@ == "teacher"@ || role@ == "student"@,
        ensures
            role@ == "creator"@ ==> r == ClassroomRole::Creator,
            role@ == "teacher"@ ==> r == ClassroomRole::Teacher,
            role@ == "student"@ ==> r == ClassroomRole::Student,
    {
        proof {
            reveal_strlit("creator");
            reveal_strlit("teacher");
            reveal_strlit("student");
            assert("creator"@[0] == 'c');
            assert("teacher"@[0] == 't');
            assert("student"@[0] == 's');
        }
        let creator = String::from_str("creator");
        let teacher = String::from_str("teacher");
        if role == creator {
            ClassroomRole::Creator
        } else if role == teacher {
            ClassroomRole::Teacher
        } else {
            ClassroomRole::Student
        }
    }

    /// The stored lowercase name of the role.
    pub fn name(&self) -> (r: String)
        ensures
            *self == ClassroomRole::Creator ==> r@ == "creator"@,
            *self == ClassroomRole::Teacher ==> r@ == "teacher"@,
            *self == ClassroomRole::Student ==> r@ == "student"@,
    {
        match self {
            ClassroomRole::Creator => String::from_str("creator"),
            ClassroomRole::Teacher => String::from_str("teacher"),
            ClassroomRole::Student => String::from_str("student"),
        }
    }
}

/// A registered principal. Identity is the numeric id; the email is unique
/// across all principals.
pub struct User {
    pub id: i32,
    pub name: String,
    pub email: String,
    pub password_hash: String,
    pub created_at: i64,
}

/// A role-grant: one principal's membership in one classroom. At most one
/// grant exists per (principal, classroom) pair.
pub struct UserClassroomRole {
    pub user_id: i32,
    pub classroom_id: i32,
    pub role: ClassroomRole,
    pub joined_at: i64,
}

/// A classroom, owned by its creator, joinable through a unique join code.
pub struct Classroom {
    pub id: i32,
    pub id_base64: String,
    pub name: String,
    pub description: String,
    pub join_code: String,
    pub creator_id: i32,
    pub created_at: i64,
}

/// An assignment inside a classroom, with an optional due date held as a
/// UTC timestamp in seconds.
pub struct Assignment {
    pub id: i32,
    pub id_base64: String,
    pub classroom_id: i32,
    pub title: String,
    pub description: String,
    pub due_date: Option<i64>,
    pub points: i32,
    pub created_by: i32,
    pub created_at: i64,
}

/// The submission record of one student for one assignment; at most one row
/// exists per (assignment, student) pair. A row whose `submitted_at` is
/// `None` counts as "no submission".
pub struct Submission {
    pub id: i32,
    pub assignment_id: i32,
    pub user_id: i32,
    pub submitted_at: Option<i64>,
    pub is_graded: bool,
    pub grade: Option<i32>,
    pub graded_at: Option<i64>,
    pub graded_by: Option<i32>,
}

impl Submission {
    /// Grading bookkeeping is consistent: a record is graded exactly when it
    /// carries a grading timestamp and a grader. The grade value itself may
    /// be absent even on a graded record (an explicit "graded, no score").
    pub open spec fn grading_consistent(self) -> bool {
        &&& self.is_graded <==> self.graded_at is Some
        &&& self.is_graded <==> self.graded_by is Some
    }
}

/// Whether a stored file is teacher material or part of a student submission.
#[derive(Clone, Copy, Debug, PartialEq, Eq, Structural)]
pub enum FileKind {
    Material,
    Submission,
}

/// A file attached to an assignment: either material uploaded by a teacher
/// or a file belonging to a student's submission.
pub struct FileRecord {
    pub id: i32,
    pub assignment_id: i32,
    pub user_id: i32,
    pub file_name: String,
    pub file_path: String,
    pub content_type: String,
    pub kind: FileKind,
}

} // verus!
