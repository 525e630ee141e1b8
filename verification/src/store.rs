use vstd::prelude::*;

use crate::models::{
    Assignment, Classroom, ClassroomRole, FileKind, FileRecord, Submission, User,
    UserClassroomRole,
};

verus! {

/// The relational state the backend operates on: one vector per table, plus
/// the next fresh id of each table. Every operation of the library requires
/// and preserves `wf`, the conjunction of the tables' uniqueness and
/// referential invariants.
pub struct Store {
    pub users: Vec<User>,
    pub classrooms: Vec<Classroom>,
    pub grants: Vec<UserClassroomRole>,
    pub assignments: Vec<Assignment>,
    pub submissions: Vec<Submission>,
    pub files: Vec<FileRecord>,
    pub next_user_id: i32,
    pub next_classroom_id: i32,
    pub next_assignment_id: i32,
    pub next_submission_id: i32,
    pub next_file_id: i32,
}



/// One step of building a filtered prefix: filtering one element longer a
/// prefix appends the element exactly when it satisfies the predicate.
pub proof fn lemma_filter_step<A>(s: Seq<A>, pred: spec_fn(A) -> bool, i: int)
    requires
        0 <= i < s.len(),
    ensures
        s.subrange(0, i + 1).filter(pred) == if pred(s[i]) {
            s.subrange(0, i).filter(pred).push(s[i])
        } else {
            s.subrange(0, i).filter(pred)
        },
{
    reveal(Seq::filter);
    assert(s.subrange(0, i + 1).drop_last() =~= s.subrange(0, i));
    assert(s.subrange(0, i + 1).last() == s[i]);
}

/// The users table and its id counter are untouched.
pub open spec fn same_users(pre: Store, post: Store) -> bool {
    post.users@ == pre.users@ && post.next_user_id == pre.next_user_id
}

/// The classrooms table and its id counter are untouched.
pub open spec fn same_classrooms(pre: Store, post: Store) -> bool {
    post.classrooms@ == pre.classrooms@ && post.next_classroom_id == pre.next_classroom_id
}

/// The role-grants table is untouched.
pub open spec fn same_grants(pre: Store, post: Store) -> bool {
    post.grants@ == pre.grants@
}

/// The assignments table and its id counter are untouched.
pub open spec fn same_assignments(pre: Store, post: Store) -> bool {
    post.assignments@ == pre.assignments@ && post.next_assignment_id == pre.next_assignment_id
}

/// The submissions table and its id counter are untouched.
pub open spec fn same_submissions(pre: Store, post: Store) -> bool {
    post.submissions@ == pre.submissions@ && post.next_submission_id == pre.next_submission_id
}

/// The files table and its id counter are untouched.
pub open spec fn same_files(pre: Store, post: Store) -> bool {
    post.files@ == pre.files@ && post.next_file_id == pre.next_file_id
}

/// Nothing in the store changed.
pub open spec fn same_store(pre: Store, post: Store) -> bool {
    &&& same_users(pre, post)
    &&& same_classrooms(pre, post)
    &&& same_grants(pre, post)
    &&& same_assignments(pre, post)
    &&& same_submissions(pre, post)
    &&& same_files(pre, post)
}

impl Store {
    pub open spec fn has_user(self, id: int) -> bool {
        exists|i: int| 0 <= i < self.users@.len() && (#[trigger] self.users@[i]).id == id
    }

    pub open spec fn user_idx(self, id: int) -> int {
        choose|i: int| 0 <= i < self.users@.len() && (#[trigger] self.users@[i]).id == id
    }

    pub open spec fn user_by_id(self, id: int) -> User {
        self.users@[self.user_idx(id)]
    }

    pub open spec fn has_user_email(self, email: Seq<char>) -> bool {
        exists|i: int| 0 <= i < self.users@.len() && (#[trigger] self.users@[i]).email@ == email
    }

    pub open spec fn user_email_idx(self, email: Seq<char>) -> int {
        choose|i: int| 0 <= i < self.users@.len() && (#[trigger] self.users@[i]).email@ == email
    }

    pub open spec fn has_classroom(self, id: int) -> bool {
        exists|i: int| 0 <= i < self.classrooms@.len() && (#[trigger] self.classrooms@[i]).id == id
    }

    pub open spec fn classroom_idx(self, id: int) -> int {
        choose|i: int| 0 <= i < self.classrooms@.len() && (#[trigger] self.classrooms@[i]).id == id
    }

    pub open spec fn classroom_by_id(self, id: int) -> Classroom {
        self.classrooms@[self.classroom_idx(id)]
    }

    pub open spec fn has_classroom_code(self, code: Seq<char>) -> bool {
        exists|i: int|
            0 <= i < self.classrooms@.len() && (#[trigger] self.classrooms@[i]).join_code@ == code
    }

    pub open spec fn classroom_code_idx(self, code: Seq<char>) -> int {
        choose|i: int|
            0 <= i < self.classrooms@.len() && (#[trigger] self.classrooms@[i]).join_code@ == code
    }

    pub open spec fn has_grant(self, user_id: int, classroom_id: int) -> bool {
        exists|i: int|
            0 <= i < self.grants@.len() && (#[trigger] self.grants@[i]).user_id == user_id
                && self.grants@[i].classroom_id == classroom_id
    }

    pub open spec fn grant_idx(self, user_id: int, classroom_id: int) -> int {
        choose|i: int|
            0 <= i < self.grants@.len() && (#[trigger] self.grants@[i]).user_id == user_id
                && self.grants@[i].classroom_id == classroom_id
    }

    pub open spec fn grant_for(self, user_id: int, classroom_id: int) -> UserClassroomRole {
        self.grants@[self.grant_idx(user_id, classroom_id)]
    }

    /// A principal is a teacher of a classroom exactly when a role-grant with
    /// the stored role `Teacher` exists for the pair.
    pub open spec fn is_teacher_of(self, user_id: int, classroom_id: int) -> bool {
        exists|i: int|
            0 <= i < self.grants@.len() && (#[trigger] self.grants@[i]).user_id == user_id
                && self.grants@[i].classroom_id == classroom_id && self.grants@[i].role
                == ClassroomRole::Teacher
    }

    pub open spec fn has_assignment(self, id: int) -> bool {
        exists|i: int|
            0 <= i < self.assignments@.len() && (#[trigger] self.assignments@[i]).id == id
    }

    pub open spec fn assignment_idx(self, id: int) -> int {
        choose|i: int|
            0 <= i < self.assignments@.len() && (#[trigger] self.assignments@[i]).id == id
    }

    pub open spec fn assignment_by_id(self, id: int) -> Assignment {
        self.assignments@[self.assignment_idx(id)]
    }

    pub open spec fn has_submission_for(self, assignment_id: int, user_id: int) -> bool {
        exists|i: int|
            0 <= i < self.submissions@.len() && (#[trigger] self.submissions@[i]).assignment_id
                == assignment_id && self.submissions@[i].user_id == user_id
    }

    pub open spec fn submission_for_idx(self, assignment_id: int, user_id: int) -> int {
        choose|i: int|
            0 <= i < self.submissions@.len() && (#[trigger] self.submissions@[i]).assignment_id
                == assignment_id && self.submissions@[i].user_id == user_id
    }

    pub open spec fn submission_for(self, assignment_id: int, user_id: int) -> Submission {
        self.submissions@[self.submission_for_idx(assignment_id, user_id)]
    }

    pub open spec fn has_submission(self, id: int) -> bool {
        exists|i: int|
            0 <= i < self.submissions@.len() && (#[trigger] self.submissions@[i]).id == id
    }

    pub open spec fn submission_idx(self, id: int) -> int {
        choose|i: int|
            0 <= i < self.submissions@.len() && (#[trigger] self.submissions@[i]).id == id
    }

    pub open spec fn submission_by_id(self, id: int) -> Submission {
        self.submissions@[self.submission_idx(id)]
    }

    pub open spec fn has_file(self, id: int) -> bool {
        exists|i: int| 0 <= i < self.files@.len() && (#[trigger] self.files@[i]).id == id
    }

    pub open spec fn file_idx(self, id: int) -> int {
        choose|i: int| 0 <= i < self.files@.len() && (#[trigger] self.files@[i]).id == id
    }

    pub open spec fn file_by_id(self, id: int) -> FileRecord {
        self.files@[self.file_idx(id)]
    }

    pub open spec fn users_wf(self) -> bool {
        &&& 1 <= self.next_user_id
        &&& forall|i: int|
            0 <= i < self.users@.len() ==> 1 <= (#[trigger] self.users@[i]).id
                < self.next_user_id
        &&& forall|i: int, j: int|
            #![trigger self.users@[i], self.users@[j]]
            0 <= i < j < self.users@.len() ==> self.users@[i].id != self.users@[j].id
                && self.users@[i].email@ != self.users@[j].email@
    }

    pub open spec fn classrooms_wf(self) -> bool {
        &&& 1 <= self.next_classroom_id
        &&& forall|i: int|
            0 <= i < self.classrooms@.len() ==> 1 <= (#[trigger] self.classrooms@[i]).id
                < self.next_classroom_id && self.has_user(self.classrooms@[i].creator_id as int)
        &&& forall|i: int, j: int|
            #![trigger self.classrooms@[i], self.classrooms@[j]]
            0 <= i < j < self.classrooms@.len() ==> self.classrooms@[i].id
                != self.classrooms@[j].id && self.classrooms@[i].join_code@
                != self.classrooms@[j].join_code@
    }

    pub open spec fn grants_wf(self) -> bool {
        &&& forall|i: int|
            0 <= i < self.grants@.len() ==> self.has_user(
                (#[trigger] self.grants@[i]).user_id as int,
            ) && self.has_classroom(self.grants@[i].classroom_id as int)
        &&& forall|i: int, j: int|
            #![trigger self.grants@[i], self.grants@[j]]
            0 <= i < j < self.grants@.len() ==> !(self.grants@[i].user_id
                == self.grants@[j].user_id && self.grants@[i].classroom_id
                == self.grants@[j].classroom_id)
    }

    pub open spec fn assignments_wf(self) -> bool {
        &&& 1 <= self.next_assignment_id
        &&& forall|i: int|
            0 <= i < self.assignments@.len() ==> 1 <= (#[trigger] self.assignments@[i]).id
                < self.next_assignment_id && self.has_classroom(
                self.assignments@[i].classroom_id as int,
            ) && self.has_user(self.assignments@[i].created_by as int)
        &&& forall|i: int, j: int|
            #![trigger self.assignments@[i], self.assignments@[j]]
            0 <= i < j < self.assignments@.len() ==> self.assignments@[i].id
                != self.assignments@[j].id
    }

    pub open spec fn submissions_wf(self) -> bool {
        &&& 1 <= self.next_submission_id
        &&& forall|i: int|
            0 <= i < self.submissions@.len() ==> 1 <= (#[trigger] self.submissions@[i]).id
                < self.next_submission_id && self.has_assignment(
                self.submissions@[i].assignment_id as int,
            ) && self.has_user(self.submissions@[i].user_id as int)
                && self.submissions@[i].grading_consistent() && (
            self.submissions@[i].graded_by matches Some(g) ==> self.has_user(g as int))
        &&& forall|i: int, j: int|
            #![trigger self.submissions@[i], self.submissions@[j]]
            0 <= i < j < self.submissions@.len() ==> self.submissions@[i].id
                != self.submissions@[j].id && !(self.submissions@[i].assignment_id
                == self.submissions@[j].assignment_id && self.submissions@[i].user_id
                == self.submissions@[j].user_id)
    }

    pub open spec fn files_wf(self) -> bool {
        &&& 1 <= self.next_file_id
        &&& forall|i: int|
            0 <= i < self.files@.len() ==> 1 <= (#[trigger] self.files@[i]).id < self.next_file_id
                && self.has_assignment(self.files@[i].assignment_id as int) && self.has_user(
                self.files@[i].user_id as int,
            )
        &&& forall|i: int, j: int|
            #![trigger self.files@[i], self.files@[j]]
            0 <= i < j < self.files@.len() ==> self.files@[i].id != self.files@[j].id
    }

    /// Well-formedness of the whole store: ids are unique and below the next
    /// fresh id, emails and join codes are unique, at most one role-grant
    /// exists per (principal, classroom), at most one submission exists per
    /// (assignment, student), rows reference existing rows, and grading
    /// bookkeeping is consistent.
    pub open spec fn wf(self) -> bool {
        &&& self.users_wf()
        &&& self.classrooms_wf()
        &&& self.grants_wf()
        &&& self.assignments_wf()
        &&& self.submissions_wf()
        &&& self.files_wf()
    }

    /// An empty store.
    pub fn new() -> (s: Store)
        ensures
            s.wf(),
            s.users@ =~= Seq::<User>::empty(),
            s.classrooms@ =~= Seq::<Classroom>::empty(),
            s.grants@ =~= Seq::<UserClassroomRole>::empty(),
            s.assignments@ =~= Seq::<Assignment>::empty(),
            s.submissions@ =~= Seq::<Submission>::empty(),
            s.files@ =~= Seq::<FileRecord>::empty(),
    {
        Store {
            users: Vec::new(),
            classrooms: Vec::new(),
            grants: Vec::new(),
            assignments: Vec::new(),
            submissions: Vec::new(),
            files: Vec::new(),
            next_user_id: 1,
            next_classroom_id: 1,
            next_assignment_id: 1,
            next_submission_id: 1,
            next_file_id: 1,
        }
    }

    /// Pins the chosen index of a user id to the row that carries it.
    pub proof fn lemma_user_idx(self, i: int)
        requires
            self.wf(),
            0 <= i < self.users@.len(),
        ensures
            self.has_user(self.users@[i].id as int),
            self.user_idx(self.users@[i].id as int) == i,
    {
        let id = self.users@[i].id as int;
        assert(self.has_user(id));
        let k = self.user_idx(id);
        assert(self.users@[k].id == id);
    }

    /// Pins the chosen index of an email to the row that carries it.
    pub proof fn lemma_user_email_idx(self, i: int)
        requires
            self.wf(),
            0 <= i < self.users@.len(),
        ensures
            self.has_user_email(self.users@[i].email@),
            self.user_email_idx(self.users@[i].email@) == i,
    {
        let email = self.users@[i].email@;
        assert(self.has_user_email(email));
        let k = self.user_email_idx(email);
        assert(self.users@[k].email@ == email);
    }

    /// Pins the chosen index of a classroom id to the row that carries it.
    pub proof fn lemma_classroom_idx(self, i: int)
        requires
            self.wf(),
            0 <= i < self.classrooms@.len(),
        ensures
            self.has_classroom(self.classrooms@[i].id as int),
            self.classroom_idx(self.classrooms@[i].id as int) == i,
    {
        let id = self.classrooms@[i].id as int;
        assert(self.has_classroom(id));
        let k = self.classroom_idx(id);
        assert(self.classrooms@[k].id == id);
    }

    /// Pins the chosen index of a join code to the row that carries it.
    pub proof fn lemma_classroom_code_idx(self, i: int)
        requires
            self.wf(),
            0 <= i < self.classrooms@.len(),
        ensures
            self.has_classroom_code(self.classrooms@[i].join_code@),
            self.classroom_code_idx(self.classrooms@[i].join_code@) == i,
    {
        let code = self.classrooms@[i].join_code@;
        assert(self.has_classroom_code(code));
        let k = self.classroom_code_idx(code);
        assert(self.classrooms@[k].join_code@ == code);
    }

    /// Pins the chosen index of a (principal, classroom) pair to its grant.
    pub proof fn lemma_grant_idx(self, i: int)
        requires
            self.wf(),
            0 <= i < self.grants@.len(),
        ensures
            self.has_grant(self.grants@[i].user_id as int, self.grants@[i].classroom_id as int),
            self.grant_idx(self.grants@[i].user_id as int, self.grants@[i].classroom_id as int)
                == i,
    {
        let u = self.grants@[i].user_id as int;
        let c = self.grants@[i].classroom_id as int;
        assert(self.has_grant(u, c));
        let k = self.grant_idx(u, c);
        assert(self.grants@[k].user_id == u && self.grants@[k].classroom_id == c);
    }

    /// A teacher grant for a pair is the pair's unique grant.
    pub proof fn lemma_teacher_grant(self, user_id: int, classroom_id: int)
        requires
            self.wf(),
            self.has_grant(user_id, classroom_id),
        ensures
            self.is_teacher_of(user_id, classroom_id) <==> self.grant_for(
                user_id,
                classroom_id,
            ).role == ClassroomRole::Teacher,
    {
        let k = self.grant_idx(user_id, classroom_id);
        assert(self.grants@[k].user_id == user_id && self.grants@[k].classroom_id == classroom_id);
        if self.is_teacher_of(user_id, classroom_id) {
            let j = choose|j: int|
                0 <= j < self.grants@.len() && (#[trigger] self.grants@[j]).user_id == user_id
                    && self.grants@[j].classroom_id == classroom_id && self.grants@[j].role
                    == ClassroomRole::Teacher;
            assert(self.grants@[j].user_id == user_id);
            assert(j == k);
        }
    }

    /// Pins the chosen index of an assignment id to the row that carries it.
    pub proof fn lemma_assignment_idx(self, i: int)
        requires
            self.wf(),
            0 <= i < self.assignments@.len(),
        ensures
            self.has_assignment(self.assignments@[i].id as int),
            self.assignment_idx(self.assignments@[i].id as int) == i,
    {
        let id = self.assignments@[i].id as int;
        assert(self.has_assignment(id));
        let k = self.assignment_idx(id);
        assert(self.assignments@[k].id == id);
    }

    /// Pins the chosen index of an (assignment, student) pair to its row.
    pub proof fn lemma_submission_for_idx(self, i: int)
        requires
            self.wf(),
            0 <= i < self.submissions@.len(),
        ensures
            self.has_submission_for(
                self.submissions@[i].assignment_id as int,
                self.submissions@[i].user_id as int,
            ),
            self.submission_for_idx(
                self.submissions@[i].assignment_id as int,
                self.submissions@[i].user_id as int,
            ) == i,
    {
        let a = self.submissions@[i].assignment_id as int;
        let u = self.submissions@[i].user_id as int;
        assert(self.has_submission_for(a, u));
        let k = self.submission_for_idx(a, u);
        assert(self.submissions@[k].assignment_id == a && self.submissions@[k].user_id == u);
    }

    /// Pins the chosen index of a submission id to the row that carries it.
    pub proof fn lemma_submission_idx(self, i: int)
        requires
            self.wf(),
            0 <= i < self.submissions@.len(),
        ensures
            self.has_submission(self.submissions@[i].id as int),
            self.submission_idx(self.submissions@[i].id as int) == i,
    {
        let id = self.submissions@[i].id as int;
        assert(self.has_submission(id));
        let k = self.submission_idx(id);
        assert(self.submissions@[k].id == id);
    }

    /// Pins the chosen index of a file id to the row that carries it.
    pub proof fn lemma_file_idx(self, i: int)
        requires
            self.wf(),
            0 <= i < self.files@.len(),
        ensures
            self.has_file(self.files@[i].id as int),
            self.file_idx(self.files@[i].id as int) == i,
    {
        let id = self.files@[i].id as int;
        assert(self.has_file(id));
        let k = self.file_idx(id);
        assert(self.files@[k].id == id);
    }

    pub fn find_user(&self, id: i32) -> (r: Option<usize>)
        requires
            self.wf(),
        ensures
            match r {
                Some(i) => i < self.users@.len() && self.users@[i as int].id == id
                    && self.has_user(id as int) && self.user_idx(id as int) == i as int,
                None => !self.has_user(id as int),
            },
    {
        let n = self.users.len();
        let mut i: usize = 0;
        while i < n
            invariant
                n == self.users@.len(),
                i <= n,
                self.wf(),
                forall|k: int| 0 <= k < i ==> (#[trigger] self.users@[k]).id != id,
            decreases n - i,
        {
            if self.users[i].id == id {
                proof {
                    self.lemma_user_idx(i as int);
                }
                return Some(i);
            }
            i += 1;
        }
        None
    }

    pub fn find_user_by_email(&self, email: &String) -> (r: Option<usize>)
        requires
            self.wf(),
        ensures
            match r {
                Some(i) => i < self.users@.len() && self.users@[i as int].email@ == email@
                    && self.has_user_email(email@) && self.user_email_idx(email@) == i as int,
                None => !self.has_user_email(email@),
            },
    {
        let n = self.users.len();
        let mut i: usize = 0;
        while i < n
            invariant
                n == self.users@.len(),
                i <= n,
                self.wf(),
                forall|k: int| 0 <= k < i ==> (#[trigger] self.users@[k]).email@ != email@,
            decreases n - i,
        {
            if self.users[i].email.eq(email) {
                proof {
                    self.lemma_user_email_idx(i as int);
                }
                return Some(i);
            }
            i += 1;
        }
        None
    }

    pub fn find_classroom(&self, id: i32) -> (r: Option<usize>)
        requires
            self.wf(),
        ensures
            match r {
                Some(i) => i < self.classrooms@.len() && self.classrooms@[i as int].id == id
                    && self.has_classroom(id as int) && self.classroom_idx(id as int) == i as int,
                None => !self.has_classroom(id as int),
            },
    {
        let n = self.classrooms.len();
        let mut i: usize = 0;
        while i < n
            invariant
                n == self.classrooms@.len(),
                i <= n,
                self.wf(),
                forall|k: int| 0 <= k < i ==> (#[trigger] self.classrooms@[k]).id != id,
            decreases n - i,
        {
            if self.classrooms[i].id == id {
                proof {
                    self.lemma_classroom_idx(i as int);
                }
                return Some(i);
            }
            i += 1;
        }
        None
    }

    pub fn find_classroom_by_code(&self, code: &String) -> (r: Option<usize>)
        requires
            self.wf(),
        ensures
            match r {
                Some(i) => i < self.classrooms@.len() && self.classrooms@[i as int].join_code@
                    == code@ && self.has_classroom_code(code@) && self.classroom_code_idx(code@)
                    == i as int,
                None => !self.has_classroom_code(code@),
            },
    {
        let n = self.classrooms.len();
        let mut i: usize = 0;
        while i < n
            invariant
                n == self.classrooms@.len(),
                i <= n,
                self.wf(),
                forall|k: int| 0 <= k < i ==> (#[trigger] self.classrooms@[k]).join_code@ != code@,
            decreases n - i,
        {
            if self.classrooms[i].join_code.eq(code) {
                proof {
                    self.lemma_classroom_code_idx(i as int);
                }
                return Some(i);
            }
            i += 1;
        }
        None
    }

    pub fn find_grant(&self, user_id: i32, classroom_id: i32) -> (r: Option<usize>)
        requires
            self.wf(),
        ensures
            match r {
                Some(i) => i < self.grants@.len() && self.grants@[i as int].user_id == user_id
                    && self.grants@[i as int].classroom_id == classroom_id && self.has_grant(
                    user_id as int,
                    classroom_id as int,
                ) && self.grant_idx(user_id as int, classroom_id as int) == i as int,
                None => !self.has_grant(user_id as int, classroom_id as int),
            },
    {
        let n = self.grants.len();
        let mut i: usize = 0;
        while i < n
            invariant
                n == self.grants@.len(),
                i <= n,
                self.wf(),
                forall|k: int|
                    0 <= k < i ==> !((#[trigger] self.grants@[k]).user_id == user_id
                        && self.grants@[k].classroom_id == classroom_id),
            decreases n - i,
        {
            if self.grants[i].user_id == user_id && self.grants[i].classroom_id == classroom_id {
                proof {
                    self.lemma_grant_idx(i as int);
                }
                return Some(i);
            }
            i += 1;
        }
        None
    }

    pub fn find_assignment(&self, id: i32) -> (r: Option<usize>)
        requires
            self.wf(),
        ensures
            match r {
                Some(i) => i < self.assignments@.len() && self.assignments@[i as int].id == id
                    && self.has_assignment(id as int) && self.assignment_idx(id as int)
                    == i as int,
                None => !self.has_assignment(id as int),
            },
    {
        let n = self.assignments.len();
        let mut i: usize = 0;
        while i < n
            invariant
                n == self.assignments@.len(),
                i <= n,
                self.wf(),
                forall|k: int| 0 <= k < i ==> (#[trigger] self.assignments@[k]).id != id,
            decreases n - i,
        {
            if self.assignments[i].id == id {
                proof {
                    self.lemma_assignment_idx(i as int);
                }
                return Some(i);
            }
            i += 1;
        }
        None
    }

    pub fn find_submission_for(&self, assignment_id: i32, user_id: i32) -> (r: Option<usize>)
        requires
            self.wf(),
        ensures
            match r {
                Some(i) => i < self.submissions@.len() && self.submissions@[i as int].assignment_id
                    == assignment_id && self.submissions@[i as int].user_id == user_id
                    && self.has_submission_for(assignment_id as int, user_id as int)
                    && self.submission_for_idx(assignment_id as int, user_id as int) == i as int,
                None => !self.has_submission_for(assignment_id as int, user_id as int),
            },
    {
        let n = self.submissions.len();
        let mut i: usize = 0;
        while i < n
            invariant
                n == self.submissions@.len(),
                i <= n,
                self.wf(),
                forall|k: int|
                    0 <= k < i ==> !((#[trigger] self.submissions@[k]).assignment_id
                        == assignment_id && self.submissions@[k].user_id == user_id),
            decreases n - i,
        {
            if self.submissions[i].assignment_id == assignment_id && self.submissions[i].user_id
                == user_id {
                proof {
                    self.lemma_submission_for_idx(i as int);
                }
                return Some(i);
            }
            i += 1;
        }
        None
    }

    pub fn find_submission(&self, id: i32) -> (r: Option<usize>)
        requires
            self.wf(),
        ensures
            match r {
                Some(i) => i < self.submissions@.len() && self.submissions@[i as int].id == id
                    && self.has_submission(id as int) && self.submission_idx(id as int)
                    == i as int,
                None => !self.has_submission(id as int),
            },
    {
        let n = self.submissions.len();
        let mut i: usize = 0;
        while i < n
            invariant
                n == self.submissions@.len(),
                i <= n,
                self.wf(),
                forall|k: int| 0 <= k < i ==> (#[trigger] self.submissions@[k]).id != id,
            decreases n - i,
        {
            if self.submissions[i].id == id {
                proof {
                    self.lemma_submission_idx(i as int);
                }
                return Some(i);
            }
            i += 1;
        }
        None
    }

    pub fn find_file(&self, id: i32) -> (r: Option<usize>)
        requires
            self.wf(),
        ensures
            match r {
                Some(i) => i < self.files@.len() && self.files@[i as int].id == id && self.has_file(
                    id as int,
                ) && self.file_idx(id as int) == i as int,
                None => !self.has_file(id as int),
            },
    {
        let n = self.files.len();
        let mut i: usize = 0;
        while i < n
            invariant
                n == self.files@.len(),
                i <= n,
                self.wf(),
                forall|k: int| 0 <= k < i ==> (#[trigger] self.files@[k]).id != id,
            decreases n - i,
        {
            if self.files[i].id == id {
                proof {
                    self.lemma_file_idx(i as int);
                }
                return Some(i);
            }
            i += 1;
        }
        None
    }

    /// Registers a new principal row under the next fresh id.
    pub fn insert_user(&mut self, name: String, email: String, password_hash: String, now: i64)
        -> (id: i32)
        requires
            old(self).wf(),
            !old(self).has_user_email(email@),
            old(self).next_user_id < i32::MAX,
        ensures
            final(self).wf(),
            id == old(self).next_user_id,
            final(self).users@ == old(self).users@.push(
                (User { id, name, email, password_hash, created_at: now }),
            ),
            final(self).next_user_id == old(self).next_user_id + 1,
            same_classrooms(*old(self), *final(self)),
            same_grants(*old(self), *final(self)),
            same_assignments(*old(self), *final(self)),
            same_submissions(*old(self), *final(self)),
            same_files(*old(self), *final(self)),
    {
        let id = self.next_user_id;
        let user = User { id, name, email, password_hash, created_at: now };
        self.users.push(user);
        self.next_user_id = id + 1;
        proof {
            assert forall|k: int| 0 <= k < self.grants@.len() implies self.has_user(
                (#[trigger] self.grants@[k]).user_id as int,
            ) && self.has_classroom(self.grants@[k].classroom_id as int) by {
                let w = old(self).user_idx(old(self).grants@[k].user_id as int);
                assert(self.users@[w].id == self.grants@[k].user_id);
                let v = old(self).classroom_idx(old(self).grants@[k].classroom_id as int);
                assert(self.classrooms@[v].id == self.grants@[k].classroom_id);
            }
            assert forall|k: int| 0 <= k < self.classrooms@.len() implies self.has_user(
                (#[trigger] self.classrooms@[k]).creator_id as int,
            ) by {
                let w = old(self).user_idx(old(self).classrooms@[k].creator_id as int);
                assert(self.users@[w].id == self.classrooms@[k].creator_id);
            }
            assert forall|k: int| 0 <= k < self.assignments@.len() implies self.has_classroom(
                (#[trigger] self.assignments@[k]).classroom_id as int,
            ) && self.has_user(self.assignments@[k].created_by as int) by {
                let w = old(self).classroom_idx(old(self).assignments@[k].classroom_id as int);
                assert(self.classrooms@[w].id == self.assignments@[k].classroom_id);
                let v = old(self).user_idx(old(self).assignments@[k].created_by as int);
                assert(self.users@[v].id == self.assignments@[k].created_by);
            }
            assert forall|k: int| 0 <= k < self.submissions@.len() implies self.has_assignment(
                (#[trigger] self.submissions@[k]).assignment_id as int,
            ) && self.has_user(self.submissions@[k].user_id as int) && (
            self.submissions@[k].graded_by matches Some(g) ==> self.has_user(g as int)) by {
                let w = old(self).assignment_idx(old(self).submissions@[k].assignment_id as int);
                assert(self.assignments@[w].id == self.submissions@[k].assignment_id);
                let v = old(self).user_idx(old(self).submissions@[k].user_id as int);
                assert(self.users@[v].id == self.submissions@[k].user_id);
                if let Some(g) = old(self).submissions@[k].graded_by {
                    let u = old(self).user_idx(g as int);
                    assert(self.users@[u].id == g);
                }
            }
            assert forall|k: int| 0 <= k < self.files@.len() implies self.has_assignment(
                (#[trigger] self.files@[k]).assignment_id as int,
            ) && self.has_user(self.files@[k].user_id as int) by {
                let w = old(self).assignment_idx(old(self).files@[k].assignment_id as int);
                assert(self.assignments@[w].id == self.files@[k].assignment_id);
                let v = old(self).user_idx(old(self).files@[k].user_id as int);
                assert(self.users@[v].id == self.files@[k].user_id);
            }
        }
        id
    }

    /// Creates a classroom row under the next fresh id.
    pub fn insert_classroom(
        &mut self,
        id_base64: String,
        name: String,
        description: String,
        join_code: String,
        creator_id: i32,
        now: i64,
    ) -> (id: i32)
        requires
            old(self).wf(),
            !old(self).has_classroom_code(join_code@),
            old(self).has_user(creator_id as int),
            old(self).next_classroom_id < i32::MAX,
        ensures
            final(self).wf(),
            id == old(self).next_classroom_id,
            final(self).classrooms@ == old(self).classrooms@.push(
                (Classroom { id, id_base64, name, description, join_code, creator_id, created_at: now }),
            ),
            final(self).next_classroom_id == old(self).next_classroom_id + 1,
            same_users(*old(self), *final(self)),
            same_grants(*old(self), *final(self)),
            same_assignments(*old(self), *final(self)),
            same_submissions(*old(self), *final(self)),
            same_files(*old(self), *final(self)),
    {
        let id = self.next_classroom_id;
        let room = Classroom { id, id_base64, name, description, join_code, creator_id, created_at: now };
        self.classrooms.push(room);
        self.next_classroom_id = id + 1;
        proof {
            assert forall|k: int| 0 <= k < self.classrooms@.len() implies self.has_user(
                (#[trigger] self.classrooms@[k]).creator_id as int,
            ) by {
                let w = old(self).user_idx(self.classrooms@[k].creator_id as int);
                assert(self.users@[w].id == self.classrooms@[k].creator_id);
            }
            assert forall|k: int| 0 <= k < self.grants@.len() implies self.has_user(
                (#[trigger] self.grants@[k]).user_id as int,
            ) && self.has_classroom(self.grants@[k].classroom_id as int) by {
                let w = old(self).user_idx(old(self).grants@[k].user_id as int);
                assert(self.users@[w].id == self.grants@[k].user_id);
                let v = old(self).classroom_idx(old(self).grants@[k].classroom_id as int);
                assert(self.classrooms@[v].id == self.grants@[k].classroom_id);
            }
            assert forall|k: int| 0 <= k < self.assignments@.len() implies self.has_classroom(
                (#[trigger] self.assignments@[k]).classroom_id as int,
            ) && self.has_user(self.assignments@[k].created_by as int) by {
                let v = old(self).classroom_idx(old(self).assignments@[k].classroom_id as int);
                assert(self.classrooms@[v].id == self.assignments@[k].classroom_id);
                let w = old(self).user_idx(old(self).assignments@[k].created_by as int);
                assert(self.users@[w].id == self.assignments@[k].created_by);
            }
            assert forall|k: int| 0 <= k < self.submissions@.len() implies self.has_assignment(
                (#[trigger] self.submissions@[k]).assignment_id as int,
            ) && self.has_user(self.submissions@[k].user_id as int) && (
            self.submissions@[k].graded_by matches Some(g) ==> self.has_user(g as int)) by {
                let w = old(self).assignment_idx(old(self).submissions@[k].assignment_id as int);
                assert(self.assignments@[w].id == self.submissions@[k].assignment_id);
                let v = old(self).user_idx(old(self).submissions@[k].user_id as int);
                assert(self.users@[v].id == self.submissions@[k].user_id);
                if let Some(g) = old(self).submissions@[k].graded_by {
                    let u = old(self).user_idx(g as int);
                    assert(self.users@[u].id == g);
                }
            }
            assert forall|k: int| 0 <= k < self.files@.len() implies self.has_assignment(
                (#[trigger] self.files@[k]).assignment_id as int,
            ) && self.has_user(self.files@[k].user_id as int) by {
                let w = old(self).assignment_idx(old(self).files@[k].assignment_id as int);
                assert(self.assignments@[w].id == self.files@[k].assignment_id);
                let v = old(self).user_idx(old(self).files@[k].user_id as int);
                assert(self.users@[v].id == self.files@[k].user_id);
            }
        }
        id
    }

    /// Adds a role-grant for a (principal, classroom) pair that has none.
    pub fn insert_grant(
        &mut self,
        user_id: i32,
        classroom_id: i32,
        role: ClassroomRole,
        now: i64,
    )
        requires
            old(self).wf(),
            !old(self).has_grant(user_id as int, classroom_id as int),
            old(self).has_user(user_id as int),
            old(self).has_classroom(classroom_id as int),
        ensures
            final(self).wf(),
            final(self).grants@ == old(self).grants@.push(
                (UserClassroomRole { user_id, classroom_id, role, joined_at: now }),
            ),
            same_users(*old(self), *final(self)),
            same_classrooms(*old(self), *final(self)),
            same_assignments(*old(self), *final(self)),
            same_submissions(*old(self), *final(self)),
            same_files(*old(self), *final(self)),
    {
        let grant = UserClassroomRole { user_id, classroom_id, role, joined_at: now };
        self.grants.push(grant);
        proof {
            assert forall|k: int| 0 <= k < self.grants@.len() implies self.has_user(
                (#[trigger] self.grants@[k]).user_id as int,
            ) && self.has_classroom(self.grants@[k].classroom_id as int) by {
                if k < old(self).grants@.len() {
                    assert(self.grants@[k] == old(self).grants@[k]);
                }
                let w = old(self).user_idx(self.grants@[k].user_id as int);
                assert(self.users@[w].id == self.grants@[k].user_id);
                let v = old(self).classroom_idx(self.grants@[k].classroom_id as int);
                assert(self.classrooms@[v].id == self.grants@[k].classroom_id);
            }
            assert forall|k: int| 0 <= k < self.classrooms@.len() implies self.has_user(
                (#[trigger] self.classrooms@[k]).creator_id as int,
            ) by {
                let w = old(self).user_idx(self.classrooms@[k].creator_id as int);
                assert(self.users@[w].id == self.classrooms@[k].creator_id);
            }
            assert forall|k: int| 0 <= k < self.assignments@.len() implies self.has_classroom(
                (#[trigger] self.assignments@[k]).classroom_id as int,
            ) && self.has_user(self.assignments@[k].created_by as int) by {
                let v = old(self).classroom_idx(self.assignments@[k].classroom_id as int);
                assert(self.classrooms@[v].id == self.assignments@[k].classroom_id);
                let w = old(self).user_idx(self.assignments@[k].created_by as int);
                assert(self.users@[w].id == self.assignments@[k].created_by);
            }
            assert forall|k: int| 0 <= k < self.submissions@.len() implies self.has_assignment(
                (#[trigger] self.submissions@[k]).assignment_id as int,
            ) && self.has_user(self.submissions@[k].user_id as int) by {
                let w = old(self).assignment_idx(self.submissions@[k].assignment_id as int);
                assert(self.assignments@[w].id == self.submissions@[k].assignment_id);
                let v = old(self).user_idx(self.submissions@[k].user_id as int);
                assert(self.users@[v].id == self.submissions@[k].user_id);
            }
            assert forall|k: int| 0 <= k < self.files@.len() implies self.has_assignment(
                (#[trigger] self.files@[k]).assignment_id as int,
            ) && self.has_user(self.files@[k].user_id as int) by {
                let w = old(self).assignment_idx(self.files@[k].assignment_id as int);
                assert(self.assignments@[w].id == self.files@[k].assignment_id);
                let v = old(self).user_idx(self.files@[k].user_id as int);
                assert(self.users@[v].id == self.files@[k].user_id);
            }
        }
    }

    /// Creates an assignment row under the next fresh id.
    pub fn insert_assignment(
        &mut self,
        id_base64: String,
        classroom_id: i32,
        title: String,
        description: String,
        due_date: Option<i64>,
        points: i32,
        created_by: i32,
        now: i64,
    ) -> (id: i32)
        requires
            old(self).wf(),
            old(self).has_classroom(classroom_id as int),
            old(self).has_user(created_by as int),
            old(self).next_assignment_id < i32::MAX,
        ensures
            final(self).wf(),
            id == old(self).next_assignment_id,
            final(self).assignments@ == old(self).assignments@.push(
                (Assignment {
                    id,
                    id_base64,
                    classroom_id,
                    title,
                    description,
                    due_date,
                    points,
                    created_by,
                    created_at: now,
                }),
            ),
            final(self).next_assignment_id == old(self).next_assignment_id + 1,
            same_users(*old(self), *final(self)),
            same_classrooms(*old(self), *final(self)),
            same_grants(*old(self), *final(self)),
            same_submissions(*old(self), *final(self)),
            same_files(*old(self), *final(self)),
    {
        let id = self.next_assignment_id;
        let assignment = Assignment {
            id,
            id_base64,
            classroom_id,
            title,
            description,
            due_date,
            points,
            created_by,
            created_at: now,
        };
        self.assignments.push(assignment);
        self.next_assignment_id = id + 1;
        proof {
            assert forall|k: int| 0 <= k < self.grants@.len() implies self.has_user(
                (#[trigger] self.grants@[k]).user_id as int,
            ) && self.has_classroom(self.grants@[k].classroom_id as int) by {
                let w = old(self).user_idx(self.grants@[k].user_id as int);
                assert(self.users@[w].id == self.grants@[k].user_id);
                let v = old(self).classroom_idx(self.grants@[k].classroom_id as int);
                assert(self.classrooms@[v].id == self.grants@[k].classroom_id);
            }
            assert forall|k: int| 0 <= k < self.classrooms@.len() implies self.has_user(
                (#[trigger] self.classrooms@[k]).creator_id as int,
            ) by {
                let w = old(self).user_idx(self.classrooms@[k].creator_id as int);
                assert(self.users@[w].id == self.classrooms@[k].creator_id);
            }
            assert forall|k: int| 0 <= k < self.assignments@.len() implies self.has_classroom(
                (#[trigger] self.assignments@[k]).classroom_id as int,
            ) && self.has_user(self.assignments@[k].created_by as int) by {
                let v = old(self).classroom_idx(self.assignments@[k].classroom_id as int);
                assert(self.classrooms@[v].id == self.assignments@[k].classroom_id);
                let w = old(self).user_idx(self.assignments@[k].created_by as int);
                assert(self.users@[w].id == self.assignments@[k].created_by);
            }
            assert forall|k: int| 0 <= k < self.submissions@.len() implies self.has_assignment(
                (#[trigger] self.submissions@[k]).assignment_id as int,
            ) && self.has_user(self.submissions@[k].user_id as int) by {
                let w = old(self).assignment_idx(self.submissions@[k].assignment_id as int);
                assert(self.assignments@[w].id == self.submissions@[k].assignment_id);
                let v = old(self).user_idx(self.submissions@[k].user_id as int);
                assert(self.users@[v].id == self.submissions@[k].user_id);
            }
            assert forall|k: int| 0 <= k < self.files@.len() implies self.has_assignment(
                (#[trigger] self.files@[k]).assignment_id as int,
            ) && self.has_user(self.files@[k].user_id as int) by {
                let w = old(self).assignment_idx(self.files@[k].assignment_id as int);
                assert(self.assignments@[w].id == self.files@[k].assignment_id);
                let v = old(self).user_idx(self.files@[k].user_id as int);
                assert(self.users@[v].id == self.files@[k].user_id);
            }
        }
        id
    }

    /// Creates the submission row of an (assignment, student) pair that has
    /// none, stamped as submitted now and ungraded.
    pub fn insert_submission(&mut self, assignment_id: i32, user_id: i32, now: i64) -> (id: i32)
        requires
            old(self).wf(),
            !old(self).has_submission_for(assignment_id as int, user_id as int),
            old(self).has_assignment(assignment_id as int),
            old(self).has_user(user_id as int),
            old(self).next_submission_id < i32::MAX,
        ensures
            final(self).wf(),
            id == old(self).next_submission_id,
            final(self).submissions@ == old(self).submissions@.push(
                (Submission {
                    id,
                    assignment_id,
                    user_id,
                    submitted_at: Some(now),
                    is_graded: false,
                    grade: None,
                    graded_at: None,
                    graded_by: None,
                }),
            ),
            final(self).next_submission_id == old(self).next_submission_id + 1,
            same_users(*old(self), *final(self)),
            same_classrooms(*old(self), *final(self)),
            same_grants(*old(self), *final(self)),
            same_assignments(*old(self), *final(self)),
            same_files(*old(self), *final(self)),
    {
        let id = self.next_submission_id;
        let row = Submission {
            id,
            assignment_id,
            user_id,
            submitted_at: Some(now),
            is_graded: false,
            grade: None,
            graded_at: None,
            graded_by: None,
        };
        self.submissions.push(row);
        self.next_submission_id = id + 1;
        proof {
            assert forall|k: int| 0 <= k < self.grants@.len() implies self.has_user(
                (#[trigger] self.grants@[k]).user_id as int,
            ) && self.has_classroom(self.grants@[k].classroom_id as int) by {
                let w = old(self).user_idx(self.grants@[k].user_id as int);
                assert(self.users@[w].id == self.grants@[k].user_id);
                let v = old(self).classroom_idx(self.grants@[k].classroom_id as int);
                assert(self.classrooms@[v].id == self.grants@[k].classroom_id);
            }
            assert forall|k: int| 0 <= k < self.classrooms@.len() implies self.has_user(
                (#[trigger] self.classrooms@[k]).creator_id as int,
            ) by {
                let w = old(self).user_idx(self.classrooms@[k].creator_id as int);
                assert(self.users@[w].id == self.classrooms@[k].creator_id);
            }
            assert forall|k: int| 0 <= k < self.assignments@.len() implies self.has_classroom(
                (#[trigger] self.assignments@[k]).classroom_id as int,
            ) && self.has_user(self.assignments@[k].created_by as int) by {
                let v = old(self).classroom_idx(self.assignments@[k].classroom_id as int);
                assert(self.classrooms@[v].id == self.assignments@[k].classroom_id);
                let w = old(self).user_idx(self.assignments@[k].created_by as int);
                assert(self.users@[w].id == self.assignments@[k].created_by);
            }
            assert forall|k: int| 0 <= k < self.submissions@.len() implies self.has_assignment(
                (#[trigger] self.submissions@[k]).assignment_id as int,
            ) && self.has_user(self.submissions@[k].user_id as int) by {
                if k < old(self).submissions@.len() {
                    assert(self.submissions@[k] == old(self).submissions@[k]);
                }
                let w = old(self).assignment_idx(self.submissions@[k].assignment_id as int);
                assert(self.assignments@[w].id == self.submissions@[k].assignment_id);
                let v = old(self).user_idx(self.submissions@[k].user_id as int);
                assert(self.users@[v].id == self.submissions@[k].user_id);
            }
            assert forall|k: int| 0 <= k < self.files@.len() implies self.has_assignment(
                (#[trigger] self.files@[k]).assignment_id as int,
            ) && self.has_user(self.files@[k].user_id as int) by {
                let w = old(self).assignment_idx(self.files@[k].assignment_id as int);
                assert(self.assignments@[w].id == self.files@[k].assignment_id);
                let v = old(self).user_idx(self.files@[k].user_id as int);
                assert(self.users@[v].id == self.files@[k].user_id);
            }
        }
        id
    }

    /// Refreshes the submission timestamp of an existing row.
    pub fn touch_submission(&mut self, idx: usize, now: i64)
        requires
            old(self).wf(),
            idx < old(self).submissions@.len(),
        ensures
            final(self).wf(),
            final(self).submissions@ == old(self).submissions@.update(
                idx as int,
                (Submission { submitted_at: Some(now), ..old(self).submissions@[idx as int] }),
            ),
            final(self).next_submission_id == old(self).next_submission_id,
            same_users(*old(self), *final(self)),
            same_classrooms(*old(self), *final(self)),
            same_grants(*old(self), *final(self)),
            same_assignments(*old(self), *final(self)),
            same_files(*old(self), *final(self)),
    {
        let row = &mut self.submissions[idx];
        row.submitted_at = Some(now);
        proof {
            assert forall|k: int| 0 <= k < self.grants@.len() implies self.has_user(
                (#[trigger] self.grants@[k]).user_id as int,
            ) && self.has_classroom(self.grants@[k].classroom_id as int) by {
                let w = old(self).user_idx(self.grants@[k].user_id as int);
                assert(self.users@[w].id == self.grants@[k].user_id);
                let v = old(self).classroom_idx(self.grants@[k].classroom_id as int);
                assert(self.classrooms@[v].id == self.grants@[k].classroom_id);
            }
            assert forall|k: int| 0 <= k < self.classrooms@.len() implies self.has_user(
                (#[trigger] self.classrooms@[k]).creator_id as int,
            ) by {
                let w = old(self).user_idx(self.classrooms@[k].creator_id as int);
                assert(self.users@[w].id == self.classrooms@[k].creator_id);
            }
            assert forall|k: int| 0 <= k < self.assignments@.len() implies self.has_classroom(
                (#[trigger] self.assignments@[k]).classroom_id as int,
            ) && self.has_user(self.assignments@[k].created_by as int) by {
                let v = old(self).classroom_idx(self.assignments@[k].classroom_id as int);
                assert(self.classrooms@[v].id == self.assignments@[k].classroom_id);
                let w = old(self).user_idx(self.assignments@[k].created_by as int);
                assert(self.users@[w].id == self.assignments@[k].created_by);
            }
            assert forall|k: int| 0 <= k < self.submissions@.len() implies self.has_assignment(
                (#[trigger] self.submissions@[k]).assignment_id as int,
            ) && self.has_user(self.submissions@[k].user_id as int) by {
                assert(self.submissions@[k].assignment_id
                    == old(self).submissions@[k].assignment_id);
                assert(self.submissions@[k].user_id == old(self).submissions@[k].user_id);
                let w = old(self).assignment_idx(self.submissions@[k].assignment_id as int);
                assert(self.assignments@[w].id == self.submissions@[k].assignment_id);
                let v = old(self).user_idx(self.submissions@[k].user_id as int);
                assert(self.users@[v].id == self.submissions@[k].user_id);
            }
            assert forall|k: int| 0 <= k < self.files@.len() implies self.has_assignment(
                (#[trigger] self.files@[k]).assignment_id as int,
            ) && self.has_user(self.files@[k].user_id as int) by {
                let w = old(self).assignment_idx(self.files@[k].assignment_id as int);
                assert(self.assignments@[w].id == self.files@[k].assignment_id);
                let v = old(self).user_idx(self.files@[k].user_id as int);
                assert(self.users@[v].id == self.files@[k].user_id);
            }
        }
    }

    /// Removes a submission row outright.
    pub fn remove_submission(&mut self, idx: usize)
        requires
            old(self).wf(),
            idx < old(self).submissions@.len(),
        ensures
            final(self).wf(),
            final(self).submissions@ == old(self).submissions@.remove(idx as int),
            final(self).next_submission_id == old(self).next_submission_id,
            same_users(*old(self), *final(self)),
            same_classrooms(*old(self), *final(self)),
            same_grants(*old(self), *final(self)),
            same_assignments(*old(self), *final(self)),
            same_files(*old(self), *final(self)),
    {
        self.submissions.remove(idx);
        proof {
            assert forall|k: int| 0 <= k < self.grants@.len() implies self.has_user(
                (#[trigger] self.grants@[k]).user_id as int,
            ) && self.has_classroom(self.grants@[k].classroom_id as int) by {
                let w = old(self).user_idx(self.grants@[k].user_id as int);
                assert(self.users@[w].id == self.grants@[k].user_id);
                let v = old(self).classroom_idx(self.grants@[k].classroom_id as int);
                assert(self.classrooms@[v].id == self.grants@[k].classroom_id);
            }
            assert forall|k: int| 0 <= k < self.classrooms@.len() implies self.has_user(
                (#[trigger] self.classrooms@[k]).creator_id as int,
            ) by {
                let w = old(self).user_idx(self.classrooms@[k].creator_id as int);
                assert(self.users@[w].id == self.classrooms@[k].creator_id);
            }
            assert forall|k: int| 0 <= k < self.assignments@.len() implies self.has_classroom(
                (#[trigger] self.assignments@[k]).classroom_id as int,
            ) && self.has_user(self.assignments@[k].created_by as int) by {
                let v = old(self).classroom_idx(self.assignments@[k].classroom_id as int);
                assert(self.classrooms@[v].id == self.assignments@[k].classroom_id);
                let w = old(self).user_idx(self.assignments@[k].created_by as int);
                assert(self.users@[w].id == self.assignments@[k].created_by);
            }
            assert forall|k: int| 0 <= k < self.submissions@.len() implies self.has_assignment(
                (#[trigger] self.submissions@[k]).assignment_id as int,
            ) && self.has_user(self.submissions@[k].user_id as int) by {
                let k0: int = if k < idx { k } else { k + 1 };
                assert(self.submissions@[k] == old(self).submissions@[k0]);
                let w = old(self).assignment_idx(self.submissions@[k].assignment_id as int);
                assert(self.assignments@[w].id == self.submissions@[k].assignment_id);
                let v = old(self).user_idx(self.submissions@[k].user_id as int);
                assert(self.users@[v].id == self.submissions@[k].user_id);
            }
            assert forall|k: int| 0 <= k < self.files@.len() implies self.has_assignment(
                (#[trigger] self.files@[k]).assignment_id as int,
            ) && self.has_user(self.files@[k].user_id as int) by {
                let w = old(self).assignment_idx(self.files@[k].assignment_id as int);
                assert(self.assignments@[w].id == self.files@[k].assignment_id);
                let v = old(self).user_idx(self.files@[k].user_id as int);
                assert(self.users@[v].id == self.files@[k].user_id);
            }
        }
    }

    /// Marks a submission graded: sets the grade value, the grading
    /// timestamp and the grader, leaving the submission timestamp alone.
    pub fn set_submission_grade(&mut self, idx: usize, grade: Option<i32>, grader: i32, now: i64)
        requires
            old(self).wf(),
            idx < old(self).submissions@.len(),
            old(self).has_user(grader as int),
        ensures
            final(self).wf(),
            final(self).submissions@ == old(self).submissions@.update(
                idx as int,
                (Submission {
                    is_graded: true,
                    grade,
                    graded_at: Some(now),
                    graded_by: Some(grader),
                    ..old(self).submissions@[idx as int]
                }),
            ),
            final(self).next_submission_id == old(self).next_submission_id,
            same_users(*old(self), *final(self)),
            same_classrooms(*old(self), *final(self)),
            same_grants(*old(self), *final(self)),
            same_assignments(*old(self), *final(self)),
            same_files(*old(self), *final(self)),
    {
        let row = &mut self.submissions[idx];
        row.is_graded = true;
        row.grade = grade;
        row.graded_at = Some(now);
        row.graded_by = Some(grader);
        proof {
            assert forall|k: int| 0 <= k < self.grants@.len() implies self.has_user(
                (#[trigger] self.grants@[k]).user_id as int,
            ) && self.has_classroom(self.grants@[k].classroom_id as int) by {
                let w = old(self).user_idx(self.grants@[k].user_id as int);
                assert(self.users@[w].id == self.grants@[k].user_id);
                let v = old(self).classroom_idx(self.grants@[k].classroom_id as int);
                assert(self.classrooms@[v].id == self.grants@[k].classroom_id);
            }
            assert forall|k: int| 0 <= k < self.classrooms@.len() implies self.has_user(
                (#[trigger] self.classrooms@[k]).creator_id as int,
            ) by {
                let w = old(self).user_idx(self.classrooms@[k].creator_id as int);
                assert(self.users@[w].id == self.classrooms@[k].creator_id);
            }
            assert forall|k: int| 0 <= k < self.assignments@.len() implies self.has_classroom(
                (#[trigger] self.assignments@[k]).classroom_id as int,
            ) && self.has_user(self.assignments@[k].created_by as int) by {
                let v = old(self).classroom_idx(self.assignments@[k].classroom_id as int);
                assert(self.classrooms@[v].id == self.assignments@[k].classroom_id);
                let w = old(self).user_idx(self.assignments@[k].created_by as int);
                assert(self.users@[w].id == self.assignments@[k].created_by);
            }
            assert forall|k: int| 0 <= k < self.submissions@.len() implies self.has_assignment(
                (#[trigger] self.submissions@[k]).assignment_id as int,
            ) && self.has_user(self.submissions@[k].user_id as int) by {
                assert(self.submissions@[k].assignment_id
                    == old(self).submissions@[k].assignment_id);
                assert(self.submissions@[k].user_id == old(self).submissions@[k].user_id);
                let w = old(self).assignment_idx(self.submissions@[k].assignment_id as int);
                assert(self.assignments@[w].id == self.submissions@[k].assignment_id);
                let v = old(self).user_idx(self.submissions@[k].user_id as int);
                assert(self.users@[v].id == self.submissions@[k].user_id);
            }
            assert forall|k: int| 0 <= k < self.files@.len() implies self.has_assignment(
                (#[trigger] self.files@[k]).assignment_id as int,
            ) && self.has_user(self.files@[k].user_id as int) by {
                let w = old(self).assignment_idx(self.files@[k].assignment_id as int);
                assert(self.assignments@[w].id == self.files@[k].assignment_id);
                let v = old(self).user_idx(self.files@[k].user_id as int);
                assert(self.users@[v].id == self.files@[k].user_id);
            }
        }
    }

    /// Cancels a grade: clears every grading field and also clears the
    /// submission timestamp, collapsing the record back to "no submission".
    pub fn clear_submission_grade(&mut self, idx: usize)
        requires
            old(self).wf(),
            idx < old(self).submissions@.len(),
        ensures
            final(self).wf(),
            final(self).submissions@ == old(self).submissions@.update(
                idx as int,
                (Submission {
                    is_graded: false,
                    grade: None,
                    graded_at: None,
                    graded_by: None,
                    submitted_at: None,
                    ..old(self).submissions@[idx as int]
                }),
            ),
            final(self).next_submission_id == old(self).next_submission_id,
            same_users(*old(self), *final(self)),
            same_classrooms(*old(self), *final(self)),
            same_grants(*old(self), *final(self)),
            same_assignments(*old(self), *final(self)),
            same_files(*old(self), *final(self)),
    {
        let row = &mut self.submissions[idx];
        row.is_graded = false;
        row.grade = None;
        row.graded_at = None;
        row.graded_by = None;
        row.submitted_at = None;
        proof {
            assert forall|k: int| 0 <= k < self.grants@.len() implies self.has_user(
                (#[trigger] self.grants@[k]).user_id as int,
            ) && self.has_classroom(self.grants@[k].classroom_id as int) by {
                let w = old(self).user_idx(self.grants@[k].user_id as int);
                assert(self.users@[w].id == self.grants@[k].user_id);
                let v = old(self).classroom_idx(self.grants@[k].classroom_id as int);
                assert(self.classrooms@[v].id == self.grants@[k].classroom_id);
            }
            assert forall|k: int| 0 <= k < self.classrooms@.len() implies self.has_user(
                (#[trigger] self.classrooms@[k]).creator_id as int,
            ) by {
                let w = old(self).user_idx(self.classrooms@[k].creator_id as int);
                assert(self.users@[w].id == self.classrooms@[k].creator_id);
            }
            assert forall|k: int| 0 <= k < self.assignments@.len() implies self.has_classroom(
                (#[trigger] self.assignments@[k]).classroom_id as int,
            ) && self.has_user(self.assignments@[k].created_by as int) by {
                let v = old(self).classroom_idx(self.assignments@[k].classroom_id as int);
                assert(self.classrooms@[v].id == self.assignments@[k].classroom_id);
                let w = old(self).user_idx(self.assignments@[k].created_by as int);
                assert(self.users@[w].id == self.assignments@[k].created_by);
            }
            assert forall|k: int| 0 <= k < self.submissions@.len() implies self.has_assignment(
                (#[trigger] self.submissions@[k]).assignment_id as int,
            ) && self.has_user(self.submissions@[k].user_id as int) by {
                assert(self.submissions@[k].assignment_id
                    == old(self).submissions@[k].assignment_id);
                assert(self.submissions@[k].user_id == old(self).submissions@[k].user_id);
                let w = old(self).assignment_idx(self.submissions@[k].assignment_id as int);
                assert(self.assignments@[w].id == self.submissions@[k].assignment_id);
                let v = old(self).user_idx(self.submissions@[k].user_id as int);
                assert(self.users@[v].id == self.submissions@[k].user_id);
            }
            assert forall|k: int| 0 <= k < self.files@.len() implies self.has_assignment(
                (#[trigger] self.files@[k]).assignment_id as int,
            ) && self.has_user(self.files@[k].user_id as int) by {
                let w = old(self).assignment_idx(self.files@[k].assignment_id as int);
                assert(self.assignments@[w].id == self.files@[k].assignment_id);
                let v = old(self).user_idx(self.files@[k].user_id as int);
                assert(self.users@[v].id == self.files@[k].user_id);
            }
        }
    }

    /// Records a file attached to an assignment under the next fresh id.
    pub fn insert_file(
        &mut self,
        assignment_id: i32,
        user_id: i32,
        file_name: String,
        file_path: String,
        content_type: String,
        kind: FileKind,
    ) -> (id: i32)
        requires
            old(self).wf(),
            old(self).has_assignment(assignment_id as int),
            old(self).has_user(user_id as int),
            old(self).next_file_id < i32::MAX,
        ensures
            final(self).wf(),
            id == old(self).next_file_id,
            final(self).files@ == old(self).files@.push(
                (FileRecord { id, assignment_id, user_id, file_name, file_path, content_type, kind }),
            ),
            final(self).next_file_id == old(self).next_file_id + 1,
            same_users(*old(self), *final(self)),
            same_classrooms(*old(self), *final(self)),
            same_grants(*old(self), *final(self)),
            same_assignments(*old(self), *final(self)),
            same_submissions(*old(self), *final(self)),
    {
        let id = self.next_file_id;
        let record = FileRecord { id, assignment_id, user_id, file_name, file_path, content_type, kind };
        self.files.push(record);
        self.next_file_id = id + 1;
        proof {
            assert forall|k: int| 0 <= k < self.grants@.len() implies self.has_user(
                (#[trigger] self.grants@[k]).user_id as int,
            ) && self.has_classroom(self.grants@[k].classroom_id as int) by {
                let w = old(self).user_idx(self.grants@[k].user_id as int);
                assert(self.users@[w].id == self.grants@[k].user_id);
                let v = old(self).classroom_idx(self.grants@[k].classroom_id as int);
                assert(self.classrooms@[v].id == self.grants@[k].classroom_id);
            }
            assert forall|k: int| 0 <= k < self.classrooms@.len() implies self.has_user(
                (#[trigger] self.classrooms@[k]).creator_id as int,
            ) by {
                let w = old(self).user_idx(self.classrooms@[k].creator_id as int);
                assert(self.users@[w].id == self.classrooms@[k].creator_id);
            }
            assert forall|k: int| 0 <= k < self.assignments@.len() implies self.has_classroom(
                (#[trigger] self.assignments@[k]).classroom_id as int,
            ) && self.has_user(self.assignments@[k].created_by as int) by {
                let v = old(self).classroom_idx(self.assignments@[k].classroom_id as int);
                assert(self.classrooms@[v].id == self.assignments@[k].classroom_id);
                let w = old(self).user_idx(self.assignments@[k].created_by as int);
                assert(self.users@[w].id == self.assignments@[k].created_by);
            }
            assert forall|k: int| 0 <= k < self.submissions@.len() implies self.has_assignment(
                (#[trigger] self.submissions@[k]).assignment_id as int,
            ) && self.has_user(self.submissions@[k].user_id as int) by {
                let w = old(self).assignment_idx(self.submissions@[k].assignment_id as int);
                assert(self.assignments@[w].id == self.submissions@[k].assignment_id);
                let v = old(self).user_idx(self.submissions@[k].user_id as int);
                assert(self.users@[v].id == self.submissions@[k].user_id);
            }
            assert forall|k: int| 0 <= k < self.files@.len() implies self.has_assignment(
                (#[trigger] self.files@[k]).assignment_id as int,
            ) && self.has_user(self.files@[k].user_id as int) by {
                if k < old(self).files@.len() {
                    assert(self.files@[k] == old(self).files@[k]);
                }
                let w = old(self).assignment_idx(self.files@[k].assignment_id as int);
                assert(self.assignments@[w].id == self.files@[k].assignment_id);
                let v = old(self).user_idx(self.files@[k].user_id as int);
                assert(self.users@[v].id == self.files@[k].user_id);
            }
        }
        id
    }

    /// Removes a file row outright.
    pub fn remove_file(&mut self, idx: usize)
        requires
            old(self).wf(),
            idx < old(self).files@.len(),
        ensures
            final(self).wf(),
            final(self).files@ == old(self).files@.remove(idx as int),
            final(self).next_file_id == old(self).next_file_id,
            same_users(*old(self), *final(self)),
            same_classrooms(*old(self), *final(self)),
            same_grants(*old(self), *final(self)),
            same_assignments(*old(self), *final(self)),
            same_submissions(*old(self), *final(self)),
    {
        self.files.remove(idx);
        proof {
            assert forall|k: int| 0 <= k < self.grants@.len() implies self.has_user(
                (#[trigger] self.grants@[k]).user_id as int,
            ) && self.has_classroom(self.grants@[k].classroom_id as int) by {
                let w = old(self).user_idx(self.grants@[k].user_id as int);
                assert(self.users@[w].id == self.grants@[k].user_id);
                let v = old(self).classroom_idx(self.grants@[k].classroom_id as int);
                assert(self.classrooms@[v].id == self.grants@[k].classroom_id);
            }
            assert forall|k: int| 0 <= k < self.classrooms@.len() implies self.has_user(
                (#[trigger] self.classrooms@[k]).creator_id as int,
            ) by {
                let w = old(self).user_idx(self.classrooms@[k].creator_id as int);
                assert(self.users@[w].id == self.classrooms@[k].creator_id);
            }
            assert forall|k: int| 0 <= k < self.assignments@.len() implies self.has_classroom(
                (#[trigger] self.assignments@[k]).classroom_id as int,
            ) && self.has_user(self.assignments@[k].created_by as int) by {
                let v = old(self).classroom_idx(self.assignments@[k].classroom_id as int);
                assert(self.classrooms@[v].id == self.assignments@[k].classroom_id);
                let w = old(self).user_idx(self.assignments@[k].created_by as int);
                assert(self.users@[w].id == self.assignments@[k].created_by);
            }
            assert forall|k: int| 0 <= k < self.submissions@.len() implies self.has_assignment(
                (#[trigger] self.submissions@[k]).assignment_id as int,
            ) && self.has_user(self.submissions@[k].user_id as int) by {
                let w = old(self).assignment_idx(self.submissions@[k].assignment_id as int);
                assert(self.assignments@[w].id == self.submissions@[k].assignment_id);
                let v = old(self).user_idx(self.submissions@[k].user_id as int);
                assert(self.users@[v].id == self.submissions@[k].user_id);
            }
            assert forall|k: int| 0 <= k < self.files@.len() implies self.has_assignment(
                (#[trigger] self.files@[k]).assignment_id as int,
            ) && self.has_user(self.files@[k].user_id as int) by {
                let k0: int = if k < idx { k } else { k + 1 };
                assert(self.files@[k] == old(self).files@[k0]);
                let w = old(self).assignment_idx(self.files@[k].assignment_id as int);
                assert(self.assignments@[w].id == self.files@[k].assignment_id);
                let v = old(self).user_idx(self.files@[k].user_id as int);
                assert(self.users@[v].id == self.files@[k].user_id);
            }
        }
    }

    /// Renames a principal, leaving identity, email and credentials alone.
    pub fn update_user_name(&mut self, idx: usize, name: String)
        requires
            old(self).wf(),
            idx < old(self).users@.len(),
        ensures
            final(self).wf(),
            final(self).users@ == old(self).users@.update(
                idx as int,
                (User { name, ..old(self).users@[idx as int] }),
            ),
            final(self).next_user_id == old(self).next_user_id,
            same_classrooms(*old(self), *final(self)),
            same_grants(*old(self), *final(self)),
            same_assignments(*old(self), *final(self)),
            same_submissions(*old(self), *final(self)),
            same_files(*old(self), *final(self)),
    {
        let row = &mut self.users[idx];
        row.name = name;
        proof {
            assert forall|k: int| 0 <= k < self.grants@.len() implies self.has_user(
                (#[trigger] self.grants@[k]).user_id as int,
            ) by {
                let w = old(self).user_idx(old(self).grants@[k].user_id as int);
                assert(self.users@[w].id == self.grants@[k].user_id);
            }
            assert forall|k: int| 0 <= k < self.classrooms@.len() implies self.has_user(
                (#[trigger] self.classrooms@[k]).creator_id as int,
            ) by {
                let w = old(self).user_idx(old(self).classrooms@[k].creator_id as int);
                assert(self.users@[w].id == self.classrooms@[k].creator_id);
            }
            assert forall|k: int| 0 <= k < self.assignments@.len() implies self.has_user(
                (#[trigger] self.assignments@[k]).created_by as int,
            ) by {
                let w = old(self).user_idx(old(self).assignments@[k].created_by as int);
                assert(self.users@[w].id == self.assignments@[k].created_by);
            }
            assert forall|k: int| 0 <= k < self.submissions@.len() implies self.has_user(
                (#[trigger] self.submissions@[k]).user_id as int,
            ) && (self.submissions@[k].graded_by matches Some(g) ==> self.has_user(g as int)) by {
                let w = old(self).user_idx(old(self).submissions@[k].user_id as int);
                assert(self.users@[w].id == self.submissions@[k].user_id);
                if let Some(g) = old(self).submissions@[k].graded_by {
                    let u = old(self).user_idx(g as int);
                    assert(self.users@[u].id == g);
                }
            }
            assert forall|k: int| 0 <= k < self.files@.len() implies self.has_user(
                (#[trigger] self.files@[k]).user_id as int,
            ) by {
                let w = old(self).user_idx(old(self).files@[k].user_id as int);
                assert(self.users@[w].id == self.files@[k].user_id);
            }
        }
    }
}

} // verus!
